use herobuild::cache::RepositoryCache;
use herobuild::containers::{first_failure, ClearNext, RunCall, RunNext};
use herobuild::deployment::GitDeployment;
use herobuild::docker::{
    env_match, mounts_match, ContainerConfig, ContainerInfo, CreateRequest, DockerCall, DockerNext,
    DockerReply, Info, MountPoint,
};
use herobuild::git_job::{GitReply, GitStep};
use herobuild::hb_state::HbState;
use herobuild::name_map::{NameMap, NameSet};
use herobuild::repo_build::{BuildCall, BuildError, BuildNext, BuildReply, BuildRun};
use herobuild::repository::Repository;
use herobuild::state::{by_name, RepositoryState};
use herobuild::sync::{ImageTag, SyncRun};

type Next = DockerNext<String, Vec<String>>;
type Reply = DockerReply<String, Info>;
type Step = BuildNext<String, Vec<String>>;
type Answer = BuildReply<String, Vec<u8>, Vec<bool>>;

fn texts(list: &[&str]) -> Vec<String> {
    list.iter().map(|s| s.to_string()).collect()
}

fn repository(name: &str, deps: &[&str]) -> Repository {
    Repository {
        name: name.to_string(),
        src: format!("/w/{name}/src"),
        repo: format!("/w/{name}/out"),
        extra_args: None,
        env: Some(texts(&["A=1"])),
        dependencies: texts(deps),
        git_deployment: None,
    }
}

fn cache(rows: &[(&str, &str)]) -> RepositoryCache {
    let mut c = RepositoryCache::default();
    for (key, id) in rows {
        c.docker_containers.insert(key.to_string(), id.to_string());
    }
    c
}

fn remembered(c: &RepositoryCache) -> Vec<(String, String)> {
    let m = &c.docker_containers;
    (0..m.len()).map(|i| (m.name_at(i).clone(), m.value_at(i).clone())).collect()
}

fn tag(tag: &str, image: &str) -> ImageTag<String> {
    ImageTag {
        platform: "linux".to_string(),
        tag: tag.to_string(),
        combo: format!("linux-{tag}"),
        image: image.to_string(),
    }
}

fn info(image: &str, tag: &str, cmd: &[&str], env: &[&str]) -> Info {
    let mount = |d: &str, s: String| MountPoint { destination: Some(d.to_string()), source: Some(s) };
    ContainerInfo {
        image: Some(image.to_string()),
        mounts: Some(vec![
            mount("/src", "/w/core/src".to_string()),
            mount("/repo", format!("/w/core/out/{tag}")),
        ]),
        config: Some(ContainerConfig { cmd: Some(texts(cmd)), env: Some(texts(env)) }),
    }
}

fn fitting(image: &str, tag: &str) -> Info {
    info(image, tag, &["-j8", "-r", "/repo", "/src"], &["PATH=/bin", "A=1"])
}

fn inspected(info: Option<Info>) -> Reply {
    DockerReply::Inspected { info }
}

fn inspect(id: &str) -> Next {
    DockerNext::Call { call: DockerCall::Inspect { id: id.to_string() } }
}

fn create(tag: &str, image: &str) -> Next {
    DockerNext::Call {
        call: DockerCall::Create {
            request: CreateRequest {
                name: format!("herobuild-core-linux-{tag}"),
                image: image.to_string(),
                binds: vec![format!("/w/core/out/{tag}:/repo"), "/w/core/src:/src".to_string()],
                cmd: texts(&["-j8", "-r", "/repo", "/src"]),
                env: Some(texts(&["A=1"])),
            },
        },
    }
}

fn sync(c: RepositoryCache, tags: Vec<ImageTag<String>>) -> (SyncRun, Next) {
    let repos: NameMap<Repository> = NameMap::new();
    let deps: NameMap<NameSet> = NameMap::new();
    c.sync(&repository("core", &[]), &repos, &deps, &tags)
}

#[test]
fn missing_containers_are_created() {
    let (mut run, next) = sync(cache(&[]), vec![tag("focal", "sha:2"), tag("bionic", "sha:1")]);
    assert_eq!(next, create("bionic", "sha:1"));
    assert_eq!(run.next(DockerReply::Created { id: "c1".to_string() }), create("focal", "sha:2"));
    assert_eq!(
        run.next(DockerReply::Created { id: "c2".to_string() }),
        DockerNext::Finished { changed: true }
    );
    assert_eq!(
        remembered(&run.into_cache()),
        vec![
            ("linux-bionic".to_string(), "c1".to_string()),
            ("linux-focal".to_string(), "c2".to_string())
        ]
    );
}

#[test]
fn fitting_containers_are_kept() {
    let (mut run, next) = sync(cache(&[("linux-bionic", "c1")]), vec![tag("bionic", "sha:1")]);
    assert_eq!(next, inspect("c1"));
    assert_eq!(
        run.next(inspected(Some(fitting("sha:1", "bionic")))),
        DockerNext::Finished { changed: false }
    );
    assert_eq!(remembered(&run.into_cache()).len(), 1);
}

#[test]
fn of_two_entries_for_an_image_the_later_counts() {
    let (_, next) = sync(cache(&[]), vec![tag("focal", "sha:1"), tag("bionic", "sha:1")]);
    assert_eq!(next, create("bionic", "sha:1"));
}

#[test]
fn misfits_are_discarded() {
    let mut other_mounts = fitting("sha:1", "bionic");
    other_mounts.mounts = Some(Vec::new());
    let mut no_config = fitting("sha:1", "bionic");
    no_config.config = None;
    let mut no_image = fitting("sha:1", "bionic");
    no_image.image = None;
    let misfits = vec![
        fitting("sha:9", "bionic"),
        fitting("sha:1", "focal"),
        info("sha:1", "bionic", &["-j4"], &["A=1"]),
        info("sha:1", "bionic", &["-j8", "-r", "/repo", "/src"], &["A=2"]),
        other_mounts,
        no_config,
        no_image,
    ];
    for misfit in misfits {
        let (mut run, _) = sync(cache(&[("linux-bionic", "c1")]), vec![tag("bionic", "sha:1")]);
        assert_eq!(run.next(inspected(Some(misfit))), inspect("c1"));
        assert_eq!(
            run.next(inspected(Some(fitting("sha:1", "bionic")))),
            DockerNext::Call {
                call: DockerCall::Kill { id: "c1".to_string(), signal: "SIGKILL".to_string() }
            }
        );
        assert_eq!(
            run.next(DockerReply::Failed),
            DockerNext::Call { call: DockerCall::Remove { id: "c1".to_string() } }
        );
        assert_eq!(run.next(DockerReply::Done), create("bionic", "sha:1"));
        assert_eq!(
            run.next(DockerReply::Created { id: "c2".to_string() }),
            DockerNext::Finished { changed: true }
        );
        assert_eq!(
            remembered(&run.into_cache()),
            vec![("linux-bionic".to_string(), "c2".to_string())]
        );
    }
}

#[test]
fn the_key_must_hold_the_combination() {
    let (mut run, _) = sync(cache(&[("mac-bionic", "c1")]), vec![tag("bionic", "sha:1")]);
    assert_eq!(run.next(inspected(Some(fitting("sha:1", "bionic")))), inspect("c1"));
    let (mut run, _) = sync(cache(&[("old-linux-bionic", "c1")]), vec![tag("bionic", "sha:1")]);
    assert_eq!(
        run.next(inspected(Some(fitting("sha:1", "bionic")))),
        DockerNext::Finished { changed: false }
    );
}

#[test]
fn unknown_containers_are_left_alone() {
    let (mut run, _) = sync(cache(&[("linux-bionic", "c1")]), vec![tag("bionic", "sha:1")]);
    assert_eq!(run.next(inspected(None)), create("bionic", "sha:1"));
    assert_eq!(run.next(DockerReply::Failed), DockerNext::Aborted);
    assert_eq!(
        remembered(&run.into_cache()),
        vec![("linux-bionic".to_string(), "c1".to_string())]
    );
}

#[test]
fn discarded_containers_that_are_gone_are_only_forgotten() {
    let (mut run, _) = sync(cache(&[("linux-bionic", "c1")]), Vec::new());
    assert_eq!(run.next(inspected(Some(fitting("sha:1", "bionic")))), inspect("c1"));
    assert_eq!(run.next(inspected(None)), DockerNext::Finished { changed: true });
    assert!(remembered(&run.into_cache()).is_empty());
}

#[test]
fn a_second_run_keeps_what_the_first_one_kept() {
    // The first container stays under its old key, the second is replaced, and
    // the mounts are shown in another order and with one more.
    let tags = || vec![tag("bionic", "sha:1"), tag("focal", "sha:2")];
    let shuffled = |image: &str, tag: &str| {
        let mut i = fitting(image, tag);
        if let Some(mounts) = i.mounts.as_mut() {
            mounts.reverse();
            mounts.push(MountPoint { destination: Some("/x".to_string()), source: None });
        }
        i
    };
    let start = cache(&[("old-linux-bionic", "c1"), ("odd", "c3")]);
    let (mut run, next) = sync(start, tags());
    assert_eq!(next, inspect("c3"));
    assert_eq!(run.next(inspected(Some(fitting("sha:2", "bionic")))), inspect("c1"));
    assert_eq!(run.next(inspected(Some(shuffled("sha:1", "bionic")))), inspect("c3"));
    assert_eq!(run.next(inspected(None)), create("focal", "sha:2"));
    assert_eq!(
        run.next(DockerReply::Created { id: "c2".to_string() }),
        DockerNext::Finished { changed: true }
    );
    let left = run.into_cache();
    let before = remembered(&left);
    let (mut run, next) = sync(left, tags());
    assert_eq!(next, inspect("c2"));
    assert_eq!(run.next(inspected(Some(shuffled("sha:2", "focal")))), inspect("c1"));
    assert_eq!(
        run.next(inspected(Some(shuffled("sha:1", "bionic")))),
        DockerNext::Finished { changed: false }
    );
    assert_eq!(remembered(&run.into_cache()), before);
}

#[test]
fn a_second_run_changes_nothing() {
    let tags = || vec![tag("bionic", "sha:1"), tag("focal", "sha:2")];
    let (mut run, _) = sync(cache(&[]), tags());
    run.next(DockerReply::Created { id: "c1".to_string() });
    run.next(DockerReply::Created { id: "c2".to_string() });
    let (mut run, next) = sync(run.into_cache(), tags());
    assert_eq!(next, inspect("c1"));
    assert_eq!(run.next(inspected(Some(fitting("sha:1", "bionic")))), inspect("c2"));
    assert_eq!(
        run.next(inspected(Some(fitting("sha:2", "focal")))),
        DockerNext::Finished { changed: false }
    );
}

#[test]
fn mounts_are_counted() {
    let mut wanted = NameMap::new();
    wanted.insert("/src".to_string(), "/a".to_string());
    wanted.insert("/repo".to_string(), "/b".to_string());
    let mount = |d: &str, s: &str| MountPoint {
        destination: Some(d.to_string()),
        source: Some(s.to_string()),
    };
    assert!(!mounts_match(&wanted, None));
    assert!(mounts_match(&NameMap::new(), None));
    assert!(mounts_match(&wanted, Some(&vec![mount("/repo", "/b"), mount("/src", "/a"), mount("/x", "/y")])));
    assert!(!mounts_match(&wanted, Some(&vec![mount("/repo", "/b"), mount("/src", "/z")])));
    assert!(mounts_match(&wanted, Some(&vec![mount("/repo", "/b"), mount("/repo", "/b")])));
    let none = MountPoint { destination: Some("/src".to_string()), source: None };
    assert!(!mounts_match(&wanted, Some(&vec![mount("/repo", "/b"), none])));
}

#[test]
fn variables_are_looked_for() {
    assert!(env_match(None, None));
    assert!(env_match(None, Some(&texts(&["A=1"]))));
    assert!(env_match(Some(&texts(&[])), None));
    assert!(!env_match(Some(&texts(&["A=1"])), None));
    assert!(env_match(Some(&texts(&["A=1", "A=1"])), Some(&texts(&["B=2", "A=1"]))));
    assert!(!env_match(Some(&texts(&["A=1", "C=3"])), Some(&texts(&["B=2", "A=1"]))));
}

#[test]
fn all_containers_are_removed() {
    let call = |call: DockerCall<String, Vec<String>>| ClearNext::Call { call };
    let (mut run, next) = cache(&[("a", "c1"), ("b", "c2")]).clear_containers();
    assert_eq!(next, call(DockerCall::Inspect { id: "c1".to_string() }));
    assert_eq!(
        run.next(inspected(Some(fitting("sha:1", "bionic")))),
        call(DockerCall::Kill { id: "c1".to_string(), signal: "SIGKILL".to_string() })
    );
    assert_eq!(run.next(DockerReply::Failed), call(DockerCall::Remove { id: "c1".to_string() }));
    assert_eq!(run.next(DockerReply::Done), call(DockerCall::Inspect { id: "c2".to_string() }));
    assert_eq!(run.next(inspected(None)), ClearNext::Finished);
    assert!(remembered(&run.into_cache()).is_empty());
}

#[test]
fn containers_are_forgotten_together_or_not_at_all() {
    let (mut run, _) = cache(&[("a", "c1"), ("b", "c2")]).clear_containers();
    run.next(inspected(Some(fitting("sha:1", "bionic"))));
    run.next(DockerReply::Done);
    assert_eq!(run.next(DockerReply::Failed), ClearNext::Aborted);
    assert_eq!(remembered(&run.into_cache()).len(), 2);
}

#[test]
fn all_containers_are_run() {
    let mut runs = cache(&[("a", "c1"), ("b", "c2")]).build();
    assert_eq!(runs.len(), 2);
    assert_eq!(runs[1].container.id, "c2");
    let run = &mut runs[0];
    let start = RunNext::Call { call: RunCall::Start { id: "c1".to_string() } };
    assert_eq!(run.next(true), start);
    let wait = RunCall::Wait { id: "c1".to_string(), condition: "not-running".to_string() };
    assert_eq!(run.next(true), RunNext::Call { call: wait });
    assert_eq!(run.next(false), RunNext::Finished);
    let run = &mut runs[1];
    run.next(true);
    assert_eq!(run.next(false), RunNext::Aborted);
    assert_eq!(first_failure(&vec![true, false, false]), Some(1));
    assert_eq!(first_failure(&vec![true, true]), None);
}

fn state() -> HbState {
    let rows: [(&str, &[&str]); 4] =
        [("app", &["core"]), ("core", &["base", "util"]), ("base", &[]), ("util", &[])];
    let list = rows
        .iter()
        .map(|(n, deps)| {
            RepositoryState::with_path(format!("{n}.cache"), repository(n, deps), false, None)
        })
        .collect();
    HbState::new(by_name(list))
}

fn build(git: Option<GitDeployment>) -> BuildRun {
    let state = state();
    let mut repo = repository("core", &["base", "util"]);
    repo.git_deployment = git;
    let own = RepositoryState::with_path("core.cache".to_string(), repo, true, None);
    let (run, first) = own.build(&state);
    assert_eq!(first, BuildNext::Perform { call: BuildCall::LockPriority });
    run
}

fn perform(call: BuildCall<String, Vec<String>>) -> Step {
    BuildNext::Perform { call }
}

fn yes() -> Answer {
    BuildReply::Answer { yes: true }
}

fn no() -> Answer {
    BuildReply::Answer { yes: false }
}

fn name(n: &str) -> String {
    n.to_string()
}

/// Locks a dependency that is free.
fn take_free(run: &mut BuildRun, dep: &str) -> Step {
    assert_eq!(run.next(no()), perform(BuildCall::TryPriority { name: name(dep) }));
    assert_eq!(run.next(yes()), perform(BuildCall::TryRead { name: name(dep) }));
    run.next(yes())
}

/// From the lock on the repository itself to the last mark.
fn to_the_marks(run: &mut BuildRun) {
    assert_eq!(run.next(BuildReply::Done), perform(BuildCall::ReleasePriority));
    assert_eq!(
        run.next(BuildReply::Done),
        perform(BuildCall::DirtyDependent { name: name("app") })
    );
    assert_eq!(
        run.next(BuildReply::Done),
        perform(BuildCall::ReadDependents { names: texts(&["app"]) })
    );
    assert_eq!(run.next(BuildReply::Done), perform(BuildCall::MarkBuilt));
    assert_eq!(
        run.next(BuildReply::Done),
        perform(BuildCall::MarkDependent { name: name("app") })
    );
}

#[test]
fn a_build_without_hindrance() {
    let mut run = build(None);
    assert_eq!(run.next(BuildReply::Done), perform(BuildCall::AskNeedsBuild { name: name("util") }));
    assert_eq!(take_free(&mut run, "util"), perform(BuildCall::AskNeedsBuild { name: name("base") }));
    assert_eq!(take_free(&mut run, "base"), perform(BuildCall::LockWrite));
    to_the_marks(&mut run);
    assert_eq!(run.next(BuildReply::Done), perform(BuildCall::RunContainers));
    assert_eq!(
        run.next(BuildReply::Runs { ended_well: vec![true, true] }),
        perform(BuildCall::ClearDirty)
    );
    assert_eq!(run.next(BuildReply::Done), BuildNext::Finished);
    assert_eq!(run.next(BuildReply::Done), BuildNext::Failed { error: BuildError::CallFailed });
}

#[test]
fn a_build_lets_go_before_it_waits() {
    let mut run = build(None);
    run.next(BuildReply::Done);
    take_free(&mut run, "util");
    // The second dependency needs a build, and has its locks taken.
    assert_eq!(run.next(yes()), perform(BuildCall::ReleaseReads));
    assert_eq!(run.next(BuildReply::Done), perform(BuildCall::AwaitBuilt { name: name("base") }));
    assert_eq!(run.next(BuildReply::Done), perform(BuildCall::TryPriority { name: name("base") }));
    assert_eq!(run.next(no()), perform(BuildCall::ReleaseReads));
    assert_eq!(run.next(BuildReply::Done), perform(BuildCall::PassPriority { name: name("base") }));
    assert_eq!(run.next(BuildReply::Done), perform(BuildCall::TryRead { name: name("base") }));
    assert_eq!(run.next(no()), perform(BuildCall::ReleaseReads));
    assert_eq!(run.next(BuildReply::Done), perform(BuildCall::Read { name: name("base") }));
    // The first one was let go, and is locked once more.
    assert_eq!(run.next(BuildReply::Done), perform(BuildCall::AskNeedsBuild { name: name("util") }));
    assert_eq!(take_free(&mut run, "util"), perform(BuildCall::LockWrite));
}

#[test]
fn a_build_updates_the_source() {
    let git = GitDeployment {
        url: "u".to_string(),
        branch: None,
        pre_checkout: Some("x".to_string()),
        post_checkout: None,
        key: None,
    };
    let mut run = build(Some(git));
    run.next(BuildReply::Done);
    take_free(&mut run, "util");
    take_free(&mut run, "base");
    to_the_marks(&mut run);
    let open = BuildCall::Git { src: "/w/core/src".to_string(), step: GitStep::OpenRepo };
    assert_eq!(run.next(BuildReply::Done), perform(open));
    for _ in 0..3 {
        run.next(BuildReply::Git { reply: GitReply::Done });
    }
    let heads = GitReply::Heads { head: "1".to_string(), fetched: "2".to_string() };
    run.next(BuildReply::Git { reply: heads });
    run.next(BuildReply::Git { reply: GitReply::Failed });
    run.next(BuildReply::Git { reply: GitReply::Done });
    run.next(BuildReply::Git { reply: GitReply::Done });
    let exit = GitReply::ScriptExit { success: false, stdout: b"no".to_vec() };
    let message = "Failed to run pre_checkout: no".to_string();
    assert_eq!(
        run.next(BuildReply::Git { reply: exit }),
        BuildNext::Failed { error: BuildError::ScriptFailed { message } }
    );
}

#[test]
fn a_build_with_an_update_that_fails() {
    let git = GitDeployment {
        url: "u".to_string(),
        branch: None,
        pre_checkout: None,
        post_checkout: None,
        key: None,
    };
    let mut run = build(Some(git));
    run.next(BuildReply::Done);
    take_free(&mut run, "util");
    take_free(&mut run, "base");
    to_the_marks(&mut run);
    run.next(BuildReply::Done);
    assert_eq!(
        run.next(BuildReply::Git { reply: GitReply::Failed }),
        BuildNext::Failed { error: BuildError::CallFailed }
    );
}

#[test]
fn a_build_fails_with_its_first_bad_run() {
    let mut run = build(None);
    run.next(BuildReply::Done);
    take_free(&mut run, "util");
    take_free(&mut run, "base");
    to_the_marks(&mut run);
    run.next(BuildReply::Done);
    assert_eq!(
        run.next(BuildReply::Runs { ended_well: vec![true, false, false] }),
        BuildNext::Failed { error: BuildError::RunFailed { index: 1 } }
    );
}

#[test]
fn unrelated_builds_run_side_by_side() {
    let state = state();
    for own in ["base", "util"] {
        let (mut run, _) = state.repos.get(own).unwrap().build(&state);
        assert_eq!(run.next(BuildReply::Done), perform(BuildCall::LockWrite));
        assert_eq!(run.next(BuildReply::Done), perform(BuildCall::ReleasePriority));
        for dependent in ["app", "core"] {
            assert_eq!(
                run.next(BuildReply::Done),
                perform(BuildCall::DirtyDependent { name: name(dependent) })
            );
        }
        // Both builds lock the dependents that they share for reading only.
        assert_eq!(
            run.next(BuildReply::Done),
            perform(BuildCall::ReadDependents { names: texts(&["app", "core"]) })
        );
        assert_eq!(run.next(BuildReply::Done), perform(BuildCall::MarkBuilt));
        for dependent in ["app", "core"] {
            assert_eq!(
                run.next(BuildReply::Done),
                perform(BuildCall::MarkDependent { name: name(dependent) })
            );
        }
        assert_eq!(run.next(BuildReply::Done), perform(BuildCall::RunContainers));
    }
}
