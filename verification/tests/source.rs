use herobuild::deployment::{
    CredentialCall, CredentialNext, CredentialRequest, GitDeployment, SSH_CUSTOM, SSH_KEY,
};
use herobuild::git_job::{GitJob, GitNext, GitReply, GitStep, Stage};
use herobuild::initialize::{InitCall, InitError, InitJob, InitNext, InitReply};
use herobuild::repository::Repository;
use herobuild::submodules::{SubmoduleCall, SubmoduleNext, SubmoduleReply};

fn deployment() -> GitDeployment {
    GitDeployment {
        url: "git@host:team/core.git".to_string(),
        branch: None,
        pre_checkout: Some("make clean".to_string()),
        post_checkout: Some("make deps".to_string()),
        key: None,
    }
}

fn repository(git_deployment: Option<GitDeployment>) -> Repository {
    Repository {
        name: "core".to_string(),
        src: "src".to_string(),
        repo: "out".to_string(),
        extra_args: None,
        env: None,
        dependencies: Vec::new(),
        git_deployment,
    }
}

fn step(next: GitNext<String>) -> GitStep<String> {
    match next {
        GitNext::Perform { step } => step,
        other => panic!("no step: {other:?}"),
    }
}

fn well() -> GitReply<String, Vec<u8>> {
    GitReply::ScriptExit { success: true, stdout: Vec::new() }
}

fn heads(head: &str, fetched: &str) -> GitReply<String, Vec<u8>> {
    GitReply::Heads { head: head.to_string(), fetched: fetched.to_string() }
}

/// Brings an update to the point where the heads have been asked for.
fn fetched(d: &GitDeployment) -> GitJob {
    let (mut job, first) = d.update_src();
    assert_eq!(step(first), GitStep::OpenRepo);
    assert_eq!(step(job.next(GitReply::Done)), GitStep::FindRemote { name: "origin".to_string() });
    let refspec = d.branch.clone().unwrap_or("main".to_string());
    assert_eq!(step(job.next(GitReply::Done)), GitStep::Fetch { refspec, all_tags: true });
    assert_eq!(
        step(job.next(GitReply::Done)),
        GitStep::ReadHeads { local: "HEAD".to_string(), remote: "FETCH_HEAD".to_string() }
    );
    job
}

#[test]
fn kinds_of_credentials_have_their_bits() {
    assert_eq!(git2::CredentialType::SSH_KEY.bits(), SSH_KEY);
    assert_eq!(git2::CredentialType::SSH_CUSTOM.bits(), SSH_CUSTOM);
}

fn request(url: &str, allowed: u32, username: Option<&str>) -> CredentialRequest<String> {
    CredentialRequest {
        url: url.to_string(),
        username: username.map(|u| u.to_string()),
        allowed,
    }
}

fn run_ssh(host: &str) -> CredentialNext<String, Vec<String>> {
    let arguments = ["-q", "-o", "BatchMode=yes", host].iter().map(|s| s.to_string()).collect();
    CredentialNext::Perform { call: CredentialCall::RunSsh { arguments } }
}

fn ask_agent(user: &str) -> CredentialNext<String, Vec<String>> {
    CredentialNext::Perform { call: CredentialCall::AskAgent { user: user.to_string() } }
}

#[test]
fn repeated_requests_load_the_agent() {
    let url = "host:team/core.git";
    let mut prev = None;
    let mut ask = |allowed: u32, username: Option<&str>| {
        GitDeployment::ssh_callbacks(&mut prev, request(url, allowed, username)).1
    };
    assert_eq!(ask(SSH_KEY, None), ask_agent("git"));
    assert_eq!(ask(SSH_KEY, None), run_ssh("host"));
    assert_eq!(ask(SSH_KEY, Some("me")), ask_agent("me"));
    assert_eq!(ask(SSH_CUSTOM, Some("me")), ask_agent("me"));
    assert_eq!(ask(SSH_CUSTOM, Some("me")), run_ssh("host"));
}

#[test]
fn other_credentials_do_not_load_the_agent() {
    let allowed = git2::CredentialType::USER_PASS_PLAINTEXT.bits();
    let mut prev = None;
    for _ in 0..2 {
        let (_, next) = GitDeployment::ssh_callbacks(&mut prev, request("https", allowed, None));
        assert_eq!(next, ask_agent("git"));
    }
    assert_eq!(prev.unwrap().url, "https");
}

#[test]
fn a_url_without_a_colon_is_taken_whole() {
    let mut prev = Some(request("host", SSH_KEY, None));
    let (_, next) = GitDeployment::ssh_callbacks(&mut prev, request("host", SSH_KEY, None));
    assert_eq!(next, run_ssh("host"));
}

#[test]
fn the_helper_is_asked_where_the_agent_fails() {
    let helper = CredentialNext::Perform {
        call: CredentialCall::AskHelper {
            url: "host:x".to_string(),
            username: Some("me".to_string()),
        },
    };
    for ssh in [true, false] {
        for agent in [true, false] {
            for helped in [true, false] {
                let mut prev = Some(request("host:x", SSH_KEY, Some("me")));
                let (mut plan, next) =
                    GitDeployment::ssh_callbacks(&mut prev, request("host:x", SSH_KEY, Some("me")));
                assert_eq!(next, run_ssh("host"));
                assert_eq!(plan.next(ssh), ask_agent("me"));
                let next = plan.next(agent);
                if agent {
                    assert_eq!(next, CredentialNext::Answered);
                } else {
                    assert_eq!(next, helper);
                    let end = if helped { CredentialNext::Answered } else { CredentialNext::Failed };
                    assert_eq!(plan.next(helped), end);
                }
                assert_eq!(prev.unwrap().username, Some("me".to_string()));
            }
        }
    }
}

#[test]
fn sources_that_are_there_are_left_alone() {
    let (mut job, first) = deployment().ensure_created();
    assert_eq!(step(first), GitStep::ReadDir);
    assert_eq!(job.next(GitReply::Done), GitNext::Finished { changed: false });
}

#[test]
fn missing_sources_are_cloned() {
    let mut d = deployment();
    d.branch = Some("dev".to_string());
    let (mut job, _) = d.ensure_created();
    assert_eq!(
        step(job.next(GitReply::Failed)),
        GitStep::CloneRepo { url: d.url.clone(), branch: Some("dev".to_string()) }
    );
    assert_eq!(step(job.next(GitReply::Done)), GitStep::UpdateSubmodules);
    assert_eq!(
        step(job.next(GitReply::Done)),
        GitStep::RunScript { stage: Stage::PostCheckout, script: "make deps".to_string() }
    );
    assert_eq!(job.next(well()), GitNext::Finished { changed: true });
}

#[test]
fn a_clone_that_fails_ends_the_work() {
    let (mut job, _) = deployment().ensure_created();
    job.next(GitReply::Failed);
    assert_eq!(job.next(GitReply::Failed), GitNext::Aborted);
    assert_eq!(job.next(GitReply::Done), GitNext::Aborted);
}

#[test]
fn updates_without_news_change_nothing() {
    let mut job = fetched(&deployment());
    assert_eq!(job.next(heads("1f", "1f")), GitNext::Finished { changed: false });
}

#[test]
fn updates_move_the_branch() {
    let mut job = fetched(&deployment());
    assert_eq!(
        step(job.next(heads("1f", "2e"))),
        GitStep::FindReference { name: "refs/heads/main".to_string() }
    );
    let name = b"refs/heads/main".to_vec();
    assert_eq!(
        step(job.next(GitReply::Reference { name })),
        GitStep::SetTarget {
            name: "refs/heads/main".to_string(),
            id: "2e".to_string(),
            message: "Fast-Forward: Setting refs/heads/main to id: 2e".to_string(),
        }
    );
    assert_eq!(
        step(job.next(GitReply::Done)),
        GitStep::SetHead { name: "refs/heads/main".to_string() }
    );
    assert_eq!(
        step(job.next(GitReply::Done)),
        GitStep::RunScript { stage: Stage::PreCheckout, script: "make clean".to_string() }
    );
    assert_eq!(step(job.next(well())), GitStep::CheckoutHead { force: true });
    assert_eq!(step(job.next(GitReply::Done)), GitStep::UpdateSubmodules);
    assert_eq!(
        step(job.next(GitReply::Done)),
        GitStep::RunScript { stage: Stage::PostCheckout, script: "make deps".to_string() }
    );
    assert_eq!(job.next(well()), GitNext::Finished { changed: true });
}

#[test]
fn updates_create_a_missing_branch() {
    let mut d = deployment();
    d.branch = Some("dev".to_string());
    d.pre_checkout = None;
    d.post_checkout = None;
    let mut job = fetched(&d);
    job.next(heads("1f", "2e"));
    assert_eq!(
        step(job.next(GitReply::Failed)),
        GitStep::CreateReference {
            name: "refs/heads/dev".to_string(),
            id: "2e".to_string(),
            force: true,
            message: "Setting dev to 2e".to_string(),
        }
    );
    assert_eq!(
        step(job.next(GitReply::Done)),
        GitStep::SetHead { name: "refs/heads/dev".to_string() }
    );
    assert_eq!(step(job.next(GitReply::Done)), GitStep::CheckoutHead { force: true });
    assert_eq!(step(job.next(GitReply::Done)), GitStep::UpdateSubmodules);
    assert_eq!(job.next(GitReply::Done), GitNext::Finished { changed: true });
}

#[test]
fn names_of_references_are_decoded() {
    let mut job = fetched(&deployment());
    job.next(heads("1f", "2e"));
    let name = vec![b'r', 0xff];
    let found = step(job.next(GitReply::Reference { name }));
    assert!(matches!(found, GitStep::SetTarget { name, .. } if name == "r\u{fffd}"));
}

#[test]
fn scripts_that_fail_are_quoted() {
    let (mut job, _) = deployment().ensure_created();
    job.next(GitReply::Failed);
    job.next(GitReply::Done);
    job.next(GitReply::Done);
    let stdout = vec![b'n', b'o', 0xff];
    assert_eq!(
        job.next(GitReply::ScriptExit { success: false, stdout }),
        GitNext::ScriptFailed { message: "Failed to run post_checkout: no\u{fffd}".to_string() }
    );
    let mut job = fetched(&deployment());
    job.next(heads("1f", "2e"));
    job.next(GitReply::Failed);
    job.next(GitReply::Done);
    job.next(GitReply::Done);
    assert_eq!(
        job.next(GitReply::ScriptExit { success: false, stdout: b"bad".to_vec() }),
        GitNext::ScriptFailed { message: "Failed to run pre_checkout: bad".to_string() }
    );
}

#[test]
fn checks_see_the_source_from_the_output() {
    let update = repository(Some(deployment())).check_for_src_changes("/out").unwrap();
    assert_eq!(update.src, "/out/src");
    assert_eq!(step(update.next), GitStep::OpenRepo);
}

fn canonicalize(path: &str) -> InitNext<String> {
    InitNext::Perform { call: InitCall::Canonicalize { path: path.to_string() } }
}

fn create(path: &str) -> InitNext<String> {
    InitNext::Perform { call: InitCall::CreateDir { path: path.to_string() } }
}

fn canonical(path: &str) -> InitReply<String, Vec<u8>> {
    InitReply::Canonical { path: Some(path.to_string()) }
}

fn git(reply: GitReply<String, Vec<u8>>) -> InitReply<String, Vec<u8>> {
    InitReply::Git { reply }
}

fn git_call(step: GitStep<String>) -> InitNext<String> {
    InitNext::Perform { call: InitCall::Git { src: "defs/src".to_string(), step } }
}

/// From the absolute path of the source on.
fn finish(mut job: InitJob, changed: bool) {
    assert_eq!(job.next(canonical("/abs/src")), create("defs/out"));
    assert_eq!(job.next(InitReply::Done), canonicalize("defs/out"));
    assert_eq!(job.next(canonical("/abs/out")), create("/abs/out/bionic"));
    assert_eq!(job.next(InitReply::Done), create("/abs/out/focal"));
    assert_eq!(job.next(InitReply::Done), InitNext::Finished { changed });
    let repo = job.into_repository();
    assert_eq!(repo.src, "/abs/src");
    assert_eq!(repo.repo, "/abs/out");
    assert_eq!(repo.name, "core");
}

fn tags() -> Vec<String> {
    vec!["bionic".to_string(), "focal".to_string()]
}

#[test]
fn plain_repositories_are_set_up() {
    let (job, first) = repository(None).initialize("defs", &tags());
    assert_eq!(first, canonicalize("defs/src"));
    finish(job, false);
}

#[test]
fn cloned_repositories_have_changed() {
    let mut d = deployment();
    d.post_checkout = None;
    let (mut job, first) = repository(Some(d)).initialize("defs", &tags());
    assert_eq!(first, git_call(GitStep::ReadDir));
    job.next(git(GitReply::Failed));
    assert_eq!(job.next(git(GitReply::Done)), git_call(GitStep::UpdateSubmodules));
    assert_eq!(job.next(git(GitReply::Done)), canonicalize("defs/src"));
    finish(job, true);
}

#[test]
fn repositories_that_are_there_are_updated() {
    let (mut job, _) = repository(Some(deployment())).initialize("defs", &tags());
    assert_eq!(job.next(git(GitReply::Done)), git_call(GitStep::OpenRepo));
    job.next(git(GitReply::Done));
    job.next(git(GitReply::Done));
    job.next(git(GitReply::Done));
    assert_eq!(job.next(git(heads("1f", "1f"))), canonicalize("defs/src"));
    finish(job, false);
}

#[test]
fn updated_repositories_have_changed() {
    let mut d = deployment();
    d.pre_checkout = None;
    d.post_checkout = None;
    let (mut job, _) = repository(Some(d)).initialize("defs", &tags());
    for _ in 0..4 {
        job.next(git(GitReply::Done));
    }
    job.next(git(heads("1f", "2e")));
    job.next(git(GitReply::Failed));
    for _ in 0..3 {
        job.next(git(GitReply::Done));
    }
    assert_eq!(job.next(git(GitReply::Done)), canonicalize("defs/src"));
    finish(job, true);
}

#[test]
fn failures_of_the_setup() {
    let failed = |error: InitError<String>| InitNext::Failed { error };
    let (mut job, _) = repository(None).initialize("defs", &tags());
    let next = job.next(InitReply::Canonical { path: None });
    assert_eq!(next, failed(InitError::InvalidSrcPath));
    assert_eq!(InitError::<String>::InvalidSrcPath.message().unwrap(), "Invalid src path");
    let (mut job, _) = repository(None).initialize("defs", &tags());
    assert_eq!(job.next(InitReply::Failed), failed(InitError::CallFailed));
    assert_eq!(InitError::<String>::CallFailed.message(), None);
    let (mut job, _) = repository(None).initialize("defs", &tags());
    job.next(canonical("/abs/src"));
    job.next(InitReply::Done);
    let next = job.next(InitReply::Canonical { path: None });
    assert_eq!(next, failed(InitError::InvalidRepoPath));
    assert_eq!(InitError::<String>::InvalidRepoPath.message().unwrap(), "Invalid repo path");
    let (mut job, _) = repository(Some(deployment())).initialize("defs", &tags());
    job.next(git(GitReply::Failed));
    job.next(git(GitReply::Done));
    job.next(git(GitReply::Done));
    let message = "Failed to run post_checkout: x".to_string();
    let next = job.next(git(GitReply::ScriptExit { success: false, stdout: b"x".to_vec() }));
    assert_eq!(next, failed(InitError::ScriptFailed { message: message.clone() }));
    assert_eq!(InitError::ScriptFailed { message: message.clone() }.message(), Some(message));
}

#[test]
fn submodules_are_updated_before_those_below_them() {
    let list = |repo: &[usize]| SubmoduleNext::Perform {
        call: SubmoduleCall::List { repo: repo.to_vec() },
    };
    let update = |module: &[usize]| SubmoduleNext::Perform {
        call: SubmoduleCall::Update { module: module.to_vec(), init: true },
    };
    let count = |count: usize| SubmoduleReply::Listed { count };
    let (mut walk, first) = GitDeployment::update_submodules();
    assert_eq!(first, list(&[]));
    assert_eq!(walk.next(count(2)), update(&[0]));
    assert_eq!(walk.next(SubmoduleReply::Done), list(&[0]));
    assert_eq!(walk.next(count(1)), update(&[0, 0]));
    assert_eq!(walk.next(SubmoduleReply::Done), list(&[0, 0]));
    assert_eq!(walk.next(count(0)), update(&[1]));
    assert_eq!(walk.next(SubmoduleReply::Done), list(&[1]));
    assert_eq!(walk.next(count(0)), SubmoduleNext::Finished);
}

#[test]
fn a_failed_submodule_ends_the_walk() {
    let (mut walk, _) = GitDeployment::update_submodules();
    walk.next(SubmoduleReply::Listed { count: 3 });
    assert_eq!(walk.next(SubmoduleReply::Failed), SubmoduleNext::Aborted);
    assert_eq!(walk.next(SubmoduleReply::Done), SubmoduleNext::Aborted);
}
