use herobuild::cache::RepositoryCache;
use herobuild::hb_state::{build_transient_depmap, inverse_depmap, walks_stop, HbState};
use herobuild::name_map::{NameMap, NameSet};
use herobuild::repository::Repository;
use herobuild::state::{by_name, RepositoryState};
use herobuild::stats::{sort_counts, total_builds, BuildCount};
use herobuild::wait_flag::WaitFlag;
use herobuild::worker::{count_in, count_out, Worker, WorkerAction, WorkerEvent};

fn repository(name: &str, deps: &[&str]) -> Repository {
    Repository {
        name: name.to_string(),
        src: "src".to_string(),
        repo: "repo".to_string(),
        extra_args: None,
        env: None,
        dependencies: deps.iter().map(|d| d.to_string()).collect(),
        git_deployment: None,
    }
}

fn state(name: &str, deps: &[&str]) -> RepositoryState {
    RepositoryState::with_path(format!("{name}.toml.cache"), repository(name, deps), false, None)
}

fn states(rows: &[(&str, &[&str])]) -> NameMap<RepositoryState> {
    by_name(rows.iter().map(|(n, deps)| state(n, deps)).collect())
}

fn names(m: &NameMap<NameSet>, name: &str) -> Vec<String> {
    let s = m.get(name).unwrap();
    (0..s.len()).map(|i| s.name_at(i).clone()).collect()
}

#[test]
fn transient_dependencies_are_found() {
    let repos = states(&[
        ("app", &["util", "net"]),
        ("util", &["core"]),
        ("net", &["core"]),
        ("core", &[]),
        ("lone", &[]),
    ]);
    assert!(walks_stop(&repos));
    let deps = build_transient_depmap(&repos);
    assert_eq!(names(&deps, "app"), vec!["core", "net", "util"]);
    assert_eq!(names(&deps, "util"), vec!["core"]);
    assert!(names(&deps, "core").is_empty());
    assert!(names(&deps, "lone").is_empty());
    assert_eq!(deps.len(), 5);
}

#[test]
fn unknown_names_hide_nothing() {
    let lists: [&[&str]; 3] = [&["core", "gone"], &["gone", "core"], &["gone", "core", "lost"]];
    for list in lists {
        let repos = states(&[("app", list), ("core", &[])]);
        let deps = build_transient_depmap(&repos);
        assert_eq!(names(&deps, "app"), vec!["core"]);
        assert!(names(&deps, "core").is_empty());
        assert_eq!(names(&inverse_depmap(&deps), "core"), vec!["app"]);
    }
    let repos = states(&[("app", &["util"]), ("util", &["core", "gone"]), ("core", &[])]);
    assert_eq!(names(&build_transient_depmap(&repos), "app"), vec!["core", "util"]);
}

#[test]
fn circles_are_told() {
    assert!(!walks_stop(&states(&[("a", &["b"]), ("b", &["a"])])));
    assert!(!walks_stop(&states(&[("a", &["a"])])));
    assert!(!walks_stop(&states(&[("a", &["b"]), ("b", &["c"]), ("c", &["b"])])));
    assert!(walks_stop(&states(&[("a", &["b", "b"]), ("b", &[])])));
    assert!(!walks_stop(&states(&[("a", &["a", "gone"])])));
    assert!(!walks_stop(&states(&[("a", &["gone", "a"])])));
    assert!(walks_stop(&states(&[("a", &["gone"])])));
}

#[test]
fn dependents_mirror_dependencies() {
    let repos = states(&[("app", &["util"]), ("util", &["core"]), ("core", &[])]);
    let deps = build_transient_depmap(&repos);
    let dependents = inverse_depmap(&deps);
    assert_eq!(names(&dependents, "core"), vec!["app", "util"]);
    assert_eq!(names(&dependents, "util"), vec!["app"]);
    assert!(names(&dependents, "app").is_empty());
    let back = inverse_depmap(&dependents);
    for n in ["app", "util", "core"] {
        assert_eq!(names(&back, n), names(&deps, n));
        assert!(!names(&deps, n).contains(&n.to_string()));
    }
}

#[test]
fn state_of_all_repositories() {
    let s = HbState::new(states(&[("app", &["core"]), ("core", &[])]));
    assert_eq!(names(&s.transient_dependencies, "app"), vec!["core"]);
    assert_eq!(names(&s.transient_dependents, "core"), vec!["app"]);
    assert_eq!(s.repos_in_build.get(), 0);
    assert_eq!(s.repos.len(), 2);
}

#[test]
fn the_last_repository_of_a_name_counts() {
    let repos = by_name(vec![state("a", &["x"]), state("b", &[]), state("a", &["y"])]);
    assert_eq!(repos.len(), 2);
    assert_eq!(repos.get("a").unwrap().repo.dependencies, vec!["y"]);
}

#[test]
fn repositories_start_with_their_caches() {
    let fresh = RepositoryState::with_path("p".to_string(), repository("a", &[]), false, None);
    assert!(!fresh.cache.dirty);
    assert!(!fresh.needs_build.get());
    assert_eq!(fresh.cache_path, "p");
    let changed = RepositoryState::with_path("p".to_string(), repository("a", &[]), true, None);
    assert!(changed.cache.dirty);
    assert!(changed.needs_build.get());
    let mut kept = RepositoryCache::default();
    kept.repo_hash = "h".to_string();
    kept.dirty = true;
    let dirty = RepositoryState::with_path("p".to_string(), repository("a", &[]), false, Some(kept));
    assert!(dirty.cache.dirty);
    assert!(dirty.needs_build.get());
    assert_eq!(dirty.cache.repo_hash, "h");
}

#[test]
fn digests_tell_changes() {
    let mut cache = RepositoryCache::default();
    assert!(cache.sync_hash(Some(b"hello".to_vec())));
    assert_eq!(cache.repo_hash, "2cf24dba5fb0a30e26e83b2ac5b9e29e1b161e5c1fa7425e73043362938b9824");
    assert!(!cache.sync_hash(Some(b"hello".to_vec())));
    assert!(cache.sync_hash(None));
    assert_eq!(cache.repo_hash, "e3b0c44298fc1c149afbf4c8996fb92427ae41e4649b934ca495991b7852b855");
    assert!(!cache.sync_hash(Some(Vec::new())));
}

#[test]
fn wait_flags() {
    let mut flag = WaitFlag::new(true);
    assert!(flag.get());
    assert!(flag.wait(true));
    assert!(!flag.wait(false));
    flag.set(false);
    assert!(flag.wait(false));
    let mut count: WaitFlag<usize> = WaitFlag::default();
    assert!(count.wait(0));
    count.modify(|v| *v += 3);
    assert_eq!(count.get(), 3);
    count_in(&mut count);
    assert_eq!(count.get(), 4);
    count_out(&mut count);
    assert_eq!(count.get(), 3);
}

#[test]
fn workers_build_while_builds_are_wanted() {
    let mut w = Worker::new();
    assert_eq!(w.action(), WorkerAction::Wait);
    w.tell(WorkerEvent::Wanted { keep_building: true, in_build: 0 });
    assert_eq!(w.action(), WorkerAction::CountIn);
    w.tell(WorkerEvent::CountedIn);
    assert_eq!(w.action(), WorkerAction::Build);
    w.tell(WorkerEvent::Built);
    assert_eq!(w.action(), WorkerAction::CountOut);
    assert_eq!(w.builds(), 1);
    w.tell(WorkerEvent::CountedOut);
    assert_eq!(w.action(), WorkerAction::Yield);
    w.tell(WorkerEvent::Yielded);
    assert_eq!(w.action(), WorkerAction::Wait);
    w.tell(WorkerEvent::Wanted { keep_building: false, in_build: 2 });
    assert_eq!(w.action(), WorkerAction::CountIn);
}

#[test]
fn workers_stop_when_all_is_quiet() {
    let mut w = Worker::new();
    w.tell(WorkerEvent::Quiet);
    assert_eq!(w.action(), WorkerAction::Finish { builds: 0 });
    let mut w = Worker::new();
    w.tell(WorkerEvent::Wanted { keep_building: false, in_build: 0 });
    assert_eq!(w.action(), WorkerAction::Finish { builds: 0 });
}

#[test]
fn workers_fail_with_their_builds() {
    let mut w = Worker::new();
    w.tell(WorkerEvent::Wanted { keep_building: true, in_build: 0 });
    w.tell(WorkerEvent::CountedIn);
    w.tell(WorkerEvent::BuildFailed);
    assert_eq!(w.action(), WorkerAction::Fail);
    w.tell(WorkerEvent::Yielded);
    assert_eq!(w.action(), WorkerAction::Fail);
}

#[test]
fn builds_are_sorted_and_summed() {
    let list = vec![("c", 2), ("a", 1), ("b", 2), ("d", 0), ("e", 1)]
        .into_iter()
        .map(|(n, builds)| BuildCount { name: n.to_string(), builds })
        .collect();
    let sorted = sort_counts(list);
    let names: Vec<&str> = sorted.iter().map(|c| c.name.as_str()).collect();
    assert_eq!(names, vec!["d", "a", "e", "c", "b"]);
    assert_eq!(total_builds(&sorted), 6);
    assert_eq!(total_builds(&Vec::new()), 0);
}

#[test]
fn the_count_is_that_of_the_workers_at_it() {
    let mut count: WaitFlag<usize> = WaitFlag::default();
    let mut workers = vec![Worker::new(), Worker::new()];
    for w in workers.iter_mut() {
        w.tell(WorkerEvent::Wanted { keep_building: true, in_build: count.get() });
        count_in(&mut count);
        w.tell(WorkerEvent::CountedIn);
    }
    assert_eq!(count.get(), 2);
    workers[0].tell(WorkerEvent::Built);
    count_out(&mut count);
    workers[0].tell(WorkerEvent::CountedOut);
    assert_eq!(count.get(), 1);
    workers[1].tell(WorkerEvent::BuildFailed);
    assert_eq!(workers[1].action(), WorkerAction::Fail);
    assert_eq!(count.get(), 1);
}
