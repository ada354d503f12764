use herobuild::name_map::{NameMap, NameSet};
use herobuild::paths::{cache_name, is_definition, join_path};
use herobuild::repository::Repository;

fn repository(name: &str, deps: &[&str]) -> Repository {
    Repository {
        name: name.to_string(),
        src: format!("/work/{name}/src"),
        repo: format!("/work/{name}/out"),
        extra_args: None,
        env: None,
        dependencies: deps.iter().map(|d| d.to_string()).collect(),
        git_deployment: None,
    }
}

fn set(names: &[&str]) -> NameSet {
    let mut r = NameSet::new();
    for n in names {
        r.insert(n.to_string());
    }
    r
}

fn depmap(rows: &[(&str, &[&str])]) -> NameMap<NameSet> {
    let mut r = NameMap::new();
    for (n, deps) in rows {
        r.insert(n.to_string(), set(deps));
    }
    r
}

fn pairs(m: &NameMap<String>) -> Vec<(String, String)> {
    (0..m.len()).map(|i| (m.name_at(i).clone(), m.value_at(i).clone())).collect()
}

#[test]
fn paths_are_joined() {
    for (base, path) in [("a", "b"), ("a/", "b"), ("a", "/b"), ("", "b"), ("a", ""), ("", "")] {
        let joined = std::path::Path::new(base).join(path);
        assert_eq!(join_path(base, path), joined.to_str().unwrap());
    }
    assert_eq!(join_path("a", "b"), "a/b");
    assert_eq!(join_path("a", "/b"), "/b");
}

#[test]
fn descriptions_are_told_by_their_names() {
    for name in ["a.toml", "a.b.toml", "a.toml.cache", ".toml", "toml", "atoml", "a.tom", "a.", "\u{e4}.toml"] {
        let extension = std::path::Path::new(name).extension().and_then(|e| e.to_str());
        assert_eq!(is_definition(name), extension == Some("toml"), "{name}");
    }
    assert!(is_definition("core.toml"));
    assert!(!is_definition("core.toml.cache"));
}

#[test]
fn caches_are_named_after_descriptions() {
    for name in ["a.toml", "a.b.toml", "a", ".a", "a.txt", ".a.toml", "a.", "\u{e4}.toml"] {
        let mut path = std::path::PathBuf::from(name);
        path.set_extension("toml.cache");
        assert_eq!(cache_name(name), path.to_str().unwrap(), "{name}");
    }
    assert_eq!(cache_name("core.toml"), "core.toml.cache");
    assert!(!is_definition(&cache_name("core.toml")));
}

#[test]
fn command_without_dependencies() {
    let r = repository("core", &[]);
    let expected = vec!["-j8", "-r", "/repo", "/src"];
    assert_eq!(r.cmd(&NameMap::new()), expected);
    assert_eq!(r.cmd(&depmap(&[("core", &[])])), expected);
}

#[test]
fn command_with_dependencies_and_arguments() {
    let mut r = repository("app", &[]);
    r.extra_args = Some(vec!["--fast".to_string(), "-v".to_string()]);
    let deps = depmap(&[("app", &["util", "core"]), ("core", &[]), ("util", &["core"])]);
    assert_eq!(
        r.cmd(&deps),
        vec!["-j8", "-e", "/deps/core,/deps/util", "-r", "/repo", "/src", "--fast", "-v"]
    );
}

#[test]
fn command_follows_the_set() {
    let r = repository("app", &[]);
    assert_eq!(
        r.cmd(&depmap(&[("app", &["b", "a", "c", "a"])])),
        r.cmd(&depmap(&[("app", &["c", "b", "a"])]))
    );
}

#[test]
fn listed_dependencies_ascend() {
    let r = repository("app", &[]);
    assert_eq!(r.dependencies(&depmap(&[("app", &["z", "b", "ab", "a"])])), vec!["a", "ab", "b", "z"]);
    assert!(r.dependencies(&NameMap::new()).is_empty());
}

#[test]
fn mounts_of_known_dependencies() {
    let app = repository("app", &["core", "gone"]);
    let mut repos = NameMap::new();
    repos.insert("core".to_string(), repository("core", &[]));
    let deps = depmap(&[("app", &["core", "gone"])]);
    assert_eq!(
        pairs(&app.mounts("bionic", &repos, &deps)),
        vec![
            ("/deps/core".to_string(), "/work/core/out/bionic".to_string()),
            ("/repo".to_string(), "/work/app/out/bionic".to_string()),
            ("/src".to_string(), "/work/app/src".to_string()),
        ]
    );
}

#[test]
fn dependencies_are_mounted_under_the_name_they_carry() {
    let app = repository("app", &["alias"]);
    let mut repos = NameMap::new();
    repos.insert("alias".to_string(), repository("core", &[]));
    let mounts = app.mounts("t", &repos, &depmap(&[("app", &["alias"])]));
    assert!(mounts.contains_key("/deps/core"));
    assert!(!mounts.contains_key("/deps/alias"));
}

#[test]
fn command_names_what_is_mounted() {
    let app = repository("app", &["core", "util"]);
    let mut repos = NameMap::new();
    repos.insert("core".to_string(), repository("core", &[]));
    repos.insert("util".to_string(), repository("util", &[]));
    let deps = depmap(&[("app", &["core", "util"])]);
    let mounts = app.mounts("t", &repos, &deps);
    for dir in app.cmd(&deps)[2].split(',') {
        assert!(mounts.contains_key(dir));
    }
}

#[test]
fn plain_sources_are_not_checked() {
    assert!(repository("core", &[]).check_for_src_changes("/base").is_none());
}

#[test]
fn clones_are_alike() {
    let mut r = repository("core", &["a"]);
    r.env = Some(vec!["A=1".to_string()]);
    let c = r.clone();
    assert_eq!(format!("{r:?}"), format!("{c:?}"));
}

#[test]
fn name_maps_hold_what_was_put_in() {
    let mut m = NameMap::new();
    m.insert("b".to_string(), 1);
    m.insert("a".to_string(), 2);
    m.insert("b".to_string(), 3);
    assert_eq!(m.len(), 2);
    assert_eq!(m.name_at(0), "a");
    assert_eq!(m.get("b"), Some(&3));
    assert_eq!(m.get("c"), None);
    *m.get_mut("a").unwrap() += 5;
    assert_eq!(m.get("a"), Some(&7));
    m.remove("a");
    assert!(!m.contains_key("a"));
    m.clear();
    assert_eq!(m.len(), 0);
}

#[test]
fn name_sets_hold_each_name_once() {
    let mut s = set(&["b", "a", "b"]);
    assert_eq!(s.len(), 2);
    assert!(s.contains("a"));
    s.remove("a");
    assert!(!s.contains("a"));
    assert_eq!(s.name_at(0), "b");
}
