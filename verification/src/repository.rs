//! A repository: what it is built from, and what its build container gets.

use vstd::prelude::*;
use crate::deployment::GitDeployment;
use crate::git_job::{fetch_steps, git_idle, git_resumed, GitJob, GitNext};
use crate::name_map::{NameMap, NameSet};
use crate::paths::{join_path, join_spec};
use crate::text::{concat2, concat3, copy_opt_texts, copy_texts, join, joined, lemma_texts_push, opt_texts, texts, Text};

verus! {

#[derive(Debug)]
pub struct Repository {
    /// Name of the repository
    pub name: String,
    /// Path to the source directory
    pub src: String,
    /// Path to the output repository
    pub repo: String,
    /// Extra arguments to pass to the build
    pub extra_args: Option<Vec<String>>,
    /// Extra environment variables to pass
    pub env: Option<Vec<String>>,
    /// Repositories this repo depends on
    pub dependencies: Vec<String>,
    /// Information needed to deploy the source repository
    pub git_deployment: Option<GitDeployment>,
}

/// Something that holds a repository.
pub trait HasRepository {
    spec fn repository(&self) -> Repository;

    fn as_ref(&self) -> (r: &Repository)
        ensures
            *r == self.repository(),
    ;
}

impl HasRepository for Repository {
    open spec fn repository(&self) -> Repository {
        *self
    }

    fn as_ref(&self) -> (r: &Repository) {
        self
    }
}

/// For each name a set of names, in good order.
pub open spec fn depmap_wf(m: NameMap<NameSet>) -> bool {
    &&& m.wf()
    &&& forall|n: Text| #![trigger m@[n]] m@.contains_key(n) ==> m@[n].wf()
}

/// The names that a map lists for a name, in ascending order; none where the
/// map does not hold the name.
pub open spec fn listed(transient_deps: Map<Text, NameSet>, name: Text) -> Seq<Text> {
    if transient_deps.contains_key(name) {
        transient_deps[name].names()
    } else {
        Seq::empty()
    }
}

/// Where the output of a dependency stands in the container.
pub open spec fn dep_dir(name: Text) -> Text {
    "/deps/"@ + name
}

/// Where the outputs of dependencies stand in the container.
pub open spec fn dep_dirs(names: Seq<Text>) -> Seq<Text> {
    Seq::new(names.len(), |i: int| dep_dir(names[i]))
}

/// Where the output of a repository for an image tag stands outside.
pub open spec fn output_dir(r: Repository, tag: Text) -> Text {
    r.repo@ + "/"@ + tag
}

/// The mounts that a map of strings stands for.
pub open spec fn text_map(m: NameMap<String>) -> Map<Text, Text> {
    m@.map_values(|s: String| s@)
}

/// Mounts with those of dependencies added in turn: each dependency that is
/// known has its output mounted under the name that it carries.
pub open spec fn with_dep_mounts<R: HasRepository>(
    mounts: Map<Text, Text>,
    deps: Seq<Text>,
    repos: Map<Text, R>,
    tag: Text,
) -> Map<Text, Text>
    decreases deps.len(),
{
    if deps.len() == 0 {
        mounts
    } else {
        let before = with_dep_mounts(mounts, deps.drop_last(), repos, tag);
        let d = deps.last();
        if repos.contains_key(d) {
            let r = repos[d].repository();
            before.insert(dep_dir(r.name@), output_dir(r, tag))
        } else {
            before
        }
    }
}

impl Repository {
    /// The mounts that do not come from dependencies.
    pub open spec fn own_mounts(&self, tag: Text) -> Map<Text, Text> {
        Map::<Text, Text>::empty().insert("/src"@, self.src@).insert(
            "/repo"@,
            output_dir(*self, tag),
        )
    }

    /// All mounts, from destination to source.
    pub open spec fn mount_map<R: HasRepository>(
        &self,
        tag: Text,
        repos: Map<Text, R>,
        transient_deps: Map<Text, NameSet>,
    ) -> Map<Text, Text> {
        with_dep_mounts(self.own_mounts(tag), listed(transient_deps, self.name@), repos, tag)
    }

    /// The words of the command.
    pub open spec fn command(&self, deps: Seq<Text>) -> Seq<Text> {
        seq!["-j8"@] + (if deps.len() == 0 {
            Seq::<Text>::empty()
        } else {
            seq!["-e"@, joined(dep_dirs(deps), ","@)]
        }) + seq!["-r"@, "/repo"@, "/src"@] + (match opt_texts(self.extra_args) {
            Some(words) => words,
            None => Seq::<Text>::empty(),
        })
    }
}

/// An update of a source directory that has been started: the directory, the
/// work, and what it is to do first.
pub struct SourceUpdate {
    pub src: String,
    pub job: GitJob,
    pub next: GitNext<String>,
}

impl Clone for Repository {
    fn clone(&self) -> (r: Self)
        ensures
            r.name == self.name,
            r.src == self.src,
            r.repo == self.repo,
            opt_texts(r.extra_args) == opt_texts(self.extra_args),
            opt_texts(r.env) == opt_texts(self.env),
            r.dependencies@ == self.dependencies@,
            r.git_deployment == self.git_deployment,
    {
        Repository {
            name: self.name.clone(),
            src: self.src.clone(),
            repo: self.repo.clone(),
            extra_args: copy_opt_texts(&self.extra_args),
            env: copy_opt_texts(&self.env),
            dependencies: copy_texts(&self.dependencies),
            git_deployment: match &self.git_deployment {
                Some(d) => Some(d.clone()),
                None => None,
            },
        }
    }
}

/// Directories of dependencies, joined, are no empty text.
proof fn lemma_joined_dirs(names: Seq<Text>, sep: Text)
    requires
        names.len() > 0,
    ensures
        joined(dep_dirs(names), sep).len() > 0,
{
    reveal_strlit("/deps/");
    let dirs = dep_dirs(names);
    assert(dirs.last() == dep_dir(names.last()));
}

impl Repository {
    /// Starts an update of the source, seen from `path`, where the source is
    /// deployed from git. A source that is not has not changed.
    pub fn check_for_src_changes(&self, path: &str) -> (r: Option<SourceUpdate>)
        ensures
            match (self.git_deployment, r) {
                (Some(d), Some(u)) => {
                    &&& u.src@ == join_spec(path@, self.src@)
                    &&& (u.job@, u.next@) == git_resumed(git_idle(d), fetch_steps(d))
                },
                (None, None) => true,
                _ => false,
            },
    {
        match &self.git_deployment {
            Some(d) => {
                let (job, next) = d.update_src();
                Some(SourceUpdate { src: join_path(path, self.src.as_str()), job, next })
            },
            None => None,
        }
    }

    /// The names that a map lists for this repository.
    pub fn dependencies(&self, transient_deps: &NameMap<NameSet>) -> (r: Vec<String>)
        requires
            depmap_wf(*transient_deps),
        ensures
            texts(r@) == listed(transient_deps@, self.name@),
    {
        let mut r: Vec<String> = Vec::new();
        match transient_deps.get(self.name.as_str()) {
            Some(deps) => {
                let n: usize = deps.len();
                let mut i: usize = 0;
                while i < n
                    invariant
                        deps.wf(),
                        n == deps.names().len(),
                        i <= n,
                        texts(r@) == deps.names().take(i as int),
                    decreases n - i,
                {
                    let name = deps.name_at(i).clone();
                    proof {
                        lemma_texts_push(r@, name);
                    }
                    r.push(name);
                    assert(texts(r@) =~= deps.names().take(i + 1));
                    i += 1;
                }
                assert(deps.names().take(n as int) == deps.names());
            },
            None => {
                assert(texts(r@) =~= Seq::<Text>::empty());
            },
        }
        r
    }

    /// Returns a destination -> source map.
    pub fn mounts<R: HasRepository>(
        &self,
        tag: &str,
        repos: &NameMap<R>,
        transient_deps: &NameMap<NameSet>,
    ) -> (r: NameMap<String>)
        requires
            repos.wf(),
            depmap_wf(*transient_deps),
        ensures
            r.wf(),
            text_map(r) == self.mount_map(tag@, repos@, transient_deps@),
    {
        let mut r: NameMap<String> = NameMap::new();
        r.insert("/src".to_owned(), self.src.clone());
        r.insert("/repo".to_owned(), concat3(self.repo.as_str(), "/", tag));
        assert(text_map(r) =~= self.own_mounts(tag@));
        let deps = self.dependencies(transient_deps);
        let ghost names = texts(deps@);
        let mut i: usize = 0;
        while i < deps.len()
            invariant
                r.wf(),
                repos.wf(),
                i <= deps@.len(),
                names == texts(deps@),
                text_map(r) == with_dep_mounts(
                    self.own_mounts(tag@),
                    names.take(i as int),
                    repos@,
                    tag@,
                ),
            decreases deps@.len() - i,
        {
            let ghost before = text_map(r);
            assert(names.take(i + 1).drop_last() =~= names.take(i as int));
            assert(names.take(i + 1).last() == deps@[i as int]@);
            match repos.get(deps[i].as_str()) {
                Some(held) => {
                    let dep = held.as_ref();
                    let dest = concat2("/deps/", dep.name.as_str());
                    let source = concat3(dep.repo.as_str(), "/", tag);
                    let ghost d = dest@;
                    let ghost s = source@;
                    r.insert(dest, source);
                    assert(text_map(r) =~= before.insert(d, s));
                },
                None => {},
            }
            i += 1;
        }
        assert(names.take(i as int) == names);
        r
    }

    /// Returns the exec command for the container
    pub fn cmd(&self, transient_deps: &NameMap<NameSet>) -> (r: Vec<String>)
        requires
            depmap_wf(*transient_deps),
        ensures
            texts(r@) == self.command(listed(transient_deps@, self.name@)),
    {
        let ghost names = listed(transient_deps@, self.name@);
        let mut ret: Vec<String> = Vec::new();
        ret.push("-j8".to_owned());
        let deps = self.dependencies(transient_deps);
        let mut dirs: Vec<String> = Vec::new();
        let mut i: usize = 0;
        while i < deps.len()
            invariant
                i <= deps@.len(),
                names == texts(deps@),
                texts(dirs@) == dep_dirs(names.take(i as int)),
            decreases deps@.len() - i,
        {
            let dir = concat2("/deps/", deps[i].as_str());
            proof {
                lemma_texts_push(dirs@, dir);
            }
            dirs.push(dir);
            assert(texts(dirs@) =~= dep_dirs(names.take(i + 1)));
            i += 1;
        }
        assert(names.take(i as int) == names);
        let extra_repos = join(&dirs, ",");
        let ghost first = seq!["-j8"@];
        assert(texts(ret@) =~= first);
        let ghost second = if names.len() == 0 {
            Seq::<Text>::empty()
        } else {
            seq!["-e"@, joined(dep_dirs(names), ","@)]
        };
        proof {
            if names.len() > 0 {
                lemma_joined_dirs(names, ","@);
            }
        }
        if !extra_repos.as_str().is_empty() {
            ret.push("-e".to_owned());
            ret.push(extra_repos);
        }
        assert(texts(ret@) =~= first + second);
        ret.push("-r".to_owned());
        ret.push("/repo".to_owned());
        ret.push("/src".to_owned());
        let ghost head = first + second + seq!["-r"@, "/repo"@, "/src"@];
        assert(texts(ret@) =~= head);
        match &self.extra_args {
            Some(words) => {
                let mut more = copy_texts(words);
                ret.append(&mut more);
                assert(texts(ret@) =~= head + texts(words@));
            },
            None => {
                assert(texts(ret@) =~= head + Seq::<Text>::empty());
            },
        }
        ret
    }
}

} // verus!
