//! A repository together with what is remembered of it.

use vstd::prelude::*;
use crate::cache::{CacheView, RepositoryCache};
use crate::name_map::NameMap;
use crate::repository::{HasRepository, Repository};
use crate::text::Text;
use crate::wait_flag::WaitFlag;

verus! {

pub struct RepositoryState {
    pub repo: Repository,
    /// The file that the cache is kept in.
    pub cache_path: String,
    pub cache: RepositoryCache,
    /// The repository waits for a build.
    pub needs_build: WaitFlag<bool>,
}

impl HasRepository for RepositoryState {
    open spec fn repository(&self) -> Repository {
        self.repo
    }

    fn as_ref(&self) -> (r: &Repository) {
        &self.repo
    }
}

impl RepositoryState {
    /// The containers that are remembered are in good order.
    pub open spec fn wf(&self) -> bool {
        self.cache.wf()
    }

    /// The state of a repository that has been set up, with the cache that was
    /// kept in the file at `cache_path`, if there was one that could be read. A
    /// repository whose source changed while it was set up needs a build, and so
    /// does one that needed a build when its cache was kept.
    pub fn with_path(
        cache_path: String,
        repo: Repository,
        source_changed: bool,
        kept: Option<RepositoryCache>,
    ) -> (r: Self)
        requires
            kept matches Some(c) ==> c.wf(),
        ensures
            r.wf(),
            r.repo == repo,
            r.cache_path == cache_path,
            ({
                let before = match kept {
                    Some(c) => c@,
                    None => CacheView {
                        repo_hash: Seq::empty(),
                        dirty: false,
                        containers: Map::empty(),
                    },
                };
                r.cache@ == (CacheView { dirty: before.dirty || source_changed, ..before })
            }),
            r.needs_build.value == r.cache.dirty,
    {
        let mut cache = match kept {
            Some(c) => c,
            None => RepositoryCache::default(),
        };
        cache.dirty = cache.dirty || source_changed;
        let needs_build = WaitFlag::new(cache.dirty);
        RepositoryState { repo, cache_path, cache, needs_build }
    }
}

/// Repositories by their names. Of several with the same name, the last counts.
pub open spec fn named(states: Seq<RepositoryState>) -> Map<Text, RepositoryState>
    decreases states.len(),
{
    if states.len() == 0 {
        Map::empty()
    } else {
        named(states.drop_last()).insert(states.last().repo.name@, states.last())
    }
}

/// Each repository stands under its own name.
pub open spec fn keyed_by_name(repos: Map<Text, RepositoryState>) -> bool {
    forall|n: Text| #![trigger repos[n]] repos.contains_key(n) ==> repos[n].repo.name@ == n
}

/// Collects repositories by their names.
pub fn by_name(states: Vec<RepositoryState>) -> (r: NameMap<RepositoryState>)
    ensures
        r.wf(),
        r@ == named(states@),
        keyed_by_name(r@),
{
    let ghost all = states@;
    let mut rest = states;
    let mut r: NameMap<RepositoryState> = NameMap::new();
    let ghost mut i: int = 0;
    assert(all.take(0) =~= Seq::<RepositoryState>::empty());
    assert(rest@ =~= all.skip(0));
    while rest.len() > 0
        invariant
            r.wf(),
            0 <= i <= all.len(),
            rest@ == all.skip(i),
            r@ == named(all.take(i)),
            keyed_by_name(r@),
        decreases rest@.len(),
    {
        let state = rest.remove(0);
        proof {
            assert(state == all[i]);
            assert(all.take(i + 1).drop_last() =~= all.take(i));
            assert(rest@ =~= all.skip(i + 1));
            i = i + 1;
        }
        r.insert(state.repo.name.clone(), state);
    }
    assert(all.take(i) =~= all);
    r
}

/// The repository that stands under a name is the last of those that carry it;
/// and a name stands for one exactly where one carries it.
pub proof fn law_last_of_a_name_counts(states: Seq<RepositoryState>, name: Text)
    ensures
        named(states).contains_key(name) <==> exists|i: int|
            0 <= i < states.len() && (#[trigger] states[i]).repo.name@ == name,
        forall|i: int|
            0 <= i < states.len() && (#[trigger] states[i]).repo.name@ == name && (forall|j: int|
                i < j < states.len() ==> (#[trigger] states[j]).repo.name@ != name) ==> named(
                states,
            )[name] == states[i],
    decreases states.len(),
{
    if states.len() > 0 {
        let rest = states.drop_last();
        let last = states.len() - 1;
        law_last_of_a_name_counts(rest, name);
        if named(states).contains_key(name) && states[last].repo.name@ != name {
            assert(named(rest).contains_key(name));
            let i = choose|i: int| 0 <= i < rest.len() && (#[trigger] rest[i]).repo.name@ == name;
            assert(states[i].repo.name@ == name);
        }
        assert forall|i: int|
            0 <= i < states.len() && (#[trigger] states[i]).repo.name@ == name implies named(
            states,
        ).contains_key(name) by {
            if i < last {
                assert(rest[i].repo.name@ == name);
            }
        }
        assert forall|i: int|
            0 <= i < states.len() && (#[trigger] states[i]).repo.name@ == name && (forall|j: int|
                i < j < states.len() ==> (#[trigger] states[j]).repo.name@ != name) implies named(
            states,
        )[name] == states[i] by {
            if i < last {
                assert(states[last].repo.name@ != name);
                assert(rest[i].repo.name@ == name);
                assert forall|j: int| i < j < rest.len() implies (#[trigger] rest[j]).repo.name@ != name by {
                    assert(rest[j] == states[j]);
                }
            }
        }
    }
}

} // verus!
