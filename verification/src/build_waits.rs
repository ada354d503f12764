//! Builds that wait for each other, and that they never do so in a circle.

use vstd::prelude::*;
use crate::build_laws::{first_stand, held_together, law_locks_of_a_build, stand_at, Stand};
use crate::dependencies::{acyclic, depends_on, law_dependencies_pass_on};
use crate::hb_state::{graph, law_builds_get_all_relations, transient, HbState};
use crate::repo_build::{BuildAnswer, BuildCall, BuildNext, UpdateView};
use crate::repository::listed;
use crate::text::Text;

verus! {

/// A build of a repository stands somewhere, after whatever answers.
pub open spec fn is_build_of(
    state: HbState,
    name: Text,
    s: Stand,
    update: Option<UpdateView>,
    replies: Seq<BuildAnswer>,
) -> bool {
    s == stand_at(
        first_stand(
            listed(state.transient_dependencies@, name),
            listed(state.transient_dependents@, name),
            update,
        ),
        replies,
    )
}

/// Builds of some repositories, one of each, that hold their locks at the same
/// time.
pub open spec fn side_by_side(state: HbState, builds: Map<Text, Stand>) -> bool {
    &&& forall|n: Text| #[trigger] builds.contains_key(n) ==> {
        &&& state.repos@.contains_key(n)
        &&& exists|update: Option<UpdateView>, replies: Seq<BuildAnswer>|
            is_build_of(state, n, builds[n], update, replies)
    }
    &&& forall|a: Text, b: Text| #[trigger] builds.contains_key(a) && #[trigger] builds.contains_key(b)
        && a != b ==> held_together(a, builds[a].locks, b, builds[b].locks)
}

/// A build waits for the cache of its own repository.
pub open spec fn waits_for_own(s: Stand) -> bool {
    s.next matches BuildNext::Perform { call } && call is LockWrite
}

/// A build holds the cache of its own repository for writing, or waits for it.
pub open spec fn is_writer(s: Stand) -> bool {
    s.locks.write || waits_for_own(s)
}

/// A build is locking the caches of its dependents, a given one among them.
pub open spec fn locks_dependent(s: Stand, name: Text) -> bool {
    match s.next {
        BuildNext::Perform { call: BuildCall::ReadDependents { names } } => names.contains(name),
        _ => false,
    }
}

/// A build waits for what another one holds or has to do first. A lock for
/// reading waits for whoever holds the lock for writing or waits for it; a lock
/// for writing waits for whoever holds the lock for reading, or is about to.
pub open spec fn waits_for(a: Text, of_a: Stand, b: Text, of_b: Stand) -> bool {
    of_a.next matches BuildNext::Perform { call } && match call {
        BuildCall::AwaitBuilt { name } => name == b,
        BuildCall::PassPriority { name } => name == b && of_b.locks.priority,
        BuildCall::Read { name } => name == b && is_writer(of_b),
        BuildCall::LockWrite => of_b.locks.reads.contains(a) || locks_dependent(of_b, a),
        BuildCall::ReadDependents { names } => names.contains(b) && is_writer(of_b),
        _ => false,
    }
}

/// A build waits for one of its dependencies.
spec fn waits_for_dependency(s: Stand) -> bool {
    s.next matches BuildNext::Perform { call } && (call is AwaitBuilt || call is PassPriority
        || call is Read)
}

/// What is known of the locks of a build and of another repository.
proof fn lemma_locks(state: HbState, builds: Map<Text, Stand>, n: Text, x: Text)
    requires
        state.wf(),
        side_by_side(state, builds),
        builds.contains_key(n),
        state.repos@.contains_key(x),
    ensures
        ({
            let g = graph(state.repos);
            let s = builds[n];
            &&& s.locks.reads.contains(x) ==> depends_on(g, n, x) || s.locks.write && depends_on(
                g,
                x,
                n,
            )
            &&& is_writer(s) && depends_on(g, n, x) ==> s.locks.reads.contains(x)
            &&& s.next matches BuildNext::Perform { call } ==> match call {
                BuildCall::AwaitBuilt { name }
                | BuildCall::PassPriority { name }
                | BuildCall::Read { name } => {
                    &&& name == x ==> depends_on(g, n, x)
                    &&& s.locks.reads.len() == 0
                    &&& !s.locks.write
                },
                BuildCall::LockWrite => !s.locks.write,
                BuildCall::ReadDependents { names } => {
                    &&& s.locks.write
                    &&& names.contains(x) ==> depends_on(g, x, n)
                },
                _ => true,
            }
        }),
{
    let s = builds[n];
    let (update, replies) = choose|update: Option<UpdateView>, replies: Seq<BuildAnswer>|
        is_build_of(state, n, s, update, replies);
    let dependencies = listed(state.transient_dependencies@, n);
    let dependents = listed(state.transient_dependents@, n);
    law_locks_of_a_build(dependencies, dependents, update, replies, x);
    law_builds_get_all_relations(state, n, x);
    law_builds_get_all_relations(state, x, n);
    let g = graph(state.repos);
    assert(g.contains_key(n));
    assert(g.contains_key(x));
    assert(transient(g)[n].contains(x) == depends_on(g, n, x));
    assert(transient(g)[x].contains(n) == depends_on(g, x, n));
}

/// A build that waits for its dependents waits for no other build: whoever could
/// keep one of them would have to hold the cache that the build holds.
proof fn lemma_dependents_are_free(state: HbState, builds: Map<Text, Stand>, a: Text, b: Text)
    requires
        state.wf(),
        side_by_side(state, builds),
        builds.contains_key(a),
        builds.contains_key(b),
        builds[a].next matches BuildNext::Perform { call } && call is ReadDependents,
    ensures
        !waits_for(a, builds[a], b, builds[b]),
{
    let g = graph(state.repos);
    lemma_locks(state, builds, a, b);
    lemma_locks(state, builds, b, a);
    if waits_for(a, builds[a], b, builds[b]) {
        assert(depends_on(g, b, a));
        if a == b {
            assert(!depends_on(g, a, a));
        }
        assert(held_together(a, builds[a].locks, b, builds[b].locks));
    }
}

/// Where one build waits for another that itself waits, either both wait for
/// dependencies, and the other is a dependency of the first; or the other waits
/// for its own cache, and so does the first, which is then a dependency of it,
/// or the first waits for a dependency, which the other is.
proof fn lemma_wait(state: HbState, builds: Map<Text, Stand>, a: Text, b: Text, c: Text)
    requires
        state.wf(),
        side_by_side(state, builds),
        builds.contains_key(a),
        builds.contains_key(b),
        builds.contains_key(c),
        waits_for(a, builds[a], b, builds[b]),
        waits_for(b, builds[b], c, builds[c]),
    ensures
        ({
            let g = graph(state.repos);
            ||| waits_for_dependency(builds[a]) && depends_on(g, a, b)
            ||| waits_for_own(builds[a]) && waits_for_own(builds[b]) && depends_on(g, b, a)
        }),
{
    lemma_locks(state, builds, a, b);
    lemma_locks(state, builds, b, a);
    if builds[a].next->call is ReadDependents {
        lemma_dependents_are_free(state, builds, a, b);
    }
    if builds[b].next->call is ReadDependents {
        lemma_dependents_are_free(state, builds, b, c);
    }
}

/// Builds that wait, each for the next one.
pub open spec fn is_queue(builds: Map<Text, Stand>, names: Seq<Text>) -> bool {
    forall|i: int|
        #![trigger names[i]]
        0 <= i < names.len() ==> builds.contains_key(names[i]) && (i + 1 < names.len() ==> waits_for(
            names[i],
            builds[names[i]],
            names[i + 1],
            builds[names[i + 1]],
        ))
}

/// In a queue whose last build waits for yet another, a build that waits for its
/// own cache is followed by such builds only, each of which depends on it.
proof fn lemma_queue_of_own(
    state: HbState,
    builds: Map<Text, Stand>,
    names: Seq<Text>,
    i: int,
    after: Text,
)
    requires
        state.wf(),
        side_by_side(state, builds),
        is_queue(builds, names),
        0 <= i < names.len(),
        builds.contains_key(after),
        waits_for(names.last(), builds[names.last()], after, builds[after]),
        waits_for_own(builds[names[0]]),
    ensures
        waits_for_own(builds[names[i]]),
        i > 0 ==> depends_on(graph(state.repos), names[i], names[0]),
    decreases i,
{
    if i > 0 {
        lemma_queue_of_own(state, builds, names, i - 1, after);
        let a = names[i - 1];
        let b = names[i];
        let c = if i + 1 < names.len() {
            names[i + 1]
        } else {
            after
        };
        assert(waits_for(names[i - 1], builds[names[i - 1]], names[i - 1 + 1], builds[names[i - 1 + 1]]));
        assert(builds.contains_key(names[i]));
        if i + 1 < names.len() {
            assert(builds.contains_key(names[i + 1]));
        }
        assert(waits_for(b, builds[b], c, builds[c]));
        lemma_wait(state, builds, a, b, c);
        if i > 1 {
            law_dependencies_pass_on(graph(state.repos), b, a, names[0]);
        }
    }
}

/// In a queue of builds none of which waits for its own cache, the first depends
/// on all others.
proof fn lemma_queue_of_dependencies(
    state: HbState,
    builds: Map<Text, Stand>,
    names: Seq<Text>,
    i: int,
    after: Text,
)
    requires
        state.wf(),
        side_by_side(state, builds),
        is_queue(builds, names),
        0 < i < names.len(),
        builds.contains_key(after),
        waits_for(names.last(), builds[names.last()], after, builds[after]),
        forall|j: int| 0 <= j < names.len() ==> !waits_for_own(builds[#[trigger] names[j]]),
    ensures
        depends_on(graph(state.repos), names[0], names[i]),
    decreases i,
{
    let a = names[i - 1];
    let b = names[i];
    let c = if i + 1 < names.len() {
        names[i + 1]
    } else {
        after
    };
    assert(waits_for(names[i - 1], builds[names[i - 1]], names[i - 1 + 1], builds[names[i - 1 + 1]]));
    assert(builds.contains_key(names[i]));
    if i + 1 < names.len() {
        assert(builds.contains_key(names[i + 1]));
    }
    assert(waits_for(b, builds[b], c, builds[c]));
    lemma_wait(state, builds, a, b, c);
    assert(!waits_for_own(builds[names[i - 1]]));
    if i > 1 {
        lemma_queue_of_dependencies(state, builds, names, i - 1, after);
        law_dependencies_pass_on(graph(state.repos), names[0], a, b);
    }
}

/// Builds never wait for each other in a circle: in a queue of builds, each of
/// which waits for the next one, no build stands both first and last.
pub proof fn law_builds_never_wait_in_a_circle(
    state: HbState,
    builds: Map<Text, Stand>,
    names: Seq<Text>,
)
    requires
        state.wf(),
        side_by_side(state, builds),
        is_queue(builds, names),
        names.len() > 1,
    ensures
        names[0] != names.last(),
{
    let g = graph(state.repos);
    let last = names.len() - 1;
    if names[0] == names[last] {
        let after = names[1];
        assert(waits_for(names[0], builds[names[0]], names[1], builds[names[1]]));
        assert(builds.contains_key(names[1]));
        assert(builds.contains_key(names[last]));
        assert(names.last() == names[last]);
        if exists|j: int| 0 <= j < names.len() && waits_for_own(builds[#[trigger] names[j]]) {
            let j = choose|j: int| 0 <= j < names.len() && waits_for_own(builds[#[trigger] names[j]]);
            let tail = names.skip(j);
            assert forall|i: int| #![trigger tail[i]] 0 <= i < tail.len() implies builds.contains_key(
                tail[i],
            ) && (i + 1 < tail.len() ==> waits_for(
                tail[i],
                builds[tail[i]],
                tail[i + 1],
                builds[tail[i + 1]],
            )) by {
                assert(tail[i] == names[j + i]);
                if i + 1 < tail.len() {
                    assert(tail[i + 1] == names[j + i + 1]);
                }
            }
            assert(tail[0] == names[j]);
            assert(tail.last() == names[last]);
            lemma_queue_of_own(state, builds, tail, tail.len() - 1, after);
            assert(waits_for_own(builds[names[0]]));
            lemma_queue_of_own(state, builds, names, last, after);
        } else {
            lemma_queue_of_dependencies(state, builds, names, last, after);
        }
        assert(depends_on(g, names[0], names[0]));
        assert(acyclic(g));
    }
}

/// A build that holds the cache of its repository waits for no other build: from
/// there on it gets all that it needs.
pub proof fn law_builds_with_their_cache_wait_for_none(
    state: HbState,
    builds: Map<Text, Stand>,
    a: Text,
    b: Text,
)
    requires
        state.wf(),
        side_by_side(state, builds),
        builds.contains_key(a),
        builds.contains_key(b),
        builds[a].locks.write,
    ensures
        !waits_for(a, builds[a], b, builds[b]),
{
    lemma_locks(state, builds, a, b);
    if waits_for(a, builds[a], b, builds[b]) {
        if builds[a].next->call is ReadDependents {
            lemma_dependents_are_free(state, builds, a, b);
        }
    }
}

} // verus!
