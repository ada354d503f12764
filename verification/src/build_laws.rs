//! What holds of the build of a repository as a whole: which locks it holds when,
//! and in which order it does what it does.

use vstd::prelude::*;
use vstd::multiset::Multiset;
use crate::git_job::GitJobView;
use crate::repo_build::{
    all_well, build_answered, build_begun, build_dirty, build_failed, build_mark, build_next_dependency,
    build_perform, BuildAct, BuildAnswer, BuildCall, BuildError, BuildNext, BuildPhase, BuildReply,
    BuildStep, BuildView, UpdateView,
};
use crate::text::Text;

verus! {

/// The locks that a build holds: the priority lock and the cache of the
/// repository itself, and the caches of others.
pub struct Locks {
    pub priority: bool,
    pub write: bool,
    pub reads: Seq<Text>,
}

/// No lock at all.
pub open spec fn no_locks() -> Locks {
    Locks { priority: false, write: false, reads: Seq::empty() }
}

/// The locks that are held after a call has been answered.
pub open spec fn locks_after(l: Locks, call: BuildAct, reply: BuildAnswer) -> Locks {
    match (call, reply) {
        (BuildCall::LockPriority, BuildReply::Done) => Locks { priority: true, ..l },
        (BuildCall::ReleasePriority, BuildReply::Done) => Locks { priority: false, ..l },
        (BuildCall::LockWrite, BuildReply::Done) => Locks { write: true, ..l },
        (BuildCall::TryRead { name }, BuildReply::Answer { yes: true }) => Locks {
            reads: l.reads.push(name),
            ..l
        },
        (BuildCall::Read { name }, BuildReply::Done) => Locks { reads: l.reads.push(name), ..l },
        (BuildCall::ReleaseReads, BuildReply::Done) => Locks { reads: Seq::empty(), ..l },
        (BuildCall::ReadDependents { names }, BuildReply::Done) => Locks {
            reads: l.reads + names,
            ..l
        },
        _ => l,
    }
}

/// Where a build stands: its state, what it is to do next, its locks, and the
/// dependents that it has noted as ones to be built, in their caches, and marked
/// as ones that need a build.
pub struct Stand {
    pub state: BuildView,
    pub next: BuildStep,
    pub locks: Locks,
    pub dirtied: Seq<Text>,
    pub marked: Seq<Text>,
}

/// Where a build stands after one more answer. Where that ends the build, all
/// locks are let go. Once it has ended, nothing changes.
pub open spec fn stand_after(s: Stand, reply: BuildAnswer) -> Stand {
    match s.next {
        BuildNext::Perform { call } => {
            let at = build_answered(s.state, reply);
            Stand {
                state: at.0,
                next: at.1,
                locks: if at.1 is Perform {
                    locks_after(s.locks, call, reply)
                } else {
                    no_locks()
                },
                dirtied: match (call, reply) {
                    (BuildCall::DirtyDependent { name }, BuildReply::Done) => s.dirtied.push(name),
                    _ => s.dirtied,
                },
                marked: match (call, reply) {
                    (BuildCall::MarkDependent { name }, BuildReply::Done) => s.marked.push(name),
                    _ => s.marked,
                },
            }
        },
        _ => s,
    }
}

/// Where a build stands at first.
pub open spec fn first_stand(
    dependencies: Seq<Text>,
    dependents: Seq<Text>,
    update: Option<UpdateView>,
) -> Stand {
    let at = build_begun(dependencies, dependents, update);
    Stand {
        state: at.0,
        next: at.1,
        locks: no_locks(),
        dirtied: Seq::empty(),
        marked: Seq::empty(),
    }
}

/// Where a build stands after the answers to its calls in turn.
pub open spec fn stand_at(s: Stand, replies: Seq<BuildAnswer>) -> Stand
    decreases replies.len(),
{
    if replies.len() == 0 {
        s
    } else {
        stand_at(stand_after(s, replies[0]), replies.skip(1))
    }
}

/// The dependency that is being locked.
pub open spec fn current<J>(phase: BuildPhase<Text, J>) -> Option<Text> {
    match phase {
        BuildPhase::Asking { dep } => Some(dep),
        BuildPhase::ReleasingToAwait { dep } => Some(dep),
        BuildPhase::Awaiting { dep } => Some(dep),
        BuildPhase::TryingPriority { dep } => Some(dep),
        BuildPhase::ReleasingToPass { dep } => Some(dep),
        BuildPhase::Passing { dep } => Some(dep),
        BuildPhase::TryingRead { dep } => Some(dep),
        BuildPhase::ReleasingToRead { dep } => Some(dep),
        BuildPhase::Reading { dep } => Some(dep),
        _ => None,
    }
}

/// The dependencies that a build still has to lock, is locking, and has locked.
pub open spec fn accounted(s: BuildView) -> Multiset<Text> {
    let rest = s.pending.to_multiset().add(s.held.to_multiset());
    match current(s.phase) {
        Some(dep) => rest.insert(dep),
        None => rest,
    }
}

/// What is to be done next is what the phase waits for.
spec fn phase_fits(s: Stand) -> bool {
    match s.state.phase {
        BuildPhase::LockingPriority => s.next == (BuildStep::Perform { call: BuildCall::LockPriority }),
        BuildPhase::Asking { dep } => s.next == (BuildStep::Perform {
            call: BuildCall::AskNeedsBuild { name: dep },
        }),
        BuildPhase::ReleasingToAwait { dep } => s.next == (BuildStep::Perform {
            call: BuildCall::ReleaseReads,
        }),
        BuildPhase::Awaiting { dep } => s.next == (BuildStep::Perform {
            call: BuildCall::AwaitBuilt { name: dep },
        }),
        BuildPhase::TryingPriority { dep } => s.next == (BuildStep::Perform {
            call: BuildCall::TryPriority { name: dep },
        }),
        BuildPhase::ReleasingToPass { dep } => s.next == (BuildStep::Perform {
            call: BuildCall::ReleaseReads,
        }),
        BuildPhase::Passing { dep } => s.next == (BuildStep::Perform {
            call: BuildCall::PassPriority { name: dep },
        }),
        BuildPhase::TryingRead { dep } => s.next == (BuildStep::Perform {
            call: BuildCall::TryRead { name: dep },
        }),
        BuildPhase::ReleasingToRead { dep } => s.next == (BuildStep::Perform {
            call: BuildCall::ReleaseReads,
        }),
        BuildPhase::Reading { dep } => s.next == (BuildStep::Perform {
            call: BuildCall::Read { name: dep },
        }),
        BuildPhase::LockingWrite => s.next == (BuildStep::Perform { call: BuildCall::LockWrite }),
        BuildPhase::ReleasingPriority => s.next == (BuildStep::Perform {
            call: BuildCall::ReleasePriority,
        }),
        BuildPhase::Dirtying => s.next matches BuildNext::Perform { call } && call is DirtyDependent,
        BuildPhase::ReadingDependents => s.next == (BuildStep::Perform {
            call: BuildCall::ReadDependents { names: s.state.dependents },
        }),
        BuildPhase::Marking => s.next matches BuildNext::Perform { call } && (call is MarkBuilt
            || call is MarkDependent),
        BuildPhase::Updating { .. } => s.next matches BuildNext::Perform { call } && call is Git,
        BuildPhase::Running => s.next == (BuildStep::Perform { call: BuildCall::RunContainers }),
        BuildPhase::Clearing => s.next == (BuildStep::Perform { call: BuildCall::ClearDirty }),
        BuildPhase::Ended => !(s.next is Perform),
    }
}

/// The locks are those that the phase goes with.
spec fn locks_fit(s: Stand) -> bool {
    match s.state.phase {
        BuildPhase::LockingPriority => s.locks == no_locks() && s.state.held.len() == 0,
        BuildPhase::Awaiting { .. } | BuildPhase::Passing { .. } | BuildPhase::Reading { .. } => {
            s.locks == (Locks { priority: true, write: false, reads: Seq::empty() })
                && s.state.held.len() == 0
        },
        BuildPhase::Asking { .. }
        | BuildPhase::ReleasingToAwait { .. }
        | BuildPhase::TryingPriority { .. }
        | BuildPhase::ReleasingToPass { .. }
        | BuildPhase::TryingRead { .. }
        | BuildPhase::ReleasingToRead { .. } => s.locks == (Locks {
            priority: true,
            write: false,
            reads: s.state.held,
        }),
        BuildPhase::LockingWrite => s.state.pending.len() == 0 && s.locks == (Locks {
            priority: true,
            write: false,
            reads: s.state.held,
        }),
        BuildPhase::ReleasingPriority => s.state.pending.len() == 0 && s.locks == (Locks {
            priority: true,
            write: true,
            reads: s.state.held,
        }),
        BuildPhase::Dirtying
        | BuildPhase::ReadingDependents => s.state.pending.len() == 0 && s.locks == (Locks {
            priority: false,
            write: true,
            reads: s.state.held,
        }),
        BuildPhase::Marking
        | BuildPhase::Updating { .. }
        | BuildPhase::Running
        | BuildPhase::Clearing => s.state.pending.len() == 0 && s.locks == (Locks {
            priority: false,
            write: true,
            reads: s.state.held + s.state.dependents,
        }),
        BuildPhase::Ended => s.locks == no_locks(),
    }
}

/// The dependents have been dirtied and marked as far as the phase goes with.
spec fn notes_fit(s: Stand) -> bool {
    let all = s.state.dependents;
    match s.state.phase {
        BuildPhase::Dirtying => {
            &&& s.dirtied.push(s.next->call->DirtyDependent_name) + s.state.clean == all
            &&& s.marked.len() == 0
        },
        BuildPhase::ReadingDependents => s.dirtied == all && s.marked.len() == 0,
        BuildPhase::Marking => {
            &&& s.dirtied == all
            &&& match s.next->call {
                BuildCall::MarkDependent { name } => s.marked.push(name) + s.state.unmarked == all,
                _ => s.marked + s.state.unmarked == all,
            }
        },
        BuildPhase::Updating { .. } | BuildPhase::Running | BuildPhase::Clearing => {
            s.dirtied == all && s.marked == all
        },
        BuildPhase::Ended => s.next is Finished ==> s.dirtied == all && s.marked == all,
        _ => s.dirtied.len() == 0 && s.marked.len() == 0,
    }
}

/// What holds wherever a build stands.
spec fn stands_well(s: Stand, dependencies: Seq<Text>, dependents: Seq<Text>) -> bool {
    &&& phase_fits(s)
    &&& locks_fit(s)
    &&& notes_fit(s)
    &&& s.state.dependents == dependents
    &&& !(s.state.phase is Ended) ==> accounted(s.state) == dependencies.to_multiset()
}

/// Going on with the next dependency loses none.
proof fn lemma_next_accounted(s: BuildView)
    requires
        current(s.phase) is None,
    ensures
        accounted(build_next_dependency(s).0) == accounted(s),
{
    broadcast use vstd::seq_lib::group_to_multiset_ensures;

    if s.pending.len() > 0 {
        let rest = s.pending.drop_last();
        assert(s.pending =~= rest.push(s.pending.last()));
        assert(accounted(build_next_dependency(s).0) =~= accounted(s));
    }
}

/// A dependency that is locked after the current one is not lost.
proof fn lemma_locked_accounted(s: BuildView, dep: Text)
    requires
        current(s.phase) == Some(dep),
    ensures
        accounted(build_next_dependency(BuildView { held: s.held.push(dep), ..s }).0) == accounted(s),
{
    broadcast use vstd::seq_lib::group_to_multiset_ensures;

    let t = BuildView { held: s.held.push(dep), phase: BuildPhase::Ended, ..s };
    lemma_next_accounted(t);
    assert(build_next_dependency(t).0 == build_next_dependency(
        BuildView { held: s.held.push(dep), ..s },
    ).0);
    assert(accounted(t) =~= accounted(s));
}

/// Letting go all dependencies loses none.
proof fn lemma_released_accounted(s: BuildView, phase: BuildPhase<Text, GitJobView>)
    requires
        current(s.phase) == current(phase),
    ensures
        accounted(
            BuildView { pending: s.pending + s.held, held: Seq::empty(), phase, ..s },
        ) == accounted(s),
{
    broadcast use vstd::seq_lib::group_to_multiset_ensures;

    vstd::seq_lib::lemma_multiset_commutative(s.pending, s.held);
    let t = BuildView { pending: s.pending + s.held, held: Seq::empty(), phase, ..s };
    assert(accounted(t) =~= accounted(s));
}

/// Going on with the next dependent to be noted leaves none out.
proof fn lemma_dirty_fits(t: BuildView, dirtied: Seq<Text>)
    requires
        dirtied + t.clean == t.dependents,
    ensures
        t.clean.len() > 0 ==> dirtied.push(t.clean[0]) + t.clean.skip(1) == t.dependents,
        t.clean.len() == 0 ==> dirtied == t.dependents,
{
    if t.clean.len() > 0 {
        assert(dirtied.push(t.clean[0]) + t.clean.skip(1) =~= dirtied + t.clean);
    } else {
        assert(dirtied + t.clean =~= dirtied);
    }
}

/// One more answer keeps what holds.
proof fn lemma_stands_well(
    s: Stand,
    reply: BuildAnswer,
    dependencies: Seq<Text>,
    dependents: Seq<Text>,
)
    requires
        stands_well(s, dependencies, dependents),
    ensures
        stands_well(stand_after(s, reply), dependencies, dependents),
{
    let t = s.state;
    match (t.phase, reply) {
        (BuildPhase::LockingPriority, BuildReply::Done) => {
            lemma_next_accounted(t);
            assert(t.held =~= Seq::<Text>::empty());
        },
        (BuildPhase::ReleasingToAwait { dep }, BuildReply::Done) => {
            lemma_released_accounted(t, BuildPhase::Awaiting { dep });
        },
        (BuildPhase::ReleasingToPass { dep }, BuildReply::Done) => {
            lemma_released_accounted(t, BuildPhase::Passing { dep });
        },
        (BuildPhase::ReleasingToRead { dep }, BuildReply::Done) => {
            lemma_released_accounted(t, BuildPhase::Reading { dep });
        },
        (BuildPhase::Awaiting { dep }, BuildReply::Done) => {
            assert(t.held =~= Seq::<Text>::empty());
        },
        (BuildPhase::Passing { dep }, BuildReply::Done) => {
            assert(t.held =~= Seq::<Text>::empty());
        },
        (BuildPhase::TryingRead { dep }, BuildReply::Answer { yes }) => {
            if yes {
                lemma_locked_accounted(t, dep);
            }
        },
        (BuildPhase::Reading { dep }, BuildReply::Done) => {
            lemma_locked_accounted(t, dep);
            assert(t.held =~= Seq::<Text>::empty());
        },
        (BuildPhase::ReleasingPriority, BuildReply::Done) => {
            assert(s.dirtied + t.dependents =~= t.dependents);
            lemma_dirty_fits(BuildView { clean: t.dependents, ..t }, s.dirtied);
        },
        (BuildPhase::Dirtying, BuildReply::Done) => {
            let name = s.next->call->DirtyDependent_name;
            lemma_dirty_fits(t, s.dirtied.push(name));
        },
        (BuildPhase::ReadingDependents, BuildReply::Done) => {
            assert(s.marked + t.dependents =~= t.dependents);
        },
        (BuildPhase::Marking, BuildReply::Done) => {
            let marked = match s.next->call {
                BuildCall::MarkDependent { name } => s.marked.push(name),
                _ => s.marked,
            };
            if t.unmarked.len() > 0 {
                assert(marked.push(t.unmarked[0]) + t.unmarked.skip(1) =~= marked + t.unmarked);
            } else {
                assert(marked + t.unmarked =~= marked);
            }
        },
        _ => {},
    }
}

/// What holds of a build at first holds wherever it comes to stand.
proof fn lemma_always_stands_well(
    s: Stand,
    replies: Seq<BuildAnswer>,
    dependencies: Seq<Text>,
    dependents: Seq<Text>,
)
    requires
        stands_well(s, dependencies, dependents),
    ensures
        stands_well(stand_at(s, replies), dependencies, dependents),
    decreases replies.len(),
{
    if replies.len() > 0 {
        lemma_stands_well(s, replies[0], dependencies, dependents);
        lemma_always_stands_well(
            stand_after(s, replies[0]),
            replies.skip(1),
            dependencies,
            dependents,
        );
    }
}

proof fn lemma_stands(
    dependencies: Seq<Text>,
    dependents: Seq<Text>,
    update: Option<UpdateView>,
    replies: Seq<BuildAnswer>,
)
    ensures
        stands_well(
            stand_at(first_stand(dependencies, dependents, update), replies),
            dependencies,
            dependents,
        ),
{
    broadcast use vstd::seq_lib::group_to_multiset_ensures;

    let s = first_stand(dependencies, dependents, update);
    assert(accounted(s.state) =~= dependencies.to_multiset());
    lemma_always_stands_well(s, replies, dependencies, dependents);
}

/// The source is touched, and the containers run, only while the repository
/// itself is locked for writing and all its dependencies and dependents are
/// locked for reading, so that none of them is being built.
pub proof fn law_build_under_all_locks(
    dependencies: Seq<Text>,
    dependents: Seq<Text>,
    update: Option<UpdateView>,
    replies: Seq<BuildAnswer>,
)
    ensures
        ({
            let s = stand_at(first_stand(dependencies, dependents, update), replies);
            s.next matches BuildNext::Perform { call } ==> (call is Git || call is RunContainers
                || call is ClearDirty || call is MarkBuilt || call is MarkDependent) ==> {
                &&& s.locks.write
                &&& !s.locks.priority
                &&& s.locks.reads.to_multiset() == dependencies.to_multiset().add(
                    dependents.to_multiset(),
                )
            }
        }),
{
    broadcast use vstd::seq_lib::group_to_multiset_ensures;

    lemma_stands(dependencies, dependents, update, replies);
    let s = stand_at(first_stand(dependencies, dependents, update), replies);
    if let BuildNext::Perform { call } = s.next {
        if call is Git || call is RunContainers || call is ClearDirty || call is MarkBuilt
            || call is MarkDependent {
            vstd::seq_lib::lemma_multiset_commutative(s.state.held, dependents);
            assert(s.state.pending =~= Seq::<Text>::empty());
            assert(accounted(s.state) =~= s.state.held.to_multiset());
        }
    }
}

/// The build works on the source or runs containers.
pub open spec fn is_at_work(s: Stand) -> bool {
    s.next matches BuildNext::Perform { call } && (call is Git || call is RunContainers)
}

/// The locks of the builds of two repositories can be held at the same time: no
/// cache is locked for writing by one of them while the other has locked it.
pub open spec fn held_together(a: Text, of_a: Locks, b: Text, of_b: Locks) -> bool {
    &&& !(of_a.write && of_b.reads.contains(a))
    &&& !(of_b.write && of_a.reads.contains(b))
    &&& !(of_a.write && of_b.write && a == b)
}

/// Two repositories of which one is a dependency or a dependent of the other are
/// never built at the same time, whatever came before.
pub proof fn law_related_repositories_are_not_built_together(
    a: Text,
    dependencies: Seq<Text>,
    dependents: Seq<Text>,
    update: Option<UpdateView>,
    replies: Seq<BuildAnswer>,
    b: Text,
    other: Stand,
    other_dependencies: Seq<Text>,
    other_dependents: Seq<Text>,
    other_update: Option<UpdateView>,
    other_replies: Seq<BuildAnswer>,
)
    requires
        dependencies.contains(b) || dependents.contains(b),
        other == stand_at(
            first_stand(other_dependencies, other_dependents, other_update),
            other_replies,
        ),
        held_together(
            a,
            stand_at(first_stand(dependencies, dependents, update), replies).locks,
            b,
            other.locks,
        ),
    ensures
        !(is_at_work(stand_at(first_stand(dependencies, dependents, update), replies)) && is_at_work(
            other,
        )),
{
    broadcast use vstd::seq_lib::group_to_multiset_ensures;

    let s = stand_at(first_stand(dependencies, dependents, update), replies);
    if is_at_work(s) && is_at_work(other) {
        law_build_under_all_locks(dependencies, dependents, update, replies);
        law_build_under_all_locks(
            other_dependencies,
            other_dependents,
            other_update,
            other_replies,
        );
        assert(s.locks.reads.to_multiset().count(b) > 0) by {
            if dependencies.contains(b) {
                assert(dependencies.to_multiset().count(b) > 0);
            } else {
                assert(dependents.to_multiset().count(b) > 0);
            }
        }
        assert(s.locks.reads.contains(b));
    }
}

/// A dependency that needs a build is waited for before its locks are tried.
pub proof fn law_dependencies_are_built_first(s: BuildView, dep: Text)
    requires
        s.phase == (BuildPhase::<Text, GitJobView>::Asking { dep }),
    ensures
        ({
            let released = build_answered(s, BuildReply::Answer { yes: true });
            let waiting = build_answered(released.0, BuildReply::Done);
            let built = build_answered(waiting.0, BuildReply::Done);
            &&& released.1 == (BuildStep::Perform { call: BuildCall::ReleaseReads })
            &&& waiting.1 == (BuildStep::Perform { call: BuildCall::AwaitBuilt { name: dep } })
            &&& built.1 == (BuildStep::Perform { call: BuildCall::TryPriority { name: dep } })
        }),
{
}

/// The locks of a build and what it waits for. It locks nothing for reading but
/// its dependencies and, once it holds its own cache, its dependents. Holding
/// that, or waiting for it, it holds all its dependencies. Where it waits for a
/// dependency, it holds none, and that is one of its dependencies.
pub proof fn law_locks_of_a_build(
    dependencies: Seq<Text>,
    dependents: Seq<Text>,
    update: Option<UpdateView>,
    replies: Seq<BuildAnswer>,
    x: Text,
)
    ensures
        ({
            let s = stand_at(first_stand(dependencies, dependents, update), replies);
            &&& s.locks.reads.contains(x) ==> dependencies.contains(x) || s.locks.write
                && dependents.contains(x)
            &&& s.locks.write && dependencies.contains(x) ==> s.locks.reads.contains(x)
            &&& s.next matches BuildNext::Perform { call } ==> match call {
                BuildCall::AwaitBuilt { name }
                | BuildCall::PassPriority { name }
                | BuildCall::Read { name } => {
                    &&& dependencies.contains(name)
                    &&& s.locks.reads.len() == 0
                    &&& !s.locks.write
                },
                BuildCall::LockWrite => {
                    &&& !s.locks.write
                    &&& dependencies.contains(x) ==> s.locks.reads.contains(x)
                },
                BuildCall::ReadDependents { names } => {
                    &&& s.locks.write
                    &&& names == dependents
                },
                _ => true,
            }
        }),
{
    broadcast use vstd::seq_lib::group_to_multiset_ensures;

    lemma_stands(dependencies, dependents, update, replies);
    let s = stand_at(first_stand(dependencies, dependents, update), replies);
    let t = s.state;
    if !(t.phase is Ended) {
        if t.held.contains(x) {
            assert(t.held.to_multiset().count(x) > 0);
            assert(accounted(t).count(x) > 0);
            assert(dependencies.contains(x));
        }
        if let Some(dep) = current(t.phase) {
            assert(accounted(t).count(dep) > 0);
            assert(dependencies.contains(dep));
        }
        if dependencies.contains(x) && t.pending.len() == 0 && current(t.phase) is None {
            assert(dependencies.to_multiset().count(x) > 0);
            assert(t.pending =~= Seq::<Text>::empty());
            assert(t.held.to_multiset().count(x) > 0);
            assert(t.held.contains(x));
        }
        if s.locks.reads == t.held + t.dependents {
            if s.locks.reads.contains(x) {
                let i = choose|i: int| 0 <= i < s.locks.reads.len() && s.locks.reads[i] == x;
                if i < t.held.len() {
                    assert(t.held[i] == x);
                } else {
                    assert(t.dependents[i - t.held.len()] == x);
                }
            }
            if t.held.contains(x) {
                let i = choose|i: int| 0 <= i < t.held.len() && t.held[i] == x;
                assert(s.locks.reads[i] == x);
            }
        }
    }
}

/// While a build holds the cache of its repository for writing, no build of a
/// dependency of it holds that of the dependency. So what a build notes in its
/// dependents is not taken back by a build of theirs that is under way.
pub proof fn law_dependency_and_dependent_never_both_hold_their_caches(
    a: Text,
    dependencies: Seq<Text>,
    dependents: Seq<Text>,
    update: Option<UpdateView>,
    replies: Seq<BuildAnswer>,
    b: Text,
    of_b: Locks,
)
    requires
        dependencies.contains(b),
        held_together(
            a,
            stand_at(first_stand(dependencies, dependents, update), replies).locks,
            b,
            of_b,
        ),
    ensures
        !(stand_at(first_stand(dependencies, dependents, update), replies).locks.write && of_b.write),
{
    law_locks_of_a_build(dependencies, dependents, update, replies, b);
}

/// Where the build waits for a dependency, it holds no lock but its own priority
/// lock: a dependency is never kept from its build by one that waits for it.
pub proof fn law_nothing_is_held_while_waiting_for_a_dependency(
    dependencies: Seq<Text>,
    dependents: Seq<Text>,
    update: Option<UpdateView>,
    replies: Seq<BuildAnswer>,
)
    ensures
        ({
            let s = stand_at(first_stand(dependencies, dependents, update), replies);
            s.next matches BuildNext::Perform { call } ==> (call is AwaitBuilt
                || call is PassPriority || call is Read) ==> s.locks == (Locks {
                priority: true,
                write: false,
                reads: Seq::empty(),
            })
        }),
{
    lemma_stands(dependencies, dependents, update, replies);
}

/// While dependencies are being locked, each of them is locked, being locked or
/// still to be locked, and no other.
pub proof fn law_no_dependency_is_lost(
    dependencies: Seq<Text>,
    dependents: Seq<Text>,
    update: Option<UpdateView>,
    replies: Seq<BuildAnswer>,
)
    ensures
        ({
            let s = stand_at(first_stand(dependencies, dependents, update), replies);
            s.next is Perform ==> accounted(s.state) == dependencies.to_multiset()
        }),
{
    lemma_stands(dependencies, dependents, update, replies);
}

/// The repository is locked for writing only after all its dependencies are
/// locked for reading, and its priority lock is held until then.
pub proof fn law_dependencies_are_locked_first(
    dependencies: Seq<Text>,
    dependents: Seq<Text>,
    update: Option<UpdateView>,
    replies: Seq<BuildAnswer>,
)
    ensures
        ({
            let s = stand_at(first_stand(dependencies, dependents, update), replies);
            s.next matches BuildNext::Perform { call } ==> call is LockWrite ==> {
                &&& s.locks.priority
                &&& !s.locks.write
                &&& s.locks.reads.to_multiset() == dependencies.to_multiset()
            }
        }),
{
    broadcast use vstd::seq_lib::group_to_multiset_ensures;

    lemma_stands(dependencies, dependents, update, replies);
    let s = stand_at(first_stand(dependencies, dependents, update), replies);
    if let BuildNext::Perform { call } = s.next {
        if call is LockWrite {
            assert(s.state.pending =~= Seq::<Text>::empty());
            assert(accounted(s.state) =~= s.state.held.to_multiset());
        }
    }
}

/// Before the source is touched or a container run, and so wherever a build is
/// finished, all dependents have been noted in their caches as ones to be built,
/// and marked as ones that need a build, each once and in their order. While
/// they are being marked, they have all been noted.
pub proof fn law_dependents_are_dirtied(
    dependencies: Seq<Text>,
    dependents: Seq<Text>,
    update: Option<UpdateView>,
    replies: Seq<BuildAnswer>,
)
    ensures
        ({
            let s = stand_at(first_stand(dependencies, dependents, update), replies);
            &&& s.next is Finished ==> s.dirtied == dependents && s.marked == dependents
            &&& s.next matches BuildNext::Perform { call } ==> {
                &&& call is Git || call is RunContainers || call is ClearDirty ==> s.dirtied
                    == dependents && s.marked == dependents
                &&& call is ReadDependents || call is MarkBuilt || call is MarkDependent ==> s.dirtied
                    == dependents
            }
        }),
{
    lemma_stands(dependencies, dependents, update, replies);
}

/// While a dependent is noted as one to be built, the repository itself is
/// locked for writing, all its dependencies are locked for reading, and no cache
/// of a dependent is held.
pub proof fn law_dependents_are_dirtied_under_locks(
    dependencies: Seq<Text>,
    dependents: Seq<Text>,
    update: Option<UpdateView>,
    replies: Seq<BuildAnswer>,
)
    ensures
        ({
            let s = stand_at(first_stand(dependencies, dependents, update), replies);
            s.next matches BuildNext::Perform { call } ==> call is DirtyDependent ==> {
                &&& s.locks.write
                &&& !s.locks.priority
                &&& s.locks.reads.to_multiset() == dependencies.to_multiset()
            }
        }),
{
    broadcast use vstd::seq_lib::group_to_multiset_ensures;

    lemma_stands(dependencies, dependents, update, replies);
    let s = stand_at(first_stand(dependencies, dependents, update), replies);
    if let BuildNext::Perform { call } = s.next {
        if call is DirtyDependent {
            assert(s.state.pending =~= Seq::<Text>::empty());
            assert(accounted(s.state) =~= s.state.held.to_multiset());
        }
    }
}

/// A build that has ended, finished or not, holds no lock.
pub proof fn law_ended_builds_hold_no_lock(
    dependencies: Seq<Text>,
    dependents: Seq<Text>,
    update: Option<UpdateView>,
    replies: Seq<BuildAnswer>,
)
    ensures
        ({
            let s = stand_at(first_stand(dependencies, dependents, update), replies);
            !(s.next is Perform) ==> s.locks == no_locks()
        }),
{
    lemma_stands(dependencies, dependents, update, replies);
}

/// The note that a repository is to be built is taken back only after the runs
/// of all its containers ended well.
pub proof fn law_dirty_until_built(s: BuildView, reply: BuildAnswer)
    requires
        build_answered(s, reply).1 == (BuildStep::Perform { call: BuildCall::ClearDirty }),
    ensures
        s.phase is Running,
        reply matches BuildReply::Runs { ended_well } && all_well(ended_well),
{
}

/// A build is finished only by taking that note back.
pub proof fn law_finished_is_clean(s: BuildView, reply: BuildAnswer)
    requires
        build_answered(s, reply).1 is Finished,
    ensures
        s.phase is Clearing,
{
}

/// A build that has ended stays ended.
pub proof fn law_ended_builds_stay_ended(s: BuildView, reply: BuildAnswer)
    requires
        s.phase is Ended,
    ensures
        build_answered(s, reply) == build_failed(s, BuildError::CallFailed),
{
}

/// As many answers that a call was carried out.
pub open spec fn all_carried_out(n: nat) -> Seq<BuildAnswer> {
    Seq::new(n, |i: int| BuildAnswer::Done)
}

/// The marks on some dependents.
pub open spec fn marks(names: Seq<Text>) -> Seq<BuildAct> {
    Seq::new(names.len(), |i: int| BuildAct::MarkDependent { name: names[i] })
}

/// The calls that a build makes, given the answers to its calls in turn, but for
/// the last, which is still to be answered.
pub open spec fn build_calls(at: (BuildView, BuildStep), replies: Seq<BuildAnswer>) -> Seq<BuildAct>
    decreases replies.len(),
{
    match at.1 {
        BuildNext::Perform { call } => if replies.len() == 0 {
            Seq::empty()
        } else {
            seq![call] + build_calls(build_answered(at.0, replies[0]), replies.skip(1))
        },
        _ => Seq::empty(),
    }
}

/// Where a build is after the answers to its calls in turn.
pub open spec fn build_outcome(at: (BuildView, BuildStep), replies: Seq<BuildAnswer>) -> (
    BuildView,
    BuildStep,
)
    decreases replies.len(),
{
    if replies.len() == 0 {
        at
    } else {
        build_outcome(build_answered(at.0, replies[0]), replies.skip(1))
    }
}

/// All dependents are marked, in their order. What follows is what follows where
/// there is none left.
proof fn lemma_marks(s: BuildView)
    ensures
        build_calls(build_mark(s), all_carried_out(s.unmarked.len())) == marks(s.unmarked),
        build_outcome(build_mark(s), all_carried_out(s.unmarked.len())) == build_mark(
            BuildView {
                unmarked: Seq::empty(),
                phase: if s.unmarked.len() == 0 {
                    s.phase
                } else {
                    BuildPhase::Marking
                },
                ..s
            },
        ),
    decreases s.unmarked.len(),
{
    let replies = all_carried_out(s.unmarked.len());
    let at = build_mark(s);
    if s.unmarked.len() == 0 {
        assert(s.unmarked =~= Seq::<Text>::empty());
        assert(build_calls(at, replies) =~= marks(s.unmarked));
    } else {
        let t = at.0;
        assert(build_answered(t, replies[0]) == build_mark(t));
        assert(replies.skip(1) =~= all_carried_out(t.unmarked.len()));
        lemma_marks(t);
        let first: BuildAct = BuildCall::MarkDependent { name: s.unmarked[0] };
        assert(seq![first] + marks(t.unmarked) =~= marks(s.unmarked));
    }
}

/// The notes in the caches of some dependents.
pub open spec fn dirtyings(names: Seq<Text>) -> Seq<BuildAct> {
    Seq::new(names.len(), |i: int| BuildAct::DirtyDependent { name: names[i] })
}

proof fn lemma_dirtyings(s: BuildView)
    ensures
        build_calls(build_dirty(s), all_carried_out(s.clean.len())) == dirtyings(s.clean),
        build_outcome(build_dirty(s), all_carried_out(s.clean.len())) == build_perform(
            BuildView { clean: Seq::empty(), ..s },
            BuildPhase::ReadingDependents,
            BuildCall::ReadDependents { names: s.dependents },
        ),
    decreases s.clean.len(),
{
    let replies = all_carried_out(s.clean.len());
    let at = build_dirty(s);
    if s.clean.len() == 0 {
        assert(s.clean =~= Seq::<Text>::empty());
        assert(build_calls(at, replies) =~= dirtyings(s.clean));
    } else {
        let t = at.0;
        assert(build_answered(t, replies[0]) == build_dirty(t));
        assert(replies.skip(1) =~= all_carried_out(t.clean.len()));
        lemma_dirtyings(t);
        let first: BuildAct = BuildCall::DirtyDependent { name: s.clean[0] };
        assert(seq![first] + dirtyings(t.clean) =~= dirtyings(s.clean));
    }
}

/// Once the priority lock is let go, all dependents are noted in their caches as
/// ones to be built, in their order, and then their caches are locked.
pub proof fn law_dependents_are_dirtied_before_they_are_locked(s: BuildView)
    requires
        s.phase is ReleasingPriority,
    ensures
        ({
            let replies = all_carried_out(s.dependents.len());
            let at = build_answered(s, BuildReply::Done);
            &&& build_calls(at, replies) == dirtyings(s.dependents)
            &&& build_outcome(at, replies).1 == (BuildStep::Perform {
                call: BuildCall::ReadDependents { names: s.dependents },
            })
        }),
{
    lemma_dirtyings(BuildView { clean: s.dependents, ..s });
}

/// Before the source is touched or a container run, the repository is marked as
/// built and all its dependents, in their order, as ones that need a build.
pub proof fn law_dependents_are_marked_before_the_build(s: BuildView)
    requires
        s.phase is ReadingDependents,
        s.update matches Some(u) ==> u.next is Perform,
    ensures
        ({
            let replies = all_carried_out(s.dependents.len() + 1);
            let at = build_answered(s, BuildReply::Done);
            let end = build_outcome(at, replies);
            &&& build_calls(at, replies) == seq![BuildAct::MarkBuilt] + marks(s.dependents)
            &&& match s.update {
                Some(u) => end.1 == (BuildStep::Perform {
                    call: BuildCall::Git { src: u.src, step: u.next->Perform_step },
                }),
                None => end.1 == (BuildStep::Perform { call: BuildCall::RunContainers }),
            }
        }),
{
    let replies = all_carried_out(s.dependents.len() + 1);
    let at = build_answered(s, BuildReply::Done);
    let t = at.0;
    assert(build_answered(t, replies[0]) == build_mark(t));
    assert(replies.skip(1) =~= all_carried_out(t.unmarked.len()));
    lemma_marks(t);
    assert(build_calls(at, replies) == seq![BuildAct::MarkBuilt] + marks(s.dependents));
}

/// The answers for a dependency that is free: it needs no build, and both its
/// locks can be had.
pub open spec fn free_answers() -> Seq<BuildAnswer> {
    seq![
        BuildAnswer::Answer { yes: false },
        BuildAnswer::Answer { yes: true },
        BuildAnswer::Answer { yes: true },
    ]
}

/// The answers where a number of dependencies are free.
pub open spec fn all_free(n: nat) -> Seq<BuildAnswer>
    decreases n,
{
    if n == 0 {
        Seq::empty()
    } else {
        free_answers() + all_free((n - 1) as nat)
    }
}

/// Where all dependencies are free, they are locked one after the other, from the
/// last to the first, and nothing that is locked is let go.
pub proof fn law_free_dependencies_are_locked_at_once(s: BuildView)
    ensures
        build_outcome(build_next_dependency(s), all_free(s.pending.len())) == build_perform(
            BuildView { pending: Seq::empty(), held: s.held + s.pending.reverse(), ..s },
            BuildPhase::LockingWrite,
            BuildCall::LockWrite,
        ),
    decreases s.pending.len(),
{
    let at = build_next_dependency(s);
    let replies = all_free(s.pending.len());
    if s.pending.len() == 0 {
        assert(s.pending =~= Seq::<Text>::empty());
        assert(s.held + s.pending.reverse() =~= s.held);
    } else {
        let dep = s.pending.last();
        let rest = s.pending.drop_last();
        let tail = all_free(rest.len());
        let at1 = build_answered(at.0, replies[0]);
        let at2 = build_answered(at1.0, replies[1]);
        let at3 = build_answered(at2.0, replies[2]);
        let r1 = replies.skip(1);
        let r2 = r1.skip(1);
        let r3 = r2.skip(1);
        assert(r1[0] == replies[1]);
        assert(r2[0] == replies[2]);
        assert(r3 =~= tail);
        let t = BuildView { pending: rest, held: s.held.push(dep), ..s };
        assert(at3.0 == build_next_dependency(t).0);
        assert(at3.1 == build_next_dependency(t).1);
        assert(build_outcome(at2, r2) == build_outcome(at3, r3));
        assert(build_outcome(at1, r1) == build_outcome(at2, r2));
        assert(build_outcome(at, replies) == build_outcome(at1, r1));
        law_free_dependencies_are_locked_at_once(t);
        assert(t.held + rest.reverse() =~= s.held + s.pending.reverse());
    }
}

} // verus!
