//! What a build does from its beginning to its end.

use vstd::prelude::*;
use crate::build_laws::{
    all_carried_out, all_free, build_calls, build_outcome, dirtyings, free_answers,
    law_dependents_are_dirtied_before_they_are_locked, law_free_dependencies_are_locked_at_once, marks,
};
use crate::git_job::{
    fetch_steps, git_answered, git_idle, git_resumed, GitJobView, GitNext, GitReply, GitStep,
};
use crate::git_laws::git_outcome;
use crate::paths::join_spec;
use crate::repo_build::{
    build_answered, build_begun, build_dirty, build_mark, build_next_dependency, build_update,
    first_bad, is_first_bad, update_of, BuildAct, BuildAnswer, BuildCall, BuildError, BuildPhase,
    BuildReply, BuildStep, BuildView,
};
use crate::repository::Repository;
use crate::text::Text;

verus! {

/// Answers that come one after the other can be taken in two parts, as long as
/// each of the first answers a call.
proof fn lemma_in_parts(at: (BuildView, BuildStep), a: Seq<BuildAnswer>, b: Seq<BuildAnswer>)
    requires
        build_calls(at, a).len() == a.len(),
    ensures
        build_outcome(at, a + b) == build_outcome(build_outcome(at, a), b),
        build_calls(at, a + b) == build_calls(at, a) + build_calls(build_outcome(at, a), b),
    decreases a.len(),
{
    if a.len() == 0 {
        assert(a + b =~= b);
        assert(build_calls(at, a) + build_calls(at, b) =~= build_calls(at, b));
    } else {
        let next = build_answered(at.0, a[0]);
        let rest = a.skip(1);
        assert((a + b)[0] == a[0]);
        assert((a + b).skip(1) =~= rest + b);
        lemma_in_parts(next, rest, b);
        let first = at.1->call;
        assert(seq![first] + (build_calls(next, rest) + build_calls(build_outcome(next, rest), b))
            =~= (seq![first] + build_calls(next, rest)) + build_calls(build_outcome(next, rest), b));
    }
}

/// One answer.
proof fn lemma_one(at: (BuildView, BuildStep), reply: BuildAnswer)
    requires
        at.1 is Perform,
    ensures
        build_outcome(at, seq![reply]) == build_answered(at.0, reply),
        build_calls(at, seq![reply]) == seq![at.1->call],
{
    assert(seq![reply].skip(1) =~= Seq::<BuildAnswer>::empty());
    let next = build_answered(at.0, reply);
    assert(build_outcome(next, Seq::empty()) == next);
    assert(build_calls(next, Seq::empty()) =~= Seq::<BuildAct>::empty());
    assert(build_calls(at, seq![reply]) =~= seq![at.1->call]);
}

/// The calls that lock free dependencies, from the last to the first: whether it
/// needs a build, its priority lock, its cache.
pub open spec fn free_calls(names: Seq<Text>) -> Seq<BuildAct>
    decreases names.len(),
{
    if names.len() == 0 {
        Seq::empty()
    } else {
        let name = names.last();
        seq![
            BuildAct::AskNeedsBuild { name },
            BuildAct::TryPriority { name },
            BuildAct::TryRead { name },
        ] + free_calls(names.drop_last())
    }
}

proof fn lemma_free_calls(s: BuildView)
    ensures
        build_calls(build_next_dependency(s), all_free(s.pending.len())) == free_calls(s.pending),
        all_free(s.pending.len()).len() == free_calls(s.pending).len(),
    decreases s.pending.len(),
{
    let at = build_next_dependency(s);
    let replies = all_free(s.pending.len());
    if s.pending.len() > 0 {
        let name = s.pending.last();
        let rest = all_free((s.pending.len() - 1) as nat);
        assert(replies == free_answers() + rest);
        let at1 = build_answered(at.0, replies[0]);
        let at2 = build_answered(at1.0, replies[1]);
        let at3 = build_answered(at2.0, replies[2]);
        let r1 = replies.skip(1);
        let r2 = r1.skip(1);
        assert(r1[0] == replies[1]);
        assert(r2[0] == replies[2]);
        assert(r2.skip(1) =~= rest);
        let t = BuildView { pending: s.pending.drop_last(), held: s.held.push(name), ..s };
        assert(at3 == build_next_dependency(t));
        lemma_free_calls(t);
        let c0 = BuildAct::AskNeedsBuild { name };
        let c1 = BuildAct::TryPriority { name };
        let c2 = BuildAct::TryRead { name };
        let more = free_calls(t.pending);
        assert(build_calls(at2, r2) == seq![c2] + more);
        assert(build_calls(at1, r1) == seq![c1] + build_calls(at2, r2));
        assert(build_calls(at, replies) == seq![c0] + build_calls(at1, r1));
        assert(build_calls(at, replies) =~= seq![c0, c1, c2] + more);
    } else {
        assert(build_calls(at, replies) =~= free_calls(s.pending));
    }
}

/// Each of some outcomes is one of a step that the work on a source performs.
pub open spec fn answers_steps(
    at: (GitJobView, GitNext<Text>),
    outcomes: Seq<GitReply<Text, Seq<u8>>>,
) -> bool
    decreases outcomes.len(),
{
    outcomes.len() == 0 || at.1 is Perform && answers_steps(
        git_answered(at.0, outcomes[0]),
        outcomes.skip(1),
    )
}

/// The steps that some outcomes are those of, as calls of a build.
pub open spec fn step_calls(
    src: Text,
    at: (GitJobView, GitNext<Text>),
    outcomes: Seq<GitReply<Text, Seq<u8>>>,
) -> Seq<BuildAct>
    decreases outcomes.len(),
{
    if outcomes.len() == 0 {
        Seq::empty()
    } else {
        seq![BuildAct::Git { src, step: at.1->step }] + step_calls(
            src,
            git_answered(at.0, outcomes[0]),
            outcomes.skip(1),
        )
    }
}

/// The outcomes of steps as answers to a build.
pub open spec fn as_answers(outcomes: Seq<GitReply<Text, Seq<u8>>>) -> Seq<BuildAnswer> {
    Seq::new(outcomes.len(), |i: int| BuildAnswer::Git { reply: outcomes[i] })
}

proof fn lemma_steps(
    s: BuildView,
    src: Text,
    at: (GitJobView, GitNext<Text>),
    outcomes: Seq<GitReply<Text, Seq<u8>>>,
)
    requires
        answers_steps(at, outcomes),
    ensures
        build_outcome(build_update(s, src, at), as_answers(outcomes)) == build_update(
            s,
            src,
            git_outcome(at, outcomes),
        ),
        build_calls(build_update(s, src, at), as_answers(outcomes)) == step_calls(
            src,
            at,
            outcomes,
        ),
        step_calls(src, at, outcomes).len() == outcomes.len(),
    decreases outcomes.len(),
{
    let begun = build_update(s, src, at);
    let replies = as_answers(outcomes);
    if outcomes.len() == 0 {
        assert(build_calls(begun, replies) =~= step_calls(src, at, outcomes));
    } else {
        let next = git_answered(at.0, outcomes[0]);
        let rest = outcomes.skip(1);
        assert(replies.skip(1) =~= as_answers(rest));
        assert(build_answered(begun.0, replies[0]) == build_update(begun.0, src, next));
        assert(build_update(begun.0, src, next) == build_update(s, src, next));
        lemma_steps(s, src, next, rest);
    }
}

proof fn lemma_marking(s: BuildView)
    ensures
        build_calls(build_mark(s), all_carried_out(s.unmarked.len())) == marks(s.unmarked),
        build_outcome(build_mark(s), all_carried_out(s.unmarked.len())) == build_mark(
            BuildView { unmarked: Seq::empty(), ..s },
        ),
    decreases s.unmarked.len(),
{
    let replies = all_carried_out(s.unmarked.len());
    let at = build_mark(s);
    if s.unmarked.len() == 0 {
        assert(s.unmarked =~= Seq::<Text>::empty());
        assert(build_calls(at, replies) =~= marks(s.unmarked));
    } else {
        let t = at.0;
        assert(build_answered(t, replies[0]) == build_mark(t));
        assert(replies.skip(1) =~= all_carried_out(t.unmarked.len()));
        lemma_marking(t);
        let first: BuildAct = BuildCall::MarkDependent { name: s.unmarked[0] };
        assert(seq![first] + marks(t.unmarked) =~= marks(s.unmarked));
        assert(build_mark(BuildView { unmarked: Seq::empty(), ..t }) == build_mark(
            BuildView { unmarked: Seq::empty(), ..s },
        ));
    }
}

/// The answers to the calls of a build that finds all its dependencies free, up
/// to the update of the source.
pub open spec fn answers_to_the_marks(dependencies: nat, dependents: nat) -> Seq<BuildAnswer> {
    seq![BuildAnswer::Done] + all_free(dependencies) + seq![BuildAnswer::Done, BuildAnswer::Done]
        + all_carried_out(dependents) + seq![BuildAnswer::Done, BuildAnswer::Done] + all_carried_out(
        dependents,
    )
}

/// The calls that they answer.
pub open spec fn calls_to_the_marks(dependencies: Seq<Text>, dependents: Seq<Text>) -> Seq<BuildAct> {
    seq![BuildAct::LockPriority] + free_calls(dependencies) + seq![
        BuildAct::LockWrite,
        BuildAct::ReleasePriority,
    ] + dirtyings(dependents) + seq![
        BuildAct::ReadDependents { names: dependents },
        BuildAct::MarkBuilt,
    ] + marks(dependents)
}

/// A build that finds its dependencies free takes all locks, notes and marks all
/// dependents, and goes on with the source.
proof fn lemma_to_the_marks(r: Repository, dependencies: Seq<Text>, dependents: Seq<Text>) -> (s: BuildView)
    ensures
        s.unmarked.len() == 0,
        s.update == update_of(r),
        ({
            let at = build_begun(dependencies, dependents, update_of(r));
            let replies = answers_to_the_marks(dependencies.len(), dependents.len());
            &&& build_calls(at, replies) == calls_to_the_marks(dependencies, dependents)
            &&& build_calls(at, replies).len() == replies.len()
            &&& build_outcome(at, replies) == build_mark(s)
        }),
{
    let done = BuildAnswer::Done;
    let at0 = build_begun(dependencies, dependents, update_of(r));
    let m = dependents.len();
    // The priority lock.
    let r0 = seq![done];
    lemma_one(at0, done);
    let s0 = at0.0;
    let at1 = build_next_dependency(s0);
    assert(build_answered(s0, done) == at1);
    // The dependencies.
    let r1 = all_free(dependencies.len());
    lemma_free_calls(s0);
    law_free_dependencies_are_locked_at_once(s0);
    let at2 = build_outcome(at1, r1);
    lemma_in_parts(at0, r0, r1);
    let c1 = seq![BuildAct::LockPriority] + free_calls(dependencies);
    assert(build_calls(at0, r0 + r1) == c1);
    // The cache, and the priority lock once more.
    let r2 = seq![done, done];
    let at3 = build_answered(at2.0, done);
    let at4 = build_answered(at3.0, done);
    lemma_one(at2, done);
    lemma_one(at3, done);
    lemma_in_parts(at2, seq![done], seq![done]);
    assert(seq![done] + seq![done] =~= r2);
    assert(build_calls(at2, r2) =~= seq![BuildAct::LockWrite, BuildAct::ReleasePriority]);
    assert(build_outcome(at2, r2) == at4);
    lemma_in_parts(at0, r0 + r1, r2);
    let c2 = c1 + seq![BuildAct::LockWrite, BuildAct::ReleasePriority];
    // The notes.
    let r3 = all_carried_out(m);
    law_dependents_are_dirtied_before_they_are_locked(at3.0);
    let at5 = build_outcome(at4, r3);
    lemma_dirtied_state(at3.0);
    lemma_in_parts(at0, r0 + r1 + r2, r3);
    let c3 = c2 + dirtyings(dependents);
    // The dependents, and the mark of the repository itself.
    let at6 = build_answered(at5.0, done);
    let at7 = build_answered(at6.0, done);
    lemma_one(at5, done);
    lemma_one(at6, done);
    lemma_in_parts(at5, seq![done], seq![done]);
    assert(build_calls(at5, r2) =~= seq![
        BuildAct::ReadDependents { names: dependents },
        BuildAct::MarkBuilt,
    ]);
    assert(build_outcome(at5, r2) == at7);
    lemma_in_parts(at0, r0 + r1 + r2 + r3, r2);
    // The marks of the dependents.
    let t = at6.0;
    assert(at7 == build_mark(t));
    assert(t.unmarked == dependents);
    lemma_marking(t);
    lemma_in_parts(at0, r0 + r1 + r2 + r3 + r2, r3);
    BuildView { unmarked: Seq::empty(), ..t }
}

/// Noting the dependents changes nothing else.
proof fn lemma_dirtied_state(s: BuildView)
    requires
        s.phase is ReleasingPriority,
    ensures
        ({
            let end = build_outcome(
                build_answered(s, BuildReply::Done),
                all_carried_out(s.dependents.len()),
            );
            &&& end.0.phase is ReadingDependents
            &&& end.0.dependents == s.dependents
            &&& end.0.update == s.update
        }),
{
    lemma_dirtied_from(BuildView { clean: s.dependents, ..s });
}

proof fn lemma_dirtied_from(s: BuildView)
    ensures
        ({
            let end = build_outcome(
                build_dirty(s),
                all_carried_out(s.clean.len()),
            );
            &&& end.0.phase is ReadingDependents
            &&& end.0.dependents == s.dependents
            &&& end.0.update == s.update
        }),
    decreases s.clean.len(),
{
    let replies = all_carried_out(s.clean.len());
    let at = build_dirty(s);
    if s.clean.len() > 0 {
        assert(build_answered(at.0, replies[0]) == build_dirty(at.0));
        assert(replies.skip(1) =~= all_carried_out(at.0.clean.len()));
        lemma_dirtied_from(at.0);
    }
}

/// The directory that the source of a repository is updated in, and the first
/// step there. A repository that is not deployed from git is not updated.
pub proof fn law_sources_to_update(r: Repository)
    ensures
        r.git_deployment is None ==> update_of(r) is None,
        r.git_deployment is Some ==> {
            &&& update_of(r) is Some
            &&& update_of(r)->0.src == join_spec(r.repo@, r.src@)
            &&& update_of(r)->0.job.deployment == r.git_deployment->0
            &&& update_of(r)->0.next == (GitNext::<Text>::Perform { step: GitStep::OpenRepo })
        },
{
}

/// Once the update of a source is finished, the containers are run, whether or
/// not the source changed. A script that failed, or a step that could not be
/// done, ends the build.
pub proof fn law_update_comes_before_the_containers(
    s: BuildView,
    src: Text,
    job: GitJobView,
    changed: bool,
    message: Text,
    step: GitStep<Text>,
)
    ensures
        build_update(s, src, (job, GitNext::Finished { changed })).1 == (BuildStep::Perform {
            call: BuildCall::RunContainers,
        }),
        build_update(s, src, (job, GitNext::ScriptFailed { message })).1 == (BuildStep::Failed {
            error: BuildError::ScriptFailed { message },
        }),
        build_update(s, src, (job, GitNext::Aborted)).1 == (BuildStep::Failed {
            error: BuildError::CallFailed,
        }),
        build_update(s, src, (job, GitNext::Perform { step })).1 == (BuildStep::Perform {
            call: BuildCall::Git { src, step },
        }),
{
}

/// A build whose calls all succeed is finished: it takes the locks of its
/// dependencies and its own; notes, locks and marks all dependents; updates the
/// source, where the repository is deployed from git, whatever that says of
/// changes; runs the containers; and takes back the note that the repository is to
/// be built. It makes these calls and no other.
pub proof fn law_successful_build(
    r: Repository,
    dependencies: Seq<Text>,
    dependents: Seq<Text>,
    outcomes: Seq<GitReply<Text, Seq<u8>>>,
    runs: Seq<bool>,
)
    requires
        forall|i: int| 0 <= i < runs.len() ==> runs[i],
        match r.git_deployment {
            Some(d) => {
                let update = git_resumed(git_idle(d), fetch_steps(d));
                &&& answers_steps(update, outcomes)
                &&& git_outcome(update, outcomes).1 is Finished
            },
            None => outcomes.len() == 0,
        },
    ensures
        ({
            let at = build_begun(dependencies, dependents, update_of(r));
            let replies = answers_to_the_marks(dependencies.len(), dependents.len()) + as_answers(
                outcomes,
            ) + seq![BuildAnswer::Runs { ended_well: runs }, BuildAnswer::Done];
            let steps = match r.git_deployment {
                Some(d) => step_calls(
                    join_spec(r.repo@, r.src@),
                    git_resumed(git_idle(d), fetch_steps(d)),
                    outcomes,
                ),
                None => Seq::empty(),
            };
            &&& build_outcome(at, replies).1 is Finished
            &&& build_calls(at, replies) == calls_to_the_marks(dependencies, dependents) + steps
                + seq![BuildAct::RunContainers, BuildAct::ClearDirty]
        }),
{
    let at = build_begun(dependencies, dependents, update_of(r));
    let first = answers_to_the_marks(dependencies.len(), dependents.len());
    let s = lemma_to_the_marks(r, dependencies, dependents);
    let marked = build_mark(s);
    let git = as_answers(outcomes);
    let steps = match r.git_deployment {
        Some(d) => step_calls(
            join_spec(r.repo@, r.src@),
            git_resumed(git_idle(d), fetch_steps(d)),
            outcomes,
        ),
        None => Seq::empty(),
    };
    let updated = build_outcome(marked, git);
    match r.git_deployment {
        Some(d) => {
            let u = update_of(r)->0;
            let t = BuildView { update: None, ..s };
            lemma_steps(t, u.src, (u.job, u.next), outcomes);
            assert(marked == build_update(t, u.src, (u.job, u.next)));
        },
        None => {
            assert(git =~= Seq::<BuildAnswer>::empty());
            assert(build_calls(marked, git) =~= steps);
        },
    }
    assert(updated.1 == (BuildStep::Perform { call: BuildCall::RunContainers }));
    assert(build_calls(marked, git) == steps);
    lemma_in_parts(at, first, git);
    let ran = BuildAnswer::Runs { ended_well: runs };
    let done = BuildAnswer::Done;
    lemma_one(updated, ran);
    let cleared = build_answered(updated.0, ran);
    lemma_one(cleared, done);
    lemma_in_parts(updated, seq![ran], seq![done]);
    assert(seq![ran] + seq![done] =~= seq![ran, done]);
    assert(build_calls(updated, seq![ran, done]) =~= seq![
        BuildAct::RunContainers,
        BuildAct::ClearDirty,
    ]);
    lemma_in_parts(at, first + git, seq![ran, done]);
}

/// Where the runs of some containers did not end well, the build fails with the
/// first of them, and the repository stays noted as one to be built.
pub proof fn law_first_bad_run_fails_the_build(s: BuildView, runs: Seq<bool>, bad: int)
    requires
        s.phase is Running,
        0 <= bad < runs.len() <= usize::MAX,
        !runs[bad],
        forall|i: int| 0 <= i < bad ==> runs[i],
    ensures
        build_answered(s, BuildReply::Runs { ended_well: runs }).1 == (BuildStep::Failed {
            error: BuildError::RunFailed { index: bad as usize },
        }),
{
    assert(is_first_bad(runs, bad));
    let i = first_bad(runs);
    assert(is_first_bad(runs, i));
}

/// Where the priority lock of a dependency is taken, all that is held is let go,
/// the lock is waited for, and then the cache of that dependency is tried.
pub proof fn law_busy_priority(s: BuildView, dep: Text)
    requires
        s.phase == (BuildPhase::<Text, GitJobView>::TryingPriority { dep }),
    ensures
        ({
            let released = build_answered(s, BuildReply::Answer { yes: false });
            let waiting = build_answered(released.0, BuildReply::Done);
            let passed = build_answered(waiting.0, BuildReply::Done);
            &&& released.1 == (BuildStep::Perform { call: BuildCall::ReleaseReads })
            &&& waiting.1 == (BuildStep::Perform { call: BuildCall::PassPriority { name: dep } })
            &&& waiting.0.held.len() == 0
            &&& waiting.0.pending == s.pending + s.held
            &&& passed.1 == (BuildStep::Perform { call: BuildCall::TryRead { name: dep } })
            &&& build_answered(s, BuildReply::Answer { yes: true }).1 == (BuildStep::Perform {
                call: BuildCall::TryRead { name: dep },
            })
        }),
{
}

/// Where the cache of a dependency is taken, all that is held is let go, and the
/// cache is waited for; with it in hand, the others are locked once more.
pub proof fn law_busy_cache(s: BuildView, dep: Text)
    requires
        s.phase == (BuildPhase::<Text, GitJobView>::TryingRead { dep }),
    ensures
        ({
            let released = build_answered(s, BuildReply::Answer { yes: false });
            let waiting = build_answered(released.0, BuildReply::Done);
            let others = s.pending + s.held;
            let locked = build_answered(waiting.0, BuildReply::Done);
            &&& released.1 == (BuildStep::Perform { call: BuildCall::ReleaseReads })
            &&& waiting.1 == (BuildStep::Perform { call: BuildCall::Read { name: dep } })
            &&& waiting.0.held.len() == 0
            &&& waiting.0.pending == others
            &&& locked.0.held == seq![dep]
            &&& locked.1 == (if others.len() > 0 {
                BuildStep::Perform { call: BuildCall::AskNeedsBuild { name: others.last() } }
            } else {
                BuildStep::Perform { call: BuildCall::LockWrite }
            })
        }),
{
    let released = build_answered(s, BuildReply::Answer { yes: false });
    let waiting = build_answered(released.0, BuildReply::Done);
    assert(waiting.0.held.push(dep) =~= seq![dep]);
}

} // verus!
