//! What setting a repository up does from its beginning to its end.

use vstd::prelude::*;
use crate::build_runs::answers_steps;
use crate::deployment::GitDeployment;
use crate::git_job::{
    fetch_steps, git_answered, git_idle, git_resumed, GitJobView, GitNext, GitReply, GitStep,
};
use crate::git_laws::git_outcome;
use crate::initialize::{
    all_done, init_answered, init_begun, init_calls, init_ensure, init_outcome, init_update,
    law_paths_are_made_absolute, tag_dirs, InitAnswer, InitCall, InitError, InitNext, InitReply,
    InitView,
};
use crate::paths::join_spec;
use crate::text::Text;

verus! {

/// The outcome of a step on the source.
pub type Outcome = GitReply<Text, Seq<u8>>;

/// The outcomes of steps as answers to the setup.
pub open spec fn as_init_answers(outcomes: Seq<Outcome>) -> Seq<InitAnswer> {
    Seq::new(outcomes.len(), |i: int| InitAnswer::Git { reply: outcomes[i] })
}

/// The steps that some outcomes are those of, as calls of the setup.
pub open spec fn init_step_calls(
    src: Text,
    at: (GitJobView, GitNext<Text>),
    outcomes: Seq<Outcome>,
) -> Seq<InitCall<Text>>
    decreases outcomes.len(),
{
    if outcomes.len() == 0 {
        Seq::empty()
    } else {
        seq![InitCall::Git { src, step: at.1->step }] + init_step_calls(
            src,
            git_answered(at.0, outcomes[0]),
            outcomes.skip(1),
        )
    }
}

/// The setup goes on from where the update of the source is after some outcomes.
proof fn lemma_update_steps(
    s: InitView,
    at: (GitJobView, GitNext<Text>),
    outcomes: Seq<Outcome>,
    more: Seq<InitAnswer>,
)
    requires
        answers_steps(at, outcomes),
    ensures
        init_outcome(init_update(s, at), as_init_answers(outcomes) + more) == init_outcome(
            init_update(s, git_outcome(at, outcomes)),
            more,
        ),
        init_calls(init_update(s, at), as_init_answers(outcomes) + more) == init_step_calls(
            join_spec(s.base, s.src),
            at,
            outcomes,
        ) + init_calls(init_update(s, git_outcome(at, outcomes)), more),
    decreases outcomes.len(),
{
    let src = join_spec(s.base, s.src);
    let begun = init_update(s, at);
    let replies = as_init_answers(outcomes) + more;
    if outcomes.len() == 0 {
        assert(replies =~= more);
        assert(init_step_calls(src, at, outcomes) + init_calls(begun, more) =~= init_calls(begun, more));
    } else {
        let next = git_answered(at.0, outcomes[0]);
        let rest = outcomes.skip(1);
        assert(replies[0] == (InitAnswer::Git { reply: outcomes[0] }));
        assert(replies.skip(1) =~= as_init_answers(rest) + more);
        assert(init_answered(begun.0, replies[0]) == init_update(begun.0, next));
        assert(init_update(begun.0, next) == init_update(s, next));
        lemma_update_steps(s, next, rest, more);
        let first: InitCall<Text> = InitCall::Git { src, step: at.1->step };
        let end = init_calls(init_update(s, git_outcome(next, rest)), more);
        assert(seq![first] + (init_step_calls(src, next, rest) + end) =~= (seq![first]
            + init_step_calls(src, next, rest)) + end);
    }
}

/// The setup goes on from where the work that brings the source about is after
/// some outcomes.
proof fn lemma_ensure_steps(
    s: InitView,
    at: (GitJobView, GitNext<Text>),
    outcomes: Seq<Outcome>,
    more: Seq<InitAnswer>,
)
    requires
        answers_steps(at, outcomes),
    ensures
        init_outcome(init_ensure(s, at), as_init_answers(outcomes) + more) == init_outcome(
            init_ensure(s, git_outcome(at, outcomes)),
            more,
        ),
        init_calls(init_ensure(s, at), as_init_answers(outcomes) + more) == init_step_calls(
            join_spec(s.base, s.src),
            at,
            outcomes,
        ) + init_calls(init_ensure(s, git_outcome(at, outcomes)), more),
    decreases outcomes.len(),
{
    let src = join_spec(s.base, s.src);
    let begun = init_ensure(s, at);
    let replies = as_init_answers(outcomes) + more;
    if outcomes.len() == 0 {
        assert(replies =~= more);
        assert(init_step_calls(src, at, outcomes) + init_calls(begun, more) =~= init_calls(begun, more));
    } else {
        let next = git_answered(at.0, outcomes[0]);
        let rest = outcomes.skip(1);
        assert(replies[0] == (InitAnswer::Git { reply: outcomes[0] }));
        assert(replies.skip(1) =~= as_init_answers(rest) + more);
        assert(init_answered(begun.0, replies[0]) == init_ensure(begun.0, next));
        assert(init_ensure(begun.0, next) == init_ensure(s, next));
        lemma_ensure_steps(s, next, rest, more);
        let first: InitCall<Text> = InitCall::Git { src, step: at.1->step };
        let end = init_calls(init_ensure(s, git_outcome(next, rest)), more);
        assert(seq![first] + (init_step_calls(src, next, rest) + end) =~= (seq![first]
            + init_step_calls(src, next, rest)) + end);
    }
}

/// The answers that end a setup that succeeds.
pub open spec fn last_answers(src: Text, repo: Text, tags: nat) -> Seq<InitAnswer> {
    seq![
        InitAnswer::Canonical { path: Some(src) },
        InitAnswer::Done,
        InitAnswer::Canonical { path: Some(repo) },
    ] + all_done(tags)
}

/// The calls that they answer.
pub open spec fn last_calls(base: Text, src: Text, repo: Text, at: Text, tags: Seq<Text>) -> Seq<
    InitCall<Text>,
> {
    seq![
        InitCall::Canonicalize { path: join_spec(base, src) },
        InitCall::CreateDir { path: join_spec(base, repo) },
        InitCall::Canonicalize { path: join_spec(base, repo) },
    ] + Seq::new(tags.len(), |i: int| InitCall::CreateDir { path: join_spec(at, tags[i]) })
}

/// A repository that is not deployed from git is set up with its absolute paths
/// and a directory for each tag, and its source has not changed.
pub proof fn law_setup_of_a_plain_source(s: InitView, src: Text, repo: Text)
    requires
        s.deployment is None,
        !s.changed,
    ensures
        ({
            let replies = last_answers(src, repo, s.tags.len());
            let end = init_outcome(init_begun(s), replies);
            &&& end.1 == (InitNext::<Text>::Finished { changed: false })
            &&& end.0.src == src
            &&& end.0.repo == repo
            &&& init_calls(init_begun(s), replies) == last_calls(s.base, s.src, s.repo, repo, s.tags)
        }),
{
    law_paths_are_made_absolute(s, src, repo);
    assert(tag_dirs(repo, s.tags) =~= Seq::new(
        s.tags.len(),
        |i: int| InitCall::CreateDir { path: join_spec(repo, s.tags[i]) },
    ));
}

/// A repository whose source is missing and is brought about is set up as one that
/// has changed; its source is not brought up to date as well.
pub proof fn law_setup_of_a_new_source(
    s: InitView,
    d: GitDeployment,
    outcomes: Seq<Outcome>,
    src: Text,
    repo: Text,
)
    requires
        s.deployment == Some(d),
        ({
            let work = git_resumed(git_idle(d), seq![GitStep::ReadDir]);
            &&& answers_steps(work, outcomes)
            &&& git_outcome(work, outcomes).1 == (GitNext::<Text>::Finished { changed: true })
        }),
    ensures
        ({
            let replies = as_init_answers(outcomes) + last_answers(src, repo, s.tags.len());
            let end = init_outcome(init_begun(s), replies);
            &&& end.1 == (InitNext::<Text>::Finished { changed: true })
            &&& end.0.src == src
            &&& end.0.repo == repo
            &&& init_calls(init_begun(s), replies) == init_step_calls(
                join_spec(s.base, s.src),
                git_resumed(git_idle(d), seq![GitStep::ReadDir]),
                outcomes,
            ) + last_calls(s.base, s.src, s.repo, repo, s.tags)
        }),
{
    let work = git_resumed(git_idle(d), seq![GitStep::ReadDir]);
    let last = last_answers(src, repo, s.tags.len());
    lemma_ensure_steps(s, work, outcomes, last);
    let t = InitView { changed: true, ..s };
    law_paths_are_made_absolute(t, src, repo);
    assert(tag_dirs(repo, s.tags) =~= Seq::new(
        s.tags.len(),
        |i: int| InitCall::CreateDir { path: join_spec(repo, s.tags[i]) },
    ));
}

/// A repository whose source is there is set up after the source was brought up
/// to date, and has changed where that says so.
pub proof fn law_setup_of_a_source_that_is_there(
    s: InitView,
    d: GitDeployment,
    outcomes: Seq<Outcome>,
    changed: bool,
    src: Text,
    repo: Text,
)
    requires
        s.deployment == Some(d),
        ({
            let work = git_resumed(git_idle(d), fetch_steps(d));
            &&& answers_steps(work, outcomes)
            &&& git_outcome(work, outcomes).1 == (GitNext::<Text>::Finished { changed })
        }),
    ensures
        ({
            let there: Seq<Outcome> = seq![Outcome::Done];
            let path = join_spec(s.base, s.src);
            let replies = as_init_answers(there) + (as_init_answers(outcomes) + last_answers(
                src,
                repo,
                s.tags.len(),
            ));
            let end = init_outcome(init_begun(s), replies);
            &&& end.1 == (InitNext::<Text>::Finished { changed })
            &&& end.0.src == src
            &&& end.0.repo == repo
            &&& init_calls(init_begun(s), replies) == seq![
                InitCall::Git { src: path, step: GitStep::ReadDir },
            ] + (init_step_calls(path, git_resumed(git_idle(d), fetch_steps(d)), outcomes)
                + last_calls(s.base, s.src, s.repo, repo, s.tags))
        }),
{
    let there: Seq<Outcome> = seq![Outcome::Done];
    let path = join_spec(s.base, s.src);
    let look = git_resumed(git_idle(d), seq![GitStep::ReadDir]);
    let work = git_resumed(git_idle(d), fetch_steps(d));
    let last = last_answers(src, repo, s.tags.len());
    let rest = as_init_answers(outcomes) + last;
    assert(there.skip(1) =~= Seq::<Outcome>::empty());
    let seen = git_answered(look.0, there[0]);
    assert(answers_steps(seen, there.skip(1)));
    assert(git_outcome(seen, there.skip(1)) == seen);
    assert(git_outcome(look, there) == seen);
    lemma_ensure_steps(s, look, there, rest);
    assert(init_step_calls(path, seen, there.skip(1)) =~= Seq::<InitCall<Text>>::empty());
    assert(init_step_calls(path, look, there) =~= seq![
        InitCall::Git { src: path, step: GitStep::ReadDir },
    ]);
    assert(init_ensure(s, seen) == init_update(s, work));
    lemma_update_steps(s, work, outcomes, last);
    let t = InitView { changed, ..s };
    law_paths_are_made_absolute(t, src, repo);
    assert(tag_dirs(repo, s.tags) =~= Seq::new(
        s.tags.len(),
        |i: int| InitCall::CreateDir { path: join_spec(repo, s.tags[i]) },
    ));
}

/// A setup fails with a call that failed, with what a script that failed wrote,
/// or with a path that is no text: that of the source first, and then that of the
/// output.
pub proof fn law_failures_of_the_setup(s: InitView, job: GitJobView, message: Text)
    ensures
        init_answered(s, InitReply::Failed).1 == (InitNext::<Text>::Failed {
            error: InitError::CallFailed,
        }),
        s.phase is ResolvingSrc ==> init_answered(s, InitReply::Canonical { path: None }).1 == (
        InitNext::<Text>::Failed { error: InitError::InvalidSrcPath }),
        s.phase is ResolvingRepo ==> init_answered(s, InitReply::Canonical { path: None }).1 == (
        InitNext::<Text>::Failed { error: InitError::InvalidRepoPath }),
        init_ensure(s, (job, GitNext::ScriptFailed { message })).1 == (InitNext::Failed {
            error: InitError::ScriptFailed { message },
        }),
        init_update(s, (job, GitNext::ScriptFailed { message })).1 == (InitNext::Failed {
            error: InitError::ScriptFailed { message },
        }),
        init_ensure(s, (job, GitNext::Aborted)).1 == (InitNext::<Text>::Failed {
            error: InitError::CallFailed,
        }),
        init_update(s, (job, GitNext::Aborted)).1 == (InitNext::<Text>::Failed {
            error: InitError::CallFailed,
        }),
{
}

} // verus!
