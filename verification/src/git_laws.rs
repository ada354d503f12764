//! What holds of the work on a source directory as a whole.

use vstd::prelude::*;
use crate::deployment::GitDeployment;
use crate::git_job::{
    awaited_of, branch_steps, checkout_steps, clone_steps, fetch_steps, git_answered, git_ended, git_idle, git_resumed,
    script_error, Awaited, GitJobView, GitNext, GitReply, GitStep, Stage,
};
use crate::outside::lossy_text;
use crate::text::Text;

verus! {

/// The outcome of a step.
pub type Reply = GitReply<Text, Seq<u8>>;

/// The steps that the work performs, given the outcomes of its steps in turn.
pub open spec fn git_performed(
    at: (GitJobView, GitNext<Text>),
    replies: Seq<Reply>,
) -> Seq<GitStep<Text>>
    decreases replies.len(),
{
    match at.1 {
        GitNext::Perform { step } => if replies.len() == 0 {
            seq![step]
        } else {
            seq![step] + git_performed(git_answered(at.0, replies[0]), replies.skip(1))
        },
        _ => Seq::empty(),
    }
}

/// Where the work stands after the outcomes of its steps in turn.
pub open spec fn git_outcome(at: (GitJobView, GitNext<Text>), replies: Seq<Reply>) -> (
    GitJobView,
    GitNext<Text>,
)
    decreases replies.len(),
{
    if replies.len() == 0 {
        at
    } else {
        git_outcome(git_answered(at.0, replies[0]), replies.skip(1))
    }
}

/// The outcome of a step that decides nothing and went well.
pub open spec fn went_well(step: GitStep<Text>, reply: Reply) -> bool {
    match awaited_of(step) {
        Awaited::Completion => reply == Reply::Done,
        Awaited::Script(_) => reply matches GitReply::ScriptExit { success, .. } && success,
        _ => false,
    }
}

/// Each of a list of steps went well.
pub open spec fn all_went_well(steps: Seq<GitStep<Text>>, replies: Seq<Reply>) -> bool {
    &&& steps.len() == replies.len()
    &&& forall|i: int| #![trigger steps[i]] 0 <= i < steps.len() ==> went_well(steps[i], replies[i])
}

/// Steps that all go well are performed in their order, each once, and the work
/// then says that the source changed.
pub proof fn law_steps_run_in_order(j: GitJobView, steps: Seq<GitStep<Text>>, replies: Seq<Reply>)
    requires
        all_went_well(steps, replies),
    ensures
        git_performed(git_resumed(j, steps), replies) == steps,
        git_outcome(git_resumed(j, steps), replies).1 == (GitNext::<Text>::Finished { changed: true }),
    decreases steps.len(),
{
    if steps.len() > 0 {
        let at = git_resumed(j, steps);
        assert(went_well(steps[0], replies[0]));
        let rest = steps.skip(1);
        assert(git_answered(at.0, replies[0]) == git_resumed(at.0, rest));
        assert forall|i: int| #![trigger rest[i]] 0 <= i < rest.len() implies went_well(
            rest[i],
            replies.skip(1)[i],
        ) by {
            assert(went_well(steps[i + 1], replies[i + 1]));
        }
        law_steps_run_in_order(at.0, rest, replies.skip(1));
        assert(seq![steps[0]] + rest =~= steps);
    } else {
        assert(git_performed(git_resumed(j, steps), replies) =~= steps);
    }
}

/// A step that decides nothing and does not go well ends the work: of the steps
/// none after it is performed. A script that ends in failure is reported.
pub proof fn law_first_failure_ends_the_work(
    j: GitJobView,
    steps: Seq<GitStep<Text>>,
    replies: Seq<Reply>,
    last: Reply,
)
    requires
        replies.len() < steps.len(),
        all_went_well(steps.take(replies.len() as int), replies),
        !went_well(steps[replies.len() as int], last),
        awaited_of(steps[replies.len() as int]) is Completion || awaited_of(
            steps[replies.len() as int],
        ) is Script,
    ensures
        git_performed(git_resumed(j, steps), replies.push(last)) == steps.take((replies.len() + 1) as int),
        git_outcome(git_resumed(j, steps), replies.push(last)).1 == match (
            awaited_of(steps[replies.len() as int]),
            last,
        ) {
            (Awaited::Script(stage), GitReply::ScriptExit { stdout, .. }) => GitNext::ScriptFailed {
                message: script_error(stage, stdout),
            },
            _ => GitNext::Aborted,
        },
    decreases steps.len(),
{
    let at = git_resumed(j, steps);
    let all = replies.push(last);
    let rest = steps.skip(1);
    if replies.len() == 0 {
        assert(all[0] == last);
        let end = git_answered(at.0, last);
        assert(git_performed(end, all.skip(1)) =~= Seq::<GitStep<Text>>::empty());
        assert(git_performed(at, all) =~= seq![steps[0]]);
        assert(steps.take(1) =~= seq![steps[0]]);
        assert(git_outcome(end, all.skip(1)) == end);
        assert(git_outcome(at, all) == end);
    } else {
        let n = replies.len() as int;
        assert(steps.take(n)[0] == steps[0]);
        assert(went_well(steps[0], replies[0]));
        assert(all[0] == replies[0]);
        assert(git_answered(at.0, all[0]) == git_resumed(at.0, rest));
        let later = replies.skip(1);
        assert(later.push(last) =~= all.skip(1));
        assert forall|i: int| #![trigger rest.take(n - 1)[i]] 0 <= i < n - 1 implies went_well(
            rest.take(n - 1)[i],
            later[i],
        ) by {
            assert(went_well(steps.take(n)[i + 1], replies[i + 1]));
        }
        law_first_failure_ends_the_work(at.0, rest, later, last);
        assert(seq![steps[0]] + rest.take(n) =~= steps.take(n + 1));
    }
}

/// An update that finds the remote branch where the head stands touches
/// nothing: it opens, fetches and compares, and says that nothing changed.
pub proof fn law_update_without_news(d: GitDeployment, id: Text)
    ensures
        ({
            let at = git_resumed(git_idle(d), fetch_steps(d));
            let replies: Seq<Reply> = seq![
                Reply::Done,
                Reply::Done,
                Reply::Done,
                Reply::Heads { head: id, fetched: id },
            ];
            &&& git_performed(at, replies) == fetch_steps(d)
            &&& git_outcome(at, replies).1 == (GitNext::<Text>::Finished { changed: false })
        }),
{
    let at = git_resumed(git_idle(d), fetch_steps(d));
    lemma_after_fetch(d, id, id, Seq::empty());
    let replies: Seq<Reply> = seq![
        Reply::Done,
        Reply::Done,
        Reply::Done,
        Reply::Heads { head: id, fetched: id },
    ];
    let none: Seq<Reply> = Seq::empty();
    assert(fetched_replies(id, id) + none =~= replies);
    let end = after_fetch(d, id, id);
    assert(git_performed(end, none) =~= Seq::<GitStep<Text>>::empty());
    assert(fetch_steps(d) + git_performed(end, none) =~= fetch_steps(d));
}

/// The outcomes of the steps up to the comparison of the heads.
spec fn fetched_replies(head: Text, fetched: Text) -> Seq<Reply> {
    seq![Reply::Done, Reply::Done, Reply::Done, Reply::Heads { head, fetched }]
}

/// Where an update stands once the heads were compared.
spec fn after_fetch(d: GitDeployment, head: Text, fetched: Text) -> (GitJobView, GitNext<Text>) {
    let waiting = GitJobView {
        deployment: d,
        fetched: Seq::empty(),
        awaited: Some(Awaited::Heads),
        rest: Seq::empty(),
    };
    git_answered(waiting, Reply::Heads { head, fetched })
}

/// An update goes through the steps up to the comparison of the heads.
proof fn lemma_after_fetch(d: GitDeployment, head: Text, fetched: Text, later: Seq<Reply>)
    ensures
        ({
            let at = git_resumed(git_idle(d), fetch_steps(d));
            let all = fetched_replies(head, fetched) + later;
            &&& git_performed(at, all) == fetch_steps(d) + git_performed(
                after_fetch(d, head, fetched),
                later,
            )
            &&& git_outcome(at, all) == git_outcome(after_fetch(d, head, fetched), later)
        }),
{
    let steps = fetch_steps(d);
    let at0 = git_resumed(git_idle(d), steps);
    let all = fetched_replies(head, fetched) + later;
    let at1 = git_answered(at0.0, all[0]);
    assert(at1 == git_resumed(at0.0, steps.skip(1)));
    let at2 = git_answered(at1.0, all[1]);
    assert(at2 == git_resumed(at1.0, steps.skip(1).skip(1)));
    let at3 = git_answered(at2.0, all[2]);
    assert(at3 == git_resumed(at2.0, steps.skip(1).skip(1).skip(1)));
    assert(steps.skip(1).skip(1).skip(1).skip(1) =~= Seq::<GitStep<Text>>::empty());
    let at4 = git_answered(at3.0, all[3]);
    assert(at3.0.rest =~= Seq::<GitStep<Text>>::empty());
    assert(at4 == after_fetch(d, head, fetched));
    let r1 = all.skip(1);
    let r2 = r1.skip(1);
    let r3 = r2.skip(1);
    let r4 = r3.skip(1);
    assert(r1[0] == all[1]);
    assert(r2[0] == all[2]);
    assert(r3[0] == all[3]);
    assert(r4 =~= later);
    assert(git_performed(at3, r3) == seq![steps[3]] + git_performed(at4, r4));
    assert(git_performed(at2, r2) == seq![steps[2]] + git_performed(at3, r3));
    assert(git_performed(at1, r1) == seq![steps[1]] + git_performed(at2, r2));
    assert(git_performed(at0, all) == seq![steps[0]] + git_performed(at1, r1));
    assert(git_performed(at0, all) =~= steps + git_performed(at4, later));
    assert(git_outcome(at3, r3) == git_outcome(at4, r4));
    assert(git_outcome(at2, r2) == git_outcome(at3, r3));
    assert(git_outcome(at1, r1) == git_outcome(at2, r2));
    assert(git_outcome(at0, all) == git_outcome(at1, r1));
}

/// The name of the local branch, if it was found.
pub open spec fn found_name(found: Option<Seq<u8>>) -> Option<Text> {
    match found {
        Some(name) => Some(lossy_text(name)),
        None => None,
    }
}

/// An update that finds the remote branch elsewhere looks up the local branch,
/// performs the steps to the new commit, and says that the source changed. A
/// branch that cannot be looked up is no failure: it is created.
pub proof fn law_update_with_news(
    d: GitDeployment,
    head: Text,
    fetched: Text,
    found: Option<Seq<u8>>,
    later: Seq<Reply>,
)
    requires
        head != fetched,
        all_went_well(checkout_steps(d, fetched, found_name(found)), later),
    ensures
        ({
            let at = git_resumed(git_idle(d), fetch_steps(d));
            let lookup: Reply = match found {
                Some(name) => Reply::Reference { name },
                None => Reply::Failed,
            };
            let replies = seq![
                Reply::Done,
                Reply::Done,
                Reply::Done,
                Reply::Heads { head, fetched },
                lookup,
            ] + later;
            &&& git_performed(at, replies) == fetch_steps(d) + seq![
                GitStep::FindReference { name: d.local_ref() },
            ] + checkout_steps(d, fetched, found_name(found))
            &&& git_outcome(at, replies).1 == (GitNext::<Text>::Finished { changed: true })
        }),
{
    let at = git_resumed(git_idle(d), fetch_steps(d));
    let lookup: Reply = match found {
        Some(name) => Reply::Reference { name },
        None => Reply::Failed,
    };
    let replies = seq![Reply::Done, Reply::Done, Reply::Done, Reply::Heads { head, fetched }, lookup]
        + later;
    let tail = seq![lookup] + later;
    assert(replies =~= fetched_replies(head, fetched) + tail);
    lemma_after_fetch(d, head, fetched, tail);
    let mid = after_fetch(d, head, fetched);
    let step: GitStep<Text> = GitStep::FindReference { name: d.local_ref() };
    let steps = checkout_steps(d, fetched, found_name(found));
    assert(mid.1 == (GitNext::Perform { step }));
    assert(tail[0] == lookup);
    assert(tail.skip(1) =~= later);
    assert(git_answered(mid.0, lookup) == git_resumed(mid.0, steps));
    law_steps_run_in_order(mid.0, steps, later);
    assert(git_performed(mid, tail) == seq![step] + steps);
    assert(fetch_steps(d) + (seq![step] + steps) =~= fetch_steps(d) + seq![step] + steps);
}

/// A source directory that is there is left alone, and one that is missing is
/// cloned, with its submodules and the script after the checkout.
pub proof fn law_missing_source_is_cloned(d: GitDeployment, later: Seq<Reply>)
    requires
        all_went_well(clone_steps(d), later),
    ensures
        ({
            let at = git_resumed(git_idle(d), seq![GitStep::ReadDir]);
            let missing = seq![Reply::Failed] + later;
            let there: Seq<Reply> = seq![Reply::Done];
            &&& git_performed(at, there) == seq![GitStep::<Text>::ReadDir]
            &&& git_outcome(at, there).1 == (GitNext::<Text>::Finished { changed: false })
            &&& git_performed(at, missing) == seq![GitStep::ReadDir] + clone_steps(d)
            &&& git_outcome(at, missing).1 == (GitNext::<Text>::Finished { changed: true })
        }),
{
    let first: Seq<GitStep<Text>> = seq![GitStep::ReadDir];
    let at = git_resumed(git_idle(d), first);
    let missing = seq![Reply::Failed] + later;
    let there: Seq<Reply> = seq![Reply::Done];
    let end = git_answered(at.0, there[0]);
    assert(there.skip(1) =~= Seq::<Reply>::empty());
    assert(git_performed(end, there.skip(1)) =~= Seq::<GitStep<Text>>::empty());
    assert(git_performed(at, there) =~= first);
    assert(git_outcome(end, there.skip(1)) == end);
    assert(missing[0] == Reply::Failed);
    assert(missing.skip(1) =~= later);
    assert(git_answered(at.0, missing[0]) == git_resumed(at.0, clone_steps(d)));
    law_steps_run_in_order(at.0, clone_steps(d), later);
}

/// On the way to a new commit the working tree is brought to the head once;
/// the script before the checkout runs before that, the script after it runs
/// after that, and the branch and the head are set first of all.
pub proof fn law_scripts_surround_the_checkout(d: GitDeployment, id: Text, found: Option<Text>)
    ensures
        ({
            let steps = checkout_steps(d, id, found);
            let at: int = if d.pre_checkout is Some {
                3
            } else {
                2
            };
            &&& 0 <= at < steps.len()
            &&& forall|i: int|
                #![trigger steps[i]]
                0 <= i < steps.len() ==> {
                    &&& steps[i] is CheckoutHead <==> i == at
                    &&& (steps[i] matches GitStep::RunScript { stage, .. } ==> {
                        &&& stage is PreCheckout ==> 2 <= i < at
                        &&& stage is PostCheckout ==> at < i
                    })
                    &&& (steps[i] is SetTarget || steps[i] is CreateReference ==> i == 0)
                    &&& (steps[i] is SetHead ==> i == 1)
                }
        }),
{
}

/// The step that runs a script, where there is one.
spec fn run_of(stage: Stage, script: Option<String>) -> Seq<GitStep<Text>> {
    match script {
        Some(s) => seq![GitStep::RunScript { stage, script: s@ }],
        None => Seq::empty(),
    }
}

/// The answer that a script succeeded, where there is one.
pub open spec fn script_success(script: Option<String>, stdout: Seq<u8>) -> Seq<Reply> {
    match script {
        Some(s) => seq![Reply::ScriptExit { success: true, stdout }],
        None => Seq::empty(),
    }
}

/// The answers where all goes well on the way to a new commit.
pub open spec fn checkout_answers(d: GitDeployment, before: Seq<u8>, after: Seq<u8>) -> Seq<Reply> {
    seq![Reply::Done, Reply::Done] + script_success(d.pre_checkout, before) + seq![
        Reply::Done,
        Reply::Done,
    ] + script_success(d.post_checkout, after)
}

/// The branch of a deployment: the one that it names, or else `main`.
pub open spec fn branch_of(d: GitDeployment) -> Text {
    match d.branch {
        Some(b) => b@,
        None => "main"@,
    }
}

/// How often a step occurs in a list.
pub open spec fn times(steps: Seq<GitStep<Text>>, step: GitStep<Text>) -> nat {
    steps.to_multiset().count(step)
}

/// The steps to a new commit all go well with those answers.
proof fn lemma_checkout_answers(
    d: GitDeployment,
    id: Text,
    found: Option<Text>,
    before: Seq<u8>,
    after: Seq<u8>,
)
    ensures
        all_went_well(checkout_steps(d, id, found), checkout_answers(d, before, after)),
{
    let steps = checkout_steps(d, id, found);
    let replies = checkout_answers(d, before, after);
    assert forall|i: int| #![trigger steps[i]] 0 <= i < steps.len() implies went_well(
        steps[i],
        replies[i],
    ) by {
    }
}

/// What an update does where the remote branch has moved and all goes well. It
/// opens the repository; fetches the branch from `origin` with all tags; moves
/// the local branch where it is found, and else creates it; sets the head; runs
/// the script before the checkout, where there is one; checks the head out;
/// updates the submodules; and runs the script after the checkout, where there is
/// one, whether or not there is one before it.
pub proof fn law_update_is_exact(
    d: GitDeployment,
    head: Text,
    fetched: Text,
    found: Option<Seq<u8>>,
    before: Seq<u8>,
    after: Seq<u8>,
)
    requires
        head != fetched,
    ensures
        ({
            let at = git_resumed(git_idle(d), fetch_steps(d));
            let lookup: Reply = match found {
                Some(name) => Reply::Reference { name },
                None => Reply::Failed,
            };
            let replies = seq![
                Reply::Done,
                Reply::Done,
                Reply::Done,
                Reply::Heads { head, fetched },
                lookup,
            ] + checkout_answers(d, before, after);
            let local = "refs/heads/"@ + branch_of(d);
            let steps = git_performed(at, replies);
            let pre: int = if d.pre_checkout is Some {
                1
            } else {
                0
            };
            &&& git_outcome(at, replies).1 == (GitNext::<Text>::Finished { changed: true })
            &&& steps.len() == 9 + pre + (if d.post_checkout is Some {
                1int
            } else {
                0int
            })
            &&& steps[0] == GitStep::<Text>::OpenRepo
            &&& steps[1] == (GitStep::FindRemote { name: "origin"@ })
            &&& steps[2] == (GitStep::Fetch { refspec: branch_of(d), all_tags: true })
            &&& steps[3] == (GitStep::ReadHeads { local: "HEAD"@, remote: "FETCH_HEAD"@ })
            &&& steps[4] == (GitStep::FindReference { name: local })
            &&& match found {
                Some(bytes) => {
                    let name = lossy_text(bytes);
                    &&& steps[5] == (GitStep::SetTarget {
                        name,
                        id: fetched,
                        message: "Fast-Forward: Setting "@ + name + " to id: "@ + fetched,
                    })
                    &&& steps[6] == (GitStep::SetHead { name })
                },
                None => {
                    &&& steps[5] == (GitStep::CreateReference {
                        name: local,
                        id: fetched,
                        force: true,
                        message: "Setting "@ + branch_of(d) + " to "@ + fetched,
                    })
                    &&& steps[6] == (GitStep::SetHead { name: local })
                },
            }
            &&& d.pre_checkout matches Some(s) ==> steps[7] == (GitStep::RunScript {
                stage: Stage::PreCheckout,
                script: s@,
            })
            &&& steps[7 + pre] == (GitStep::<Text>::CheckoutHead { force: true })
            &&& steps[8 + pre] == GitStep::<Text>::UpdateSubmodules
            &&& d.post_checkout matches Some(s) ==> steps[9 + pre] == (GitStep::RunScript {
                stage: Stage::PostCheckout,
                script: s@,
            })
        }),
{
    let later = checkout_answers(d, before, after);
    lemma_checkout_answers(d, fetched, found_name(found), before, after);
    law_update_with_news(d, head, fetched, found, later);
}

/// An update to a new commit runs each script that the deployment names exactly
/// once, and no other: the one before the checkout if and only if there is one,
/// and the one after it if and only if there is one.
pub proof fn law_update_runs_each_script_once(
    d: GitDeployment,
    id: Text,
    found: Option<Text>,
    script: Text,
)
    ensures
        ({
            let steps = checkout_steps(d, id, found);
            let pre = GitStep::RunScript { stage: Stage::PreCheckout, script };
            let post = GitStep::RunScript { stage: Stage::PostCheckout, script };
            &&& times(steps, pre) == (if d.pre_checkout is Some && d.pre_checkout->0@ == script {
                1nat
            } else {
                0nat
            })
            &&& times(steps, post) == (if d.post_checkout is Some && d.post_checkout->0@ == script {
                1nat
            } else {
                0nat
            })
        }),
{
    broadcast use vstd::seq_lib::group_to_multiset_ensures;

    let steps = checkout_steps(d, id, found);
    let one = branch_steps(d, id, found);
    let two = run_of(Stage::PreCheckout, d.pre_checkout);
    let three: Seq<GitStep<Text>> = seq![GitStep::CheckoutHead { force: true }, GitStep::UpdateSubmodules];
    let four = run_of(Stage::PostCheckout, d.post_checkout);
    let pre = GitStep::RunScript { stage: Stage::PreCheckout, script };
    let post = GitStep::RunScript { stage: Stage::PostCheckout, script };
    vstd::seq_lib::lemma_multiset_commutative(one + two + three, four);
    vstd::seq_lib::lemma_multiset_commutative(one + two, three);
    vstd::seq_lib::lemma_multiset_commutative(one, two);
    lemma_times_missing(one, pre);
    lemma_times_missing(one, post);
    lemma_times_missing(three, pre);
    lemma_times_missing(three, post);
    lemma_times_of_script(Stage::PreCheckout, d.pre_checkout, pre);
    lemma_times_of_script(Stage::PreCheckout, d.pre_checkout, post);
    lemma_times_of_script(Stage::PostCheckout, d.post_checkout, pre);
    lemma_times_of_script(Stage::PostCheckout, d.post_checkout, post);
}

proof fn lemma_times_missing(steps: Seq<GitStep<Text>>, step: GitStep<Text>)
    requires
        forall|i: int| 0 <= i < steps.len() ==> #[trigger] steps[i] != step,
    ensures
        times(steps, step) == 0,
{
    broadcast use vstd::seq_lib::group_to_multiset_ensures;

    assert(!steps.contains(step));
}

proof fn lemma_times_of_script(stage: Stage, script: Option<String>, step: GitStep<Text>)
    ensures
        times(run_of(stage, script), step) == (if script is Some && step == (GitStep::RunScript {
            stage,
            script: script->0@,
        }) {
            1nat
        } else {
            0nat
        }),
{
    broadcast use vstd::seq_lib::group_to_multiset_ensures;

    match script {
        Some(s) => {
            let run: GitStep<Text> = GitStep::RunScript { stage, script: s@ };
            assert(run_of(stage, script) =~= Seq::empty().push(run));
            assert(Seq::<GitStep<Text>>::empty().to_multiset().count(step) == 0);
        },
        None => {
            assert(Seq::<GitStep<Text>>::empty().to_multiset().count(step) == 0);
        },
    }
}

/// Where the remote branch has not moved, an update fetches and changes nothing.
pub proof fn law_update_without_news_is_exact(d: GitDeployment, id: Text)
    ensures
        ({
            let at = git_resumed(git_idle(d), fetch_steps(d));
            let replies = seq![
                Reply::Done,
                Reply::Done,
                Reply::Done,
                Reply::Heads { head: id, fetched: id },
            ];
            &&& git_outcome(at, replies).1 == (GitNext::<Text>::Finished { changed: false })
            &&& git_performed(at, replies) == seq![
                GitStep::OpenRepo,
                GitStep::FindRemote { name: "origin"@ },
                GitStep::Fetch { refspec: branch_of(d), all_tags: true },
                GitStep::ReadHeads { local: "HEAD"@, remote: "FETCH_HEAD"@ },
            ]
        }),
{
    law_update_without_news(d, id);
    let at = git_resumed(git_idle(d), fetch_steps(d));
    let replies = seq![
        Reply::Done,
        Reply::Done,
        Reply::Done,
        Reply::Heads { head: id, fetched: id },
    ];
    assert(git_performed(at, replies) =~= seq![
        GitStep::OpenRepo,
        GitStep::FindRemote { name: "origin"@ },
        GitStep::Fetch { refspec: branch_of(d), all_tags: true },
        GitStep::ReadHeads { local: "HEAD"@, remote: "FETCH_HEAD"@ },
    ]);
}

/// A source that is missing is cloned at its branch, with its submodules, and the
/// script after the checkout is run where there is one. One that is there is left
/// alone.
pub proof fn law_creation_is_exact(d: GitDeployment, after: Seq<u8>)
    ensures
        ({
            let at = git_resumed(git_idle(d), seq![GitStep::ReadDir]);
            let replies = seq![Reply::Failed, Reply::Done, Reply::Done] + script_success(
                d.post_checkout,
                after,
            );
            let steps = git_performed(at, replies);
            &&& at.1 == (GitNext::<Text>::Perform { step: GitStep::ReadDir })
            &&& git_answered(at.0, Reply::Done).1 == (GitNext::<Text>::Finished { changed: false })
            &&& git_outcome(at, replies).1 == (GitNext::<Text>::Finished { changed: true })
            &&& steps.len() == 3 + (if d.post_checkout is Some {
                1int
            } else {
                0int
            })
            &&& steps[0] == GitStep::<Text>::ReadDir
            &&& steps[1] == (GitStep::CloneRepo {
                url: d.url@,
                branch: match d.branch {
                    Some(b) => Some(b@),
                    None => None,
                },
            })
            &&& steps[2] == GitStep::<Text>::UpdateSubmodules
            &&& d.post_checkout matches Some(s) ==> steps[3] == (GitStep::RunScript {
                stage: Stage::PostCheckout,
                script: s@,
            })
        }),
{
    let later = seq![Reply::Done, Reply::Done] + script_success(d.post_checkout, after);
    let steps = clone_steps(d);
    assert forall|i: int| #![trigger steps[i]] 0 <= i < steps.len() implies went_well(
        steps[i],
        later[i],
    ) by {
    }
    law_missing_source_is_cloned(d, later);
    assert(seq![Reply::Failed, Reply::Done, Reply::Done] + script_success(d.post_checkout, after)
        =~= seq![Reply::Failed] + later);
}

/// What is awaited is the outcome of the step that is to be performed.
pub open spec fn awaits_its_step(at: (GitJobView, GitNext<Text>)) -> bool {
    match at.1 {
        GitNext::Perform { step } => at.0.awaited == Some(
            match step {
                GitStep::ReadDir => Awaited::Directory,
                GitStep::ReadHeads { .. } => Awaited::Heads,
                GitStep::FindReference { .. } => Awaited::Reference,
                GitStep::RunScript { stage, .. } => Awaited::Script(stage),
                _ => Awaited::Completion,
            },
        ),
        _ => at.0.awaited is None,
    }
}

/// Whatever is answered, the work awaits the outcome of the step that it performs.
pub proof fn law_work_awaits_its_step(j: GitJobView, steps: Seq<GitStep<Text>>, reply: Reply)
    ensures
        awaits_its_step(git_resumed(j, steps)),
        awaits_its_step(git_answered(j, reply)),
{
}

/// A step that cannot be done ends the work, but for the look at the directory,
/// which a clone follows, and the look for the local branch, which is then
/// created. A script that ends in failure ends it with what the script wrote.
pub proof fn law_failures_end_the_work(
    at: (GitJobView, GitNext<Text>),
    step: GitStep<Text>,
    stdout: Seq<u8>,
)
    requires
        awaits_its_step(at),
        at.1 == (GitNext::Perform { step }),
    ensures
        ({
            let failed = git_answered(at.0, Reply::Failed).1;
            let script = git_answered(at.0, Reply::ScriptExit { success: false, stdout }).1;
            &&& step is ReadDir ==> failed == (GitNext::Perform {
                step: GitStep::CloneRepo {
                    url: at.0.deployment.url@,
                    branch: match at.0.deployment.branch {
                        Some(b) => Some(b@),
                        None => None,
                    },
                },
            })
            &&& step is FindReference ==> failed == (GitNext::Perform {
                step: GitStep::CreateReference {
                    name: "refs/heads/"@ + branch_of(at.0.deployment),
                    id: at.0.fetched,
                    force: true,
                    message: "Setting "@ + branch_of(at.0.deployment) + " to "@ + at.0.fetched,
                },
            })
            &&& !(step is ReadDir) && !(step is FindReference) ==> failed is Aborted
            &&& step matches GitStep::RunScript { stage: Stage::PreCheckout, .. } ==> script == (
            GitNext::ScriptFailed { message: "Failed to run pre_checkout: "@ + lossy_text(stdout) })
            &&& step matches GitStep::RunScript { stage: Stage::PostCheckout, .. } ==> script == (
            GitNext::ScriptFailed { message: "Failed to run post_checkout: "@ + lossy_text(stdout) })
            &&& !(step is RunScript) ==> script is Aborted
        }),
{
}

/// Once the work has ended, no outcome brings it to perform another step.
pub proof fn law_the_end_is_final(j: GitJobView, reply: Reply)
    requires
        j.awaited is None,
    ensures
        git_answered(j, reply) == git_ended(j, GitNext::Aborted),
{
}

} // verus!
