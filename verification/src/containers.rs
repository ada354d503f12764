//! Removing all containers of a repository, and running them for a build.

use vstd::prelude::*;
use crate::cache::{CacheView, RepositoryCache};
use crate::docker::{DockerCall, DockerReply, Info, InfoView};
use crate::sync::{container_list, list_containers, remembered, Container};
use crate::sync_laws::disposed;
use crate::text::Text;

verus! {

/// What the removal of containers waits for.
pub enum ClearPhase<S> {
    /// An inspection that shows whether a container is there.
    Probing { id: S },
    /// The end of a container.
    Killing { id: S },
    /// The removal of a container.
    Removing { id: S },
    /// Nothing.
    Ended,
}

impl View for ClearPhase<String> {
    type V = ClearPhase<Text>;

    open spec fn view(&self) -> ClearPhase<Text> {
        match *self {
            ClearPhase::Probing { id } => ClearPhase::Probing { id: id@ },
            ClearPhase::Killing { id } => ClearPhase::Killing { id: id@ },
            ClearPhase::Removing { id } => ClearPhase::Removing { id: id@ },
            ClearPhase::Ended => ClearPhase::Ended,
        }
    }
}

/// What is to be done next.
#[derive(Debug, PartialEq, Eq)]
pub enum ClearNext<S, L> {
    /// Make a call.
    Call { call: DockerCall<S, L> },
    /// All containers are gone and forgotten.
    Finished,
    /// The last call failed, and nothing follows it.
    Aborted,
}

impl View for ClearNext<String, Vec<String>> {
    type V = ClearNext<Text, Seq<Text>>;

    open spec fn view(&self) -> ClearNext<Text, Seq<Text>> {
        match *self {
            ClearNext::Call { call } => ClearNext::Call { call: call@ },
            ClearNext::Finished => ClearNext::Finished,
            ClearNext::Aborted => ClearNext::Aborted,
        }
    }
}

/// The state of the removal.
pub struct ClearView {
    pub cache: CacheView,
    /// The containers that are still to be removed.
    pub pending: Seq<Container<Text>>,
    pub phase: ClearPhase<Text>,
}

/// What the service answers.
pub type ClearAnswer = DockerReply<Text, InfoView>;

/// What is to be done next.
pub type ClearStep = ClearNext<Text, Seq<Text>>;

/// Goes on with the next container. Once there is none, all are forgotten.
pub open spec fn clear_probe(s: ClearView) -> (ClearView, ClearStep) {
    if s.pending.len() == 0 {
        (
            ClearView {
                cache: CacheView { containers: Map::empty(), ..s.cache },
                phase: ClearPhase::Ended,
                ..s
            },
            ClearNext::Finished,
        )
    } else {
        let id = s.pending[0].id;
        (
            ClearView { pending: s.pending.skip(1), phase: ClearPhase::Probing { id }, ..s },
            ClearNext::Call { call: DockerCall::Inspect { id } },
        )
    }
}

/// What follows the answer to the last call.
pub open spec fn clear_answered(s: ClearView, reply: ClearAnswer) -> (ClearView, ClearStep) {
    match (s.phase, reply) {
        (ClearPhase::Probing { id }, DockerReply::Inspected { info }) => if info is Some {
            (
                ClearView { phase: ClearPhase::Killing { id }, ..s },
                ClearNext::Call { call: DockerCall::Kill { id, signal: "SIGKILL"@ } },
            )
        } else {
            clear_probe(s)
        },
        // Whether the container could be ended does not matter.
        (ClearPhase::Killing { id }, _) => (
            ClearView { phase: ClearPhase::Removing { id }, ..s },
            ClearNext::Call { call: DockerCall::Remove { id } },
        ),
        (ClearPhase::Removing { .. }, DockerReply::Done) => clear_probe(s),
        _ => (ClearView { phase: ClearPhase::Ended, ..s }, ClearNext::Aborted),
    }
}

/// The removal of all containers of a repository.
pub struct ClearRun {
    cache: RepositoryCache,
    pending: Vec<Container<String>>,
    phase: ClearPhase<String>,
}

impl View for ClearRun {
    type V = ClearView;

    closed spec fn view(&self) -> ClearView {
        ClearView {
            cache: self.cache@,
            pending: container_list(self.pending@),
            phase: self.phase@,
        }
    }
}

impl RepositoryCache {
    /// Starts to remove all containers.
    pub fn clear_containers(self) -> (r: (ClearRun, ClearNext<String, Vec<String>>))
        requires
            self.wf(),
        ensures
            r.0.wf(),
            (r.0@, r.1@) == clear_probe(
                ClearView {
                    cache: self@,
                    pending: remembered(self@.containers),
                    phase: ClearPhase::Ended,
                },
            ),
    {
        let pending = list_containers(&self.docker_containers);
        let mut run = ClearRun { cache: self, pending, phase: ClearPhase::Ended };
        let next = run.probe();
        (run, next)
    }
}

impl ClearRun {
    /// The remembered containers are in good order.
    pub closed spec fn wf(&self) -> bool {
        self.cache.wf()
    }

    fn probe(&mut self) -> (r: ClearNext<String, Vec<String>>)
        requires
            old(self).wf(),
        ensures
            final(self).wf(),
            (final(self)@, r@) == clear_probe(old(self)@),
    {
        let ghost before = *self;
        if self.pending.len() == 0 {
            self.cache.docker_containers.clear();
            self.phase = ClearPhase::Ended;
            assert(self@.cache.containers =~= Map::<Text, Text>::empty());
            return ClearNext::Finished;
        }
        let c = self.pending.remove(0);
        self.phase = ClearPhase::Probing { id: c.id.clone() };
        assert(self@.pending =~= before@.pending.skip(1));
        ClearNext::Call { call: DockerCall::Inspect { id: c.id } }
    }

    /// Takes the answer to the last call and says what is to be done next.
    pub fn next(&mut self, reply: DockerReply<String, Info>) -> (r: ClearNext<String, Vec<String>>)
        requires
            old(self).wf(),
        ensures
            final(self).wf(),
            (final(self)@, r@) == clear_answered(old(self)@, reply@),
    {
        let mut phase = ClearPhase::Ended;
        std::mem::swap(&mut phase, &mut self.phase);
        match (phase, reply) {
            (ClearPhase::Probing { id }, DockerReply::Inspected { info }) => {
                if info.is_some() {
                    self.phase = ClearPhase::Killing { id: id.clone() };
                    ClearNext::Call {
                        call: DockerCall::Kill { id, signal: "SIGKILL".to_owned() },
                    }
                } else {
                    self.probe()
                }
            },
            (ClearPhase::Killing { id }, _) => {
                self.phase = ClearPhase::Removing { id: id.clone() };
                ClearNext::Call { call: DockerCall::Remove { id } }
            },
            (ClearPhase::Removing { id }, DockerReply::Done) => self.probe(),
            _ => ClearNext::Aborted,
        }
    }

    /// What is remembered of the repository after the removal.
    pub fn into_cache(self) -> (r: RepositoryCache)
        requires
            self.wf(),
        ensures
            r.wf(),
            r@ == self@.cache,
    {
        self.cache
    }
}

/// Where the removal stands after the answers to its calls in turn. Once it has
/// ended, nothing changes.
pub open spec fn clear_outcome(at: (ClearView, ClearStep), replies: Seq<ClearAnswer>) -> (
    ClearView,
    ClearStep,
)
    decreases replies.len(),
{
    if replies.len() == 0 || !(at.1 is Call) {
        at
    } else {
        clear_outcome(clear_answered(at.0, replies[0]), replies.skip(1))
    }
}

/// The calls that the removal makes, given the answers to its calls in turn.
pub open spec fn clear_calls(at: (ClearView, ClearStep), replies: Seq<ClearAnswer>) -> Seq<
    DockerCall<Text, Seq<Text>>,
>
    decreases replies.len(),
{
    match at.1 {
        ClearNext::Call { call } => if replies.len() == 0 {
            seq![call]
        } else {
            seq![call] + clear_calls(clear_answered(at.0, replies[0]), replies.skip(1))
        },
        _ => Seq::empty(),
    }
}

proof fn lemma_forgotten_together(
    before: CacheView,
    at: (ClearView, ClearStep),
    replies: Seq<ClearAnswer>,
)
    requires
        at.0.cache == if at.1 is Finished {
            CacheView { containers: Map::empty(), ..before }
        } else {
            before
        },
    ensures
        clear_outcome(at, replies).0.cache == if clear_outcome(at, replies).1 is Finished {
            CacheView { containers: Map::empty(), ..before }
        } else {
            before
        },
    decreases replies.len(),
{
    if replies.len() > 0 && at.1 is Call {
        lemma_forgotten_together(before, clear_answered(at.0, replies[0]), replies.skip(1));
    }
}

/// A removal that is finished has forgotten all containers, and nothing else. One
/// that is aborted, or still under way, has forgotten none.
pub proof fn law_containers_are_forgotten_together(s: ClearView, replies: Seq<ClearAnswer>)
    ensures
        ({
            let end = clear_outcome(clear_probe(s), replies);
            &&& end.1 is Finished ==> end.0.cache == (CacheView {
                containers: Map::empty(),
                ..s.cache
            })
            &&& !(end.1 is Finished) ==> end.0.cache == s.cache
        }),
{
    lemma_forgotten_together(s.cache, clear_probe(s), replies);
}

/// The calls that remove a container, where it is there or is not.
pub open spec fn removal_calls(id: Text, found: Option<InfoView>) -> Seq<
    DockerCall<Text, Seq<Text>>,
> {
    match found {
        Some(_) => seq![
            DockerCall::Inspect { id },
            DockerCall::Kill { id, signal: "SIGKILL"@ },
            DockerCall::Remove { id },
        ],
        None => seq![DockerCall::Inspect { id }],
    }
}

/// The calls that remove some containers, one after the other.
pub open spec fn all_removal_calls(list: Seq<Container<Text>>, found: Seq<Option<InfoView>>) -> Seq<
    DockerCall<Text, Seq<Text>>,
>
    decreases list.len(),
{
    if list.len() == 0 {
        Seq::empty()
    } else {
        removal_calls(list[0].id, found[0]) + all_removal_calls(list.skip(1), found.skip(1))
    }
}

/// Where every container that is there can be removed, whether or not it could
/// be ended, all are removed in turn, and the removal is finished.
pub proof fn law_all_containers_are_removed(
    s: ClearView,
    found: Seq<Option<InfoView>>,
    kills: Seq<ClearAnswer>,
)
    requires
        found.len() == s.pending.len(),
        kills.len() == s.pending.len(),
    ensures
        clear_outcome(clear_probe(s), disposed(found, kills)).1 is Finished,
        clear_calls(clear_probe(s), disposed(found, kills)) == all_removal_calls(s.pending, found),
    decreases found.len(),
{
    let at = clear_probe(s);
    let replies = disposed(found, kills);
    if found.len() == 0 {
        assert(clear_calls(at, replies) =~= all_removal_calls(s.pending, found));
    } else {
        let id = s.pending[0].id;
        let rest = disposed(found.skip(1), kills.skip(1));
        let t = ClearView { pending: s.pending.skip(1), ..s };
        let more = all_removal_calls(t.pending, found.skip(1));
        law_all_containers_are_removed(t, found.skip(1), kills.skip(1));
        match found[0] {
            Some(info) => {
                let three = seq![ClearAnswer::Inspected { info: Some(info) }, kills[0], ClearAnswer::Done];
                assert(replies == three + rest);
                let r1 = replies.skip(1);
                let r2 = r1.skip(1);
                assert(r1[0] == kills[0]);
                assert(r2[0] == ClearAnswer::Done);
                assert(r2.skip(1) =~= rest);
                let at1 = clear_answered(at.0, replies[0]);
                let at2 = clear_answered(at1.0, r1[0]);
                let at3 = clear_answered(at2.0, r2[0]);
                assert(at3 == clear_probe(t));
                assert(clear_outcome(at2, r2) == clear_outcome(at3, rest));
                assert(clear_outcome(at1, r1) == clear_outcome(at2, r2));
                let c0: DockerCall<Text, Seq<Text>> = DockerCall::Inspect { id };
                let c1: DockerCall<Text, Seq<Text>> = DockerCall::Kill { id, signal: "SIGKILL"@ };
                let c2: DockerCall<Text, Seq<Text>> = DockerCall::Remove { id };
                assert(clear_calls(at2, r2) == seq![c2] + more);
                assert(clear_calls(at1, r1) == seq![c1] + clear_calls(at2, r2));
                assert(clear_calls(at, replies) == seq![c0] + clear_calls(at1, r1));
                assert(clear_calls(at, replies) =~= seq![c0, c1, c2] + more);
            },
            None => {
                let one = seq![ClearAnswer::Inspected { info: None::<InfoView> }];
                assert(replies == one + rest);
                assert(replies.skip(1) =~= rest);
                assert(clear_answered(at.0, replies[0]) == clear_probe(t));
            },
        }
    }
}

/// What is asked of the service for the run of a container.
#[derive(Debug, PartialEq, Eq)]
pub enum RunCall<S> {
    /// Start the container.
    Start { id: S },
    /// Wait until the container is in a condition.
    Wait { id: S, condition: S },
}

/// What is to be done next.
#[derive(Debug, PartialEq, Eq)]
pub enum RunNext<S> {
    /// Make a call.
    Call { call: RunCall<S> },
    /// The container has run.
    Finished,
    /// The container could not be started.
    Aborted,
}

impl View for RunNext<String> {
    type V = RunNext<Text>;

    open spec fn view(&self) -> RunNext<Text> {
        match *self {
            RunNext::Call { call } => RunNext::Call {
                call: match call {
                    RunCall::Start { id } => RunCall::Start { id: id@ },
                    RunCall::Wait { id, condition } => RunCall::Wait {
                        id: id@,
                        condition: condition@,
                    },
                },
            },
            RunNext::Finished => RunNext::Finished,
            RunNext::Aborted => RunNext::Aborted,
        }
    }
}

/// How far the run of a container is.
#[derive(Clone, Copy, Debug, PartialEq, Eq, Structural)]
pub enum RunPhase {
    Idle,
    Starting,
    Waiting,
    Over,
}

/// The run of the container of one platform.
pub struct ContainerRun {
    pub container: Container<String>,
    pub phase: RunPhase,
}

/// The condition that the end of a run is awaited by.
pub open spec fn end_condition() -> Text {
    "not-running"@
}

/// What follows in the run of a container, where the last call succeeded or did
/// not. How a wait ends does not matter.
pub open spec fn run_answered(id: Text, phase: RunPhase, ok: bool) -> (RunPhase, RunNext<Text>) {
    match phase {
        RunPhase::Idle => (RunPhase::Starting, RunNext::Call { call: RunCall::Start { id } }),
        RunPhase::Starting => if ok {
            (
                RunPhase::Waiting,
                RunNext::Call { call: RunCall::Wait { id, condition: end_condition() } },
            )
        } else {
            (RunPhase::Over, RunNext::Aborted)
        },
        RunPhase::Waiting => (RunPhase::Over, RunNext::Finished),
        RunPhase::Over => (RunPhase::Over, RunNext::Aborted),
    }
}

/// The runs of a list.
pub open spec fn run_list(list: Seq<ContainerRun>) -> Seq<Container<Text>> {
    Seq::new(list.len(), |i: int| list[i].container@)
}

impl RepositoryCache {
    /// The runs that a build is made of: one for each container, all at once.
    pub fn build(&self) -> (r: Vec<ContainerRun>)
        requires
            self.wf(),
        ensures
            run_list(r@) == remembered(self@.containers),
            forall|i: int| #![trigger r@[i]] 0 <= i < r@.len() ==> r@[i].phase is Idle,
    {
        let mut rest = list_containers(&self.docker_containers);
        let ghost all = container_list(rest@);
        let mut r: Vec<ContainerRun> = Vec::new();
        while rest.len() > 0
            invariant
                all == run_list(r@) + container_list(rest@),
                forall|i: int| #![trigger r@[i]] 0 <= i < r@.len() ==> r@[i].phase is Idle,
            decreases rest@.len(),
        {
            let ghost done = run_list(r@);
            let ghost left = container_list(rest@);
            let container = rest.remove(0);
            r.push(ContainerRun { container, phase: RunPhase::Idle });
            assert(container_list(rest@) =~= left.skip(1));
            assert(run_list(r@) =~= done.push(left[0]));
            assert(all =~= run_list(r@) + container_list(rest@));
        }
        assert(all =~= run_list(r@));
        r
    }
}

impl ContainerRun {
    /// Says what is to be done next; `ok` says whether the last call succeeded.
    pub fn next(&mut self, ok: bool) -> (r: RunNext<String>)
        ensures
            final(self).container == old(self).container,
            (final(self).phase, r@) == run_answered(old(self).container.id@, old(self).phase, ok),
    {
        match self.phase {
            RunPhase::Idle => {
                self.phase = RunPhase::Starting;
                RunNext::Call { call: RunCall::Start { id: self.container.id.clone() } }
            },
            RunPhase::Starting => {
                if ok {
                    self.phase = RunPhase::Waiting;
                    RunNext::Call {
                        call: RunCall::Wait {
                            id: self.container.id.clone(),
                            condition: "not-running".to_owned(),
                        },
                    }
                } else {
                    self.phase = RunPhase::Over;
                    RunNext::Aborted
                }
            },
            RunPhase::Waiting => {
                self.phase = RunPhase::Over;
                RunNext::Finished
            },
            RunPhase::Over => RunNext::Aborted,
        }
    }
}

/// Of the runs of a build, which ended well or did not, the first that did not.
pub fn first_failure(ended_well: &Vec<bool>) -> (r: Option<usize>)
    ensures
        match r {
            Some(i) => {
                &&& i < ended_well@.len()
                &&& !ended_well@[i as int]
                &&& forall|j: int| 0 <= j < i ==> ended_well@[j]
            },
            None => forall|j: int| 0 <= j < ended_well@.len() ==> ended_well@[j],
        },
{
    let mut i: usize = 0;
    while i < ended_well.len()
        invariant
            i <= ended_well@.len(),
            forall|j: int| 0 <= j < i ==> ended_well@[j],
        decreases ended_well@.len() - i,
    {
        if !ended_well[i] {
            return Some(i);
        }
        i += 1;
    }
    None
}

/// The run of a container that is started goes well once its wait is over,
/// however the wait ended. One that cannot be started fails, and nothing follows
/// the end.
pub proof fn law_runs_are_exact(id: Text, any: bool, waited: bool)
    ensures
        ({
            let start = run_answered(id, RunPhase::Idle, any);
            let wait = run_answered(id, start.0, true);
            let end = run_answered(id, wait.0, waited);
            &&& start.1 == (RunNext::Call { call: RunCall::Start { id } })
            &&& wait.1 == (RunNext::Call {
                call: RunCall::Wait { id, condition: "not-running"@ },
            })
            &&& end.1 is Finished
            &&& run_answered(id, start.0, false).1 is Aborted
            &&& run_answered(id, end.0, any).1 is Aborted
            &&& run_answered(id, run_answered(id, start.0, false).0, any).1 is Aborted
        }),
{
}

/// A run fails only where its container could not be started, or after its end.
pub proof fn law_runs_fail_at_their_start(id: Text, phase: RunPhase, ok: bool)
    requires
        run_answered(id, phase, ok).1 is Aborted,
    ensures
        phase is Starting && !ok || phase is Over,
{
}

/// The removal of a container stops where the service cannot remove it, and only
/// there: with `SIGKILL` it is ended first, whether or not that succeeds.
pub proof fn law_removal_is_exact(s: ClearView, info: InfoView, killed: ClearAnswer)
    requires
        s.pending.len() > 0,
    ensures
        ({
            let id = s.pending[0].id;
            let first = clear_probe(s);
            let there = clear_answered(first.0, ClearAnswer::Inspected { info: Some(info) });
            let ended = clear_answered(there.0, killed);
            &&& first.1 == (ClearStep::Call { call: DockerCall::Inspect { id } })
            &&& there.1 == (ClearStep::Call { call: DockerCall::Kill { id, signal: "SIGKILL"@ } })
            &&& ended.1 == (ClearStep::Call { call: DockerCall::Remove { id } })
            &&& clear_answered(ended.0, ClearAnswer::Failed).1 is Aborted
            &&& clear_answered(ended.0, ClearAnswer::Done) == clear_probe(
                ClearView { pending: s.pending.skip(1), phase: ended.0.phase, ..s },
            )
        }),
{
}

} // verus!
