//! The worker that builds a repository whenever it needs a build.

use vstd::prelude::*;
use crate::wait_flag::WaitFlag;

verus! {

/// What a worker is told.
#[derive(Clone, Copy, Debug, PartialEq, Eq, Structural)]
pub enum WorkerEvent {
    /// No more builds are wanted, and no repository is being built.
    Quiet,
    /// The repository needs a build. More builds are wanted or not, and so many
    /// repositories are being built.
    Wanted { keep_building: bool, in_build: usize },
    /// The repository has been counted among those that are being built.
    CountedIn,
    /// The repository has been built.
    Built,
    /// The build failed.
    BuildFailed,
    /// The repository is no longer counted.
    CountedOut,
    /// Other tasks have had their turn.
    Yielded,
}

/// What a worker is to do next.
#[derive(Clone, Copy, Debug, PartialEq, Eq, Structural)]
pub enum WorkerAction {
    /// Wait until all is quiet, or until the repository needs a build.
    Wait,
    /// Count the repository among those that are being built.
    CountIn,
    /// Build the repository.
    Build,
    /// Count the repository no longer.
    CountOut,
    /// Let other tasks take over.
    Yield,
    /// Nothing more; the repository has been built so many times.
    Finish { builds: usize },
    /// Nothing more; a build failed.
    Fail,
}

/// What a worker waits for.
#[derive(Clone, Copy, Debug, PartialEq, Eq, Structural)]
pub enum WorkerPhase {
    Waiting,
    CountingIn,
    Building,
    CountingOut,
    Yielding,
    Finished,
    Failed,
}

/// The state of a worker.
pub struct WorkerView {
    pub phase: WorkerPhase,
    pub builds: int,
}

/// What follows an event. An event that the worker does not wait for changes
/// nothing.
pub open spec fn worker_told(w: WorkerView, event: WorkerEvent) -> WorkerView {
    match (w.phase, event) {
        (WorkerPhase::Waiting, WorkerEvent::Quiet) => WorkerView {
            phase: WorkerPhase::Finished,
            ..w
        },
        (WorkerPhase::Waiting, WorkerEvent::Wanted { keep_building, in_build }) => WorkerView {
            phase: if keep_building || in_build != 0 {
                WorkerPhase::CountingIn
            } else {
                WorkerPhase::Finished
            },
            ..w
        },
        (WorkerPhase::CountingIn, WorkerEvent::CountedIn) => WorkerView {
            phase: WorkerPhase::Building,
            ..w
        },
        (WorkerPhase::Building, WorkerEvent::Built) => WorkerView {
            phase: WorkerPhase::CountingOut,
            builds: w.builds + 1,
        },
        (WorkerPhase::Building, WorkerEvent::BuildFailed) => WorkerView {
            phase: WorkerPhase::Failed,
            ..w
        },
        (WorkerPhase::CountingOut, WorkerEvent::CountedOut) => WorkerView {
            phase: WorkerPhase::Yielding,
            ..w
        },
        (WorkerPhase::Yielding, WorkerEvent::Yielded) => WorkerView {
            phase: WorkerPhase::Waiting,
            ..w
        },
        _ => w,
    }
}

/// What a worker does in a phase.
pub open spec fn worker_action(w: WorkerView) -> WorkerAction {
    match w.phase {
        WorkerPhase::Waiting => WorkerAction::Wait,
        WorkerPhase::CountingIn => WorkerAction::CountIn,
        WorkerPhase::Building => WorkerAction::Build,
        WorkerPhase::CountingOut => WorkerAction::CountOut,
        WorkerPhase::Yielding => WorkerAction::Yield,
        WorkerPhase::Finished => WorkerAction::Finish { builds: w.builds as usize },
        WorkerPhase::Failed => WorkerAction::Fail,
    }
}

/// The worker of a repository.
#[derive(Debug)]
pub struct Worker {
    phase: WorkerPhase,
    builds: usize,
}

impl View for Worker {
    type V = WorkerView;

    closed spec fn view(&self) -> WorkerView {
        WorkerView { phase: self.phase, builds: self.builds as int }
    }
}

impl Worker {
    /// A worker that has built nothing yet.
    pub fn new() -> (r: Self)
        ensures
            r@ == (WorkerView { phase: WorkerPhase::Waiting, builds: 0 }),
    {
        Worker { phase: WorkerPhase::Waiting, builds: 0 }
    }

    /// How many times the repository has been built.
    pub fn builds(&self) -> (r: usize)
        ensures
            r == self@.builds,
    {
        self.builds
    }

    /// What the worker is to do.
    pub fn action(&self) -> (r: WorkerAction)
        ensures
            r == worker_action(self@),
    {
        match self.phase {
            WorkerPhase::Waiting => WorkerAction::Wait,
            WorkerPhase::CountingIn => WorkerAction::CountIn,
            WorkerPhase::Building => WorkerAction::Build,
            WorkerPhase::CountingOut => WorkerAction::CountOut,
            WorkerPhase::Yielding => WorkerAction::Yield,
            WorkerPhase::Finished => WorkerAction::Finish { builds: self.builds },
            WorkerPhase::Failed => WorkerAction::Fail,
        }
    }

    /// Tells the worker what came of its last action. The builds that it counts
    /// must fit the machine.
    pub fn tell(&mut self, event: WorkerEvent)
        requires
            old(self)@.phase is Building && event is Built ==> old(self)@.builds < usize::MAX,
        ensures
            final(self)@ == worker_told(old(self)@, event),
    {
        match (self.phase, event) {
            (WorkerPhase::Waiting, WorkerEvent::Quiet) => {
                self.phase = WorkerPhase::Finished;
            },
            (WorkerPhase::Waiting, WorkerEvent::Wanted { keep_building, in_build }) => {
                self.phase = if keep_building || in_build != 0 {
                    WorkerPhase::CountingIn
                } else {
                    WorkerPhase::Finished
                };
            },
            (WorkerPhase::CountingIn, WorkerEvent::CountedIn) => {
                self.phase = WorkerPhase::Building;
            },
            (WorkerPhase::Building, WorkerEvent::Built) => {
                self.builds = self.builds + 1;
                self.phase = WorkerPhase::CountingOut;
            },
            (WorkerPhase::Building, WorkerEvent::BuildFailed) => {
                self.phase = WorkerPhase::Failed;
            },
            (WorkerPhase::CountingOut, WorkerEvent::CountedOut) => {
                self.phase = WorkerPhase::Yielding;
            },
            (WorkerPhase::Yielding, WorkerEvent::Yielded) => {
                self.phase = WorkerPhase::Waiting;
            },
            _ => {},
        }
    }
}

fn increase(v: &mut usize)
    requires
        *old(v) < usize::MAX,
    ensures
        *final(v) == *old(v) + 1,
{
    *v = *v + 1;
}

fn decrease(v: &mut usize)
    requires
        *old(v) > 0,
    ensures
        *final(v) == *old(v) - 1,
{
    *v = *v - 1;
}

/// Counts one more repository among those that are being built.
pub fn count_in(in_build: &mut WaitFlag<usize>)
    requires
        old(in_build).value < usize::MAX,
    ensures
        final(in_build).value == old(in_build).value + 1,
{
    in_build.modify(increase);
}

/// Counts one repository less among those that are being built.
pub fn count_out(in_build: &mut WaitFlag<usize>)
    requires
        old(in_build).value > 0,
    ensures
        final(in_build).value == old(in_build).value - 1,
{
    in_build.modify(decrease);
}

/// All workers, and how many repositories are counted as being built.
pub struct Workers {
    pub workers: Seq<WorkerView>,
    pub in_build: int,
}

/// An event is an answer to what a worker does.
pub open spec fn answers(action: WorkerAction, event: WorkerEvent) -> bool {
    match action {
        WorkerAction::Wait => event is Quiet || event is Wanted,
        WorkerAction::CountIn => event is CountedIn,
        WorkerAction::Build => event is Built || event is BuildFailed,
        WorkerAction::CountOut => event is CountedOut,
        WorkerAction::Yield => event is Yielded,
        WorkerAction::Finish { .. } => false,
        WorkerAction::Fail => false,
    }
}

/// One of the workers is told what came of its action, which may have changed
/// the count.
pub open spec fn workers_told(s: Workers, i: int, event: WorkerEvent) -> Workers {
    Workers {
        workers: s.workers.update(i, worker_told(s.workers[i], event)),
        in_build: match event {
            WorkerEvent::CountedIn => s.in_build + 1,
            WorkerEvent::CountedOut => s.in_build - 1,
            _ => s.in_build,
        },
    }
}

/// The repository of a worker is counted. That of a worker whose build failed is
/// counted for ever.
pub open spec fn is_counted(w: WorkerView) -> bool {
    w.phase is Building || w.phase is CountingOut || w.phase is Failed
}

/// How many workers have their repositories counted.
pub open spec fn counted(workers: Seq<WorkerView>) -> int
    decreases workers.len(),
{
    if workers.len() == 0 {
        0
    } else {
        counted(workers.drop_last()) + if is_counted(workers.last()) {
            1int
        } else {
            0int
        }
    }
}

proof fn lemma_counted_update(workers: Seq<WorkerView>, i: int, w: WorkerView)
    requires
        0 <= i < workers.len(),
    ensures
        counted(workers.update(i, w)) == counted(workers) + (if is_counted(w) {
            1int
        } else {
            0int
        }) - (if is_counted(workers[i]) {
            1int
        } else {
            0int
        }),
        0 <= counted(workers) <= workers.len(),
        is_counted(workers[i]) ==> counted(workers) > 0,
        !is_counted(workers[i]) ==> counted(workers) < workers.len(),
    decreases workers.len(),
{
    let rest = workers.drop_last();
    if rest.len() > 0 {
        lemma_counted_update(rest, if i < rest.len() {
            i
        } else {
            0
        }, w);
    } else {
        assert(counted(rest) == 0);
    }
    if i < rest.len() {
        assert(workers.update(i, w).drop_last() =~= rest.update(i, w));
    } else {
        assert(workers.update(i, w).drop_last() =~= rest);
    }
}

/// The count of repositories that are being built is that of the workers which
/// are at it: whatever a worker is told keeps it so. The count is never below
/// zero, and never above the number of workers.
pub proof fn law_count_of_builds(s: Workers, i: int, event: WorkerEvent)
    requires
        s.in_build == counted(s.workers),
        0 <= i < s.workers.len(),
        answers(worker_action(s.workers[i]), event),
    ensures
        workers_told(s, i, event).in_build == counted(workers_told(s, i, event).workers),
        0 <= workers_told(s, i, event).in_build <= s.workers.len(),
{
    let w = worker_told(s.workers[i], event);
    lemma_counted_update(s.workers, i, w);
    lemma_counted_update(s.workers.update(i, w), i, w);
}

/// A worker stops without a failure only where it is told that all is quiet, or
/// where no more builds are wanted and no repository is being built.
pub proof fn law_workers_stop_when_all_is_quiet(w: WorkerView, event: WorkerEvent)
    requires
        !(w.phase is Finished),
        worker_told(w, event).phase is Finished,
    ensures
        event is Quiet || event == (WorkerEvent::Wanted { keep_building: false, in_build: 0 }),
{
}

/// A worker counts a build for each time that it is told of one.
pub proof fn law_builds_are_counted(w: WorkerView, event: WorkerEvent)
    requires
        answers(worker_action(w), event),
    ensures
        worker_told(w, event).builds == w.builds + (if event is Built {
            1int
        } else {
            0int
        }),
{
}

/// A worker whose repository needs a build while builds are wanted, or while any
/// repository is being built, counts it in, builds it, counts it out, lets others
/// take over, and waits again, with one build more. A build that fails ends it.
pub proof fn law_rounds_of_a_worker(builds: int, keep_building: bool, in_build: usize)
    requires
        keep_building || in_build != 0,
    ensures
        ({
            let w0 = WorkerView { phase: WorkerPhase::Waiting, builds };
            let w1 = worker_told(w0, WorkerEvent::Wanted { keep_building, in_build });
            let w2 = worker_told(w1, WorkerEvent::CountedIn);
            let w3 = worker_told(w2, WorkerEvent::Built);
            let w4 = worker_told(w3, WorkerEvent::CountedOut);
            let w5 = worker_told(w4, WorkerEvent::Yielded);
            &&& worker_action(w0) is Wait
            &&& worker_action(w1) is CountIn
            &&& worker_action(w2) is Build
            &&& worker_action(w3) is CountOut
            &&& worker_action(w4) is Yield
            &&& worker_action(w5) is Wait
            &&& w5 == (WorkerView { phase: WorkerPhase::Waiting, builds: builds + 1 })
            &&& worker_action(worker_told(w2, WorkerEvent::BuildFailed)) is Fail
        }),
{
}

/// A worker that is told that all is quiet, or that its repository needs a build
/// while none is wanted and none is under way, is done, and says how often it
/// built.
pub proof fn law_ends_of_a_worker(builds: usize)
    ensures
        ({
            let w = WorkerView { phase: WorkerPhase::Waiting, builds: builds as int };
            let quiet = worker_told(w, WorkerEvent::Quiet);
            let late = worker_told(w, WorkerEvent::Wanted { keep_building: false, in_build: 0 });
            &&& worker_action(quiet) == (WorkerAction::Finish { builds })
            &&& worker_action(late) == (WorkerAction::Finish { builds })
        }),
{
}

/// A worker that has ended is told nothing more: no event changes it.
pub proof fn law_ended_workers_stay_ended(w: WorkerView, event: WorkerEvent)
    requires
        worker_action(w) is Finish || worker_action(w) is Fail,
    ensures
        worker_told(w, event) == w,
{
}

/// What is no answer to what a worker does changes nothing.
pub proof fn law_workers_ignore_what_they_did_not_ask_for(w: WorkerView, event: WorkerEvent)
    requires
        !answers(worker_action(w), event),
    ensures
        worker_told(w, event) == w,
{
}

} // verus!
