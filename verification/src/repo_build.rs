//! The build of a repository: the locks that it takes, the marks that it sets,
//! and the order in which it does so.
//!
//! A repository is built while its dependencies and its dependents are kept from
//! building. A dependency that waits for a build, or is being built, goes first.
//! So the locks of the dependencies are only tried: where one of them cannot be
//! had at once, all that are held are let go before the build waits for it.
//! Every dependent is noted in its cache as one to be built, so that the need for
//! its build outlasts the program, and marked as one that needs a build.

use vstd::prelude::*;
use crate::containers::first_failure;
use crate::git_job::{
    fetch_steps, git_answered, git_idle, git_resumed, GitJob, GitJobView, GitNext, GitReply, GitStep,
};
use crate::hb_state::HbState;
use crate::paths::join_spec;
use crate::repository::{listed, Repository, SourceUpdate};
use crate::state::RepositoryState;
use crate::text::{copy_texts, texts, Text};

verus! {

/// Something to be done on the way to a build. A repository has a priority lock,
/// a lock on its cache, and a mark that says that it needs a build.
#[derive(Debug, PartialEq, Eq)]
pub enum BuildCall<S, L> {
    /// Wait for the priority lock of the repository itself, and hold it.
    LockPriority,
    /// Ask whether a dependency needs a build.
    AskNeedsBuild { name: S },
    /// Wait until a dependency needs no build.
    AwaitBuilt { name: S },
    /// Try the priority lock of a dependency, and let it go.
    TryPriority { name: S },
    /// Wait for the priority lock of a dependency, and let it go.
    PassPriority { name: S },
    /// Try to lock the cache of a dependency for reading, and hold it.
    TryRead { name: S },
    /// Wait for the cache of a dependency for reading, and hold it.
    Read { name: S },
    /// Let go the caches of all dependencies.
    ReleaseReads,
    /// Wait for the cache of the repository itself for writing, and hold it.
    LockWrite,
    /// Let go the priority lock of the repository itself.
    ReleasePriority,
    /// Note in the cache of a dependent that it is to be built. The note stands
    /// beside the lock of the cache: this waits for nothing.
    DirtyDependent { name: S },
    /// Wait for the caches of all dependents for reading, and hold them.
    ReadDependents { names: L },
    /// Mark that the repository itself needs no build.
    MarkBuilt,
    /// Mark that a dependent needs a build.
    MarkDependent { name: S },
    /// A step on the source directory.
    Git { src: S, step: GitStep<S> },
    /// Run all containers of the repository.
    RunContainers,
    /// Note in the cache that the repository has been built.
    ClearDirty,
}

/// What came of a call.
pub enum BuildReply<S, B, R> {
    /// The call was carried out.
    Done,
    /// The answer to a question, or whether a lock could be had.
    Answer { yes: bool },
    /// The outcome of a step on the source directory.
    Git { reply: GitReply<S, B> },
    /// For each container whether its run ended well.
    Runs { ended_well: R },
}

/// Why a build came to nothing.
#[derive(Debug, PartialEq, Eq)]
pub enum BuildError<S> {
    /// The last call failed.
    CallFailed,
    /// A script of the deployment ended in failure.
    ScriptFailed { message: S },
    /// The runs of some containers failed, and this is the first of them.
    RunFailed { index: usize },
}

/// What is to be done next.
#[derive(Debug, PartialEq, Eq)]
pub enum BuildNext<S, L> {
    /// Make a call.
    Perform { call: BuildCall<S, L> },
    /// The repository has been built. All locks are let go.
    Finished,
    /// The build came to nothing. All locks are let go.
    Failed { error: BuildError<S> },
}

impl View for BuildCall<String, Vec<String>> {
    type V = BuildCall<Text, Seq<Text>>;

    open spec fn view(&self) -> BuildCall<Text, Seq<Text>> {
        match *self {
            BuildCall::LockPriority => BuildCall::LockPriority,
            BuildCall::AskNeedsBuild { name } => BuildCall::AskNeedsBuild { name: name@ },
            BuildCall::AwaitBuilt { name } => BuildCall::AwaitBuilt { name: name@ },
            BuildCall::TryPriority { name } => BuildCall::TryPriority { name: name@ },
            BuildCall::PassPriority { name } => BuildCall::PassPriority { name: name@ },
            BuildCall::TryRead { name } => BuildCall::TryRead { name: name@ },
            BuildCall::Read { name } => BuildCall::Read { name: name@ },
            BuildCall::ReleaseReads => BuildCall::ReleaseReads,
            BuildCall::LockWrite => BuildCall::LockWrite,
            BuildCall::ReleasePriority => BuildCall::ReleasePriority,
            BuildCall::DirtyDependent { name } => BuildCall::DirtyDependent { name: name@ },
            BuildCall::ReadDependents { names } => BuildCall::ReadDependents { names: texts(names@) },
            BuildCall::MarkBuilt => BuildCall::MarkBuilt,
            BuildCall::MarkDependent { name } => BuildCall::MarkDependent { name: name@ },
            BuildCall::Git { src, step } => BuildCall::Git { src: src@, step: step@ },
            BuildCall::RunContainers => BuildCall::RunContainers,
            BuildCall::ClearDirty => BuildCall::ClearDirty,
        }
    }
}

impl View for BuildReply<String, Vec<u8>, Vec<bool>> {
    type V = BuildReply<Text, Seq<u8>, Seq<bool>>;

    open spec fn view(&self) -> BuildReply<Text, Seq<u8>, Seq<bool>> {
        match *self {
            BuildReply::Done => BuildReply::Done,
            BuildReply::Answer { yes } => BuildReply::Answer { yes },
            BuildReply::Git { reply } => BuildReply::Git { reply: reply@ },
            BuildReply::Runs { ended_well } => BuildReply::Runs { ended_well: ended_well@ },
        }
    }
}

impl View for BuildError<String> {
    type V = BuildError<Text>;

    open spec fn view(&self) -> BuildError<Text> {
        match *self {
            BuildError::CallFailed => BuildError::CallFailed,
            BuildError::ScriptFailed { message } => BuildError::ScriptFailed { message: message@ },
            BuildError::RunFailed { index } => BuildError::RunFailed { index },
        }
    }
}

impl View for BuildNext<String, Vec<String>> {
    type V = BuildNext<Text, Seq<Text>>;

    open spec fn view(&self) -> BuildNext<Text, Seq<Text>> {
        match *self {
            BuildNext::Perform { call } => BuildNext::Perform { call: call@ },
            BuildNext::Finished => BuildNext::Finished,
            BuildNext::Failed { error } => BuildNext::Failed { error: error@ },
        }
    }
}

/// What the build waits for.
pub enum BuildPhase<S, J> {
    LockingPriority,
    Asking { dep: S },
    ReleasingToAwait { dep: S },
    Awaiting { dep: S },
    TryingPriority { dep: S },
    ReleasingToPass { dep: S },
    Passing { dep: S },
    TryingRead { dep: S },
    ReleasingToRead { dep: S },
    Reading { dep: S },
    LockingWrite,
    ReleasingPriority,
    /// The notes in the caches of the dependents.
    Dirtying,
    ReadingDependents,
    /// The marks of the repository itself and of its dependents.
    Marking,
    Updating { src: S, job: J },
    Running,
    Clearing,
    Ended,
}

impl View for BuildPhase<String, GitJob> {
    type V = BuildPhase<Text, GitJobView>;

    open spec fn view(&self) -> BuildPhase<Text, GitJobView> {
        match *self {
            BuildPhase::LockingPriority => BuildPhase::LockingPriority,
            BuildPhase::Asking { dep } => BuildPhase::Asking { dep: dep@ },
            BuildPhase::ReleasingToAwait { dep } => BuildPhase::ReleasingToAwait { dep: dep@ },
            BuildPhase::Awaiting { dep } => BuildPhase::Awaiting { dep: dep@ },
            BuildPhase::TryingPriority { dep } => BuildPhase::TryingPriority { dep: dep@ },
            BuildPhase::ReleasingToPass { dep } => BuildPhase::ReleasingToPass { dep: dep@ },
            BuildPhase::Passing { dep } => BuildPhase::Passing { dep: dep@ },
            BuildPhase::TryingRead { dep } => BuildPhase::TryingRead { dep: dep@ },
            BuildPhase::ReleasingToRead { dep } => BuildPhase::ReleasingToRead { dep: dep@ },
            BuildPhase::Reading { dep } => BuildPhase::Reading { dep: dep@ },
            BuildPhase::LockingWrite => BuildPhase::LockingWrite,
            BuildPhase::ReleasingPriority => BuildPhase::ReleasingPriority,
            BuildPhase::Dirtying => BuildPhase::Dirtying,
            BuildPhase::ReadingDependents => BuildPhase::ReadingDependents,
            BuildPhase::Marking => BuildPhase::Marking,
            BuildPhase::Updating { src, job } => BuildPhase::Updating { src: src@, job: job@ },
            BuildPhase::Running => BuildPhase::Running,
            BuildPhase::Clearing => BuildPhase::Clearing,
            BuildPhase::Ended => BuildPhase::Ended,
        }
    }
}

/// An update of a source directory that has been started.
pub struct UpdateView {
    pub src: Text,
    pub job: GitJobView,
    pub next: GitNext<Text>,
}

/// The update that a repository starts, where it is deployed from git.
pub open spec fn update_of(r: Repository) -> Option<UpdateView> {
    match r.git_deployment {
        Some(d) => {
            let at = git_resumed(git_idle(d), fetch_steps(d));
            Some(UpdateView { src: join_spec(r.repo@, r.src@), job: at.0, next: at.1 })
        },
        None => None,
    }
}

/// The state of a build.
pub struct BuildView {
    /// The dependencies that are still to be locked. The last one is next.
    pub pending: Seq<Text>,
    /// The dependencies that are locked.
    pub held: Seq<Text>,
    pub dependents: Seq<Text>,
    /// The dependents whose caches are still to be noted in.
    pub clean: Seq<Text>,
    /// The dependents that are still to be marked.
    pub unmarked: Seq<Text>,
    /// The update of the source that is still to be run.
    pub update: Option<UpdateView>,
    pub phase: BuildPhase<Text, GitJobView>,
}

/// An answer, in the model.
pub type BuildAnswer = BuildReply<Text, Seq<u8>, Seq<bool>>;

/// What is to be done next, in the model.
pub type BuildStep = BuildNext<Text, Seq<Text>>;

/// A call, in the model.
pub type BuildAct = BuildCall<Text, Seq<Text>>;

/// Goes on to a phase with a call.
pub open spec fn build_perform(
    s: BuildView,
    phase: BuildPhase<Text, GitJobView>,
    call: BuildAct,
) -> (BuildView, BuildStep) {
    (BuildView { phase, ..s }, BuildNext::Perform { call })
}

/// The build ends in failure.
pub open spec fn build_failed(s: BuildView, error: BuildError<Text>) -> (BuildView, BuildStep) {
    (BuildView { phase: BuildPhase::Ended, ..s }, BuildNext::Failed { error })
}

/// Goes on with the next dependency. Once all are locked, the repository itself
/// is.
pub open spec fn build_next_dependency(s: BuildView) -> (BuildView, BuildStep) {
    if s.pending.len() == 0 {
        build_perform(s, BuildPhase::LockingWrite, BuildCall::LockWrite)
    } else {
        let name = s.pending.last();
        build_perform(
            BuildView { pending: s.pending.drop_last(), ..s },
            BuildPhase::Asking { dep: name },
            BuildCall::AskNeedsBuild { name },
        )
    }
}

/// All dependencies that were locked are to be locked once more.
pub open spec fn build_released(s: BuildView) -> BuildView {
    BuildView { pending: s.pending + s.held, held: Seq::empty(), ..s }
}

/// Goes on with the next dependency now that one more is locked.
pub open spec fn build_locked(s: BuildView, dep: Text) -> (BuildView, BuildStep) {
    build_next_dependency(BuildView { held: s.held.push(dep), ..s })
}

/// Goes on with the next step on the source. After the last one, the containers
/// are run.
pub open spec fn build_update(s: BuildView, src: Text, at: (GitJobView, GitNext<Text>)) -> (
    BuildView,
    BuildStep,
) {
    match at.1 {
        GitNext::Perform { step } => build_perform(
            s,
            BuildPhase::Updating { src, job: at.0 },
            BuildCall::Git { src, step },
        ),
        GitNext::Finished { .. } => build_perform(s, BuildPhase::Running, BuildCall::RunContainers),
        GitNext::ScriptFailed { message } => build_failed(s, BuildError::ScriptFailed { message }),
        GitNext::Aborted => build_failed(s, BuildError::CallFailed),
    }
}

/// Goes on with the next dependent whose cache is to be noted in. After the last
/// one, the caches of all dependents are locked.
pub open spec fn build_dirty(s: BuildView) -> (BuildView, BuildStep) {
    if s.clean.len() > 0 {
        build_perform(
            BuildView { clean: s.clean.skip(1), ..s },
            BuildPhase::Dirtying,
            BuildCall::DirtyDependent { name: s.clean[0] },
        )
    } else {
        build_perform(
            s,
            BuildPhase::ReadingDependents,
            BuildCall::ReadDependents { names: s.dependents },
        )
    }
}

/// Goes on with the next dependent that is to be marked. After the last one, the
/// source is brought up to date.
pub open spec fn build_mark(s: BuildView) -> (BuildView, BuildStep) {
    if s.unmarked.len() > 0 {
        build_perform(
            BuildView { unmarked: s.unmarked.skip(1), ..s },
            BuildPhase::Marking,
            BuildCall::MarkDependent { name: s.unmarked[0] },
        )
    } else {
        match s.update {
            Some(u) => build_update(BuildView { update: None, ..s }, u.src, (u.job, u.next)),
            None => build_perform(s, BuildPhase::Running, BuildCall::RunContainers),
        }
    }
}

/// All runs of containers ended well.
pub open spec fn all_well(runs: Seq<bool>) -> bool {
    forall|i: int| 0 <= i < runs.len() ==> runs[i]
}

/// A run did not end well, and all before it did.
pub open spec fn is_first_bad(runs: Seq<bool>, i: int) -> bool {
    &&& 0 <= i < runs.len()
    &&& !runs[i]
    &&& forall|j: int| 0 <= j < i ==> runs[j]
}

/// The first run that did not end well.
pub open spec fn first_bad(runs: Seq<bool>) -> int {
    choose|i: int| is_first_bad(runs, i)
}

/// What follows the runs of the containers.
pub open spec fn build_ran(s: BuildView, runs: Seq<bool>) -> (BuildView, BuildStep) {
    if all_well(runs) {
        build_perform(s, BuildPhase::Clearing, BuildCall::ClearDirty)
    } else {
        build_failed(s, BuildError::RunFailed { index: first_bad(runs) as usize })
    }
}

/// What follows the answer to the last call.
pub open spec fn build_answered(s: BuildView, reply: BuildAnswer) -> (BuildView, BuildStep) {
    match (s.phase, reply) {
        (BuildPhase::LockingPriority, BuildReply::Done) => build_next_dependency(s),
        (BuildPhase::Asking { dep }, BuildReply::Answer { yes }) => if yes {
            build_perform(s, BuildPhase::ReleasingToAwait { dep }, BuildCall::ReleaseReads)
        } else {
            build_perform(
                s,
                BuildPhase::TryingPriority { dep },
                BuildCall::TryPriority { name: dep },
            )
        },
        (BuildPhase::ReleasingToAwait { dep }, BuildReply::Done) => build_perform(
            build_released(s),
            BuildPhase::Awaiting { dep },
            BuildCall::AwaitBuilt { name: dep },
        ),
        (BuildPhase::Awaiting { dep }, BuildReply::Done) => build_perform(
            s,
            BuildPhase::TryingPriority { dep },
            BuildCall::TryPriority { name: dep },
        ),
        (BuildPhase::TryingPriority { dep }, BuildReply::Answer { yes }) => if yes {
            build_perform(s, BuildPhase::TryingRead { dep }, BuildCall::TryRead { name: dep })
        } else {
            build_perform(s, BuildPhase::ReleasingToPass { dep }, BuildCall::ReleaseReads)
        },
        (BuildPhase::ReleasingToPass { dep }, BuildReply::Done) => build_perform(
            build_released(s),
            BuildPhase::Passing { dep },
            BuildCall::PassPriority { name: dep },
        ),
        (BuildPhase::Passing { dep }, BuildReply::Done) => build_perform(
            s,
            BuildPhase::TryingRead { dep },
            BuildCall::TryRead { name: dep },
        ),
        (BuildPhase::TryingRead { dep }, BuildReply::Answer { yes }) => if yes {
            build_locked(s, dep)
        } else {
            build_perform(s, BuildPhase::ReleasingToRead { dep }, BuildCall::ReleaseReads)
        },
        (BuildPhase::ReleasingToRead { dep }, BuildReply::Done) => build_perform(
            build_released(s),
            BuildPhase::Reading { dep },
            BuildCall::Read { name: dep },
        ),
        (BuildPhase::Reading { dep }, BuildReply::Done) => build_locked(s, dep),
        (BuildPhase::LockingWrite, BuildReply::Done) => build_perform(
            s,
            BuildPhase::ReleasingPriority,
            BuildCall::ReleasePriority,
        ),
        (BuildPhase::ReleasingPriority, BuildReply::Done) => build_dirty(
            BuildView { clean: s.dependents, ..s },
        ),
        (BuildPhase::Dirtying, BuildReply::Done) => build_dirty(s),
        (BuildPhase::ReadingDependents, BuildReply::Done) => build_perform(
            BuildView { unmarked: s.dependents, ..s },
            BuildPhase::Marking,
            BuildCall::MarkBuilt,
        ),
        (BuildPhase::Marking, BuildReply::Done) => build_mark(s),
        (BuildPhase::Updating { src, job }, BuildReply::Git { reply }) => build_update(
            s,
            src,
            git_answered(job, reply),
        ),
        (BuildPhase::Running, BuildReply::Runs { ended_well }) => build_ran(s, ended_well),
        (BuildPhase::Clearing, BuildReply::Done) => (
            BuildView { phase: BuildPhase::Ended, ..s },
            BuildNext::Finished,
        ),
        _ => build_failed(s, BuildError::CallFailed),
    }
}

/// The first thing to be done for the build of a repository with given
/// dependencies and dependents.
pub open spec fn build_begun(
    dependencies: Seq<Text>,
    dependents: Seq<Text>,
    update: Option<UpdateView>,
) -> (BuildView, BuildStep) {
    build_perform(
        BuildView {
            pending: dependencies,
            held: Seq::empty(),
            dependents,
            clean: Seq::empty(),
            unmarked: Seq::empty(),
            update,
            phase: BuildPhase::Ended,
        },
        BuildPhase::LockingPriority,
        BuildCall::LockPriority,
    )
}

/// A repository that is being built.
pub struct BuildRun {
    pending: Vec<String>,
    held: Vec<String>,
    dependents: Vec<String>,
    clean: Vec<String>,
    unmarked: Vec<String>,
    update: Option<SourceUpdate>,
    phase: BuildPhase<String, GitJob>,
}

impl View for BuildRun {
    type V = BuildView;

    closed spec fn view(&self) -> BuildView {
        BuildView {
            pending: texts(self.pending@),
            held: texts(self.held@),
            dependents: texts(self.dependents@),
            clean: texts(self.clean@),
            unmarked: texts(self.unmarked@),
            update: match self.update {
                Some(u) => Some(UpdateView { src: u.src@, job: u.job@, next: u.next@ }),
                None => None,
            },
            phase: self.phase@,
        }
    }
}

impl RepositoryState {
    /// Starts the build of the repository, which is one of those of `state`.
    pub fn build(&self, state: &HbState) -> (r: (BuildRun, BuildNext<String, Vec<String>>))
        requires
            state.wf(),
            state.repos@.contains_key(self.repo.name@),
        ensures
            (r.0@, r.1@) == build_begun(
                listed(state.transient_dependencies@, self.repo.name@),
                listed(state.transient_dependents@, self.repo.name@),
                update_of(self.repo),
            ),
    {
        let pending = self.repo.dependencies(&state.transient_dependencies);
        let dependents = self.repo.dependencies(&state.transient_dependents);
        let update = self.repo.check_for_src_changes(self.repo.repo.as_str());
        let run = BuildRun {
            pending,
            held: Vec::new(),
            dependents,
            clean: Vec::new(),
            unmarked: Vec::new(),
            update,
            phase: BuildPhase::LockingPriority,
        };
        proof {
            assert(run@.held =~= Seq::<Text>::empty());
            assert(run@.clean =~= Seq::<Text>::empty());
            assert(run@.unmarked =~= Seq::<Text>::empty());
        }
        (run, BuildNext::Perform { call: BuildCall::LockPriority })
    }
}

impl BuildRun {
    fn fail(&mut self, error: BuildError<String>) -> (r: BuildNext<String, Vec<String>>)
        ensures
            (final(self)@, r@) == build_failed(old(self)@, error@),
    {
        self.phase = BuildPhase::Ended;
        BuildNext::Failed { error }
    }

    fn next_dependency(&mut self) -> (r: BuildNext<String, Vec<String>>)
        ensures
            (final(self)@, r@) == build_next_dependency(old(self)@),
    {
        let ghost before = self@;
        match self.pending.pop() {
            Some(name) => {
                assert(self@.pending =~= before.pending.drop_last());
                assert(name@ == before.pending.last());
                self.phase = BuildPhase::Asking { dep: name.clone() };
                BuildNext::Perform { call: BuildCall::AskNeedsBuild { name } }
            },
            None => {
                self.phase = BuildPhase::LockingWrite;
                BuildNext::Perform { call: BuildCall::LockWrite }
            },
        }
    }

    fn release(&mut self)
        ensures
            final(self)@ == build_released(old(self)@),
    {
        let ghost before = self@;
        self.pending.append(&mut self.held);
        assert(self@.pending =~= before.pending + before.held);
        assert(self@.held =~= Seq::<Text>::empty());
    }

    fn locked(&mut self, dep: String) -> (r: BuildNext<String, Vec<String>>)
        ensures
            (final(self)@, r@) == build_locked(old(self)@, dep@),
    {
        let ghost before = self@;
        let ghost name = dep@;
        self.held.push(dep);
        assert(self@.held =~= before.held.push(name));
        self.next_dependency()
    }

    fn update(&mut self, src: String, job: GitJob, next: GitNext<String>) -> (r: BuildNext<
        String,
        Vec<String>,
    >)
        ensures
            (final(self)@, r@) == build_update(old(self)@, src@, (job@, next@)),
    {
        match next {
            GitNext::Perform { step } => {
                self.phase = BuildPhase::Updating { src: src.clone(), job };
                BuildNext::Perform { call: BuildCall::Git { src, step } }
            },
            GitNext::Finished { .. } => {
                self.phase = BuildPhase::Running;
                BuildNext::Perform { call: BuildCall::RunContainers }
            },
            GitNext::ScriptFailed { message } => self.fail(BuildError::ScriptFailed { message }),
            GitNext::Aborted => self.fail(BuildError::CallFailed),
        }
    }

    fn dirty(&mut self) -> (r: BuildNext<String, Vec<String>>)
        ensures
            (final(self)@, r@) == build_dirty(old(self)@),
    {
        let ghost before = self@;
        if self.clean.len() > 0 {
            let name = self.clean.remove(0);
            self.phase = BuildPhase::Dirtying;
            assert(self@.clean =~= before.clean.skip(1));
            BuildNext::Perform { call: BuildCall::DirtyDependent { name } }
        } else {
            self.phase = BuildPhase::ReadingDependents;
            BuildNext::Perform {
                call: BuildCall::ReadDependents { names: copy_texts(&self.dependents) },
            }
        }
    }

    fn mark(&mut self) -> (r: BuildNext<String, Vec<String>>)
        ensures
            (final(self)@, r@) == build_mark(old(self)@),
    {
        let ghost before = self@;
        if self.unmarked.len() > 0 {
            let name = self.unmarked.remove(0);
            self.phase = BuildPhase::Marking;
            assert(self@.unmarked =~= before.unmarked.skip(1));
            BuildNext::Perform { call: BuildCall::MarkDependent { name } }
        } else {
            let mut update: Option<SourceUpdate> = None;
            std::mem::swap(&mut update, &mut self.update);
            match update {
                Some(u) => self.update(u.src, u.job, u.next),
                None => {
                    self.phase = BuildPhase::Running;
                    BuildNext::Perform { call: BuildCall::RunContainers }
                },
            }
        }
    }

    fn ran(&mut self, ended_well: &Vec<bool>) -> (r: BuildNext<String, Vec<String>>)
        ensures
            (final(self)@, r@) == build_ran(old(self)@, ended_well@),
    {
        match first_failure(ended_well) {
            Some(index) => {
                proof {
                    let runs = ended_well@;
                    assert(is_first_bad(runs, index as int));
                    assert(is_first_bad(runs, first_bad(runs)));
                }
                self.fail(BuildError::RunFailed { index })
            },
            None => {
                self.phase = BuildPhase::Clearing;
                BuildNext::Perform { call: BuildCall::ClearDirty }
            },
        }
    }
}

impl BuildRun {
    /// Takes the answer to the last call and says what is to be done next.
    pub fn next(&mut self, reply: BuildReply<String, Vec<u8>, Vec<bool>>) -> (r: BuildNext<
        String,
        Vec<String>,
    >)
        ensures
            (final(self)@, r@) == build_answered(old(self)@, reply@),
    {
        let mut phase = BuildPhase::Ended;
        std::mem::swap(&mut phase, &mut self.phase);
        match (phase, reply) {
            (BuildPhase::LockingPriority, BuildReply::Done) => self.next_dependency(),
            (BuildPhase::Asking { dep }, BuildReply::Answer { yes }) => {
                if yes {
                    self.phase = BuildPhase::ReleasingToAwait { dep };
                    BuildNext::Perform { call: BuildCall::ReleaseReads }
                } else {
                    self.phase = BuildPhase::TryingPriority { dep: dep.clone() };
                    BuildNext::Perform { call: BuildCall::TryPriority { name: dep } }
                }
            },
            (BuildPhase::ReleasingToAwait { dep }, BuildReply::Done) => {
                self.release();
                self.phase = BuildPhase::Awaiting { dep: dep.clone() };
                BuildNext::Perform { call: BuildCall::AwaitBuilt { name: dep } }
            },
            (BuildPhase::Awaiting { dep }, BuildReply::Done) => {
                self.phase = BuildPhase::TryingPriority { dep: dep.clone() };
                BuildNext::Perform { call: BuildCall::TryPriority { name: dep } }
            },
            (BuildPhase::TryingPriority { dep }, BuildReply::Answer { yes }) => {
                if yes {
                    self.phase = BuildPhase::TryingRead { dep: dep.clone() };
                    BuildNext::Perform { call: BuildCall::TryRead { name: dep } }
                } else {
                    self.phase = BuildPhase::ReleasingToPass { dep };
                    BuildNext::Perform { call: BuildCall::ReleaseReads }
                }
            },
            (BuildPhase::ReleasingToPass { dep }, BuildReply::Done) => {
                self.release();
                self.phase = BuildPhase::Passing { dep: dep.clone() };
                BuildNext::Perform { call: BuildCall::PassPriority { name: dep } }
            },
            (BuildPhase::Passing { dep }, BuildReply::Done) => {
                self.phase = BuildPhase::TryingRead { dep: dep.clone() };
                BuildNext::Perform { call: BuildCall::TryRead { name: dep } }
            },
            (BuildPhase::TryingRead { dep }, BuildReply::Answer { yes }) => {
                if yes {
                    self.locked(dep)
                } else {
                    self.phase = BuildPhase::ReleasingToRead { dep };
                    BuildNext::Perform { call: BuildCall::ReleaseReads }
                }
            },
            (BuildPhase::ReleasingToRead { dep }, BuildReply::Done) => {
                self.release();
                self.phase = BuildPhase::Reading { dep: dep.clone() };
                BuildNext::Perform { call: BuildCall::Read { name: dep } }
            },
            (BuildPhase::Reading { dep }, BuildReply::Done) => self.locked(dep),
            (BuildPhase::LockingWrite, BuildReply::Done) => {
                self.phase = BuildPhase::ReleasingPriority;
                BuildNext::Perform { call: BuildCall::ReleasePriority }
            },
            (BuildPhase::ReleasingPriority, BuildReply::Done) => {
                self.clean = copy_texts(&self.dependents);
                self.dirty()
            },
            (BuildPhase::Dirtying, BuildReply::Done) => self.dirty(),
            (BuildPhase::ReadingDependents, BuildReply::Done) => {
                self.unmarked = copy_texts(&self.dependents);
                self.phase = BuildPhase::Marking;
                BuildNext::Perform { call: BuildCall::MarkBuilt }
            },
            (BuildPhase::Marking, BuildReply::Done) => self.mark(),
            (BuildPhase::Updating { src, job }, BuildReply::Git { reply }) => {
                let mut job = job;
                let next = job.next(reply);
                self.update(src, job, next)
            },
            (BuildPhase::Running, BuildReply::Runs { ended_well }) => self.ran(&ended_well),
            (BuildPhase::Clearing, BuildReply::Done) => BuildNext::Finished,
            _ => self.fail(BuildError::CallFailed),
        }
    }
}

} // verus!
