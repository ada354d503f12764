//! Setting a repository up in the file system: its source is brought about or
//! brought up to date, its paths are made absolute, and the directories of its
//! output are created.

use vstd::prelude::*;
use crate::deployment::GitDeployment;
use crate::git_job::{
    fetch_steps, git_answered, git_idle, git_resumed, GitJob, GitJobView, GitNext, GitReply, GitStep,
};
use crate::paths::{join_path, join_spec};
use crate::repository::Repository;
use crate::text::{copy_texts, texts, Text};

verus! {

/// A call of the file system or of git.
#[derive(Debug, PartialEq, Eq)]
pub enum InitCall<S> {
    /// A step on the source directory.
    Git { src: S, step: GitStep<S> },
    /// Make a path absolute, through all links.
    Canonicalize { path: S },
    /// Create a directory and those above it.
    CreateDir { path: S },
}

/// What came of a call.
pub enum InitReply<S, B> {
    /// The outcome of a step on the source directory.
    Git { reply: GitReply<S, B> },
    /// An absolute path; nothing where it is no text.
    Canonical { path: Option<S> },
    /// The call succeeded.
    Done,
    /// The call failed.
    Failed,
}

/// Why a repository cannot be set up.
#[derive(Debug, PartialEq, Eq)]
pub enum InitError<S> {
    /// The last call failed.
    CallFailed,
    /// A script of the deployment ended in failure.
    ScriptFailed { message: S },
    /// The absolute path of the source is no text.
    InvalidSrcPath,
    /// The absolute path of the output is no text.
    InvalidRepoPath,
}

/// What is to be done next.
#[derive(Debug, PartialEq, Eq)]
pub enum InitNext<S> {
    /// Make a call.
    Perform { call: InitCall<S> },
    /// The repository is set up; its source changed or did not.
    Finished { changed: bool },
    /// The repository cannot be set up.
    Failed { error: InitError<S> },
}

impl View for InitCall<String> {
    type V = InitCall<Text>;

    open spec fn view(&self) -> InitCall<Text> {
        match *self {
            InitCall::Git { src, step } => InitCall::Git { src: src@, step: step@ },
            InitCall::Canonicalize { path } => InitCall::Canonicalize { path: path@ },
            InitCall::CreateDir { path } => InitCall::CreateDir { path: path@ },
        }
    }
}

impl View for InitReply<String, Vec<u8>> {
    type V = InitReply<Text, Seq<u8>>;

    open spec fn view(&self) -> InitReply<Text, Seq<u8>> {
        match *self {
            InitReply::Git { reply } => InitReply::Git { reply: reply@ },
            InitReply::Canonical { path } => InitReply::Canonical {
                path: match path {
                    Some(p) => Some(p@),
                    None => None,
                },
            },
            InitReply::Done => InitReply::Done,
            InitReply::Failed => InitReply::Failed,
        }
    }
}

impl View for InitError<String> {
    type V = InitError<Text>;

    open spec fn view(&self) -> InitError<Text> {
        match *self {
            InitError::CallFailed => InitError::CallFailed,
            InitError::ScriptFailed { message } => InitError::ScriptFailed { message: message@ },
            InitError::InvalidSrcPath => InitError::InvalidSrcPath,
            InitError::InvalidRepoPath => InitError::InvalidRepoPath,
        }
    }
}

impl View for InitNext<String> {
    type V = InitNext<Text>;

    open spec fn view(&self) -> InitNext<Text> {
        match *self {
            InitNext::Perform { call } => InitNext::Perform { call: call@ },
            InitNext::Finished { changed } => InitNext::Finished { changed },
            InitNext::Failed { error } => InitNext::Failed { error: error@ },
        }
    }
}

impl InitError<String> {
    /// What is said of the error; nothing of a call that failed, which speaks
    /// for itself.
    pub fn message(&self) -> (r: Option<String>)
        ensures
            match (self@, r) {
                (InitError::CallFailed, None) => true,
                (InitError::ScriptFailed { message }, Some(m)) => m@ == message,
                (InitError::InvalidSrcPath, Some(m)) => m@ == "Invalid src path"@,
                (InitError::InvalidRepoPath, Some(m)) => m@ == "Invalid repo path"@,
                _ => false,
            },
    {
        match self {
            InitError::CallFailed => None,
            InitError::ScriptFailed { message } => Some(message.clone()),
            InitError::InvalidSrcPath => Some("Invalid src path".to_owned()),
            InitError::InvalidRepoPath => Some("Invalid repo path".to_owned()),
        }
    }
}

/// What the setup waits for.
pub enum InitPhase<J> {
    /// The source directory is brought about if it is missing.
    Ensuring { job: J },
    /// The source directory is brought up to date.
    Updating { job: J },
    /// The absolute path of the source.
    ResolvingSrc,
    /// The directory of the output.
    MakingRepo,
    /// The absolute path of the output.
    ResolvingRepo,
    /// The directory of the output for a tag.
    MakingTags,
    /// Nothing.
    Ended,
}

impl View for InitPhase<GitJob> {
    type V = InitPhase<GitJobView>;

    open spec fn view(&self) -> InitPhase<GitJobView> {
        match *self {
            InitPhase::Ensuring { job } => InitPhase::Ensuring { job: job@ },
            InitPhase::Updating { job } => InitPhase::Updating { job: job@ },
            InitPhase::ResolvingSrc => InitPhase::ResolvingSrc,
            InitPhase::MakingRepo => InitPhase::MakingRepo,
            InitPhase::ResolvingRepo => InitPhase::ResolvingRepo,
            InitPhase::MakingTags => InitPhase::MakingTags,
            InitPhase::Ended => InitPhase::Ended,
        }
    }
}

/// The state of the setup.
pub struct InitView {
    pub deployment: Option<GitDeployment>,
    /// The paths of the source and of the output, as they stand.
    pub src: Text,
    pub repo: Text,
    /// The directory that they are seen from.
    pub base: Text,
    /// The tags whose directories are still to be created.
    pub tags: Seq<Text>,
    pub changed: bool,
    pub phase: InitPhase<GitJobView>,
}

/// The setup ends in failure.
pub open spec fn init_failed(s: InitView, error: InitError<Text>) -> (InitView, InitNext<Text>) {
    (InitView { phase: InitPhase::Ended, ..s }, InitNext::Failed { error })
}

/// Goes on with the absolute path of the source.
pub open spec fn init_resolve_src(s: InitView) -> (InitView, InitNext<Text>) {
    (
        InitView { phase: InitPhase::ResolvingSrc, ..s },
        InitNext::Perform { call: InitCall::Canonicalize { path: join_spec(s.base, s.src) } },
    )
}

/// Goes on with the work that brings the source up to date.
pub open spec fn init_update(s: InitView, at: (GitJobView, GitNext<Text>)) -> (
    InitView,
    InitNext<Text>,
) {
    match at.1 {
        GitNext::Perform { step } => (
            InitView { phase: InitPhase::Updating { job: at.0 }, ..s },
            InitNext::Perform { call: InitCall::Git { src: join_spec(s.base, s.src), step } },
        ),
        GitNext::Finished { changed } => init_resolve_src(InitView { changed, ..s }),
        GitNext::ScriptFailed { message } => init_failed(s, InitError::ScriptFailed { message }),
        GitNext::Aborted => init_failed(s, InitError::CallFailed),
    }
}

/// Goes on with the work that brings the source about. A source that was there
/// already is brought up to date after that.
pub open spec fn init_ensure(s: InitView, at: (GitJobView, GitNext<Text>)) -> (
    InitView,
    InitNext<Text>,
) {
    match at.1 {
        GitNext::Perform { step } => (
            InitView { phase: InitPhase::Ensuring { job: at.0 }, ..s },
            InitNext::Perform { call: InitCall::Git { src: join_spec(s.base, s.src), step } },
        ),
        GitNext::Finished { changed } => if changed {
            init_resolve_src(InitView { changed: true, ..s })
        } else {
            let d = at.0.deployment;
            init_update(s, git_resumed(git_idle(d), fetch_steps(d)))
        },
        GitNext::ScriptFailed { message } => init_failed(s, InitError::ScriptFailed { message }),
        GitNext::Aborted => init_failed(s, InitError::CallFailed),
    }
}

/// Goes on with the directory of the next tag, if there is one.
pub open spec fn init_make_tag(s: InitView) -> (InitView, InitNext<Text>) {
    if s.tags.len() == 0 {
        (
            InitView { phase: InitPhase::Ended, ..s },
            InitNext::Finished { changed: s.changed },
        )
    } else {
        (
            InitView { tags: s.tags.skip(1), phase: InitPhase::MakingTags, ..s },
            InitNext::Perform {
                call: InitCall::CreateDir { path: join_spec(s.repo, s.tags[0]) },
            },
        )
    }
}

/// The first thing that is to be done.
pub open spec fn init_begun(s: InitView) -> (InitView, InitNext<Text>) {
    match s.deployment {
        Some(d) => init_ensure(s, git_resumed(git_idle(d), seq![GitStep::ReadDir])),
        None => init_resolve_src(s),
    }
}

/// What follows the answer to the last call.
pub open spec fn init_answered(s: InitView, reply: InitReply<Text, Seq<u8>>) -> (
    InitView,
    InitNext<Text>,
) {
    match (s.phase, reply) {
        (InitPhase::Ensuring { job }, InitReply::Git { reply }) => init_ensure(
            s,
            git_answered(job, reply),
        ),
        (InitPhase::Updating { job }, InitReply::Git { reply }) => init_update(
            s,
            git_answered(job, reply),
        ),
        (InitPhase::ResolvingSrc, InitReply::Canonical { path }) => match path {
            Some(p) => (
                InitView { src: p, phase: InitPhase::MakingRepo, ..s },
                InitNext::Perform { call: InitCall::CreateDir { path: join_spec(s.base, s.repo) } },
            ),
            None => init_failed(s, InitError::InvalidSrcPath),
        },
        (InitPhase::MakingRepo, InitReply::Done) => (
            InitView { phase: InitPhase::ResolvingRepo, ..s },
            InitNext::Perform { call: InitCall::Canonicalize { path: join_spec(s.base, s.repo) } },
        ),
        (InitPhase::ResolvingRepo, InitReply::Canonical { path }) => match path {
            Some(p) => init_make_tag(InitView { repo: p, ..s }),
            None => init_failed(s, InitError::InvalidRepoPath),
        },
        (InitPhase::MakingTags, InitReply::Done) => init_make_tag(s),
        _ => init_failed(s, InitError::CallFailed),
    }
}

/// A repository that is being set up.
pub struct InitJob {
    repo: Repository,
    base: String,
    tags: Vec<String>,
    changed: bool,
    phase: InitPhase<GitJob>,
}

impl View for InitJob {
    type V = InitView;

    closed spec fn view(&self) -> InitView {
        InitView {
            deployment: self.repo.git_deployment,
            src: self.repo.src@,
            repo: self.repo.repo@,
            base: self.base@,
            tags: texts(self.tags@),
            changed: self.changed,
            phase: self.phase@,
        }
    }
}

/// Two repositories differ in their paths at most.
pub open spec fn same_but_paths(a: Repository, b: Repository) -> bool {
    &&& a.name == b.name
    &&& a.extra_args == b.extra_args
    &&& a.env == b.env
    &&& a.dependencies == b.dependencies
    &&& a.git_deployment == b.git_deployment
}

impl Repository {
    /// Starts to set the repository up, seen from the directory `path`, with
    /// directories for the output for each of `tags`.
    pub fn initialize(self, path: &str, tags: &Vec<String>) -> (r: (InitJob, InitNext<String>))
        ensures
            same_but_paths(r.0.repository(), self),
            (r.0@, r.1@) == init_begun(
                InitView {
                    deployment: self.git_deployment,
                    src: self.src@,
                    repo: self.repo@,
                    base: path@,
                    tags: texts(tags@),
                    changed: false,
                    phase: InitPhase::Ended,
                },
            ),
    {
        let start = match &self.git_deployment {
            Some(d) => Some(d.ensure_created()),
            None => None,
        };
        let mut job = InitJob {
            repo: self,
            base: path.to_owned(),
            tags: copy_texts(tags),
            changed: false,
            phase: InitPhase::Ended,
        };
        let next = match start {
            Some((git, next)) => job.ensure(git, next),
            None => job.resolve_src(),
        };
        (job, next)
    }
}

impl InitJob {
    /// The repository that is being set up.
    pub closed spec fn repository(&self) -> Repository {
        self.repo
    }

    fn fail(&mut self, error: InitError<String>) -> (r: InitNext<String>)
        ensures
            final(self).repository() == old(self).repository(),
            (final(self)@, r@) == init_failed(old(self)@, error@),
    {
        self.phase = InitPhase::Ended;
        InitNext::Failed { error }
    }

    fn resolve_src(&mut self) -> (r: InitNext<String>)
        ensures
            final(self).repository() == old(self).repository(),
            (final(self)@, r@) == init_resolve_src(old(self)@),
    {
        self.phase = InitPhase::ResolvingSrc;
        InitNext::Perform {
            call: InitCall::Canonicalize {
                path: join_path(self.base.as_str(), self.repo.src.as_str()),
            },
        }
    }

    fn update(&mut self, git: GitJob, next: GitNext<String>) -> (r: InitNext<String>)
        ensures
            final(self).repository() == old(self).repository(),
            (final(self)@, r@) == init_update(old(self)@, (git@, next@)),
    {
        match next {
            GitNext::Perform { step } => {
                let src = join_path(self.base.as_str(), self.repo.src.as_str());
                self.phase = InitPhase::Updating { job: git };
                InitNext::Perform { call: InitCall::Git { src, step } }
            },
            GitNext::Finished { changed } => {
                self.changed = changed;
                self.resolve_src()
            },
            GitNext::ScriptFailed { message } => self.fail(InitError::ScriptFailed { message }),
            GitNext::Aborted => self.fail(InitError::CallFailed),
        }
    }

    fn ensure(&mut self, git: GitJob, next: GitNext<String>) -> (r: InitNext<String>)
        ensures
            final(self).repository() == old(self).repository(),
            (final(self)@, r@) == init_ensure(old(self)@, (git@, next@)),
    {
        match next {
            GitNext::Perform { step } => {
                let src = join_path(self.base.as_str(), self.repo.src.as_str());
                self.phase = InitPhase::Ensuring { job: git };
                InitNext::Perform { call: InitCall::Git { src, step } }
            },
            GitNext::Finished { changed } => {
                if changed {
                    self.changed = true;
                    self.resolve_src()
                } else {
                    let (git, next) = git.deployment().update_src();
                    self.update(git, next)
                }
            },
            GitNext::ScriptFailed { message } => self.fail(InitError::ScriptFailed { message }),
            GitNext::Aborted => self.fail(InitError::CallFailed),
        }
    }

    fn make_tag(&mut self) -> (r: InitNext<String>)
        ensures
            final(self).repository() == old(self).repository(),
            (final(self)@, r@) == init_make_tag(old(self)@),
    {
        let ghost before = *self;
        if self.tags.len() == 0 {
            self.phase = InitPhase::Ended;
            return InitNext::Finished { changed: self.changed };
        }
        let tag = self.tags.remove(0);
        self.phase = InitPhase::MakingTags;
        assert(self@.tags =~= before@.tags.skip(1));
        InitNext::Perform {
            call: InitCall::CreateDir { path: join_path(self.repo.repo.as_str(), tag.as_str()) },
        }
    }

    /// Takes the answer to the last call and says what is to be done next.
    pub fn next(&mut self, reply: InitReply<String, Vec<u8>>) -> (r: InitNext<String>)
        ensures
            same_but_paths(final(self).repository(), old(self).repository()),
            (final(self)@, r@) == init_answered(old(self)@, reply@),
    {
        let mut phase = InitPhase::Ended;
        std::mem::swap(&mut phase, &mut self.phase);
        match (phase, reply) {
            (InitPhase::Ensuring { job }, InitReply::Git { reply }) => {
                let mut job = job;
                let next = job.next(reply);
                self.ensure(job, next)
            },
            (InitPhase::Updating { job }, InitReply::Git { reply }) => {
                let mut job = job;
                let next = job.next(reply);
                self.update(job, next)
            },
            (InitPhase::ResolvingSrc, InitReply::Canonical { path }) => match path {
                Some(p) => {
                    self.repo.src = p;
                    self.phase = InitPhase::MakingRepo;
                    InitNext::Perform {
                        call: InitCall::CreateDir {
                            path: join_path(self.base.as_str(), self.repo.repo.as_str()),
                        },
                    }
                },
                None => self.fail(InitError::InvalidSrcPath),
            },
            (InitPhase::MakingRepo, InitReply::Done) => {
                self.phase = InitPhase::ResolvingRepo;
                InitNext::Perform {
                    call: InitCall::Canonicalize {
                        path: join_path(self.base.as_str(), self.repo.repo.as_str()),
                    },
                }
            },
            (InitPhase::ResolvingRepo, InitReply::Canonical { path }) => match path {
                Some(p) => {
                    self.repo.repo = p;
                    self.make_tag()
                },
                None => self.fail(InitError::InvalidRepoPath),
            },
            (InitPhase::MakingTags, InitReply::Done) => self.make_tag(),
            _ => self.fail(InitError::CallFailed),
        }
    }

    /// The repository as it was set up.
    pub fn into_repository(self) -> (r: Repository)
        ensures
            r == self.repository(),
            r.src@ == self@.src,
            r.repo@ == self@.repo,
    {
        self.repo
    }
}

/// The answer to a call.
pub type InitAnswer = InitReply<Text, Seq<u8>>;

/// Where the setup stands after the answers to its calls in turn.
pub open spec fn init_outcome(at: (InitView, InitNext<Text>), replies: Seq<InitAnswer>) -> (
    InitView,
    InitNext<Text>,
)
    decreases replies.len(),
{
    if replies.len() == 0 {
        at
    } else {
        init_outcome(init_answered(at.0, replies[0]), replies.skip(1))
    }
}

/// The calls that the setup makes, given the answers to its calls in turn.
pub open spec fn init_calls(at: (InitView, InitNext<Text>), replies: Seq<InitAnswer>) -> Seq<
    InitCall<Text>,
>
    decreases replies.len(),
{
    match at.1 {
        InitNext::Perform { call } => if replies.len() == 0 {
            seq![call]
        } else {
            seq![call] + init_calls(init_answered(at.0, replies[0]), replies.skip(1))
        },
        _ => Seq::empty(),
    }
}

/// The directories of the output for given tags.
pub open spec fn tag_dirs(repo: Text, tags: Seq<Text>) -> Seq<InitCall<Text>> {
    Seq::new(tags.len(), |i: int| InitCall::CreateDir { path: join_spec(repo, tags[i]) })
}

/// As many answers that a call succeeded.
pub open spec fn all_done(n: nat) -> Seq<InitAnswer> {
    Seq::new(n, |i: int| InitAnswer::Done)
}

/// The directories for all tags are created, in their order, and with them the
/// setup is finished.
pub proof fn law_each_tag_gets_a_directory(s: InitView)
    ensures
        ({
            let at = init_make_tag(s);
            let end = init_outcome(at, all_done(s.tags.len()));
            &&& init_calls(at, all_done(s.tags.len())) == tag_dirs(s.repo, s.tags)
            &&& end.1 == (InitNext::<Text>::Finished { changed: s.changed })
            &&& end.0.src == s.src
            &&& end.0.repo == s.repo
        }),
    decreases s.tags.len(),
{
    let at = init_make_tag(s);
    let replies = all_done(s.tags.len());
    if s.tags.len() == 0 {
        assert(init_calls(at, replies) =~= tag_dirs(s.repo, s.tags));
    } else {
        let t = at.0;
        assert(init_answered(t, replies[0]) == init_make_tag(t));
        assert(replies.skip(1) =~= all_done(t.tags.len()));
        law_each_tag_gets_a_directory(t);
        let first: InitCall<Text> = InitCall::CreateDir { path: join_spec(s.repo, s.tags[0]) };
        assert(seq![first] + tag_dirs(t.repo, t.tags) =~= tag_dirs(s.repo, s.tags));
    }
}

/// From the absolute path of the source on, the setup ends with the absolute
/// paths in place and a directory for each tag below that of the output. What it
/// says of the source is what it knew when it came here.
pub proof fn law_paths_are_made_absolute(s: InitView, src: Text, repo: Text)
    ensures
        ({
            let at = init_resolve_src(s);
            let replies = seq![
                InitAnswer::Canonical { path: Some(src) },
                InitAnswer::Done,
                InitAnswer::Canonical { path: Some(repo) },
            ] + all_done(s.tags.len());
            let end = init_outcome(at, replies);
            &&& init_calls(at, replies) == seq![
                InitCall::Canonicalize { path: join_spec(s.base, s.src) },
                InitCall::CreateDir { path: join_spec(s.base, s.repo) },
                InitCall::Canonicalize { path: join_spec(s.base, s.repo) },
            ] + tag_dirs(repo, s.tags)
            &&& end.1 == (InitNext::<Text>::Finished { changed: s.changed })
            &&& end.0.src == src
            &&& end.0.repo == repo
        }),
{
    let at = init_resolve_src(s);
    let tail = all_done(s.tags.len());
    let replies = seq![
        InitAnswer::Canonical { path: Some(src) },
        InitAnswer::Done,
        InitAnswer::Canonical { path: Some(repo) },
    ] + tail;
    let at1 = init_answered(at.0, replies[0]);
    let at2 = init_answered(at1.0, replies[1]);
    let at3 = init_answered(at2.0, replies[2]);
    let r1 = replies.skip(1);
    let r2 = r1.skip(1);
    let r3 = r2.skip(1);
    assert(r1[0] == replies[1]);
    assert(r2[0] == replies[2]);
    assert(r3 =~= tail);
    let u = InitView { src, repo, phase: InitPhase::ResolvingRepo, ..s };
    assert(at3 == init_make_tag(u));
    law_each_tag_gets_a_directory(u);
    let c0: InitCall<Text> = InitCall::Canonicalize { path: join_spec(s.base, s.src) };
    let c1: InitCall<Text> = InitCall::CreateDir { path: join_spec(s.base, s.repo) };
    let c2: InitCall<Text> = InitCall::Canonicalize { path: join_spec(s.base, s.repo) };
    assert(init_calls(at2, r2) == seq![c2] + init_calls(at3, r3));
    assert(init_calls(at1, r1) == seq![c1] + init_calls(at2, r2));
    assert(init_calls(at, replies) == seq![c0] + init_calls(at1, r1));
    assert(init_calls(at, replies) =~= seq![c0, c1, c2] + tag_dirs(repo, s.tags));
    assert(init_outcome(at2, r2) == init_outcome(at3, r3));
    assert(init_outcome(at1, r1) == init_outcome(at2, r2));
    assert(init_outcome(at, replies) == init_outcome(at1, r1));
}

/// A source without a deployment is not touched, and has not changed.
pub proof fn law_plain_sources_never_change(s: InitView)
    requires
        s.deployment is None,
        !s.changed,
    ensures
        init_begun(s) == init_resolve_src(s),
        !init_begun(s).0.changed,
{
}

/// A source has changed if it was brought about, and else if the update of it
/// says so.
pub proof fn law_change_comes_from_the_deployment(s: InitView, j: GitJobView, changed: bool)
    ensures
        init_ensure(s, (j, GitNext::Finished { changed: true })) == init_resolve_src(
            InitView { changed: true, ..s },
        ),
        init_ensure(s, (j, GitNext::Finished { changed: false })) == init_update(
            s,
            git_resumed(git_idle(j.deployment), fetch_steps(j.deployment)),
        ),
        init_update(s, (j, GitNext::Finished { changed })) == init_resolve_src(
            InitView { changed, ..s },
        ),
{
}

} // verus!
