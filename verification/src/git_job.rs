//! The work on the source directory of a repository: which step follows which,
//! and what is made of the outcome of each.

use vstd::prelude::*;
use crate::deployment::GitDeployment;
use crate::outside::{lossy_text, utf8_lossy};
use crate::text::{concat2, copy_opt_text, opt_text, Text};

verus! {

/// When a script of a deployment is run.
#[derive(Clone, Copy, Debug, PartialEq, Eq, Structural)]
pub enum Stage {
    PreCheckout,
    PostCheckout,
}

/// A step on the source directory.
#[derive(Debug, PartialEq, Eq)]
pub enum GitStep<S> {
    /// List the directory.
    ReadDir,
    /// Clone a remote into the directory, at a branch if one is named.
    CloneRepo { url: S, branch: Option<S> },
    /// Open the repository in the directory.
    OpenRepo,
    /// Look up a remote of the repository.
    FindRemote { name: S },
    /// Fetch a reference from that remote.
    Fetch { refspec: S, all_tags: bool },
    /// Read the commits that two references stand at.
    ReadHeads { local: S, remote: S },
    /// Look up a reference by its name.
    FindReference { name: S },
    /// Move the reference that was found.
    SetTarget { name: S, id: S, message: S },
    /// Create a reference.
    CreateReference { name: S, id: S, force: bool, message: S },
    /// Let the head stand for a reference.
    SetHead { name: S },
    /// Bring the working tree to the head.
    CheckoutHead { force: bool },
    /// Bring the submodules to what the head names.
    UpdateSubmodules,
    /// Run a script in the directory.
    RunScript { stage: Stage, script: S },
}

/// The outcome of a step.
pub enum GitReply<S, B> {
    /// The step was done.
    Done,
    /// The step could not be done.
    Failed,
    /// The commits that were read.
    Heads { head: S, fetched: S },
    /// The name of the reference that was found, in bytes.
    Reference { name: B },
    /// How a script ended, and what it wrote.
    ScriptExit { success: bool, stdout: B },
}

/// What is to be done next.
#[derive(Debug, PartialEq, Eq)]
pub enum GitNext<S> {
    /// Perform a step.
    Perform { step: GitStep<S> },
    /// All is done; the source changed or did not.
    Finished { changed: bool },
    /// A script ended in failure.
    ScriptFailed { message: S },
    /// The last step could not be done, and nothing follows it.
    Aborted,
}

impl View for GitStep<String> {
    type V = GitStep<Text>;

    open spec fn view(&self) -> GitStep<Text> {
        match *self {
            GitStep::ReadDir => GitStep::ReadDir,
            GitStep::CloneRepo { url, branch } => GitStep::CloneRepo {
                url: url@,
                branch: opt_text(branch),
            },
            GitStep::OpenRepo => GitStep::OpenRepo,
            GitStep::FindRemote { name } => GitStep::FindRemote { name: name@ },
            GitStep::Fetch { refspec, all_tags } => GitStep::Fetch { refspec: refspec@, all_tags },
            GitStep::ReadHeads { local, remote } => GitStep::ReadHeads {
                local: local@,
                remote: remote@,
            },
            GitStep::FindReference { name } => GitStep::FindReference { name: name@ },
            GitStep::SetTarget { name, id, message } => GitStep::SetTarget {
                name: name@,
                id: id@,
                message: message@,
            },
            GitStep::CreateReference { name, id, force, message } => GitStep::CreateReference {
                name: name@,
                id: id@,
                force,
                message: message@,
            },
            GitStep::SetHead { name } => GitStep::SetHead { name: name@ },
            GitStep::CheckoutHead { force } => GitStep::CheckoutHead { force },
            GitStep::UpdateSubmodules => GitStep::UpdateSubmodules,
            GitStep::RunScript { stage, script } => GitStep::RunScript { stage, script: script@ },
        }
    }
}

impl View for GitReply<String, Vec<u8>> {
    type V = GitReply<Text, Seq<u8>>;

    open spec fn view(&self) -> GitReply<Text, Seq<u8>> {
        match *self {
            GitReply::Done => GitReply::Done,
            GitReply::Failed => GitReply::Failed,
            GitReply::Heads { head, fetched } => GitReply::Heads { head: head@, fetched: fetched@ },
            GitReply::Reference { name } => GitReply::Reference { name: name@ },
            GitReply::ScriptExit { success, stdout } => GitReply::ScriptExit {
                success,
                stdout: stdout@,
            },
        }
    }
}

impl View for GitNext<String> {
    type V = GitNext<Text>;

    open spec fn view(&self) -> GitNext<Text> {
        match *self {
            GitNext::Perform { step } => GitNext::Perform { step: step@ },
            GitNext::Finished { changed } => GitNext::Finished { changed },
            GitNext::ScriptFailed { message } => GitNext::ScriptFailed { message: message@ },
            GitNext::Aborted => GitNext::Aborted,
        }
    }
}

/// The steps that a list of steps stands for.
pub open spec fn git_steps(list: Seq<GitStep<String>>) -> Seq<GitStep<Text>> {
    Seq::new(list.len(), |i: int| list[i]@)
}

/// How the outcome of a step is read.
#[derive(Clone, Copy, Debug, PartialEq, Eq, Structural)]
pub enum Awaited {
    Directory,
    Heads,
    Reference,
    Script(Stage),
    Completion,
}

/// How the outcome of a given step is read.
pub open spec fn awaited_of(step: GitStep<Text>) -> Awaited {
    match step {
        GitStep::ReadDir => Awaited::Directory,
        GitStep::ReadHeads { .. } => Awaited::Heads,
        GitStep::FindReference { .. } => Awaited::Reference,
        GitStep::RunScript { stage, .. } => Awaited::Script(stage),
        _ => Awaited::Completion,
    }
}

/// The step that runs a script, if there is one.
pub open spec fn script_steps(stage: Stage, script: Option<String>) -> Seq<GitStep<Text>> {
    match script {
        Some(s) => seq![GitStep::RunScript { stage, script: s@ }],
        None => Seq::empty(),
    }
}

/// The steps that bring a missing source directory about.
pub open spec fn clone_steps(d: GitDeployment) -> Seq<GitStep<Text>> {
    seq![
        GitStep::CloneRepo { url: d.url@, branch: opt_text(d.branch) },
        GitStep::UpdateSubmodules,
    ] + script_steps(Stage::PostCheckout, d.post_checkout)
}

/// The steps that show whether the remote branch has moved.
pub open spec fn fetch_steps(d: GitDeployment) -> Seq<GitStep<Text>> {
    seq![
        GitStep::OpenRepo,
        GitStep::FindRemote { name: "origin"@ },
        GitStep::Fetch { refspec: d.main_ref(), all_tags: true },
        GitStep::ReadHeads { local: "HEAD"@, remote: "FETCH_HEAD"@ },
    ]
}

/// The steps that let the local branch and the head stand at a commit. The
/// branch is moved under the name that it was found by, or else created.
pub open spec fn branch_steps(d: GitDeployment, id: Text, found: Option<Text>) -> Seq<GitStep<Text>> {
    match found {
        Some(name) => seq![
            GitStep::SetTarget {
                name,
                id,
                message: "Fast-Forward: Setting "@ + name + " to id: "@ + id,
            },
            GitStep::SetHead { name },
        ],
        None => seq![
            GitStep::CreateReference {
                name: d.local_ref(),
                id,
                force: true,
                message: "Setting "@ + d.main_ref() + " to "@ + id,
            },
            GitStep::SetHead { name: d.local_ref() },
        ],
    }
}

/// The steps that bring the source directory to a commit.
pub open spec fn checkout_steps(d: GitDeployment, id: Text, found: Option<Text>) -> Seq<GitStep<Text>> {
    branch_steps(d, id, found) + script_steps(Stage::PreCheckout, d.pre_checkout) + seq![
        GitStep::CheckoutHead { force: true },
        GitStep::UpdateSubmodules,
    ] + script_steps(Stage::PostCheckout, d.post_checkout)
}

/// What is said of a script that ended in failure.
pub open spec fn script_error(stage: Stage, stdout: Seq<u8>) -> Text {
    (match stage {
        Stage::PreCheckout => "Failed to run pre_checkout: "@,
        Stage::PostCheckout => "Failed to run post_checkout: "@,
    }) + lossy_text(stdout)
}

/// The state of the work: what it is for, the commit that was fetched, the
/// outcome that is awaited, and the steps that follow.
pub struct GitJobView {
    pub deployment: GitDeployment,
    pub fetched: Text,
    pub awaited: Option<Awaited>,
    pub rest: Seq<GitStep<Text>>,
}

/// The work before its first step.
pub open spec fn git_idle(d: GitDeployment) -> GitJobView {
    GitJobView { deployment: d, fetched: Seq::empty(), awaited: None, rest: Seq::empty() }
}

/// The work at its end.
pub open spec fn git_ended(j: GitJobView, next: GitNext<Text>) -> (GitJobView, GitNext<Text>) {
    (GitJobView { awaited: None, rest: Seq::empty(), ..j }, next)
}

/// The work goes on with a list of steps. Once no step is left, it has changed
/// the source.
pub open spec fn git_resumed(j: GitJobView, steps: Seq<GitStep<Text>>) -> (GitJobView, GitNext<Text>) {
    if steps.len() == 0 {
        git_ended(j, GitNext::Finished { changed: true })
    } else {
        (
            GitJobView { awaited: Some(awaited_of(steps[0])), rest: steps.skip(1), ..j },
            GitNext::Perform { step: steps[0] },
        )
    }
}

/// What follows the outcome of the last step.
pub open spec fn git_answered(j: GitJobView, reply: GitReply<Text, Seq<u8>>) -> (
    GitJobView,
    GitNext<Text>,
) {
    match (j.awaited, reply) {
        // A source directory that can be listed is left alone.
        (Some(Awaited::Directory), GitReply::Done) => git_ended(
            j,
            GitNext::Finished { changed: false },
        ),
        (Some(Awaited::Directory), GitReply::Failed) => git_resumed(j, clone_steps(j.deployment)),
        (Some(Awaited::Heads), GitReply::Heads { head, fetched }) => if head == fetched {
            git_ended(j, GitNext::Finished { changed: false })
        } else {
            git_resumed(
                GitJobView { fetched, ..j },
                seq![GitStep::FindReference { name: j.deployment.local_ref() }],
            )
        },
        (Some(Awaited::Reference), GitReply::Reference { name }) => git_resumed(
            j,
            checkout_steps(j.deployment, j.fetched, Some(lossy_text(name))),
        ),
        (Some(Awaited::Reference), GitReply::Failed) => git_resumed(
            j,
            checkout_steps(j.deployment, j.fetched, None),
        ),
        (Some(Awaited::Script(stage)), GitReply::ScriptExit { success, stdout }) => if success {
            git_resumed(j, j.rest)
        } else {
            git_ended(j, GitNext::ScriptFailed { message: script_error(stage, stdout) })
        },
        (Some(Awaited::Completion), GitReply::Done) => git_resumed(j, j.rest),
        _ => git_ended(j, GitNext::Aborted),
    }
}

/// Work on the source directory of a deployment.
pub struct GitJob {
    deployment: GitDeployment,
    fetched: String,
    awaited: Option<Awaited>,
    rest: Vec<GitStep<String>>,
}

impl View for GitJob {
    type V = GitJobView;

    closed spec fn view(&self) -> GitJobView {
        GitJobView {
            deployment: self.deployment,
            fetched: self.fetched@,
            awaited: self.awaited,
            rest: git_steps(self.rest@),
        }
    }
}

/// How the outcome of a given step is read.
fn awaits(step: &GitStep<String>) -> (r: Awaited)
    ensures
        r == awaited_of(step@),
{
    match step {
        GitStep::ReadDir => Awaited::Directory,
        GitStep::ReadHeads { .. } => Awaited::Heads,
        GitStep::FindReference { .. } => Awaited::Reference,
        GitStep::RunScript { stage, .. } => Awaited::Script(*stage),
        _ => Awaited::Completion,
    }
}

/// Appends the step that runs a script, if there is one.
fn push_script(steps: &mut Vec<GitStep<String>>, stage: Stage, script: &Option<String>)
    ensures
        git_steps(final(steps)@) == git_steps(old(steps)@) + script_steps(stage, *script),
{
    let ghost before = git_steps(steps@);
    match script {
        Some(s) => {
            steps.push(GitStep::RunScript { stage, script: s.clone() });
            assert(git_steps(steps@) =~= before + script_steps(stage, *script));
        },
        None => {
            assert(git_steps(steps@) =~= before + script_steps(stage, *script));
        },
    }
}

impl GitDeployment {
    /// The branch that is followed.
    fn followed(&self) -> (r: String)
        ensures
            r@ == self.main_ref(),
    {
        match &self.branch {
            Some(b) => b.clone(),
            None => "main".to_owned(),
        }
    }

    fn clone_list(&self) -> (r: Vec<GitStep<String>>)
        ensures
            git_steps(r@) == clone_steps(*self),
    {
        let mut r: Vec<GitStep<String>> = Vec::new();
        r.push(GitStep::CloneRepo { url: self.url.clone(), branch: copy_opt_text(&self.branch) });
        r.push(GitStep::UpdateSubmodules);
        proof {
            let head: Seq<GitStep<Text>> = seq![
                GitStep::CloneRepo { url: self.url@, branch: opt_text(self.branch) },
                GitStep::UpdateSubmodules,
            ];
            assert(git_steps(r@) =~= head);
        }
        push_script(&mut r, Stage::PostCheckout, &self.post_checkout);
        r
    }

    fn fetch_list(&self) -> (r: Vec<GitStep<String>>)
        ensures
            git_steps(r@) == fetch_steps(*self),
    {
        let mut r: Vec<GitStep<String>> = Vec::new();
        r.push(GitStep::OpenRepo);
        r.push(GitStep::FindRemote { name: "origin".to_owned() });
        r.push(GitStep::Fetch { refspec: self.followed(), all_tags: true });
        r.push(GitStep::ReadHeads { local: "HEAD".to_owned(), remote: "FETCH_HEAD".to_owned() });
        assert(git_steps(r@) =~= fetch_steps(*self));
        r
    }

    fn checkout_list(&self, id: &String, found: Option<String>) -> (r: Vec<GitStep<String>>)
        ensures
            git_steps(r@) == checkout_steps(*self, id@, opt_text(found)),
    {
        let ghost name = opt_text(found);
        let mut r: Vec<GitStep<String>> = Vec::new();
        match found {
            Some(name) => {
                let mut message = concat2("Fast-Forward: Setting ", name.as_str());
                message.append(" to id: ");
                message.append(id.as_str());
                r.push(GitStep::SetTarget { name: name.clone(), id: id.clone(), message });
                r.push(GitStep::SetHead { name });
            },
            None => {
                let main_ref = self.followed();
                let local_ref = concat2("refs/heads/", main_ref.as_str());
                let mut message = concat2("Setting ", main_ref.as_str());
                message.append(" to ");
                message.append(id.as_str());
                r.push(
                    GitStep::CreateReference {
                        name: local_ref.clone(),
                        id: id.clone(),
                        force: true,
                        message,
                    },
                );
                r.push(GitStep::SetHead { name: local_ref });
            },
        }
        assert(git_steps(r@) =~= branch_steps(*self, id@, name));
        push_script(&mut r, Stage::PreCheckout, &self.pre_checkout);
        let ghost before = git_steps(r@);
        r.push(GitStep::CheckoutHead { force: true });
        r.push(GitStep::UpdateSubmodules);
        proof {
            let middle: Seq<GitStep<Text>> = seq![
                GitStep::CheckoutHead { force: true },
                GitStep::UpdateSubmodules,
            ];
            assert(git_steps(r@) =~= before + middle);
        }
        push_script(&mut r, Stage::PostCheckout, &self.post_checkout);
        r
    }

    /// Starts the work that brings the source directory about where it is
    /// missing. The work says that the source changed exactly if it was.
    pub fn ensure_created(&self) -> (r: (GitJob, GitNext<String>))
        ensures
            (r.0@, r.1@) == git_resumed(git_idle(*self), seq![GitStep::ReadDir]),
    {
        let mut steps: Vec<GitStep<String>> = Vec::new();
        steps.push(GitStep::ReadDir);
        proof {
            let first: Seq<GitStep<Text>> = seq![GitStep::ReadDir];
            assert(git_steps(steps@) =~= first);
        }
        let mut job = GitJob::idle(self);
        let next = job.resume(steps);
        (job, next)
    }

    /// Starts the work that brings the source directory to where the remote
    /// branch stands.
    pub fn update_src(&self) -> (r: (GitJob, GitNext<String>))
        ensures
            (r.0@, r.1@) == git_resumed(git_idle(*self), fetch_steps(*self)),
    {
        let steps = self.fetch_list();
        let mut job = GitJob::idle(self);
        let next = job.resume(steps);
        (job, next)
    }
}

impl GitJob {
    fn idle(deployment: &GitDeployment) -> (r: Self)
        ensures
            r@ == git_idle(*deployment),
    {
        let r = GitJob {
            deployment: deployment.clone(),
            fetched: String::new(),
            awaited: None,
            rest: Vec::new(),
        };
        assert(r@.rest =~= Seq::<GitStep<Text>>::empty());
        r
    }

    /// The deployment that the work is for.
    pub fn deployment(&self) -> (r: &GitDeployment)
        ensures
            *r == self@.deployment,
    {
        &self.deployment
    }

    fn end(&mut self)
        ensures
            final(self)@ == (GitJobView { awaited: None, rest: Seq::empty(), ..old(self)@ }),
    {
        self.awaited = None;
        self.rest.clear();
        assert(self@.rest =~= Seq::<GitStep<Text>>::empty());
    }

    fn resume(&mut self, steps: Vec<GitStep<String>>) -> (r: GitNext<String>)
        ensures
            (final(self)@, r@) == git_resumed(old(self)@, git_steps(steps@)),
    {
        let mut steps = steps;
        let ghost all = git_steps(steps@);
        if steps.len() == 0 {
            self.end();
            GitNext::Finished { changed: true }
        } else {
            let step = steps.remove(0);
            self.awaited = Some(awaits(&step));
            self.rest = steps;
            assert(self@.rest =~= all.skip(1));
            GitNext::Perform { step }
        }
    }

    fn proceed(&mut self) -> (r: GitNext<String>)
        ensures
            (final(self)@, r@) == git_resumed(old(self)@, old(self)@.rest),
    {
        let mut steps: Vec<GitStep<String>> = Vec::new();
        steps.append(&mut self.rest);
        assert(git_steps(steps@) =~= old(self)@.rest);
        self.resume(steps)
    }

    /// Takes the outcome of the last step and says what is to be done next.
    pub fn next(&mut self, reply: GitReply<String, Vec<u8>>) -> (r: GitNext<String>)
        ensures
            (final(self)@, r@) == git_answered(old(self)@, reply@),
    {
        match (self.awaited, reply) {
            (Some(Awaited::Directory), GitReply::Done) => {
                self.end();
                GitNext::Finished { changed: false }
            },
            (Some(Awaited::Directory), GitReply::Failed) => {
                let steps = self.deployment.clone_list();
                self.resume(steps)
            },
            (Some(Awaited::Heads), GitReply::Heads { head, fetched }) => {
                if head == fetched {
                    self.end();
                    GitNext::Finished { changed: false }
                } else {
                    let name = concat2("refs/heads/", self.deployment.followed().as_str());
                    let mut steps: Vec<GitStep<String>> = Vec::new();
                    steps.push(GitStep::FindReference { name });
                    proof {
                        let all: Seq<GitStep<Text>> = seq![
                            GitStep::FindReference { name: self@.deployment.local_ref() },
                        ];
                        assert(git_steps(steps@) =~= all);
                    }
                    self.fetched = fetched;
                    self.resume(steps)
                }
            },
            (Some(Awaited::Reference), GitReply::Reference { name }) => {
                let name = utf8_lossy(name.as_slice());
                let steps = self.deployment.checkout_list(&self.fetched, Some(name));
                self.resume(steps)
            },
            (Some(Awaited::Reference), GitReply::Failed) => {
                let steps = self.deployment.checkout_list(&self.fetched, None);
                self.resume(steps)
            },
            (Some(Awaited::Script(stage)), GitReply::ScriptExit { success, stdout }) => {
                if success {
                    self.proceed()
                } else {
                    let said = utf8_lossy(stdout.as_slice());
                    let message = match stage {
                        Stage::PreCheckout => concat2("Failed to run pre_checkout: ", said.as_str()),
                        Stage::PostCheckout => concat2("Failed to run post_checkout: ", said.as_str()),
                    };
                    self.end();
                    GitNext::ScriptFailed { message }
                }
            },
            (Some(Awaited::Completion), GitReply::Done) => self.proceed(),
            _ => {
                self.end();
                GitNext::Aborted
            },
        }
    }
}

} // verus!
