//! Where the source of a repository comes from, and with which credentials
//! it is fetched.

use vstd::prelude::*;
use crate::outside::credentials_intersect;
use crate::text::{copy_opt_text, cut_at, opt_text, texts, until, Text};
use crate::text_laws::law_cut_before_the_mark;

verus! {

/// The key files that a source is fetched with.
#[derive(Debug)]
pub struct SshKey {
    pub publickey: Option<String>,
    pub privatekey: Option<String>,
    pub passphrase: Option<String>,
}

impl Clone for SshKey {
    fn clone(&self) -> (r: Self)
        ensures
            r == *self,
    {
        SshKey {
            publickey: copy_opt_text(&self.publickey),
            privatekey: copy_opt_text(&self.privatekey),
            passphrase: copy_opt_text(&self.passphrase),
        }
    }
}

/// A git source and what is run around its checkout.
#[derive(Debug)]
pub struct GitDeployment {
    pub url: String,
    pub branch: Option<String>,
    pub pre_checkout: Option<String>,
    pub post_checkout: Option<String>,
    pub key: Option<SshKey>,
}

impl Clone for GitDeployment {
    fn clone(&self) -> (r: Self)
        ensures
            r == *self,
    {
        GitDeployment {
            url: self.url.clone(),
            branch: copy_opt_text(&self.branch),
            pre_checkout: copy_opt_text(&self.pre_checkout),
            post_checkout: copy_opt_text(&self.post_checkout),
            key: match &self.key {
                Some(k) => Some(k.clone()),
                None => None,
            },
        }
    }
}

/// The branch that is followed where none is named.
pub open spec fn default_branch() -> Text {
    "main"@
}

impl GitDeployment {
    /// The branch that is followed.
    pub open spec fn main_ref(&self) -> Text {
        match self.branch {
            Some(b) => b@,
            None => default_branch(),
        }
    }

    /// The full name of the local reference of that branch.
    pub open spec fn local_ref(&self) -> Text {
        "refs/heads/"@ + self.main_ref()
    }
}

/// A kind of credentials: a key file or a key from an agent.
pub const SSH_KEY: u32 = 2;

/// A kind of credentials: a signature by a custom procedure.
pub const SSH_CUSTOM: u32 = 4;

/// What a remote asks credentials for.
pub struct CredentialRequest<S> {
    pub url: S,
    pub username: Option<S>,
    /// The kinds of credentials that the remote takes, one bit each.
    pub allowed: u32,
}

impl View for CredentialRequest<String> {
    type V = CredentialRequest<Text>;

    open spec fn view(&self) -> CredentialRequest<Text> {
        CredentialRequest { url: self.url@, username: opt_text(self.username), allowed: self.allowed }
    }
}

/// The view of an optional request.
pub open spec fn opt_request(o: Option<CredentialRequest<String>>) -> Option<CredentialRequest<Text>> {
    match o {
        Some(r) => Some(r@),
        None => None,
    }
}

/// Something to be done to answer a request for credentials.
#[derive(Debug, PartialEq, Eq)]
pub enum CredentialCall<S, L> {
    /// Run `ssh` with some arguments, to load the agent.
    RunSsh { arguments: L },
    /// Ask the agent for the keys of a user.
    AskAgent { user: S },
    /// Ask the credential helper.
    AskHelper { url: S, username: Option<S> },
}

/// What is to be done next.
#[derive(Debug, PartialEq, Eq)]
pub enum CredentialNext<S, L> {
    /// Make a call.
    Perform { call: CredentialCall<S, L> },
    /// The request is answered with what the last call gave.
    Answered,
    /// The request fails with the last call.
    Failed,
}

impl View for CredentialCall<String, Vec<String>> {
    type V = CredentialCall<Text, Seq<Text>>;

    open spec fn view(&self) -> CredentialCall<Text, Seq<Text>> {
        match *self {
            CredentialCall::RunSsh { arguments } => CredentialCall::RunSsh {
                arguments: texts(arguments@),
            },
            CredentialCall::AskAgent { user } => CredentialCall::AskAgent { user: user@ },
            CredentialCall::AskHelper { url, username } => CredentialCall::AskHelper {
                url: url@,
                username: opt_text(username),
            },
        }
    }
}

impl View for CredentialNext<String, Vec<String>> {
    type V = CredentialNext<Text, Seq<Text>>;

    open spec fn view(&self) -> CredentialNext<Text, Seq<Text>> {
        match *self {
            CredentialNext::Perform { call } => CredentialNext::Perform { call: call@ },
            CredentialNext::Answered => CredentialNext::Answered,
            CredentialNext::Failed => CredentialNext::Failed,
        }
    }
}

/// What the answer to a request waits for.
#[derive(Clone, Copy, Debug, PartialEq, Eq, Structural)]
pub enum CredentialPhase {
    LoadingAgent,
    AskingAgent,
    AskingHelper,
    Ended,
}

/// A request for credentials that is being answered.
pub struct CredentialView {
    pub request: CredentialRequest<Text>,
    pub phase: CredentialPhase,
}

/// What is to be done next, in the model.
pub type CredentialStep = CredentialNext<Text, Seq<Text>>;

/// The remote takes a key or a custom signature over ssh.
pub open spec fn takes_ssh(allowed: u32) -> bool {
    (allowed & SSH_KEY) != 0 || (allowed & SSH_CUSTOM) != 0
}

/// The arguments that `ssh` is run with to load the agent for a url.
pub open spec fn warm_up_arguments(url: Text) -> Seq<Text> {
    seq!["-q"@, "-o"@, "BatchMode=yes"@, until(url, ':')]
}

/// The agent is loaded for a request that repeats the one before it, where the
/// remote takes ssh.
pub open spec fn needs_warm_up(
    prev: Option<CredentialRequest<Text>>,
    request: CredentialRequest<Text>,
) -> bool {
    prev == Some(request) && takes_ssh(request.allowed)
}

/// The user whose keys the agent is asked for.
pub open spec fn agent_user(request: CredentialRequest<Text>) -> Text {
    match request.username {
        Some(u) => u,
        None => "git"@,
    }
}

/// The agent is asked.
pub open spec fn agent_asked(request: CredentialRequest<Text>) -> (CredentialView, CredentialStep) {
    (
        CredentialView { request, phase: CredentialPhase::AskingAgent },
        CredentialNext::Perform { call: CredentialCall::AskAgent { user: agent_user(request) } },
    )
}

/// The first thing that is done about a request, which follows another one.
pub open spec fn credentials_asked(
    prev: Option<CredentialRequest<Text>>,
    request: CredentialRequest<Text>,
) -> (CredentialView, CredentialStep) {
    if needs_warm_up(prev, request) {
        (
            CredentialView { request, phase: CredentialPhase::LoadingAgent },
            CredentialNext::Perform {
                call: CredentialCall::RunSsh { arguments: warm_up_arguments(request.url) },
            },
        )
    } else {
        agent_asked(request)
    }
}

/// What follows a call that succeeded or did not. How `ssh` ended does not
/// matter; the helper is asked where the agent has no keys.
pub open spec fn credentials_answered(c: CredentialView, ok: bool) -> (
    CredentialView,
    CredentialStep,
) {
    match c.phase {
        CredentialPhase::LoadingAgent => agent_asked(c.request),
        CredentialPhase::AskingAgent if !ok => (
            CredentialView { phase: CredentialPhase::AskingHelper, ..c },
            CredentialNext::Perform {
                call: CredentialCall::AskHelper {
                    url: c.request.url,
                    username: c.request.username,
                },
            },
        ),
        CredentialPhase::Ended => (c, CredentialNext::Failed),
        _ => (
            CredentialView { phase: CredentialPhase::Ended, ..c },
            if ok {
                CredentialNext::Answered
            } else {
                CredentialNext::Failed
            },
        ),
    }
}

/// The answer to a request for credentials.
pub struct CredentialPlan {
    url: String,
    username: Option<String>,
    allowed: u32,
    phase: CredentialPhase,
}

impl View for CredentialPlan {
    type V = CredentialView;

    closed spec fn view(&self) -> CredentialView {
        CredentialView {
            request: CredentialRequest {
                url: self.url@,
                username: opt_text(self.username),
                allowed: self.allowed,
            },
            phase: self.phase,
        }
    }
}

/// Whether two requests are the same.
fn same_request(a: &CredentialRequest<String>, b: &CredentialRequest<String>) -> (r: bool)
    ensures
        r == (a@ == b@),
{
    let same_user = match (&a.username, &b.username) {
        (Some(x), Some(y)) => *x == *y,
        (None, None) => true,
        _ => false,
    };
    a.url == b.url && same_user && a.allowed == b.allowed
}

impl GitDeployment {
    /// Starts to answer a request for credentials, and keeps it to be held
    /// against the next one.
    pub fn ssh_callbacks(
        prev_req: &mut Option<CredentialRequest<String>>,
        request: CredentialRequest<String>,
    ) -> (r: (CredentialPlan, CredentialNext<String, Vec<String>>))
        ensures
            opt_request(*final(prev_req)) == Some(request@),
            (r.0@, r.1@) == credentials_asked(opt_request(*old(prev_req)), request@),
    {
        let repeated = match &*prev_req {
            Some(p) => same_request(p, &request),
            None => false,
        };
        let ssh = credentials_intersect(request.allowed, SSH_KEY | SSH_CUSTOM);
        proof {
            let a = request.allowed;
            assert(((a & 0x7fu32) & ((2u32 | 4u32) & 0x7fu32) != 0) == ((a & 2u32) != 0 || (a & 4u32)
                != 0)) by (bit_vector);
        }
        let mut plan = CredentialPlan {
            url: request.url.clone(),
            username: copy_opt_text(&request.username),
            allowed: request.allowed,
            phase: CredentialPhase::LoadingAgent,
        };
        let next = if repeated && ssh {
            let mut arguments: Vec<String> = Vec::new();
            arguments.push("-q".to_owned());
            arguments.push("-o".to_owned());
            arguments.push("BatchMode=yes".to_owned());
            arguments.push(cut_at(request.url.as_str(), ':'));
            assert(texts(arguments@) =~= warm_up_arguments(request@.url));
            CredentialNext::Perform { call: CredentialCall::RunSsh { arguments } }
        } else {
            plan.ask_agent()
        };
        *prev_req = Some(request);
        (plan, next)
    }
}

impl CredentialPlan {
    fn ask_agent(&mut self) -> (r: CredentialNext<String, Vec<String>>)
        ensures
            (final(self)@, r@) == agent_asked(old(self)@.request),
    {
        let user = match &self.username {
            Some(u) => u.clone(),
            None => "git".to_owned(),
        };
        self.phase = CredentialPhase::AskingAgent;
        CredentialNext::Perform { call: CredentialCall::AskAgent { user } }
    }

    /// Says what is to be done next; `ok` says whether the last call succeeded.
    pub fn next(&mut self, ok: bool) -> (r: CredentialNext<String, Vec<String>>)
        ensures
            (final(self)@, r@) == credentials_answered(old(self)@, ok),
    {
        match self.phase {
            CredentialPhase::LoadingAgent => self.ask_agent(),
            CredentialPhase::Ended => CredentialNext::Failed,
            CredentialPhase::AskingAgent => {
                if ok {
                    self.phase = CredentialPhase::Ended;
                    CredentialNext::Answered
                } else {
                    self.phase = CredentialPhase::AskingHelper;
                    CredentialNext::Perform {
                        call: CredentialCall::AskHelper {
                            url: self.url.clone(),
                            username: copy_opt_text(&self.username),
                        },
                    }
                }
            },
            CredentialPhase::AskingHelper => {
                self.phase = CredentialPhase::Ended;
                if ok {
                    CredentialNext::Answered
                } else {
                    CredentialNext::Failed
                }
            },
        }
    }
}

/// What is to be done after the agent has been asked and, where it had no keys,
/// the helper: the helper is asked only where the agent fails, with the url and
/// the user of the request, and the request fails only where both fail. How
/// `ssh` ended, where it was run, makes no difference.
pub proof fn law_helper_after_agent(
    prev: Option<CredentialRequest<Text>>,
    request: CredentialRequest<Text>,
    ssh: bool,
    agent: bool,
    helper: bool,
)
    ensures
        ({
            let first = credentials_asked(prev, request);
            let asked = if needs_warm_up(prev, request) {
                credentials_answered(first.0, ssh)
            } else {
                first
            };
            let then = credentials_answered(asked.0, agent);
            let last = credentials_answered(then.0, helper);
            &&& asked.1 == (CredentialStep::Perform {
                call: CredentialCall::AskAgent { user: agent_user(request) },
            })
            &&& agent ==> then.1 is Answered
            &&& !agent ==> then.1 == (CredentialStep::Perform {
                call: CredentialCall::AskHelper { url: request.url, username: request.username },
            })
            &&& !agent && helper ==> last.1 is Answered
            &&& !agent && !helper ==> last.1 is Failed
        }),
{
}

/// What is done first about a request: `ssh` is run, quietly and without asking
/// back, with the part of the url before its first colon, exactly where the
/// request repeats the one before it and the remote takes a key or a custom
/// signature over ssh. Else the agent is asked at once, for the user of the
/// request or else for `git`.
pub proof fn law_requests_are_begun(
    prev: Option<CredentialRequest<Text>>,
    request: CredentialRequest<Text>,
    host: Text,
    rest: Text,
)
    requires
        !host.contains(':'),
        request.url == host || request.url == host.push(':') + rest,
    ensures
        ({
            let repeated = prev == Some(request) && (request.allowed & 2 != 0 || request.allowed & 4
                != 0);
            let ssh: Seq<Text> = seq!["-q"@, "-o"@, "BatchMode=yes"@, host];
            let user = match request.username {
                Some(u) => u,
                None => "git"@,
            };
            let agent: CredentialStep = CredentialNext::Perform {
                call: CredentialCall::AskAgent { user },
            };
            let first = credentials_asked(prev, request);
            &&& repeated ==> first.1 == (CredentialStep::Perform {
                call: CredentialCall::RunSsh { arguments: ssh },
            })
            &&& repeated ==> credentials_answered(first.0, true).1 == agent
                && credentials_answered(first.0, false).1 == agent
            &&& !repeated ==> first.1 == agent
        }),
{
    law_cut_before_the_mark(host, ':', rest);
}

/// A request is the same as another where its url, its user and the kinds of
/// credentials are.
pub proof fn law_requests_are_compared_whole(
    a: CredentialRequest<String>,
    b: CredentialRequest<String>,
)
    ensures
        a@ == b@ <==> {
            &&& a.url@ == b.url@
            &&& a.allowed == b.allowed
            &&& match (a.username, b.username) {
                (Some(x), Some(y)) => x@ == y@,
                (None, None) => true,
                _ => false,
            }
        },
        opt_request(Some(a)) == Some(a@),
        opt_request(None) is None,
{
}

} // verus!
