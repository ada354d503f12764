//! Calls, answers and other values are seen whole: with all that they hold, and
//! as what they hold.

use vstd::prelude::*;
use crate::cache::RepositoryCache;
use crate::containers::{run_list, ClearNext, ContainerRun, RunCall, RunNext};
use crate::deployment::{CredentialCall, CredentialNext};
use crate::docker::{
    mount_points, CreateRequest, DockerCall, DockerNext, DockerReply, Info, MountPoint,
};
use crate::git_job::{GitNext, GitReply, GitStep};
use crate::initialize::{same_but_paths, InitCall, InitError, InitNext, InitReply};
use crate::name_map::NameMap;
use crate::repo_build::{BuildCall, BuildError, BuildNext, BuildReply};
use crate::repository::{text_map, Repository};
use crate::submodules::{SubmoduleCall, SubmoduleNext};
use crate::sync::{container_list, image_tags, Container, ImageTag};
use crate::text::Text;

verus! {

/// The texts of some strings.
pub open spec fn all_texts(list: Vec<String>) -> Seq<Text> {
    Seq::new(list@.len(), |i: int| list@[i]@)
}

/// The texts of some strings, where there are any.
pub open spec fn maybe_texts(list: Option<Vec<String>>) -> Option<Seq<Text>> {
    match list {
        Some(l) => Some(all_texts(l)),
        None => None,
    }
}

/// The text of a string, where there is one.
pub open spec fn maybe_text(s: Option<String>) -> Option<Text> {
    match s {
        Some(t) => Some(t@),
        None => None,
    }
}

/// Steps on a source, their outcomes, and what follows them.
pub proof fn law_steps_are_seen_whole(
    step: GitStep<String>,
    reply: GitReply<String, Vec<u8>>,
    next: GitNext<String>,
)
    ensures
        match (step, step@) {
            (GitStep::ReadDir, GitStep::ReadDir) => true,
            (GitStep::CloneRepo { url, branch }, GitStep::CloneRepo { url: u, branch: b }) => u == url@
                && b == maybe_text(branch),
            (GitStep::OpenRepo, GitStep::OpenRepo) => true,
            (GitStep::FindRemote { name }, GitStep::FindRemote { name: n }) => n == name@,
            (
                GitStep::Fetch { refspec, all_tags },
                GitStep::Fetch { refspec: r, all_tags: a },
            ) => r == refspec@ && a == all_tags,
            (
                GitStep::ReadHeads { local, remote },
                GitStep::ReadHeads { local: l, remote: r },
            ) => l == local@ && r == remote@,
            (GitStep::FindReference { name }, GitStep::FindReference { name: n }) => n == name@,
            (
                GitStep::SetTarget { name, id, message },
                GitStep::SetTarget { name: n, id: i, message: m },
            ) => n == name@ && i == id@ && m == message@,
            (
                GitStep::CreateReference { name, id, force, message },
                GitStep::CreateReference { name: n, id: i, force: f, message: m },
            ) => n == name@ && i == id@ && f == force && m == message@,
            (GitStep::SetHead { name }, GitStep::SetHead { name: n }) => n == name@,
            (GitStep::CheckoutHead { force }, GitStep::CheckoutHead { force: f }) => f == force,
            (GitStep::UpdateSubmodules, GitStep::UpdateSubmodules) => true,
            (
                GitStep::RunScript { stage, script },
                GitStep::RunScript { stage: g, script: s },
            ) => g == stage && s == script@,
            _ => false,
        },
        match (reply, reply@) {
            (GitReply::Done, GitReply::Done) => true,
            (GitReply::Failed, GitReply::Failed) => true,
            (
                GitReply::Heads { head, fetched },
                GitReply::Heads { head: h, fetched: f },
            ) => h == head@ && f == fetched@,
            (GitReply::Reference { name }, GitReply::Reference { name: n }) => n == name@,
            (
                GitReply::ScriptExit { success, stdout },
                GitReply::ScriptExit { success: s, stdout: o },
            ) => s == success && o == stdout@,
            _ => false,
        },
        match (next, next@) {
            (GitNext::Perform { step }, GitNext::Perform { step: s }) => s == step@,
            (GitNext::Finished { changed }, GitNext::Finished { changed: c }) => c == changed,
            (GitNext::ScriptFailed { message }, GitNext::ScriptFailed { message: m }) => m == message@,
            (GitNext::Aborted, GitNext::Aborted) => true,
            _ => false,
        },
{
}

/// Calls of the container service and what follows them.
pub proof fn law_service_calls_are_seen_whole(
    call: DockerCall<String, Vec<String>>,
    next: DockerNext<String, Vec<String>>,
    clear: ClearNext<String, Vec<String>>,
    run: RunNext<String>,
    request: CreateRequest<String, Vec<String>>,
)
    ensures
        request@.name == request.name@,
        request@.image == request.image@,
        request@.binds == all_texts(request.binds),
        request@.cmd == all_texts(request.cmd),
        request@.env == maybe_texts(request.env),
        match (call, call@) {
            (DockerCall::Inspect { id }, DockerCall::Inspect { id: i }) => i == id@,
            (
                DockerCall::Kill { id, signal },
                DockerCall::Kill { id: i, signal: s },
            ) => i == id@ && s == signal@,
            (DockerCall::Remove { id }, DockerCall::Remove { id: i }) => i == id@,
            (DockerCall::Create { request }, DockerCall::Create { request: r }) => r == request@,
            _ => false,
        },
        match (next, next@) {
            (DockerNext::Call { call }, DockerNext::Call { call: c }) => c == call@,
            (DockerNext::Finished { changed }, DockerNext::Finished { changed: c }) => c == changed,
            (DockerNext::Aborted, DockerNext::Aborted) => true,
            _ => false,
        },
        match (clear, clear@) {
            (ClearNext::Call { call }, ClearNext::Call { call: c }) => c == call@,
            (ClearNext::Finished, ClearNext::Finished) => true,
            (ClearNext::Aborted, ClearNext::Aborted) => true,
            _ => false,
        },
        match (run, run@) {
            (
                RunNext::Call { call: RunCall::Start { id } },
                RunNext::Call { call: RunCall::Start { id: i } },
            ) => i == id@,
            (
                RunNext::Call { call: RunCall::Wait { id, condition } },
                RunNext::Call { call: RunCall::Wait { id: i, condition: c } },
            ) => i == id@ && c == condition@,
            (RunNext::Finished, RunNext::Finished) => true,
            (RunNext::Aborted, RunNext::Aborted) => true,
            _ => false,
        },
{
    assert(request@.binds =~= all_texts(request.binds));
    assert(request@.cmd =~= all_texts(request.cmd));
    if let Some(e) = request.env {
        assert(request@.env->0 =~= all_texts(e));
    }
}

/// What the container service says.
pub proof fn law_service_answers_are_seen_whole(
    reply: DockerReply<String, Info>,
    info: Info,
    mount: MountPoint<String>,
    list: Seq<MountPoint<String>>,
)
    ensures
        mount@.destination == maybe_text(mount.destination),
        mount@.source == maybe_text(mount.source),
        mount_points(list).len() == list.len(),
        forall|i: int| 0 <= i < list.len() ==> #[trigger] mount_points(list)[i] == list[i]@,
        info@.image == maybe_text(info.image),
        match (info.mounts, info@.mounts) {
            (Some(a), Some(b)) => b == mount_points(a@),
            (None, None) => true,
            _ => false,
        },
        match (info.config, info@.config) {
            (Some(a), Some(b)) => b.cmd == maybe_texts(a.cmd) && b.env == maybe_texts(a.env),
            (None, None) => true,
            _ => false,
        },
        match (reply, reply@) {
            (DockerReply::Inspected { info: Some(a) }, DockerReply::Inspected { info: Some(b) }) => b
                == a@,
            (DockerReply::Inspected { info: None }, DockerReply::Inspected { info: None }) => true,
            (DockerReply::Done, DockerReply::Done) => true,
            (DockerReply::Failed, DockerReply::Failed) => true,
            (DockerReply::Created { id }, DockerReply::Created { id: i }) => i == id@,
            _ => false,
        },
{
    if let Some(c) = info.config {
        if let Some(cmd) = c.cmd {
            assert(info@.config->0.cmd->0 =~= all_texts(cmd));
        }
        if let Some(env) = c.env {
            assert(info@.config->0.env->0 =~= all_texts(env));
        }
    }
}

/// Containers, images and what is remembered.
pub proof fn law_containers_are_seen_whole(
    container: Container<String>,
    containers: Seq<Container<String>>,
    tag: ImageTag<String>,
    tags: Seq<ImageTag<String>>,
    runs: Seq<ContainerRun>,
    cache: RepositoryCache,
    map: NameMap<String>,
    name: Text,
)
    ensures
        container@.key == container.key@,
        container@.id == container.id@,
        container_list(containers).len() == containers.len(),
        forall|i: int|
            0 <= i < containers.len() ==> #[trigger] container_list(containers)[i] == containers[i]@,
        tag@.platform == tag.platform@,
        tag@.tag == tag.tag@,
        tag@.combo == tag.combo@,
        tag@.image == tag.image@,
        image_tags(tags).len() == tags.len(),
        forall|i: int| 0 <= i < tags.len() ==> #[trigger] image_tags(tags)[i] == tags[i]@,
        run_list(runs).len() == runs.len(),
        forall|i: int| 0 <= i < runs.len() ==> #[trigger] run_list(runs)[i] == runs[i].container@,
        cache@.repo_hash == cache.repo_hash@,
        cache@.dirty == cache.dirty,
        cache@.containers == text_map(cache.docker_containers),
        text_map(map).contains_key(name) == map@.contains_key(name),
        map@.contains_key(name) ==> text_map(map)[name] == map@[name]@,
{
}

/// Calls of the setup, what they give, and what follows them.
pub proof fn law_setup_calls_are_seen_whole(
    call: InitCall<String>,
    reply: InitReply<String, Vec<u8>>,
    error: InitError<String>,
    next: InitNext<String>,
)
    ensures
        match (call, call@) {
            (InitCall::Git { src, step }, InitCall::Git { src: s, step: t }) => s == src@ && t == step@,
            (InitCall::Canonicalize { path }, InitCall::Canonicalize { path: p }) => p == path@,
            (InitCall::CreateDir { path }, InitCall::CreateDir { path: p }) => p == path@,
            _ => false,
        },
        match (reply, reply@) {
            (InitReply::Git { reply }, InitReply::Git { reply: r }) => r == reply@,
            (InitReply::Canonical { path }, InitReply::Canonical { path: p }) => p == maybe_text(path),
            (InitReply::Done, InitReply::Done) => true,
            (InitReply::Failed, InitReply::Failed) => true,
            _ => false,
        },
        match (error, error@) {
            (InitError::CallFailed, InitError::CallFailed) => true,
            (InitError::ScriptFailed { message }, InitError::ScriptFailed { message: m }) => m
                == message@,
            (InitError::InvalidSrcPath, InitError::InvalidSrcPath) => true,
            (InitError::InvalidRepoPath, InitError::InvalidRepoPath) => true,
            _ => false,
        },
        match (next, next@) {
            (InitNext::Perform { call }, InitNext::Perform { call: c }) => c == call@,
            (InitNext::Finished { changed }, InitNext::Finished { changed: c }) => c == changed,
            (InitNext::Failed { error }, InitNext::Failed { error: e }) => e == error@,
            _ => false,
        },
{
}

/// Setting a repository up changes nothing of it but its two paths.
pub proof fn law_setup_keeps_the_rest(a: Repository, b: Repository)
    requires
        same_but_paths(a, b),
    ensures
        a == (Repository { src: a.src, repo: a.repo, ..b }),
{
}

/// Calls of a build, what they give, and what follows them.
pub proof fn law_build_calls_are_seen_whole(
    call: BuildCall<String, Vec<String>>,
    reply: BuildReply<String, Vec<u8>, Vec<bool>>,
    error: BuildError<String>,
    next: BuildNext<String, Vec<String>>,
)
    ensures
        match (call, call@) {
            (BuildCall::LockPriority, BuildCall::LockPriority) => true,
            (BuildCall::AskNeedsBuild { name }, BuildCall::AskNeedsBuild { name: n }) => n == name@,
            (BuildCall::AwaitBuilt { name }, BuildCall::AwaitBuilt { name: n }) => n == name@,
            (BuildCall::TryPriority { name }, BuildCall::TryPriority { name: n }) => n == name@,
            (BuildCall::PassPriority { name }, BuildCall::PassPriority { name: n }) => n == name@,
            (BuildCall::TryRead { name }, BuildCall::TryRead { name: n }) => n == name@,
            (BuildCall::Read { name }, BuildCall::Read { name: n }) => n == name@,
            (BuildCall::ReleaseReads, BuildCall::ReleaseReads) => true,
            (BuildCall::LockWrite, BuildCall::LockWrite) => true,
            (BuildCall::ReleasePriority, BuildCall::ReleasePriority) => true,
            (BuildCall::DirtyDependent { name }, BuildCall::DirtyDependent { name: n }) => n == name@,
            (
                BuildCall::ReadDependents { names },
                BuildCall::ReadDependents { names: n },
            ) => n == all_texts(names),
            (BuildCall::MarkBuilt, BuildCall::MarkBuilt) => true,
            (BuildCall::MarkDependent { name }, BuildCall::MarkDependent { name: n }) => n == name@,
            (BuildCall::Git { src, step }, BuildCall::Git { src: s, step: t }) => s == src@ && t
                == step@,
            (BuildCall::RunContainers, BuildCall::RunContainers) => true,
            (BuildCall::ClearDirty, BuildCall::ClearDirty) => true,
            _ => false,
        },
        match (reply, reply@) {
            (BuildReply::Done, BuildReply::Done) => true,
            (BuildReply::Answer { yes }, BuildReply::Answer { yes: y }) => y == yes,
            (BuildReply::Git { reply }, BuildReply::Git { reply: r }) => r == reply@,
            (BuildReply::Runs { ended_well }, BuildReply::Runs { ended_well: e }) => e == ended_well@,
            _ => false,
        },
        match (error, error@) {
            (BuildError::CallFailed, BuildError::CallFailed) => true,
            (BuildError::ScriptFailed { message }, BuildError::ScriptFailed { message: m }) => m
                == message@,
            (BuildError::RunFailed { index }, BuildError::RunFailed { index: i }) => i == index,
            _ => false,
        },
        match (next, next@) {
            (BuildNext::Perform { call }, BuildNext::Perform { call: c }) => c == call@,
            (BuildNext::Finished, BuildNext::Finished) => true,
            (BuildNext::Failed { error }, BuildNext::Failed { error: e }) => e == error@,
            _ => false,
        },
{
    if let BuildCall::ReadDependents { names } = call {
        assert(call@->names =~= all_texts(names));
    }
}

/// Calls for submodules and for credentials, and what follows them.
pub proof fn law_other_calls_are_seen_whole(
    call: SubmoduleCall<Vec<usize>>,
    next: SubmoduleNext<Vec<usize>>,
    ask: CredentialCall<String, Vec<String>>,
    then: CredentialNext<String, Vec<String>>,
)
    ensures
        match (call, call@) {
            (SubmoduleCall::List { repo }, SubmoduleCall::List { repo: r }) => r == repo@,
            (
                SubmoduleCall::Update { module, init },
                SubmoduleCall::Update { module: m, init: i },
            ) => m == module@ && i == init,
            _ => false,
        },
        match (next, next@) {
            (SubmoduleNext::Perform { call }, SubmoduleNext::Perform { call: c }) => c == call@,
            (SubmoduleNext::Finished, SubmoduleNext::Finished) => true,
            (SubmoduleNext::Aborted, SubmoduleNext::Aborted) => true,
            _ => false,
        },
        match (ask, ask@) {
            (
                CredentialCall::RunSsh { arguments },
                CredentialCall::RunSsh { arguments: a },
            ) => a == all_texts(arguments),
            (CredentialCall::AskAgent { user }, CredentialCall::AskAgent { user: u }) => u == user@,
            (
                CredentialCall::AskHelper { url, username },
                CredentialCall::AskHelper { url: u, username: n },
            ) => u == url@ && n == maybe_text(username),
            _ => false,
        },
        match (then, then@) {
            (CredentialNext::Perform { call }, CredentialNext::Perform { call: c }) => c == call@,
            (CredentialNext::Answered, CredentialNext::Answered) => true,
            (CredentialNext::Failed, CredentialNext::Failed) => true,
            _ => false,
        },
{
    if let CredentialCall::RunSsh { arguments } = ask {
        assert(ask@->arguments =~= all_texts(arguments));
    }
}

} // verus!
