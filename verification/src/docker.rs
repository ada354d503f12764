//! What is asked of the container service, what it says of a container, and
//! whether a container is the one that is wanted.

use vstd::prelude::*;
use crate::name_map::NameMap;
use crate::repository::text_map;
use crate::text::{contains, has_part, opt_text, opt_texts, same_texts, texts, Text};

verus! {

/// A directory that a container has mounted.
pub struct MountPoint<S> {
    pub destination: Option<S>,
    pub source: Option<S>,
}

/// What a container runs.
pub struct ContainerConfig<L> {
    pub cmd: Option<L>,
    pub env: Option<L>,
}

/// What the service says of a container.
pub struct ContainerInfo<S, L, M> {
    pub image: Option<S>,
    pub mounts: Option<M>,
    pub config: Option<ContainerConfig<L>>,
}

/// What the service says of a container, as values of this crate.
pub type Info = ContainerInfo<String, Vec<String>, Vec<MountPoint<String>>>;

/// What the service says of a container, as texts.
pub type InfoView = ContainerInfo<Text, Seq<Text>, Seq<MountPoint<Text>>>;

/// What a container is created from.
#[derive(Debug, PartialEq, Eq)]
pub struct CreateRequest<S, L> {
    pub name: S,
    pub image: S,
    pub binds: L,
    pub cmd: L,
    pub env: Option<L>,
}

/// A call of the container service.
#[derive(Debug, PartialEq, Eq)]
pub enum DockerCall<S, L> {
    Inspect { id: S },
    Kill { id: S, signal: S },
    Remove { id: S },
    Create { request: CreateRequest<S, L> },
}

/// What came of a call.
pub enum DockerReply<S, I> {
    /// What an inspection showed; nothing where it failed, for whatever reason.
    Inspected { info: Option<I> },
    /// The call succeeded.
    Done,
    /// The call failed.
    Failed,
    /// The container that was created.
    Created { id: S },
}

/// What is to be done next.
#[derive(Debug, PartialEq, Eq)]
pub enum DockerNext<S, L> {
    /// Make a call.
    Call { call: DockerCall<S, L> },
    /// All is done; something was changed or nothing was.
    Finished { changed: bool },
    /// The last call failed, and nothing follows it.
    Aborted,
}

impl View for MountPoint<String> {
    type V = MountPoint<Text>;

    open spec fn view(&self) -> MountPoint<Text> {
        MountPoint { destination: opt_text(self.destination), source: opt_text(self.source) }
    }
}

/// The mount points of a list.
pub open spec fn mount_points(list: Seq<MountPoint<String>>) -> Seq<MountPoint<Text>> {
    Seq::new(list.len(), |i: int| list[i]@)
}

impl View for Info {
    type V = InfoView;

    open spec fn view(&self) -> InfoView {
        ContainerInfo {
            image: opt_text(self.image),
            mounts: match self.mounts {
                Some(list) => Some(mount_points(list@)),
                None => None,
            },
            config: match self.config {
                Some(c) => Some(ContainerConfig { cmd: opt_texts(c.cmd), env: opt_texts(c.env) }),
                None => None,
            },
        }
    }
}

impl View for CreateRequest<String, Vec<String>> {
    type V = CreateRequest<Text, Seq<Text>>;

    open spec fn view(&self) -> CreateRequest<Text, Seq<Text>> {
        CreateRequest {
            name: self.name@,
            image: self.image@,
            binds: texts(self.binds@),
            cmd: texts(self.cmd@),
            env: opt_texts(self.env),
        }
    }
}

impl View for DockerCall<String, Vec<String>> {
    type V = DockerCall<Text, Seq<Text>>;

    open spec fn view(&self) -> DockerCall<Text, Seq<Text>> {
        match *self {
            DockerCall::Inspect { id } => DockerCall::Inspect { id: id@ },
            DockerCall::Kill { id, signal } => DockerCall::Kill { id: id@, signal: signal@ },
            DockerCall::Remove { id } => DockerCall::Remove { id: id@ },
            DockerCall::Create { request } => DockerCall::Create { request: request@ },
        }
    }
}

impl View for DockerReply<String, Info> {
    type V = DockerReply<Text, InfoView>;

    open spec fn view(&self) -> DockerReply<Text, InfoView> {
        match *self {
            DockerReply::Inspected { info } => DockerReply::Inspected {
                info: match info {
                    Some(i) => Some(i@),
                    None => None,
                },
            },
            DockerReply::Done => DockerReply::Done,
            DockerReply::Failed => DockerReply::Failed,
            DockerReply::Created { id } => DockerReply::Created { id: id@ },
        }
    }
}

impl View for DockerNext<String, Vec<String>> {
    type V = DockerNext<Text, Seq<Text>>;

    open spec fn view(&self) -> DockerNext<Text, Seq<Text>> {
        match *self {
            DockerNext::Call { call } => DockerNext::Call { call: call@ },
            DockerNext::Finished { changed } => DockerNext::Finished { changed },
            DockerNext::Aborted => DockerNext::Aborted,
        }
    }
}

/// A mount point that is one of the wanted mounts.
pub open spec fn is_wanted_mount(mounts: Map<Text, Text>, m: MountPoint<Text>) -> bool {
    match (m.destination, m.source) {
        (Some(d), Some(s)) => mounts.contains_key(d) && mounts[d] == s,
        _ => false,
    }
}

/// How many of the mount points are wanted mounts.
pub open spec fn wanted_mounts(mounts: Map<Text, Text>, seen: Seq<MountPoint<Text>>) -> nat {
    seen.filter(|m: MountPoint<Text>| is_wanted_mount(mounts, m)).len()
}

/// A container has as many of the wanted mounts as there are.
pub open spec fn mounts_match_spec(
    mounts: Map<Text, Text>,
    seen: Option<Seq<MountPoint<Text>>>,
) -> bool {
    (match seen {
        Some(list) => wanted_mounts(mounts, list),
        None => 0,
    }) == mounts.dom().len()
}

/// A container has each of the wanted variables.
pub open spec fn env_match_spec(target: Option<Seq<Text>>, seen: Option<Seq<Text>>) -> bool {
    match (target, seen) {
        (None, _) => true,
        (Some(t), None) => t.len() == 0,
        (Some(t), Some(s)) => forall|i: int| #![trigger t[i]] 0 <= i < t.len() ==> s.contains(t[i]),
    }
}

/// Whether a container has as many of the wanted mounts as there are.
pub fn mounts_match(mounts: &NameMap<String>, docker_mounts: Option<&Vec<MountPoint<String>>>) -> (r: bool)
    requires
        mounts.wf(),
    ensures
        r == mounts_match_spec(
            text_map(*mounts),
            match docker_mounts {
                Some(list) => Some(mount_points(list@)),
                None => None,
            },
        ),
{
    let ghost wanted = text_map(*mounts);
    let ghost pred = |m: MountPoint<Text>| is_wanted_mount(wanted, m);
    assert(wanted.dom() =~= mounts@.dom());
    let mut count: usize = 0;
    match docker_mounts {
        Some(list) => {
            let ghost seen = mount_points(list@);
            assert(seen.take(0).filter(pred).len() == 0) by {
                reveal(Seq::filter);
            }
            let mut i: usize = 0;
            while i < list.len()
                invariant
                    mounts.wf(),
                    wanted == text_map(*mounts),
                    pred == (|m: MountPoint<Text>| is_wanted_mount(wanted, m)),
                    seen == mount_points(list@),
                    i <= list@.len(),
                    count <= i,
                    count == seen.take(i as int).filter(pred).len(),
                decreases list@.len() - i,
            {
                let m = &list[i];
                let hit = match (&m.destination, &m.source) {
                    (Some(d), Some(s)) => match mounts.get(d.as_str()) {
                        Some(w) => *w == *s,
                        None => false,
                    },
                    _ => false,
                };
                assert(hit == pred(seen[i as int]));
                proof {
                    assert(seen.take(i + 1) =~= seen.take(i as int).push(seen[i as int]));
                    seen.take(i as int).lemma_filter_push(seen[i as int], pred);
                }
                if hit {
                    count += 1;
                }
                i += 1;
            }
            assert(seen.take(i as int) =~= seen);
        },
        None => {},
    }
    count == mounts.len()
}

/// Whether a container has each of the wanted variables.
pub fn env_match(target_env: Option<&Vec<String>>, docker_env: Option<&Vec<String>>) -> (r: bool)
    ensures
        r == env_match_spec(
            match target_env {
                Some(v) => Some(texts(v@)),
                None => None,
            },
            match docker_env {
                Some(v) => Some(texts(v@)),
                None => None,
            },
        ),
{
    match target_env {
        Some(env) => {
            let mut i: usize = 0;
            while i < env.len()
                invariant
                    target_env == Some(env),
                    i <= env@.len(),
                    match docker_env {
                        Some(v) => forall|j: int|
                            #![trigger texts(env@)[j]]
                            0 <= j < i ==> texts(v@).contains(texts(env@)[j]),
                        None => i == 0,
                    },
                decreases env@.len() - i,
            {
                let found = match docker_env {
                    Some(seen) => holds(seen, &env[i]),
                    None => false,
                };
                if !found {
                    assert(texts(env@)[i as int] == env@[i as int]@);
                    return false;
                }
                i += 1;
            }
            true
        },
        None => true,
    }
}

/// Whether a list holds a text.
fn holds(list: &Vec<String>, s: &String) -> (r: bool)
    ensures
        r == texts(list@).contains(s@),
{
    let mut i: usize = 0;
    while i < list.len()
        invariant
            i <= list@.len(),
            forall|j: int| 0 <= j < i ==> list@[j]@ != s@,
        decreases list@.len() - i,
    {
        if list[i] == *s {
            assert(texts(list@)[i as int] == s@);
            return true;
        }
        i += 1;
    }
    assert forall|j: int| 0 <= j < texts(list@).len() implies texts(list@)[j] != s@ by {
        assert(texts(list@)[j] == list@[j]@);
    }
    false
}

/// What a container for an image is wanted for.
pub struct Wanted<S, M> {
    pub tag: S,
    pub combo: S,
    pub mounts: M,
}

/// What a container for an image is wanted for, as texts.
pub type WantedView = Wanted<Text, Map<Text, Text>>;

impl View for Wanted<String, NameMap<String>> {
    type V = WantedView;

    open spec fn view(&self) -> WantedView {
        Wanted { tag: self.tag@, combo: self.combo@, mounts: text_map(self.mounts) }
    }
}

/// The image that a container was made from; the empty text where the service
/// does not say.
pub open spec fn image_of(info: InfoView) -> Text {
    match info.image {
        Some(i) => i,
        None => Seq::empty(),
    }
}

/// The words that a container runs.
pub open spec fn cmd_of(info: InfoView) -> Option<Seq<Text>> {
    match info.config {
        Some(c) => c.cmd,
        None => None,
    }
}

/// The variables that a container has.
pub open spec fn env_of(info: InfoView) -> Option<Seq<Text>> {
    match info.config {
        Some(c) => c.env,
        None => None,
    }
}

/// The container that is kept under `key` is as one for its image is wanted.
pub open spec fn fits(
    key: Text,
    info: InfoView,
    wanted: Map<Text, WantedView>,
    cmd: Seq<Text>,
    env: Option<Seq<Text>>,
) -> bool {
    let image = image_of(info);
    &&& image.len() > 0
    &&& wanted.contains_key(image)
    &&& has_part(key, wanted[image].combo)
    &&& mounts_match_spec(wanted[image].mounts, info.mounts)
    &&& cmd_of(info) == Some(cmd)
    &&& env_match_spec(env, env_of(info))
}

/// The wanted containers by their images.
pub open spec fn wanted_map(m: NameMap<Wanted<String, NameMap<String>>>) -> Map<Text, WantedView> {
    m@.map_values(|w: Wanted<String, NameMap<String>>| w@)
}

/// The wanted containers are in good order.
pub open spec fn wanted_wf(m: NameMap<Wanted<String, NameMap<String>>>) -> bool {
    &&& m.wf()
    &&& forall|n: Text| #![trigger m@[n]] m@.contains_key(n) ==> m@[n].mounts.wf()
}

/// Whether the container that is kept under `key` is as one for its image is
/// wanted.
pub fn is_fit(
    key: &String,
    info: &Info,
    wanted: &NameMap<Wanted<String, NameMap<String>>>,
    cmd: &Vec<String>,
    env: &Option<Vec<String>>,
) -> (r: bool)
    requires
        wanted_wf(*wanted),
    ensures
        r == fits(key@, info@, wanted_map(*wanted), texts(cmd@), opt_texts(*env)),
{
    let image = match &info.image {
        Some(i) => i.clone(),
        None => String::new(),
    };
    let (platform_match, mounts_fit) = match wanted.get(image.as_str()) {
        Some(w) => (
            contains(key.as_str(), w.combo.as_str()),
            mounts_match(&w.mounts, info.mounts.as_ref()),
        ),
        None => (false, false),
    };
    let (seen_cmd, seen_env) = match &info.config {
        Some(c) => (c.cmd.as_ref(), c.env.as_ref()),
        None => (None, None),
    };
    let cmd_match = match seen_cmd {
        Some(words) => same_texts(words, cmd),
        None => false,
    };
    let env_fit = env_match(env.as_ref(), seen_env);
    !image.as_str().is_empty() && platform_match && mounts_fit && cmd_match && env_fit
}

} // verus!
