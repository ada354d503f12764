//! Bringing the containers of a repository in line with what is wanted of them:
//! containers that do not fit are discarded, and missing ones are created.

use vstd::prelude::*;
use crate::cache::{CacheView, RepositoryCache};
use crate::docker::{
    fits, image_of, is_fit, wanted_map, wanted_wf, CreateRequest, DockerCall, DockerNext, DockerReply, Info,
    InfoView, Wanted, WantedView,
};
use crate::name_map::{listing, NameMap, NameSet};
use crate::repository::{depmap_wf, listed, text_map, HasRepository, Repository};
use crate::text::{
    concat2, concat3, copy_opt_texts, copy_texts, opt_texts, texts, Text,
};

verus! {

/// An image that containers are to be made from: for a platform and a tag, with
/// the name of their combination and the identity of the image.
pub struct ImageTag<S> {
    pub platform: S,
    pub tag: S,
    pub combo: S,
    pub image: S,
}

impl View for ImageTag<String> {
    type V = ImageTag<Text>;

    open spec fn view(&self) -> ImageTag<Text> {
        ImageTag {
            platform: self.platform@,
            tag: self.tag@,
            combo: self.combo@,
            image: self.image@,
        }
    }
}

/// The image tags of a list.
pub open spec fn image_tags(list: Seq<ImageTag<String>>) -> Seq<ImageTag<Text>> {
    Seq::new(list.len(), |i: int| list[i]@)
}

/// A container and what it is remembered under.
#[derive(Debug, PartialEq, Eq)]
pub struct Container<S> {
    pub key: S,
    pub id: S,
}

impl View for Container<String> {
    type V = Container<Text>;

    open spec fn view(&self) -> Container<Text> {
        Container { key: self.key@, id: self.id@ }
    }
}

/// The containers of a list.
pub open spec fn container_list(list: Seq<Container<String>>) -> Seq<Container<Text>> {
    Seq::new(list.len(), |i: int| list[i]@)
}

/// What the work waits for.
pub enum SyncPhase<S> {
    /// An inspection that shows whether a container fits.
    Surveying { at: Container<S> },
    /// An inspection that shows whether a discarded container is still there.
    Probing { id: S },
    /// The end of a discarded container.
    Killing { id: S },
    /// The removal of a discarded container.
    Removing { id: S },
    /// A new container.
    Creating { combo: S },
    /// Nothing.
    Ended,
}

impl View for SyncPhase<String> {
    type V = SyncPhase<Text>;

    open spec fn view(&self) -> SyncPhase<Text> {
        match *self {
            SyncPhase::Surveying { at } => SyncPhase::Surveying { at: at@ },
            SyncPhase::Probing { id } => SyncPhase::Probing { id: id@ },
            SyncPhase::Killing { id } => SyncPhase::Killing { id: id@ },
            SyncPhase::Removing { id } => SyncPhase::Removing { id: id@ },
            SyncPhase::Creating { combo } => SyncPhase::Creating { combo: combo@ },
            SyncPhase::Ended => SyncPhase::Ended,
        }
    }
}

/// The state of the work.
pub struct SyncView {
    /// What is remembered of the repository.
    pub cache: CacheView,
    /// The repository's name, and the command and variables of its containers.
    pub name: Text,
    pub cmd: Seq<Text>,
    pub env: Option<Seq<Text>>,
    /// The images that still want a container.
    pub wanted: Map<Text, WantedView>,
    /// The containers that are still to be looked at.
    pub pending: Seq<Container<Text>>,
    /// The containers that are still to be discarded.
    pub doomed: Seq<Container<Text>>,
    /// Whether a container was discarded or asked for.
    pub changed: bool,
    pub phase: SyncPhase<Text>,
}

/// What the service answers.
pub type Answer = DockerReply<Text, InfoView>;

/// What is to be done next.
pub type Next = DockerNext<Text, Seq<Text>>;

/// The containers that are remembered, in the order of their keys.
pub open spec fn remembered(containers: Map<Text, Text>) -> Seq<Container<Text>> {
    let keys = listing(containers.dom());
    Seq::new(keys.len(), |i: int| Container { key: keys[i], id: containers[keys[i]] })
}

/// The mounts in the form that a container is created with, in the order of
/// their destinations.
pub open spec fn binds_of(mounts: Map<Text, Text>) -> Seq<Text> {
    let keys = listing(mounts.dom());
    Seq::new(keys.len(), |i: int| mounts[keys[i]] + ":"@ + keys[i])
}

/// The images that are wanted: of two entries for one image the later counts.
pub open spec fn wanted_of<R: HasRepository>(
    repo: Repository,
    repos: Map<Text, R>,
    transient_deps: Map<Text, NameSet>,
    tags: Seq<ImageTag<Text>>,
) -> Map<Text, WantedView>
    decreases tags.len(),
{
    if tags.len() == 0 {
        Map::empty()
    } else {
        let t = tags.last();
        wanted_of(repo, repos, transient_deps, tags.drop_last()).insert(
            t.image,
            Wanted {
                tag: t.tag,
                combo: t.combo,
                mounts: repo.mount_map(t.tag, repos, transient_deps),
            },
        )
    }
}

/// What a container for an image is created from.
pub open spec fn request_for(s: SyncView, image: Text, w: WantedView) -> CreateRequest<Text, Seq<Text>> {
    CreateRequest {
        name: "herobuild-"@ + s.name + "-"@ + w.combo,
        image,
        binds: binds_of(w.mounts),
        cmd: s.cmd,
        env: s.env,
    }
}

/// Goes on with the next image that wants a container, if there is one.
pub open spec fn sync_create(s: SyncView) -> (SyncView, Next) {
    let images = listing(s.wanted.dom());
    if images.len() == 0 {
        (
            SyncView { phase: SyncPhase::Ended, ..s },
            DockerNext::Finished { changed: s.changed },
        )
    } else {
        let image = images[0];
        let w = s.wanted[image];
        (
            SyncView {
                wanted: s.wanted.remove(image),
                changed: true,
                phase: SyncPhase::Creating { combo: w.combo },
                ..s
            },
            DockerNext::Call { call: DockerCall::Create { request: request_for(s, image, w) } },
        )
    }
}

/// Goes on with the next container that is to be discarded, if there is one. It
/// is forgotten before anything else is done about it.
pub open spec fn sync_discard(s: SyncView) -> (SyncView, Next) {
    if s.doomed.len() == 0 {
        sync_create(s)
    } else {
        let c = s.doomed[0];
        (
            SyncView {
                cache: CacheView { containers: s.cache.containers.remove(c.key), ..s.cache },
                doomed: s.doomed.skip(1),
                changed: true,
                phase: SyncPhase::Probing { id: c.id },
                ..s
            },
            DockerNext::Call { call: DockerCall::Inspect { id: c.id } },
        )
    }
}

/// Goes on with the next container that is to be looked at, if there is one.
pub open spec fn sync_survey(s: SyncView) -> (SyncView, Next) {
    if s.pending.len() == 0 {
        sync_discard(s)
    } else {
        let c = s.pending[0];
        (
            SyncView { pending: s.pending.skip(1), phase: SyncPhase::Surveying { at: c }, ..s },
            DockerNext::Call { call: DockerCall::Inspect { id: c.id } },
        )
    }
}

/// What is found of a container: one that fits is the container of its image,
/// one that does not is to be discarded, and one that the service does not know
/// is left as it is.
pub open spec fn judged(s: SyncView, at: Container<Text>, info: Option<InfoView>) -> SyncView {
    match info {
        Some(i) => if fits(at.key, i, s.wanted, s.cmd, s.env) {
            SyncView { wanted: s.wanted.remove(image_of(i)), ..s }
        } else {
            SyncView { doomed: s.doomed.push(at), ..s }
        },
        None => s,
    }
}

/// What follows the answer to the last call.
pub open spec fn sync_answered(s: SyncView, reply: Answer) -> (SyncView, Next) {
    match (s.phase, reply) {
        (SyncPhase::Surveying { at }, DockerReply::Inspected { info }) => sync_survey(
            judged(s, at, info),
        ),
        (SyncPhase::Probing { id }, DockerReply::Inspected { info }) => if info is Some {
            (
                SyncView { phase: SyncPhase::Killing { id }, ..s },
                DockerNext::Call { call: DockerCall::Kill { id, signal: "SIGKILL"@ } },
            )
        } else {
            sync_discard(s)
        },
        // Whether the container could be ended does not matter.
        (SyncPhase::Killing { id }, _) => (
            SyncView { phase: SyncPhase::Removing { id }, ..s },
            DockerNext::Call { call: DockerCall::Remove { id } },
        ),
        (SyncPhase::Removing { .. }, DockerReply::Done) => sync_discard(s),
        (SyncPhase::Creating { combo }, DockerReply::Created { id }) => sync_create(
            SyncView {
                cache: CacheView { containers: s.cache.containers.insert(combo, id), ..s.cache },
                ..s
            },
        ),
        _ => (SyncView { phase: SyncPhase::Ended, ..s }, DockerNext::Aborted),
    }
}

/// The work before its first call.
pub open spec fn sync_begun<R: HasRepository>(
    cache: CacheView,
    repo: Repository,
    repos: Map<Text, R>,
    transient_deps: Map<Text, NameSet>,
    tags: Seq<ImageTag<Text>>,
) -> SyncView {
    SyncView {
        cache,
        name: repo.name@,
        cmd: repo.command(listed(transient_deps, repo.name@)),
        env: opt_texts(repo.env),
        wanted: wanted_of(repo, repos, transient_deps, tags),
        pending: remembered(cache.containers),
        doomed: Seq::empty(),
        changed: false,
        phase: SyncPhase::Ended,
    }
}

/// The work of bringing the containers of a repository in line.
pub struct SyncRun {
    cache: RepositoryCache,
    name: String,
    cmd: Vec<String>,
    env: Option<Vec<String>>,
    wanted: NameMap<Wanted<String, NameMap<String>>>,
    pending: Vec<Container<String>>,
    doomed: Vec<Container<String>>,
    changed: bool,
    phase: SyncPhase<String>,
}

impl View for SyncRun {
    type V = SyncView;

    closed spec fn view(&self) -> SyncView {
        SyncView {
            cache: self.cache@,
            name: self.name@,
            cmd: texts(self.cmd@),
            env: opt_texts(self.env),
            wanted: wanted_map(self.wanted),
            pending: container_list(self.pending@),
            doomed: container_list(self.doomed@),
            changed: self.changed,
            phase: self.phase@,
        }
    }
}

/// Lists the remembered containers in the order of their keys.
pub fn list_containers(containers: &NameMap<String>) -> (r: Vec<Container<String>>)
    requires
        containers.wf(),
    ensures
        container_list(r@) == remembered(text_map(*containers)),
{
    let ghost m = text_map(*containers);
    assert(m.dom() =~= containers@.dom());
    proof {
        containers.lemma_names();
    }
    let mut r: Vec<Container<String>> = Vec::new();
    let n: usize = containers.len();
    let mut i: usize = 0;
    while i < n
        invariant
            containers.wf(),
            m == text_map(*containers),
            n == containers.names().len(),
            listing(m.dom()) == containers.names(),
            i <= n,
            r@.len() == i,
            forall|j: int| #![trigger r@[j]] 0 <= j < i ==> r@[j]@ == remembered(m)[j],
        decreases n - i,
    {
        let c = Container { key: containers.name_at(i).clone(), id: containers.value_at(i).clone() };
        assert(c@ == remembered(m)[i as int]);
        r.push(c);
        i += 1;
    }
    assert(container_list(r@) =~= remembered(m));
    r
}

/// Lists mounts in the form that a container is created with.
fn list_binds(mounts: &NameMap<String>) -> (r: Vec<String>)
    requires
        mounts.wf(),
    ensures
        texts(r@) == binds_of(text_map(*mounts)),
{
    let ghost m = text_map(*mounts);
    assert(m.dom() =~= mounts@.dom());
    proof {
        mounts.lemma_names();
    }
    let mut r: Vec<String> = Vec::new();
    let n: usize = mounts.len();
    let mut i: usize = 0;
    while i < n
        invariant
            mounts.wf(),
            m == text_map(*mounts),
            n == mounts.names().len(),
            listing(m.dom()) == mounts.names(),
            i <= n,
            r@.len() == i,
            forall|j: int| #![trigger r@[j]] 0 <= j < i ==> r@[j]@ == binds_of(m)[j],
        decreases n - i,
    {
        let bind = concat3(mounts.value_at(i).as_str(), ":", mounts.name_at(i).as_str());
        assert(bind@ == binds_of(m)[i as int]);
        r.push(bind);
        i += 1;
    }
    assert(texts(r@) =~= binds_of(m));
    r
}

impl RepositoryCache {
    /// Starts to bring the containers of a repository in line: for each image
    /// there is to be one container that fits, and there is to be no other.
    pub fn sync<R: HasRepository>(
        self,
        repo: &Repository,
        repos: &NameMap<R>,
        transient_deps: &NameMap<NameSet>,
        tags: &Vec<ImageTag<String>>,
    ) -> (r: (SyncRun, DockerNext<String, Vec<String>>))
        requires
            self.wf(),
            repos.wf(),
            depmap_wf(*transient_deps),
        ensures
            r.0.wf(),
            (r.0@, r.1@) == sync_survey(
                sync_begun(self@, *repo, repos@, transient_deps@, image_tags(tags@)),
            ),
    {
        let ghost all = image_tags(tags@);
        let mut wanted: NameMap<Wanted<String, NameMap<String>>> = NameMap::new();
        let mut i: usize = 0;
        assert(wanted_map(wanted) =~= wanted_of(*repo, repos@, transient_deps@, all.take(0)));
        while i < tags.len()
            invariant
                repos.wf(),
                depmap_wf(*transient_deps),
                i <= tags@.len(),
                all == image_tags(tags@),
                wanted_wf(wanted),
                wanted_map(wanted) == wanted_of(*repo, repos@, transient_deps@, all.take(i as int)),
            decreases tags@.len() - i,
        {
            let t = &tags[i];
            let ghost before = wanted_map(wanted);
            let w = Wanted {
                tag: t.tag.clone(),
                combo: t.combo.clone(),
                mounts: repo.mounts(t.tag.as_str(), repos, transient_deps),
            };
            let ghost row = w@;
            wanted.insert(t.image.clone(), w);
            assert(wanted_map(wanted) =~= before.insert(t.image@, row));
            assert(all.take(i + 1).drop_last() =~= all.take(i as int));
            assert(all.take(i + 1).last() == t@);
            i += 1;
        }
        assert(all.take(i as int) =~= all);
        let cmd = repo.cmd(transient_deps);
        let pending = list_containers(&self.docker_containers);
        let mut run = SyncRun {
            cache: self,
            name: repo.name.clone(),
            cmd,
            env: copy_opt_texts(&repo.env),
            wanted,
            pending,
            doomed: Vec::new(),
            changed: false,
            phase: SyncPhase::Ended,
        };
        assert(run@.doomed =~= Seq::<Container<Text>>::empty());
        let next = run.survey();
        (run, next)
    }
}

impl SyncRun {
    /// The remembered and the wanted containers are in good order.
    pub closed spec fn wf(&self) -> bool {
        &&& self.cache.wf()
        &&& wanted_wf(self.wanted)
    }

    fn create(&mut self) -> (r: DockerNext<String, Vec<String>>)
        requires
            old(self).wf(),
        ensures
            final(self).wf(),
            (final(self)@, r@) == sync_create(old(self)@),
    {
        let ghost before = *self;
        proof {
            self.wanted.lemma_names();
            assert(wanted_map(self.wanted).dom() =~= self.wanted@.dom());
        }
        if self.wanted.len() == 0 {
            self.phase = SyncPhase::Ended;
            return DockerNext::Finished { changed: self.changed };
        }
        let image = self.wanted.name_at(0).clone();
        let w = self.wanted.value_at(0);
        let combo = w.combo.clone();
        let mut name = concat2("herobuild-", self.name.as_str());
        name.append("-");
        name.append(combo.as_str());
        let request = CreateRequest {
            name,
            image: image.clone(),
            binds: list_binds(&w.mounts),
            cmd: copy_texts(&self.cmd),
            env: copy_opt_texts(&self.env),
        };
        self.wanted.remove(image.as_str());
        self.changed = true;
        self.phase = SyncPhase::Creating { combo };
        proof {
            assert(wanted_map(self.wanted) =~= wanted_map(before.wanted).remove(image@));
            assert(request@ == request_for(before@, image@, wanted_map(before.wanted)[image@]));
        }
        DockerNext::Call { call: DockerCall::Create { request } }
    }

    fn discard(&mut self) -> (r: DockerNext<String, Vec<String>>)
        requires
            old(self).wf(),
        ensures
            final(self).wf(),
            (final(self)@, r@) == sync_discard(old(self)@),
    {
        let ghost before = *self;
        if self.doomed.len() == 0 {
            return self.create();
        }
        let c = self.doomed.remove(0);
        self.cache.docker_containers.remove(c.key.as_str());
        self.changed = true;
        self.phase = SyncPhase::Probing { id: c.id.clone() };
        proof {
            assert(self@.doomed =~= before@.doomed.skip(1));
            assert(self@.cache.containers =~= before@.cache.containers.remove(c.key@));
        }
        DockerNext::Call { call: DockerCall::Inspect { id: c.id } }
    }

    fn survey(&mut self) -> (r: DockerNext<String, Vec<String>>)
        requires
            old(self).wf(),
        ensures
            final(self).wf(),
            (final(self)@, r@) == sync_survey(old(self)@),
    {
        let ghost before = *self;
        if self.pending.len() == 0 {
            return self.discard();
        }
        let c = self.pending.remove(0);
        let id = c.id.clone();
        self.phase = SyncPhase::Surveying { at: c };
        assert(self@.pending =~= before@.pending.skip(1));
        DockerNext::Call { call: DockerCall::Inspect { id } }
    }

    fn judge(&mut self, at: Container<String>, info: Option<Info>)
        requires
            old(self).wf(),
        ensures
            final(self).wf(),
            final(self)@ == judged(
                old(self)@,
                at@,
                match info {
                    Some(i) => Some(i@),
                    None => None,
                },
            ),
    {
        let ghost before = *self;
        match info {
            Some(i) => {
                if is_fit(&at.key, &i, &self.wanted, &self.cmd, &self.env) {
                    let image = match &i.image {
                        Some(s) => s.clone(),
                        None => String::new(),
                    };
                    self.wanted.remove(image.as_str());
                    assert(wanted_map(self.wanted) =~= wanted_map(before.wanted).remove(image@));
                } else {
                    let ghost c = at@;
                    self.doomed.push(at);
                    assert(self@.doomed =~= before@.doomed.push(c));
                }
            },
            None => {},
        }
    }

    /// Takes the answer to the last call and says what is to be done next.
    pub fn next(&mut self, reply: DockerReply<String, Info>) -> (r: DockerNext<String, Vec<String>>)
        requires
            old(self).wf(),
        ensures
            final(self).wf(),
            (final(self)@, r@) == sync_answered(old(self)@, reply@),
    {
        let phase = self.take_phase();
        match (phase, reply) {
            (SyncPhase::Surveying { at }, DockerReply::Inspected { info }) => {
                self.judge(at, info);
                self.survey()
            },
            (SyncPhase::Probing { id }, DockerReply::Inspected { info }) => {
                if info.is_some() {
                    self.phase = SyncPhase::Killing { id: id.clone() };
                    DockerNext::Call {
                        call: DockerCall::Kill { id, signal: "SIGKILL".to_owned() },
                    }
                } else {
                    self.discard()
                }
            },
            (SyncPhase::Killing { id }, _) => {
                self.phase = SyncPhase::Removing { id: id.clone() };
                DockerNext::Call { call: DockerCall::Remove { id } }
            },
            (SyncPhase::Removing { id }, DockerReply::Done) => self.discard(),
            (SyncPhase::Creating { combo }, DockerReply::Created { id }) => {
                let ghost before = *self;
                let ghost k = combo@;
                let ghost v = id@;
                self.cache.docker_containers.insert(combo, id);
                assert(self@.cache.containers =~= before@.cache.containers.insert(k, v));
                self.create()
            },
            _ => DockerNext::Aborted,
        }
    }

    fn take_phase(&mut self) -> (r: SyncPhase<String>)
        requires
            old(self).wf(),
        ensures
            final(self).wf(),
            r@ == old(self)@.phase,
            final(self)@ == (SyncView { phase: SyncPhase::Ended, ..old(self)@ }),
    {
        let mut phase = SyncPhase::Ended;
        std::mem::swap(&mut phase, &mut self.phase);
        phase
    }

    /// What is remembered of the repository after the work.
    pub fn into_cache(self) -> (r: RepositoryCache)
        requires
            self.wf(),
        ensures
            r.wf(),
            r@ == self@.cache,
    {
        self.cache
    }
}

} // verus!
