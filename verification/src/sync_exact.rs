//! What bringing containers in line asks of the service, told by what is wanted
//! and what is shown.

use vstd::prelude::*;
use crate::cache::CacheView;
use crate::containers::all_removal_calls;
use crate::docker::{
    env_match_spec, fits, is_wanted_mount, mounts_match_spec, DockerCall, DockerNext, InfoView, MountPoint, WantedView,
};
use crate::name_map::{listing, NameSet};
use crate::repository::{listed, HasRepository, Repository};
use crate::sync::{
    binds_of, judged, remembered, sync_answered, sync_begun, sync_create, sync_discard,
    sync_survey, wanted_of, Answer, Container, ImageTag, Next, SyncPhase, SyncView,
};
use crate::sync_laws::{disposed, inspected};
use crate::text::{comes_before, has_part, texts, Text};
use crate::text_laws::law_listing_is_sorted;

verus! {

/// A bind is that of one of some mounts: its source, a colon and its destination.
pub open spec fn is_bind(mounts: Map<Text, Text>, bind: Text) -> bool {
    exists|d: Text| #[trigger] mounts.contains_key(d) && bind == mounts[d] + ":"@ + d
}

/// The binds that a container is created with are those of the mounts: for every
/// destination the source, a colon and the destination; as many as there are
/// mounts; and no other.
pub proof fn law_binds_are_exact(mounts: Map<Text, Text>)
    requires
        mounts.dom().finite(),
    ensures
        binds_of(mounts).len() == mounts.dom().len(),
        forall|d: Text| #[trigger] mounts.contains_key(d) ==> binds_of(mounts).contains(
            mounts[d] + ":"@ + d,
        ),
        forall|i: int| 0 <= i < binds_of(mounts).len() ==> is_bind(mounts, #[trigger] binds_of(mounts)[i]),
{
    let keys = listing(mounts.dom());
    law_listing_is_sorted(mounts.dom());
    assert forall|d: Text| #[trigger] mounts.contains_key(d) implies binds_of(mounts).contains(
        mounts[d] + ":"@ + d,
    ) by {
        assert(keys.contains(d));
        let i = choose|i: int| 0 <= i < keys.len() && keys[i] == d;
        assert(binds_of(mounts)[i] == mounts[d] + ":"@ + d);
    }
    assert forall|i: int| 0 <= i < binds_of(mounts).len() implies is_bind(
        mounts,
        #[trigger] binds_of(mounts)[i],
    ) by {
        assert(keys.contains(keys[i]));
        assert(mounts.contains_key(keys[i]));
    }
}

/// The container that is created next is for the first of the images that want
/// one. It is named after the program, the repository and the combination; it is
/// made from the image, with the command and the variables of the repository and
/// with all mounts that are wanted for the image. Where none is wanted, the work
/// is finished.
pub proof fn law_creation_request_is_exact(s: SyncView)
    requires
        s.wanted.dom().finite(),
        forall|i: Text| #[trigger] s.wanted.contains_key(i) ==> s.wanted[i].mounts.dom().finite(),
    ensures
        match sync_create(s).1 {
            DockerNext::Call { call: DockerCall::Create { request } } => {
                let mounts = s.wanted[request.image].mounts;
                &&& s.wanted.contains_key(request.image)
                &&& forall|i: Text| #[trigger] s.wanted.contains_key(i) && i != request.image
                    ==> comes_before(request.image, i)
                &&& request.name == "herobuild-"@ + s.name + "-"@ + s.wanted[request.image].combo
                &&& request.cmd == s.cmd
                &&& request.env == s.env
                &&& request.binds.len() == mounts.dom().len()
                &&& forall|d: Text| #[trigger] mounts.contains_key(d) ==> request.binds.contains(
                    mounts[d] + ":"@ + d,
                )
                &&& forall|i: int| 0 <= i < request.binds.len() ==> is_bind(
                    mounts,
                    #[trigger] request.binds[i],
                )
            },
            DockerNext::Finished { changed } => {
                &&& s.wanted.dom().len() == 0
                &&& changed == s.changed
            },
            _ => false,
        },
{
    law_listing_is_sorted(s.wanted.dom());
    let images = listing(s.wanted.dom());
    if images.len() > 0 {
        let image = images[0];
        assert(images.contains(image));
        law_binds_are_exact(s.wanted[image].mounts);
        assert forall|i: Text| #[trigger] s.wanted.contains_key(i) && i != image implies comes_before(
            image,
            i,
        ) by {
            assert(images.contains(i));
            let k = choose|k: int| 0 <= k < images.len() && images[k] == i;
            assert(comes_before(images[0], images[k]));
        }
    }
}

/// A container that was created is remembered under its combination, and nothing
/// else of what is remembered changes. One that could not be created ends the
/// work.
pub proof fn law_created_containers_are_remembered(s: SyncView, combo: Text, id: Text)
    requires
        s.phase == (SyncPhase::Creating { combo }),
    ensures
        ({
            let t = sync_answered(s, Answer::Created { id }).0;
            &&& t.cache.containers == s.cache.containers.insert(combo, id)
            &&& t.cache.dirty == s.cache.dirty
            &&& t.cache.repo_hash == s.cache.repo_hash
            &&& sync_answered(s, Answer::Failed).1 is Aborted
            &&& sync_answered(s, Answer::Failed).0.cache == s.cache
        }),
{
}

/// The combination that a container is created for is the one of its image.
pub proof fn law_creation_is_for_the_combination(s: SyncView)
    ensures
        sync_create(s).1 matches DockerNext::Call { call: DockerCall::Create { request } }
            ==> sync_create(s).0.phase == (SyncPhase::Creating {
            combo: s.wanted[request.image].combo,
        }),
        sync_create(s).1 is Call ==> sync_create(s).0.changed,
{
}

/// A container that does not fit is forgotten first; then, where an inspection
/// shows that it is there, it is ended with `SIGKILL`, with whatever success, and
/// removed. A removal that fails ends the work.
pub proof fn law_discarding_is_exact(s: SyncView, info: InfoView, killed: Answer)
    requires
        s.doomed.len() > 0,
    ensures
        ({
            let c = s.doomed[0];
            let first = sync_discard(s);
            let there = sync_answered(first.0, Answer::Inspected { info: Some(info) });
            let ended = sync_answered(there.0, killed);
            &&& first.0.cache.containers == s.cache.containers.remove(c.key)
            &&& first.0.changed
            &&& first.1 == (Next::Call { call: DockerCall::Inspect { id: c.id } })
            &&& there.1 == (Next::Call { call: DockerCall::Kill { id: c.id, signal: "SIGKILL"@ } })
            &&& ended.1 == (Next::Call { call: DockerCall::Remove { id: c.id } })
            &&& sync_answered(ended.0, Answer::Failed).1 is Aborted
        }),
{
}

/// How many of the mounts that a container shows are wanted ones.
pub open spec fn wanted_shown(mounts: Map<Text, Text>, info: InfoView) -> nat {
    match info.mounts {
        Some(list) => list.filter(
            |m: MountPoint<Text>|
                m.destination is Some && m.source is Some && mounts.contains_key(m.destination->0)
                    && mounts[m.destination->0] == m.source->0,
        ).len(),
        None => 0,
    }
}

/// A container shows a variable.
pub open spec fn shows_variable(info: InfoView, var: Text) -> bool {
    info.config is Some && info.config->0.env is Some && info.config->0.env->0.contains(var)
}

/// A container fits exactly where the service says which image it is made from;
/// that image is wanted; the key holds its combination; of the mounts that are
/// shown as many are wanted ones as there are wanted mounts; its command is the
/// wanted one; and each wanted variable is among those shown.
pub proof fn law_fitting_is_exact(
    key: Text,
    info: InfoView,
    wanted: Map<Text, WantedView>,
    cmd: Seq<Text>,
    env: Option<Seq<Text>>,
)
    ensures
        fits(key, info, wanted, cmd, env) <==> {
            &&& info.image is Some
            &&& info.image->0.len() > 0
            &&& wanted.contains_key(info.image->0)
            &&& has_part(key, wanted[info.image->0].combo)
            &&& wanted_shown(wanted[info.image->0].mounts, info) == wanted[info.image->0].mounts.dom().len()
            &&& info.config is Some
            &&& info.config->0.cmd == Some(cmd)
            &&& env is Some ==> forall|i: int|
                0 <= i < env->0.len() ==> shows_variable(info, #[trigger] env->0[i])
        },
{
    if info.image is Some && wanted.contains_key(info.image->0) && info.mounts is Some {
        let mounts = wanted[info.image->0].mounts;
        let a = |m: MountPoint<Text>| is_wanted_mount(mounts, m);
        let b = |m: MountPoint<Text>|
            m.destination is Some && m.source is Some && mounts.contains_key(m.destination->0)
                && mounts[m.destination->0] == m.source->0;
        assert(a =~= b);
    }
    if env is Some && info.config is Some {
        let vars = env->0;
        if forall|i: int| 0 <= i < vars.len() ==> shows_variable(info, #[trigger] vars[i]) {
            if info.config->0.env is None && vars.len() > 0 {
                assert(shows_variable(info, vars[0]));
            }
            assert forall|i: int| #![trigger vars[i]] 0 <= i < vars.len() implies info.config->0.env->0.contains(
                vars[i],
            ) by {
                assert(shows_variable(info, vars[i]));
            }
        }
    }
}

/// A container that is looked at and fits takes its image, and no other. One that
/// does not fit is to be discarded. One that is not shown is left as it is.
pub proof fn law_judgement_is_exact(s: SyncView, c: Container<Text>, info: InfoView)
    ensures
        ({
            let image = match info.image {
                Some(i) => i,
                None => Seq::empty(),
            };
            let t = judged(s, c, Some(info));
            &&& judged(s, c, None) == s
            &&& fits(c.key, info, s.wanted, s.cmd, s.env) ==> t.wanted == s.wanted.remove(image)
                && t.doomed == s.doomed
            &&& !fits(c.key, info, s.wanted, s.cmd, s.env) ==> t.wanted == s.wanted && t.doomed
                == s.doomed.push(c)
            &&& t.cache == s.cache
            &&& t.pending == s.pending
            &&& t.changed == s.changed
            &&& t.cmd == s.cmd
            &&& t.env == s.env
            &&& t.name == s.name
        }),
{
}

/// The containers that are remembered, one by one: each key once, with its id, in
/// the order of the keys.
pub proof fn law_remembered_containers(containers: Map<Text, Text>)
    requires
        containers.dom().finite(),
    ensures
        remembered(containers).len() == containers.dom().len(),
        forall|k: Text| #[trigger] containers.contains_key(k) ==> remembered(containers).contains(
            Container { key: k, id: containers[k] },
        ),
        forall|i: int|
            0 <= i < remembered(containers).len() ==> containers.contains_key(
                (#[trigger] remembered(containers)[i]).key,
            ) && containers[remembered(containers)[i].key] == remembered(containers)[i].id,
        forall|i: int, j: int|
            0 <= i < j < remembered(containers).len() ==> comes_before(
                (#[trigger] remembered(containers)[i]).key,
                (#[trigger] remembered(containers)[j]).key,
            ),
{
    let keys = listing(containers.dom());
    law_listing_is_sorted(containers.dom());
    assert forall|k: Text| #[trigger] containers.contains_key(k) implies remembered(
        containers,
    ).contains(Container { key: k, id: containers[k] }) by {
        assert(keys.contains(k));
        let i = choose|i: int| 0 <= i < keys.len() && keys[i] == k;
        assert(remembered(containers)[i] == (Container { key: k, id: containers[k] }));
    }
    assert forall|i: int| 0 <= i < remembered(containers).len() implies containers.contains_key(
        (#[trigger] remembered(containers)[i]).key,
    ) && containers[remembered(containers)[i].key] == remembered(containers)[i].id by {
        assert(keys.contains(keys[i]));
    }
    assert forall|i: int, j: int| 0 <= i < j < remembered(containers).len() implies comes_before(
        (#[trigger] remembered(containers)[i]).key,
        (#[trigger] remembered(containers)[j]).key,
    ) by {
        assert(comes_before(keys[i], keys[j]));
    }
}

/// What is wanted: a container for each image that is given, and for no other;
/// with the tag and the combination that were given last for it, and the mounts
/// of the repository for that tag.
pub proof fn law_wanted_is_exact<R: HasRepository>(
    repo: Repository,
    repos: Map<Text, R>,
    transient_deps: Map<Text, NameSet>,
    tags: Seq<ImageTag<Text>>,
    image: Text,
)
    ensures
        ({
            let wanted = wanted_of(repo, repos, transient_deps, tags);
            &&& wanted.contains_key(image) <==> exists|i: int|
                0 <= i < tags.len() && (#[trigger] tags[i]).image == image
            &&& forall|i: int|
                0 <= i < tags.len() && (#[trigger] tags[i]).image == image && (forall|j: int|
                    i < j < tags.len() ==> (#[trigger] tags[j]).image != image) ==> {
                    &&& wanted[image].tag == tags[i].tag
                    &&& wanted[image].combo == tags[i].combo
                    &&& wanted[image].mounts == repo.mount_map(tags[i].tag, repos, transient_deps)
                }
        }),
    decreases tags.len(),
{
    if tags.len() > 0 {
        let rest = tags.drop_last();
        law_wanted_is_exact(repo, repos, transient_deps, rest, image);
        let last = tags.len() - 1;
        let before = wanted_of(repo, repos, transient_deps, rest);
        let wanted = wanted_of(repo, repos, transient_deps, tags);
        if wanted.contains_key(image) {
            if tags[last].image != image {
                assert(before.contains_key(image));
                let i = choose|i: int| 0 <= i < rest.len() && (#[trigger] rest[i]).image == image;
                assert(tags[i].image == image);
            }
        }
        assert forall|i: int|
            0 <= i < tags.len() && (#[trigger] tags[i]).image == image implies wanted.contains_key(
            image,
        ) by {
            if i < last {
                assert(rest[i].image == image);
            }
        }
        assert forall|i: int|
            0 <= i < tags.len() && (#[trigger] tags[i]).image == image && (forall|j: int|
                i < j < tags.len() ==> (#[trigger] tags[j]).image != image) implies wanted[image].tag
            == tags[i].tag && wanted[image].combo == tags[i].combo && wanted[image].mounts
            == repo.mount_map(tags[i].tag, repos, transient_deps) by {
            if i < last {
                assert(tags[last].image != image);
                assert(rest[i].image == image);
                assert forall|j: int| i < j < rest.len() implies (#[trigger] rest[j]).image != image by {
                    assert(rest[j] == tags[j]);
                }
            }
        }
    }
}

/// What the work starts with: the command and the variables of the repository,
/// all that is wanted, and every container that is remembered still to be looked
/// at.
pub proof fn law_sync_begins<R: HasRepository>(
    cache: CacheView,
    repo: Repository,
    repos: Map<Text, R>,
    transient_deps: Map<Text, NameSet>,
    tags: Seq<ImageTag<Text>>,
)
    ensures
        ({
            let s = sync_begun(cache, repo, repos, transient_deps, tags);
            &&& s.cache == cache
            &&& s.name == repo.name@
            &&& s.cmd == repo.command(listed(transient_deps, repo.name@))
            &&& s.env == match repo.env {
                Some(v) => Some(Seq::new(v@.len(), |i: int| v@[i]@)),
                None => None,
            }
            &&& s.wanted == wanted_of(repo, repos, transient_deps, tags)
            &&& s.pending == remembered(cache.containers)
            &&& s.doomed.len() == 0
            &&& !s.changed
        }),
{
    if let Some(v) = repo.env {
        assert(texts(v@) =~= Seq::new(v@.len(), |i: int| v@[i]@));
    }
}

/// The calls that some answers answer.
pub open spec fn calls_before(at: (SyncView, Next), replies: Seq<Answer>) -> Seq<
    DockerCall<Text, Seq<Text>>,
>
    decreases replies.len(),
{
    if replies.len() == 0 {
        Seq::empty()
    } else {
        match at.1 {
            DockerNext::Call { call } => seq![call] + calls_before(
                sync_answered(at.0, replies[0]),
                replies.skip(1),
            ),
            _ => Seq::empty(),
        }
    }
}

/// The containers are looked at one by one, in their order, and the calls for that
/// are inspections of them.
pub proof fn law_looking_at_containers_is_exact(s: SyncView, infos: Seq<Option<InfoView>>)
    requires
        infos.len() == s.pending.len(),
    ensures
        calls_before(sync_survey(s), inspected(infos)) == Seq::new(
            s.pending.len(),
            |i: int| DockerCall::<Text, Seq<Text>>::Inspect { id: s.pending[i].id },
        ),
    decreases infos.len(),
{
    let at = sync_survey(s);
    let replies = inspected(infos);
    let calls = Seq::new(
        s.pending.len(),
        |i: int| DockerCall::<Text, Seq<Text>>::Inspect { id: s.pending[i].id },
    );
    if infos.len() == 0 {
        assert(calls_before(at, replies) =~= calls);
    } else {
        let c = s.pending[0];
        let u = at.0;
        let v = judged(u, c, infos[0]);
        assert(sync_answered(u, replies[0]) == sync_survey(v));
        assert(inspected(infos.skip(1)) =~= replies.skip(1));
        law_looking_at_containers_is_exact(v, infos.skip(1));
        let first = DockerCall::<Text, Seq<Text>>::Inspect { id: c.id };
        let rest = Seq::new(
            v.pending.len(),
            |i: int| DockerCall::<Text, Seq<Text>>::Inspect { id: v.pending[i].id },
        );
        assert(seq![first] + rest =~= calls);
    }
}

/// The containers that are to be discarded are looked for, ended and removed one
/// by one, in their order.
pub proof fn law_discarding_containers_is_exact(
    s: SyncView,
    found: Seq<Option<InfoView>>,
    kills: Seq<Answer>,
)
    requires
        found.len() == s.doomed.len(),
        kills.len() == s.doomed.len(),
    ensures
        calls_before(sync_discard(s), disposed(found, kills)) == all_removal_calls(s.doomed, found),
    decreases found.len(),
{
    let at = sync_discard(s);
    let replies = disposed(found, kills);
    if found.len() == 0 {
        assert(calls_before(at, replies) =~= all_removal_calls(s.doomed, found));
    } else {
        let c = s.doomed[0];
        let id = c.id;
        let rest = disposed(found.skip(1), kills.skip(1));
        let c0: DockerCall<Text, Seq<Text>> = DockerCall::Inspect { id };
        let c1: DockerCall<Text, Seq<Text>> = DockerCall::Kill { id, signal: "SIGKILL"@ };
        let c2: DockerCall<Text, Seq<Text>> = DockerCall::Remove { id };
        match found[0] {
            Some(info) => {
                let three = seq![Answer::Inspected { info: Some(info) }, kills[0], Answer::Done];
                assert(replies == three + rest);
                let r1 = replies.skip(1);
                let r2 = r1.skip(1);
                assert(r1[0] == kills[0]);
                assert(r2[0] == Answer::Done);
                assert(r2.skip(1) =~= rest);
                let at1 = sync_answered(at.0, replies[0]);
                let at2 = sync_answered(at1.0, r1[0]);
                let t = at2.0;
                assert(sync_answered(t, r2[0]) == sync_discard(t));
                law_discarding_containers_is_exact(t, found.skip(1), kills.skip(1));
                let more = all_removal_calls(t.doomed, found.skip(1));
                assert(calls_before(at2, r2) == seq![c2] + more);
                assert(calls_before(at1, r1) == seq![c1] + calls_before(at2, r2));
                assert(calls_before(at, replies) == seq![c0] + calls_before(at1, r1));
                assert(calls_before(at, replies) =~= seq![c0, c1, c2] + more);
            },
            None => {
                let one = seq![Answer::Inspected { info: None::<InfoView> }];
                assert(replies == one + rest);
                assert(replies.skip(1) =~= rest);
                let t = at.0;
                assert(sync_answered(t, replies[0]) == sync_discard(t));
                law_discarding_containers_is_exact(t, found.skip(1), kills.skip(1));
            },
        }
    }
}

/// Variables match where each wanted one is among those shown; mounts match where
/// as many of those shown are wanted as there are wanted ones.
pub proof fn law_matching_is_exact(
    target: Option<Seq<Text>>,
    vars: Option<Seq<Text>>,
    mounts: Map<Text, Text>,
    info: InfoView,
)
    ensures
        env_match_spec(target, vars) <==> (target is Some ==> forall|i: int|
            0 <= i < target->0.len() ==> (vars is Some && vars->0.contains(#[trigger] target->0[i]))),
        mounts_match_spec(mounts, info.mounts) <==> wanted_shown(mounts, info) == mounts.dom().len(),
{
    if info.mounts is Some {
        let a = |m: MountPoint<Text>| is_wanted_mount(mounts, m);
        let b = |m: MountPoint<Text>|
            m.destination is Some && m.source is Some && mounts.contains_key(m.destination->0)
                && mounts[m.destination->0] == m.source->0;
        assert(a =~= b);
    }
    if target is Some && vars is None && target->0.len() > 0 {
        let first = target->0[0];
    }
}

} // verus!
