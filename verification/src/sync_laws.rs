//! What holds of bringing containers in line as a whole.

use vstd::prelude::*;
use crate::cache::CacheView;
use crate::docker::{
    cmd_of, env_match_spec, env_of, fits, image_of, is_wanted_mount, wanted_mounts, DockerCall,
    DockerNext, InfoView, MountPoint, WantedView,
};
use crate::name_map::{lemma_ascending_distinct, lemma_finite_listed, lemma_listing_rest, listing};
use crate::sync::{
    judged, request_for, sync_answered, sync_create, sync_discard, sync_survey, Answer, Container, Next, SyncPhase,
    SyncView,
};
use crate::text::{part_at, Text};

verus! {

/// Where the work stands after the answers to its calls in turn.
pub open spec fn sync_outcome(at: (SyncView, Next), replies: Seq<Answer>) -> (SyncView, Next)
    decreases replies.len(),
{
    if replies.len() == 0 {
        at
    } else {
        sync_outcome(sync_answered(at.0, replies[0]), replies.skip(1))
    }
}

/// The calls that the work makes, given the answers to its calls in turn.
pub open spec fn sync_calls(at: (SyncView, Next), replies: Seq<Answer>) -> Seq<
    DockerCall<Text, Seq<Text>>,
>
    decreases replies.len(),
{
    match at.1 {
        DockerNext::Call { call } => if replies.len() == 0 {
            seq![call]
        } else {
            seq![call] + sync_calls(sync_answered(at.0, replies[0]), replies.skip(1))
        },
        _ => Seq::empty(),
    }
}

/// The work goes through its parts one after the other: containers are looked
/// at, then discarded, then created; and whoever discards or creates changes
/// something.
pub open spec fn in_order(s: SyncView) -> bool {
    match s.phase {
        SyncPhase::Surveying { .. } => true,
        SyncPhase::Probing { .. } | SyncPhase::Killing { .. } | SyncPhase::Removing { .. } => {
            &&& s.changed
            &&& s.pending.len() == 0
        },
        SyncPhase::Creating { .. } => {
            &&& s.changed
            &&& s.pending.len() == 0
            &&& s.doomed.len() == 0
        },
        SyncPhase::Ended => true,
    }
}

/// Every answer leaves the work in order; it never takes back that something
/// changed; and while nothing is said to have changed, what is remembered is
/// what was remembered before.
pub proof fn law_changes_are_reported(s: SyncView, reply: Answer)
    requires
        in_order(s),
    ensures
        ({
            let t = sync_answered(s, reply).0;
            &&& in_order(t)
            &&& s.changed ==> t.changed
            &&& !t.changed ==> t.cache == s.cache
        }),
{
}

/// Work that ends with the word that nothing changed leaves what is remembered
/// as it was, whatever the answers to its calls were.
pub proof fn law_unchanged_means_untouched(s: SyncView, replies: Seq<Answer>)
    requires
        in_order(s),
        !s.changed,
    ensures
        ({
            let end = sync_outcome(sync_survey(s), replies);
            end.1 == (Next::Finished { changed: false }) ==> end.0.cache == s.cache
        }),
{
    lemma_untouched(sync_survey(s), replies);
}

/// A state together with what it says to do next.
pub open spec fn says_what_it_did(at: (SyncView, Next)) -> bool {
    &&& in_order(at.0)
    &&& at.1 matches DockerNext::Finished { changed } ==> changed == at.0.changed && at.0.phase is Ended
}

proof fn lemma_untouched(at: (SyncView, Next), replies: Seq<Answer>)
    requires
        says_what_it_did(at),
    ensures
        ({
            let end = sync_outcome(at, replies);
            &&& says_what_it_did(end)
            &&& at.0.changed ==> end.0.changed
            &&& !end.0.changed ==> end.0.cache == at.0.cache
        }),
    decreases replies.len(),
{
    if replies.len() > 0 {
        law_changes_are_reported(at.0, replies[0]);
        lemma_untouched(sync_answered(at.0, replies[0]), replies.skip(1));
    }
}

/// Once the work is finished, no container is left to be looked at or to be
/// discarded, and no image is left without a container.
pub proof fn law_finished_leaves_nothing_open(s: SyncView, reply: Answer)
    requires
        in_order(s),
        s.wanted.dom().finite(),
        sync_answered(s, reply).1 is Finished,
    ensures
        ({
            let t = sync_answered(s, reply).0;
            &&& t.pending.len() == 0
            &&& t.doomed.len() == 0
            &&& t.wanted.dom() == Set::<Text>::empty()
        }),
{
    let t = sync_answered(s, reply).0;
    assert(t.wanted.dom().finite());
    lemma_finite_listed(t.wanted.dom());
    assert(t.wanted.dom() =~= Set::<Text>::empty());
}

/// A container that the service knows nothing of stays remembered, and takes no
/// image.
pub proof fn law_unknown_containers_are_left_alone(s: SyncView, at: Container<Text>)
    requires
        s.phase == (SyncPhase::Surveying { at }),
    ensures
        sync_answered(s, Answer::Inspected { info: None }) == sync_survey(s),
{
}

/// The answers to inspections that show given containers.
pub open spec fn shown(infos: Seq<InfoView>) -> Seq<Answer> {
    Seq::new(infos.len(), |i: int| Answer::Inspected { info: Some(infos[i]) })
}

/// Where every container fits, each for an image of its own, and every image
/// has its container, the work makes no call but the inspections, changes
/// nothing, and says so.
pub proof fn law_fitting_containers_are_kept(s: SyncView, infos: Seq<InfoView>)
    requires
        s.doomed.len() == 0,
        !s.changed,
        s.wanted.dom().finite(),
        infos.len() == s.pending.len(),
        forall|i: int|
            #![trigger infos[i]]
            0 <= i < infos.len() ==> fits(s.pending[i].key, infos[i], s.wanted, s.cmd, s.env),
        forall|i: int, j: int|
            #![trigger infos[i], infos[j]]
            0 <= i < j < infos.len() ==> image_of(infos[i]) != image_of(infos[j]),
        forall|image: Text|
            s.wanted.contains_key(image) ==> exists|i: int|
                0 <= i < infos.len() && image_of(#[trigger] infos[i]) == image,
    ensures
        ({
            let end = sync_outcome(sync_survey(s), shown(infos));
            &&& end.1 == (Next::Finished { changed: false })
            &&& end.0.cache == s.cache
        }),
        sync_calls(sync_survey(s), shown(infos)) == Seq::new(
            s.pending.len(),
            |i: int| DockerCall::<Text, Seq<Text>>::Inspect { id: s.pending[i].id },
        ),
    decreases infos.len(),
{
    let calls = Seq::new(
        s.pending.len(),
        |i: int| DockerCall::<Text, Seq<Text>>::Inspect { id: s.pending[i].id },
    );
    let replies = shown(infos);
    let at = sync_survey(s);
    if infos.len() == 0 {
        assert(s.wanted.dom() =~= Set::<Text>::empty());
        lemma_finite_listed(s.wanted.dom());
        assert(listing(s.wanted.dom()).len() == 0);
        assert(sync_calls(at, replies) =~= calls);
    } else {
        let c = s.pending[0];
        let info = infos[0];
        let image = image_of(info);
        assert(fits(c.key, info, s.wanted, s.cmd, s.env));
        let u = SyncView { pending: s.pending.skip(1), phase: SyncPhase::Surveying { at: c }, ..s };
        assert(at.0 == u);
        let v = judged(u, c, Some(info));
        assert(v == SyncView { wanted: s.wanted.remove(image), ..u });
        assert(sync_answered(at.0, replies[0]) == sync_survey(v));
        let later = infos.skip(1);
        assert(shown(later) =~= replies.skip(1));
        assert forall|i: int| #![trigger later[i]] 0 <= i < later.len() implies fits(
            v.pending[i].key,
            later[i],
            v.wanted,
            v.cmd,
            v.env,
        ) by {
            assert(fits(s.pending[i + 1].key, infos[i + 1], s.wanted, s.cmd, s.env));
            assert(image_of(infos[0]) != image_of(infos[i + 1]));
        }
        assert forall|i: int, j: int|
            #![trigger later[i], later[j]]
            0 <= i < j < later.len() implies image_of(later[i]) != image_of(later[j]) by {
            assert(image_of(infos[i + 1]) != image_of(infos[j + 1]));
        }
        assert forall|x: Text| v.wanted.contains_key(x) implies exists|i: int|
            0 <= i < later.len() && image_of(#[trigger] later[i]) == x by {
            let k = choose|k: int| 0 <= k < infos.len() && image_of(#[trigger] infos[k]) == x;
            assert(later[k - 1] == infos[k]);
        }
        law_fitting_containers_are_kept(v, later);
        let rest = Seq::new(
            v.pending.len(),
            |i: int| DockerCall::<Text, Seq<Text>>::Inspect { id: v.pending[i].id },
        );
        let first = DockerCall::<Text, Seq<Text>>::Inspect { id: c.id };
        assert(seq![first] + rest =~= calls);
    }
}

/// The mount points that some mounts stand for, in the order of their
/// destinations.
spec fn mounted(mounts: Map<Text, Text>) -> Seq<MountPoint<Text>> {
    let keys = listing(mounts.dom());
    Seq::new(
        keys.len(),
        |i: int| MountPoint { destination: Some(keys[i]), source: Some(mounts[keys[i]]) },
    )
}

/// A container shows each of some mounts, in any order and besides any others,
/// and shows nothing twice.
pub open spec fn shows_mounts(info: InfoView, mounts: Map<Text, Text>) -> bool {
    &&& info.mounts is Some
    &&& info.mounts->0.no_duplicates()
    &&& forall|d: Text| #[trigger] mounts.contains_key(d) ==> info.mounts->0.contains(
        MountPoint { destination: Some(d), source: Some(mounts[d]) },
    )
}

/// A container shows what one shows that was created for an image: the image,
/// the mounts, the command, and the variables besides any others.
pub open spec fn as_created(
    info: InfoView,
    image: Text,
    w: WantedView,
    cmd: Seq<Text>,
    env: Option<Seq<Text>>,
) -> bool {
    &&& info.image == Some(image)
    &&& shows_mounts(info, w.mounts)
    &&& cmd_of(info) == Some(cmd)
    &&& env_match_spec(env, env_of(info))
}

/// A container that shows what it was created with fits, remembered under the
/// name of its combination, as long as its image has an identity at all.
pub proof fn law_created_containers_fit(
    info: InfoView,
    image: Text,
    wanted: Map<Text, WantedView>,
    cmd: Seq<Text>,
    env: Option<Seq<Text>>,
)
    requires
        image.len() > 0,
        wanted.contains_key(image),
        wanted[image].mounts.dom().finite(),
        as_created(info, image, wanted[image], cmd, env),
    ensures
        fits(wanted[image].combo, info, wanted, cmd, env),
{
    let w = wanted[image];
    assert(part_at(w.combo, w.combo, 0));
    let seen = info.mounts->0;
    let pred = |m: MountPoint<Text>| is_wanted_mount(w.mounts, m);
    let kept = seen.filter(pred);
    let all = mounted(w.mounts);
    let keys = listing(w.mounts.dom());
    lemma_finite_listed(w.mounts.dom());
    lemma_ascending_distinct(keys);
    lemma_filter_distinct(seen, pred);
    assert forall|i: int, j: int| 0 <= i < all.len() && 0 <= j < all.len() && i != j implies all[i]
        != all[j] by {
        assert(all[i].destination == Some(keys[i]));
        assert(all[j].destination == Some(keys[j]));
    }
    assert forall|m: MountPoint<Text>| kept.to_set().contains(m) == all.to_set().contains(m) by {
        if kept.contains(m) {
            let i = choose|i: int| 0 <= i < kept.len() && kept[i] == m;
            seen.lemma_filter_pred(pred, i);
            assert(keys.to_set().contains(m.destination->0));
            let k = choose|k: int| 0 <= k < keys.len() && keys[k] == m.destination->0;
            assert(all[k] == m);
        }
        if all.contains(m) {
            let k = choose|k: int| 0 <= k < all.len() && all[k] == m;
            assert(keys.to_set().contains(keys[k]));
            assert(w.mounts.contains_key(keys[k]));
            let i = choose|i: int| 0 <= i < seen.len() && seen[i] == m;
            seen.lemma_filter_contains(pred, i);
        }
    }
    assert(kept.to_set() =~= all.to_set());
    kept.unique_seq_to_set();
    all.unique_seq_to_set();
    assert(wanted_mounts(w.mounts, seen) == all.len());
}

/// A filter puts nothing twice into a sequence that holds nothing twice.
proof fn lemma_filter_distinct<A>(s: Seq<A>, pred: spec_fn(A) -> bool)
    requires
        s.no_duplicates(),
    ensures
        s.filter(pred).no_duplicates(),
        forall|x: A| s.filter(pred).contains(x) ==> s.contains(x),
    decreases s.len(),
{
    reveal(Seq::filter);
    if s.len() > 0 {
        let rest = s.drop_last();
        let f = rest.filter(pred);
        lemma_filter_distinct(rest, pred);
        assert forall|x: A| f.contains(x) implies s.contains(x) && x != s.last() by {
            assert(rest.contains(x));
            let i = choose|i: int| 0 <= i < rest.len() && rest[i] == x;
            assert(s[i] == x);
        }
        let all = s.filter(pred);
        if pred(s.last()) {
            assert(all == f.push(s.last()));
            assert forall|i: int, j: int| 0 <= i < all.len() && 0 <= j < all.len() && i != j implies all[i]
                != all[j] by {
                if i < f.len() {
                    assert(f.contains(f[i]));
                }
                if j < f.len() {
                    assert(f.contains(f[j]));
                }
            }
            assert forall|x: A| all.contains(x) implies s.contains(x) by {
                let i = choose|i: int| 0 <= i < all.len() && all[i] == x;
                if i < f.len() {
                    assert(f.contains(f[i]));
                } else {
                    assert(s[s.len() - 1] == x);
                }
            }
        }
    }
}

/// The answers that given containers were created.
pub open spec fn made(ids: Seq<Text>) -> Seq<Answer> {
    Seq::new(ids.len(), |i: int| Answer::Created { id: ids[i] })
}

/// What is remembered once containers were created for images in turn.
pub open spec fn with_made(
    containers: Map<Text, Text>,
    wanted: Map<Text, WantedView>,
    images: Seq<Text>,
    ids: Seq<Text>,
) -> Map<Text, Text>
    decreases images.len(),
{
    if images.len() == 0 {
        containers
    } else {
        with_made(
            containers.insert(wanted[images[0]].combo, ids[0]),
            wanted,
            images.skip(1),
            ids.skip(1),
        )
    }
}

/// Once no container is left to be looked at or discarded, and as long as the
/// service creates what it is asked for, each image that wants a container gets
/// one, in the order of the images, and each is remembered under the name of its
/// combination.
pub proof fn law_missing_containers_are_created(s: SyncView, ids: Seq<Text>)
    requires
        s.wanted.dom().finite(),
        ids.len() == listing(s.wanted.dom()).len(),
    ensures
        ({
            let images = listing(s.wanted.dom());
            let end = sync_outcome(sync_create(s), made(ids));
            &&& end.1 == (Next::Finished { changed: s.changed || images.len() > 0 })
            &&& end.0.cache.containers == with_made(s.cache.containers, s.wanted, images, ids)
            &&& sync_calls(sync_create(s), made(ids)) == Seq::new(
                images.len(),
                |i: int|
                    DockerCall::Create { request: request_for(s, images[i], s.wanted[images[i]]) },
            )
        }),
    decreases ids.len(),
{
    let images = listing(s.wanted.dom());
    let at = sync_create(s);
    let replies = made(ids);
    let calls = Seq::new(
        images.len(),
        |i: int| DockerCall::Create { request: request_for(s, images[i], s.wanted[images[i]]) },
    );
    lemma_finite_listed(s.wanted.dom());
    if ids.len() == 0 {
        assert(sync_calls(at, replies) =~= calls);
    } else {
        lemma_listing_rest(s.wanted.dom());
        lemma_ascending_distinct(images);
        let image = images[0];
        let t = at.0;
        assert(t.wanted.dom() =~= s.wanted.dom().remove(image));
        let made_one = SyncView {
            cache: CacheView {
                containers: t.cache.containers.insert(s.wanted[image].combo, ids[0]),
                ..t.cache
            },
            ..t
        };
        assert(sync_answered(t, replies[0]) == sync_create(made_one));
        assert(made(ids.skip(1)) =~= replies.skip(1));
        law_missing_containers_are_created(made_one, ids.skip(1));
        let rest = images.skip(1);
        assert forall|i: int| 0 <= i < rest.len() implies made_one.wanted[#[trigger] rest[i]]
            == s.wanted[rest[i]] by {
            assert(rest[i] == images[i + 1]);
            assert(images[i + 1] != images[0]);
            assert(images.to_set().contains(images[i + 1]));
        }
        lemma_with_made_same(
            made_one.cache.containers,
            made_one.wanted,
            s.wanted,
            rest,
            ids.skip(1),
        );
        let tail = Seq::new(
            rest.len(),
            |i: int|
                DockerCall::Create {
                    request: request_for(made_one, rest[i], made_one.wanted[rest[i]]),
                },
        );
        let first = DockerCall::Create { request: request_for(s, image, s.wanted[image]) };
        assert(sync_calls(at, replies) == seq![first] + tail);
        assert forall|i: int| 0 <= i < calls.len() implies (seq![first] + tail)[i] == calls[i] by {
            if i > 0 {
                assert(tail[i - 1] == calls[i]) by {
                    assert(rest[i - 1] == images[i]);
                }
            }
        }
        assert(seq![first] + tail =~= calls);
    }
}

/// Answers that come one after the other can be taken in two parts.
proof fn lemma_outcome_concat(at: (SyncView, Next), a: Seq<Answer>, b: Seq<Answer>)
    ensures
        sync_outcome(at, a + b) == sync_outcome(sync_outcome(at, a), b),
    decreases a.len(),
{
    if a.len() == 0 {
        assert(a + b =~= b);
    } else {
        assert((a + b)[0] == a[0]);
        assert((a + b).skip(1) =~= a.skip(1) + b);
        lemma_outcome_concat(sync_answered(at.0, a[0]), a.skip(1), b);
    }
}

/// The answers to inspections.
pub open spec fn inspected(infos: Seq<Option<InfoView>>) -> Seq<Answer> {
    Seq::new(infos.len(), |i: int| Answer::Inspected { info: infos[i] })
}

/// What is found of the containers that are to be looked at, one after the other.
pub open spec fn surveyed(s: SyncView, infos: Seq<Option<InfoView>>) -> SyncView
    decreases infos.len(),
{
    if infos.len() == 0 || s.pending.len() == 0 {
        s
    } else {
        let c = s.pending[0];
        surveyed(
            SyncView { pending: s.pending.skip(1), ..judged(s, c, infos[0]) },
            infos.skip(1),
        )
    }
}

/// A state whose phase alone differs goes on in the same way.
proof fn lemma_phase_is_replaced(s: SyncView, phase: SyncPhase<Text>)
    ensures
        sync_create(SyncView { phase, ..s }) == sync_create(s),
        sync_discard(SyncView { phase, ..s }) == sync_discard(s),
        sync_survey(SyncView { phase, ..s }) == sync_survey(s),
{
    let t = SyncView { phase, ..s };
    let images = listing(s.wanted.dom());
    if images.len() > 0 {
        assert(request_for(t, images[0], s.wanted[images[0]]) == request_for(
            s,
            images[0],
            s.wanted[images[0]],
        ));
    }
}

/// First every container is looked at, in the order of the keys, and only then
/// is one discarded.
pub proof fn law_all_containers_are_looked_at_first(s: SyncView, infos: Seq<Option<InfoView>>)
    requires
        infos.len() == s.pending.len(),
    ensures
        sync_outcome(sync_survey(s), inspected(infos)) == sync_discard(surveyed(s, infos)),
    decreases infos.len(),
{
    if infos.len() > 0 {
        let c = s.pending[0];
        let at = sync_survey(s);
        let replies = inspected(infos);
        let u = SyncView { pending: s.pending.skip(1), phase: SyncPhase::Surveying { at: c }, ..s };
        let v = SyncView { pending: s.pending.skip(1), ..judged(s, c, infos[0]) };
        assert(judged(u, c, infos[0]) == SyncView { phase: u.phase, ..v });
        lemma_phase_is_replaced(v, u.phase);
        assert(sync_answered(at.0, replies[0]) == sync_survey(v));
        assert(inspected(infos.skip(1)) =~= replies.skip(1));
        law_all_containers_are_looked_at_first(v, infos.skip(1));
    }
}

/// The answers while containers are discarded: one that is still there is ended,
/// with whatever success, and removed; one that is not needs no more.
pub open spec fn disposed(found: Seq<Option<InfoView>>, kills: Seq<Answer>) -> Seq<Answer>
    decreases found.len(),
{
    if found.len() == 0 {
        Seq::empty()
    } else {
        (match found[0] {
            Some(info) => seq![Answer::Inspected { info: Some(info) }, kills[0], Answer::Done],
            None => seq![Answer::Inspected { info: None }],
        }) + disposed(found.skip(1), kills.skip(1))
    }
}

/// What is remembered without given containers.
pub open spec fn without(containers: Map<Text, Text>, doomed: Seq<Container<Text>>) -> Map<Text, Text>
    decreases doomed.len(),
{
    if doomed.len() == 0 {
        containers
    } else {
        without(containers.remove(doomed[0].key), doomed.skip(1))
    }
}

/// The state once all containers that are to be discarded are.
pub open spec fn forgotten(s: SyncView) -> SyncView {
    SyncView {
        cache: CacheView { containers: without(s.cache.containers, s.doomed), ..s.cache },
        doomed: Seq::empty(),
        changed: s.changed || s.doomed.len() > 0,
        ..s
    }
}

/// Each container that is to be discarded is forgotten, and removed where it is
/// still there, before one is created.
pub proof fn law_misfits_are_discarded(
    s: SyncView,
    found: Seq<Option<InfoView>>,
    kills: Seq<Answer>,
)
    requires
        found.len() == s.doomed.len(),
        kills.len() == s.doomed.len(),
    ensures
        sync_outcome(sync_discard(s), disposed(found, kills)) == sync_create(forgotten(s)),
    decreases found.len(),
{
    if found.len() == 0 {
        assert(s.doomed =~= Seq::<Container<Text>>::empty());
        assert(forgotten(s) == s);
    } else {
        let at = sync_discard(s);
        let c = s.doomed[0];
        let rest = disposed(found.skip(1), kills.skip(1));
        let all = disposed(found, kills);
        let t = SyncView {
            cache: CacheView { containers: s.cache.containers.remove(c.key), ..s.cache },
            doomed: s.doomed.skip(1),
            changed: true,
            ..s
        };
        match found[0] {
            Some(info) => {
                let three = seq![Answer::Inspected { info: Some(info) }, kills[0], Answer::Done];
                assert(all == three + rest);
                lemma_outcome_concat(at, three, rest);
                let at1 = sync_answered(at.0, three[0]);
                let at2 = sync_answered(at1.0, three[1]);
                let at3 = sync_answered(at2.0, three[2]);
                assert(at2.0 == SyncView { phase: SyncPhase::Removing { id: c.id }, ..t });
                lemma_phase_is_replaced(t, at2.0.phase);
                assert(at3 == sync_discard(t));
                assert(three.skip(1)[0] == three[1]);
                assert(three.skip(1).skip(1)[0] == three[2]);
                assert(three.skip(1).skip(1).skip(1) =~= Seq::<Answer>::empty());
                assert(sync_outcome(at3, three.skip(1).skip(1).skip(1)) == at3);
                assert(sync_outcome(at2, three.skip(1).skip(1)) == at3);
                assert(sync_outcome(at1, three.skip(1)) == at3);
                assert(sync_outcome(at, three) == at3);
            },
            None => {
                let one = seq![Answer::Inspected { info: None::<InfoView> }];
                assert(all == one + rest);
                lemma_outcome_concat(at, one, rest);
                let at1 = sync_answered(at.0, one[0]);
                assert(at.0 == SyncView { phase: SyncPhase::Probing { id: c.id }, ..t });
                lemma_phase_is_replaced(t, at.0.phase);
                assert(at1 == sync_discard(t));
                assert(one.skip(1) =~= Seq::<Answer>::empty());
                assert(sync_outcome(at1, one.skip(1)) == at1);
                assert(sync_outcome(at, one) == at1);
            },
        }
        law_misfits_are_discarded(t, found.skip(1), kills.skip(1));
        assert(forgotten(t) == forgotten(s));
    }
}

/// A run whose calls succeed forgets the containers that do not fit, remembers
/// those that were created for the images without a container, and says whether
/// there were any of either.
pub proof fn law_full_run(
    s: SyncView,
    infos: Seq<Option<InfoView>>,
    found: Seq<Option<InfoView>>,
    kills: Seq<Answer>,
    ids: Seq<Text>,
)
    requires
        !s.changed,
        s.doomed.len() == 0,
        s.wanted.dom().finite(),
        infos.len() == s.pending.len(),
        found.len() == surveyed(s, infos).doomed.len(),
        kills.len() == found.len(),
        ids.len() == listing(surveyed(s, infos).wanted.dom()).len(),
    ensures
        ({
            let t = surveyed(s, infos);
            let images = listing(t.wanted.dom());
            let end = sync_outcome(
                sync_survey(s),
                inspected(infos) + disposed(found, kills) + made(ids),
            );
            &&& end.1 == (Next::Finished { changed: t.doomed.len() > 0 || images.len() > 0 })
            &&& end.0.cache.containers == with_made(
                without(s.cache.containers, t.doomed),
                t.wanted,
                images,
                ids,
            )
        }),
{
    let t = surveyed(s, infos);
    lemma_surveyed_frame(s, infos);
    law_all_containers_are_looked_at_first(s, infos);
    law_misfits_are_discarded(t, found, kills);
    law_missing_containers_are_created(forgotten(t), ids);
    lemma_outcome_concat(sync_survey(s), inspected(infos), disposed(found, kills));
    lemma_outcome_concat(
        sync_survey(s),
        inspected(infos) + disposed(found, kills),
        made(ids),
    );
}

/// Looking at containers changes nothing that is remembered.
proof fn lemma_surveyed_frame(s: SyncView, infos: Seq<Option<InfoView>>)
    requires
        s.wanted.dom().finite(),
    ensures
        ({
            let t = surveyed(s, infos);
            &&& t.cache == s.cache
            &&& t.changed == s.changed
            &&& t.wanted.dom().finite()
        }),
    decreases infos.len(),
{
    if infos.len() > 0 && s.pending.len() > 0 {
        let c = s.pending[0];
        let v = SyncView { pending: s.pending.skip(1), ..judged(s, c, infos[0]) };
        lemma_surveyed_frame(v, infos.skip(1));
    }
}

/// What is remembered depends only on the images that are gone through.
proof fn lemma_with_made_same(
    containers: Map<Text, Text>,
    a: Map<Text, WantedView>,
    b: Map<Text, WantedView>,
    images: Seq<Text>,
    ids: Seq<Text>,
)
    requires
        forall|i: int| #![trigger images[i]] 0 <= i < images.len() ==> a[images[i]] == b[images[i]],
    ensures
        with_made(containers, a, images, ids) == with_made(containers, b, images, ids),
    decreases images.len(),
{
    if images.len() > 0 {
        assert(a[images[0]] == b[images[0]]);
        let rest = images.skip(1);
        assert forall|i: int| #![trigger rest[i]] 0 <= i < rest.len() implies a[rest[i]] == b[rest[i]] by {
            assert(rest[i] == images[i + 1]);
        }
        lemma_with_made_same(
            containers.insert(a[images[0]].combo, ids[0]),
            a,
            b,
            rest,
            ids.skip(1),
        );
    }
}

} // verus!
