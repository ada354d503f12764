//! What bringing containers in line does a second time: nothing.

use vstd::prelude::*;
use crate::cache::CacheView;
use crate::docker::{fits, image_of, DockerCall, DockerNext, InfoView, WantedView};
use crate::name_map::{
    lemma_ascending_distinct, lemma_finite_listed, lemma_listing_rest, listing, NameSet,
};
use crate::repository::{listed, with_dep_mounts, HasRepository, Repository};
use crate::sync::{
    judged, remembered, sync_answered, sync_begun, sync_create, sync_discard, sync_survey, wanted_of,
    Answer, Container, ImageTag, Next, SyncPhase, SyncView,
};
use crate::sync_laws::{
    as_created, law_created_containers_fit, law_fitting_containers_are_kept, shown, sync_calls,
    sync_outcome,
};
use crate::text::{has_part, Text};

verus! {

/// What the containers of a repository are wanted to be, and what the service
/// shows of each container, by its id.
pub struct World {
    pub wanted: Map<Text, WantedView>,
    pub cmd: Seq<Text>,
    pub env: Option<Seq<Text>>,
    pub show: spec_fn(Text) -> InfoView,
}

/// An answer is true to what the service shows: a container that is looked at is
/// shown, and a container that was created shows what it was created with.
pub open spec fn tells_truly(w: World, at: (SyncView, Next), reply: Answer) -> bool {
    match (at.0.phase, at.1) {
        (SyncPhase::Surveying { at: c }, _) => reply == (Answer::Inspected {
            info: Some((w.show)(c.id)),
        }),
        (
            SyncPhase::Creating { .. },
            DockerNext::Call { call: DockerCall::Create { request } },
        ) => reply matches Answer::Created { id } ==> as_created(
            (w.show)(id),
            request.image,
            w.wanted[request.image],
            w.cmd,
            w.env,
        ),
        _ => true,
    }
}

/// All answers are true to what the service shows.
pub open spec fn all_tell_truly(w: World, at: (SyncView, Next), replies: Seq<Answer>) -> bool
    decreases replies.len(),
{
    replies.len() == 0 || tells_truly(w, at, replies[0]) && all_tell_truly(
        w,
        sync_answered(at.0, replies[0]),
        replies.skip(1),
    )
}

/// Images have identities, and no combination is part of the one of another
/// image.
spec fn set_apart(w: World) -> bool {
    &&& forall|i: Text| #[trigger] w.wanted.contains_key(i) ==> i.len() > 0
        && w.wanted[i].mounts.dom().finite()
    &&& forall|i: Text, j: Text| #[trigger] w.wanted.contains_key(i)
        && #[trigger] w.wanted.contains_key(j) && i != j ==> !has_part(
        w.wanted[i].combo,
        w.wanted[j].combo,
    )
}

/// A container that is remembered, and about which nothing is left to be done.
spec fn is_settled(s: SyncView, unsettled: Seq<Container<Text>>, key: Text) -> bool {
    &&& s.cache.containers.contains_key(key)
    &&& forall|i: int| 0 <= i < unsettled.len() ==> (#[trigger] unsettled[i]).key != key
}

/// The image of the container that is remembered under a key.
spec fn image_under(w: World, s: SyncView, key: Text) -> Text {
    image_of((w.show)(s.cache.containers[key]))
}

/// The containers that are settled fit, each for an image of its own; and every
/// image that wants no container, but for the one that is getting one, has its
/// container among them.
spec fn on_the_way(
    w: World,
    s: SyncView,
    unsettled: Seq<Container<Text>>,
    making: Option<Text>,
) -> bool {
    &&& s.cmd == w.cmd
    &&& s.env == w.env
    &&& s.wanted.dom().finite()
    &&& s.cache.containers.dom().finite()
    &&& forall|i: Text| #[trigger] s.wanted.contains_key(i) ==> w.wanted.contains_key(i)
        && w.wanted[i] == s.wanted[i]
    &&& forall|i: int|
        0 <= i < unsettled.len() ==> s.cache.containers.contains_key((#[trigger] unsettled[i]).key)
            && s.cache.containers[unsettled[i].key] == unsettled[i].id
    &&& forall|i: int, j: int|
        0 <= i < j < unsettled.len() ==> (#[trigger] unsettled[i]).key != (
        #[trigger] unsettled[j]).key
    &&& forall|k: Text| #[trigger] is_settled(s, unsettled, k) ==> {
        &&& fits(k, (w.show)(s.cache.containers[k]), w.wanted, w.cmd, w.env)
        &&& !s.wanted.contains_key(image_under(w, s, k))
        &&& making != Some(image_under(w, s, k))
    }
    &&& forall|k: Text, l: Text| #[trigger] is_settled(s, unsettled, k) && #[trigger] is_settled(
        s,
        unsettled,
        l,
    ) && k != l ==> image_under(w, s, k) != image_under(w, s, l)
    &&& forall|i: Text| #[trigger] w.wanted.contains_key(i) && !s.wanted.contains_key(i) && making
        != Some(i) ==> has_container(w, s, unsettled, i)
}

/// An image has a container among those that are settled.
spec fn has_container(w: World, s: SyncView, unsettled: Seq<Container<Text>>, image: Text) -> bool {
    exists|k: Text| #[trigger] is_settled(s, unsettled, k) && image_under(w, s, k) == image
}

/// What holds wherever the work stands.
spec fn stands(w: World, at: (SyncView, Next)) -> bool {
    let s = at.0;
    match s.phase {
        SyncPhase::Surveying { at: c } => on_the_way(w, s, seq![c] + s.pending + s.doomed, None),
        SyncPhase::Probing { .. } | SyncPhase::Killing { .. } | SyncPhase::Removing { .. } => {
            &&& s.pending.len() == 0
            &&& on_the_way(w, s, s.doomed, None)
        },
        SyncPhase::Creating { combo } => {
            &&& s.pending.len() == 0
            &&& s.doomed.len() == 0
            &&& at.1 matches DockerNext::Call { call: DockerCall::Create { request } } && {
                &&& w.wanted.contains_key(request.image)
                &&& combo == w.wanted[request.image].combo
                &&& on_the_way(w, s, Seq::empty(), Some(request.image))
                &&& !s.wanted.contains_key(request.image)
            }
        },
        SyncPhase::Ended => at.1 is Aborted || {
            &&& on_the_way(w, s, Seq::empty(), None)
            &&& s.wanted.dom() == Set::<Text>::empty()
        },
    }
}

proof fn lemma_create_stands(w: World, s: SyncView)
    requires
        s.pending.len() == 0,
        s.doomed.len() == 0,
        on_the_way(w, s, Seq::empty(), None),
    ensures
        stands(w, sync_create(s)),
{
    let none = Seq::<Container<Text>>::empty();
    let images = listing(s.wanted.dom());
    lemma_finite_listed(s.wanted.dom());
    let at = sync_create(s);
    let t = at.0;
    if images.len() == 0 {
        assert(s.wanted.dom() =~= Set::<Text>::empty());
        assert forall|k: Text| #[trigger] is_settled(t, none, k) implies is_settled(s, none, k) by {
        }
        assert forall|i: Text| #[trigger] w.wanted.contains_key(i) implies has_container(
            w,
            t,
            none,
            i,
        ) by {
            assert(has_container(w, s, none, i));
            let k = choose|k: Text| #[trigger] is_settled(s, none, k) && image_under(w, s, k) == i;
            assert(is_settled(t, none, k));
            assert(image_under(w, t, k) == i);
        }
    } else {
        lemma_listing_rest(s.wanted.dom());
        let image = images[0];
        assert(s.wanted.contains_key(image));
        assert(t.wanted.dom() =~= s.wanted.dom().remove(image));
        assert forall|k: Text| #[trigger] is_settled(t, none, k) implies is_settled(s, none, k)
            && image_under(w, t, k) == image_under(w, s, k) by {
            assert(is_settled(s, none, k));
        }
        assert forall|i: Text| #[trigger] w.wanted.contains_key(i) && !t.wanted.contains_key(i)
            && i != image implies has_container(w, t, none, i) by {
            assert(!s.wanted.contains_key(i));
            assert(has_container(w, s, none, i));
            let k = choose|k: Text| #[trigger] is_settled(s, none, k) && image_under(w, s, k) == i;
            assert(is_settled(t, none, k));
            assert(image_under(w, t, k) == i);
        }
        assert(on_the_way(w, t, none, Some(image)));
    }
}

proof fn lemma_discard_stands(w: World, s: SyncView)
    requires
        s.pending.len() == 0,
        on_the_way(w, s, s.doomed, None),
    ensures
        stands(w, sync_discard(s)),
{
    if s.doomed.len() == 0 {
        assert(s.doomed =~= Seq::<Container<Text>>::empty());
        lemma_create_stands(w, s);
    } else {
        let c = s.doomed[0];
        let t = sync_discard(s).0;
        assert forall|i: int| 0 <= i < t.doomed.len() implies t.cache.containers.contains_key(
            (#[trigger] t.doomed[i]).key,
        ) && t.cache.containers[t.doomed[i].key] == t.doomed[i].id by {
            assert(t.doomed[i] == s.doomed[i + 1]);
            assert(s.doomed[0].key != s.doomed[i + 1].key);
        }
        assert forall|k: Text| #[trigger] is_settled(t, t.doomed, k) implies is_settled(
            s,
            s.doomed,
            k,
        ) && t.cache.containers[k] == s.cache.containers[k] by {
            assert forall|i: int| 0 <= i < s.doomed.len() implies (#[trigger] s.doomed[i]).key != k by {
                if i > 0 {
                    assert(t.doomed[i - 1] == s.doomed[i]);
                }
            }
        }
        assert forall|i: Text| #[trigger] w.wanted.contains_key(i) && !t.wanted.contains_key(
            i,
        ) implies has_container(w, t, t.doomed, i) by {
            assert(has_container(w, s, s.doomed, i));
            let k = choose|k: Text| #[trigger] is_settled(s, s.doomed, k) && image_under(w, s, k) == i;
            assert(s.doomed[0].key != k);
            assert forall|j: int| 0 <= j < t.doomed.len() implies (#[trigger] t.doomed[j]).key != k by {
                assert(t.doomed[j] == s.doomed[j + 1]);
            }
            assert(is_settled(t, t.doomed, k));
            assert(image_under(w, t, k) == i);
        }
        assert(on_the_way(w, t, t.doomed, None));
    }
}

/// Only what is remembered and what is wanted matters, and which containers are
/// unsettled, in whatever order they are given.
proof fn lemma_same_way(
    w: World,
    s: SyncView,
    a: Seq<Container<Text>>,
    t: SyncView,
    b: Seq<Container<Text>>,
)
    requires
        on_the_way(w, s, a, None),
        t.cache == s.cache,
        t.wanted == s.wanted,
        t.cmd == s.cmd,
        t.env == s.env,
        a.len() == b.len(),
        forall|i: int| 0 <= i < a.len() ==> b.contains(#[trigger] a[i]),
        forall|i: int| 0 <= i < b.len() ==> a.contains(#[trigger] b[i]),
        forall|i: int, j: int|
            0 <= i < j < b.len() ==> (#[trigger] b[i]).key != (#[trigger] b[j]).key,
    ensures
        on_the_way(w, t, b, None),
{
    assert forall|i: int| 0 <= i < b.len() implies t.cache.containers.contains_key(
        (#[trigger] b[i]).key,
    ) && t.cache.containers[b[i].key] == b[i].id by {
        let j = choose|j: int| 0 <= j < a.len() && a[j] == b[i];
        assert(a[j] == b[i]);
    }
    assert forall|k: Text| #[trigger] is_settled(t, b, k) implies is_settled(s, a, k) by {
        assert forall|i: int| 0 <= i < a.len() implies (#[trigger] a[i]).key != k by {
            let j = choose|j: int| 0 <= j < b.len() && b[j] == a[i];
            assert(b[j].key != k);
        }
    }
    assert forall|i: Text| #[trigger] w.wanted.contains_key(i) && !t.wanted.contains_key(
        i,
    ) implies has_container(w, t, b, i) by {
        assert(has_container(w, s, a, i));
        let k = choose|k: Text| #[trigger] is_settled(s, a, k) && image_under(w, s, k) == i;
        assert forall|j: int| 0 <= j < b.len() implies (#[trigger] b[j]).key != k by {
            let m = choose|m: int| 0 <= m < a.len() && a[m] == b[j];
            assert(a[m].key != k);
        }
        assert(is_settled(t, b, k));
        assert(image_under(w, t, k) == i);
    }
}

proof fn lemma_survey_stands(w: World, s: SyncView)
    requires
        on_the_way(w, s, s.pending + s.doomed, None),
    ensures
        stands(w, sync_survey(s)),
{
    if s.pending.len() == 0 {
        assert(s.pending + s.doomed =~= s.doomed);
        lemma_discard_stands(w, s);
    } else {
        let t = sync_survey(s).0;
        let c = s.pending[0];
        let b = seq![c] + t.pending + t.doomed;
        assert(b =~= s.pending + s.doomed);
        lemma_same_way(w, s, s.pending + s.doomed, t, b);
    }
}

/// What is found of a container settles it, or dooms it.
proof fn lemma_judged_stands(w: World, s: SyncView, c: Container<Text>)
    requires
        s.phase == (SyncPhase::Surveying { at: c }),
        on_the_way(w, s, seq![c] + s.pending + s.doomed, None),
    ensures
        ({
            let t = judged(s, c, Some((w.show)(c.id)));
            on_the_way(w, t, t.pending + t.doomed, None)
        }),
{
    let info = (w.show)(c.id);
    let t = judged(s, c, Some(info));
    let a = seq![c] + s.pending + s.doomed;
    let b = t.pending + t.doomed;
    assert(a[0] == c);
    if fits(c.key, info, s.wanted, s.cmd, s.env) {
        let image = image_of(info);
        assert(w.wanted.contains_key(image));
        assert(a =~= seq![c] + b);
        assert forall|i: int| 0 <= i < b.len() implies b[i] == #[trigger] a[i + 1] by {
        }
        assert forall|i: int| 0 <= i < b.len() implies t.cache.containers.contains_key(
            (#[trigger] b[i]).key,
        ) && t.cache.containers[b[i].key] == b[i].id && b[i].key != c.key by {
            assert(b[i] == a[i + 1]);
            assert(a[0].key != a[i + 1].key);
        }
        assert forall|i: int, j: int| 0 <= i < j < b.len() implies (#[trigger] b[i]).key != (
        #[trigger] b[j]).key by {
            assert(b[i] == a[i + 1]);
            assert(b[j] == a[j + 1]);
        }
        assert forall|k: Text| #[trigger] is_settled(t, b, k) implies k == c.key || is_settled(
            s,
            a,
            k,
        ) by {
            if k != c.key {
                assert forall|i: int| 0 <= i < a.len() implies (#[trigger] a[i]).key != k by {
                    if i > 0 {
                        assert(a[i] == b[i - 1]);
                    }
                }
            }
        }
        assert(s.cache.containers[c.key] == c.id);
        assert forall|k: Text| #[trigger] is_settled(s, a, k) implies is_settled(t, b, k)
            && image_under(w, t, k) == image_under(w, s, k) by {
            assert forall|i: int| 0 <= i < b.len() implies (#[trigger] b[i]).key != k by {
                assert(b[i] == a[i + 1]);
            }
        }
        assert forall|i: Text| #[trigger] w.wanted.contains_key(i) && !t.wanted.contains_key(
            i,
        ) implies has_container(w, t, b, i) by {
            if i == image {
                assert(is_settled(t, b, c.key));
                assert(image_under(w, t, c.key) == i);
            } else {
                assert(!s.wanted.contains_key(i));
                assert(has_container(w, s, a, i));
                let k = choose|k: Text| #[trigger] is_settled(s, a, k) && image_under(w, s, k) == i;
                assert(is_settled(t, b, k));
                assert(image_under(w, t, k) == i);
            }
        }
        assert forall|k: Text, l: Text| #[trigger] is_settled(t, b, k) && #[trigger] is_settled(
            t,
            b,
            l,
        ) && k != l implies image_under(w, t, k) != image_under(w, t, l) by {
            if k == c.key {
                assert(is_settled(s, a, l));
            } else if l == c.key {
                assert(is_settled(s, a, k));
            } else {
                assert(is_settled(s, a, k));
                assert(is_settled(s, a, l));
            }
        }
    } else {
        let n = s.pending.len() as int;
        let m = s.doomed.len() as int;
        assert(b.len() == a.len());
        assert forall|i: int| 0 <= i < a.len() implies b.contains(#[trigger] a[i]) by {
            if i == 0 {
                assert(b[n + m] == c);
            } else {
                assert(b[i - 1] == a[i]);
            }
        }
        assert forall|i: int| 0 <= i < b.len() implies a.contains(#[trigger] b[i]) by {
            if i == n + m {
                assert(a[0] == b[i]);
            } else {
                assert(a[i + 1] == b[i]);
            }
        }
        assert forall|i: int, j: int| 0 <= i < j < b.len() implies (#[trigger] b[i]).key != (
        #[trigger] b[j]).key by {
            assert(b[i] == a[i + 1]);
            if j == n + m {
                assert(b[j] == a[0]);
            } else {
                assert(b[j] == a[j + 1]);
            }
        }
        lemma_same_way(w, s, a, t, b);
    }
}

/// A container that was created is settled under the name of its combination,
/// which nothing was remembered under.
proof fn lemma_created_stands(w: World, s: SyncView, image: Text, id: Text)
    requires
        set_apart(w),
        w.wanted.contains_key(image),
        !s.wanted.contains_key(image),
        on_the_way(w, s, Seq::empty(), Some(image)),
        as_created((w.show)(id), image, w.wanted[image], w.cmd, w.env),
    ensures
        ({
            let combo = w.wanted[image].combo;
            let t = SyncView {
                cache: CacheView { containers: s.cache.containers.insert(combo, id), ..s.cache },
                ..s
            };
            on_the_way(w, t, Seq::empty(), None)
        }),
{
    let none = Seq::<Container<Text>>::empty();
    let combo = w.wanted[image].combo;
    let t = SyncView {
        cache: CacheView { containers: s.cache.containers.insert(combo, id), ..s.cache },
        ..s
    };
    law_created_containers_fit((w.show)(id), image, w.wanted, w.cmd, w.env);
    if s.cache.containers.contains_key(combo) {
        assert(is_settled(s, none, combo));
        let other = image_under(w, s, combo);
        assert(w.wanted.contains_key(other));
        assert(has_part(combo, w.wanted[other].combo));
    }
    assert forall|k: Text| #[trigger] is_settled(t, none, k) implies k == combo || is_settled(
        s,
        none,
        k,
    ) by {
    }
    assert(t.cache.containers[combo] == id);
    assert forall|k: Text| #[trigger] is_settled(s, none, k) implies k != combo && is_settled(
        t,
        none,
        k,
    ) && image_under(w, t, k) == image_under(w, s, k) by {
    }
    assert forall|k: Text, l: Text| #[trigger] is_settled(t, none, k) && #[trigger] is_settled(
        t,
        none,
        l,
    ) && k != l implies image_under(w, t, k) != image_under(w, t, l) by {
        if k != combo {
            assert(is_settled(s, none, k));
        }
        if l != combo {
            assert(is_settled(s, none, l));
        }
    }
    assert forall|i: Text| #[trigger] w.wanted.contains_key(i) && !t.wanted.contains_key(
        i,
    ) implies has_container(w, t, none, i) by {
        if i == image {
            assert(is_settled(t, none, combo));
            assert(image_under(w, t, combo) == i);
        } else {
            assert(has_container(w, s, none, i));
            let k = choose|k: Text| #[trigger] is_settled(s, none, k) && image_under(w, s, k) == i;
            assert(is_settled(t, none, k));
            assert(image_under(w, t, k) == i);
        }
    }
}

proof fn lemma_answer_stands(w: World, at: (SyncView, Next), reply: Answer)
    requires
        set_apart(w),
        stands(w, at),
        tells_truly(w, at, reply),
    ensures
        stands(w, sync_answered(at.0, reply)),
{
    let s = at.0;
    match s.phase {
        SyncPhase::Surveying { at: c } => {
            lemma_judged_stands(w, s, c);
            lemma_survey_stands(w, judged(s, c, Some((w.show)(c.id))));
        },
        SyncPhase::Probing { id } => {
            lemma_discard_stands(w, s);
            let t = SyncView { phase: SyncPhase::Killing { id }, ..s };
            lemma_same_way(w, s, s.doomed, t, s.doomed);
        },
        SyncPhase::Killing { id } => {
            let t = SyncView { phase: SyncPhase::Removing { id }, ..s };
            lemma_same_way(w, s, s.doomed, t, s.doomed);
        },
        SyncPhase::Removing { .. } => {
            lemma_discard_stands(w, s);
        },
        SyncPhase::Creating { combo } => {
            if let Answer::Created { id } = reply {
                let image = at.1->Call_call->Create_request.image;
                lemma_created_stands(w, s, image, id);
                let t = SyncView {
                    cache: CacheView {
                        containers: s.cache.containers.insert(combo, id),
                        ..s.cache
                    },
                    ..s
                };
                lemma_create_stands(w, t);
            }
        },
        SyncPhase::Ended => {},
    }
}

proof fn lemma_run_stands(w: World, at: (SyncView, Next), replies: Seq<Answer>)
    requires
        set_apart(w),
        stands(w, at),
        all_tell_truly(w, at, replies),
    ensures
        stands(w, sync_outcome(at, replies)),
    decreases replies.len(),
{
    if replies.len() > 0 {
        lemma_answer_stands(w, at, replies[0]);
        lemma_run_stands(w, sync_answered(at.0, replies[0]), replies.skip(1));
    }
}

/// Whatever is remembered at first, with all of it still to be looked at,
/// nothing is settled.
proof fn lemma_begun_stands(w: World, s: SyncView)
    requires
        s.cmd == w.cmd,
        s.env == w.env,
        s.wanted == w.wanted,
        s.wanted.dom().finite(),
        s.cache.containers.dom().finite(),
        s.pending == remembered(s.cache.containers),
        s.doomed.len() == 0,
    ensures
        stands(w, sync_survey(s)),
{
    let a = s.pending + s.doomed;
    let keys = listing(s.cache.containers.dom());
    assert(a =~= s.pending);
    lemma_finite_listed(s.cache.containers.dom());
    lemma_ascending_distinct(keys);
    assert forall|i: int| 0 <= i < a.len() implies s.cache.containers.contains_key(
        (#[trigger] a[i]).key,
    ) && s.cache.containers[a[i].key] == a[i].id by {
        assert(keys.to_set().contains(keys[i]));
    }
    assert forall|k: Text| !#[trigger] is_settled(s, a, k) by {
        if s.cache.containers.contains_key(k) {
            assert(keys.to_set().contains(k));
            let i = choose|i: int| 0 <= i < keys.len() && keys[i] == k;
            assert(a[i].key == k);
        }
    }
    lemma_survey_stands(w, s);
}

/// A second run on what a finished one left.
proof fn lemma_second_run(w: World, end: SyncView, s: SyncView)
    requires
        on_the_way(w, end, Seq::empty(), None),
        end.wanted.dom() == Set::<Text>::empty(),
        w.wanted.dom().finite(),
        s.cache == end.cache,
        s.cmd == w.cmd,
        s.env == w.env,
        s.wanted == w.wanted,
        s.pending == remembered(s.cache.containers),
        s.doomed.len() == 0,
        !s.changed,
    ensures
        ({
            let infos = Seq::new(s.pending.len(), |i: int| (w.show)(s.pending[i].id));
            let again = sync_outcome(sync_survey(s), shown(infos));
            &&& again.1 == (Next::Finished { changed: false })
            &&& again.0.cache == s.cache
            &&& sync_calls(sync_survey(s), shown(infos)) == Seq::new(
                s.pending.len(),
                |i: int| DockerCall::<Text, Seq<Text>>::Inspect { id: s.pending[i].id },
            )
        }),
{
    let none = Seq::<Container<Text>>::empty();
    let keys = listing(s.cache.containers.dom());
    let infos = Seq::new(s.pending.len(), |i: int| (w.show)(s.pending[i].id));
    lemma_finite_listed(s.cache.containers.dom());
    lemma_ascending_distinct(keys);
    assert forall|i: int| #![trigger infos[i]] 0 <= i < infos.len() implies is_settled(
        end,
        none,
        keys[i],
    ) && infos[i] == (w.show)(end.cache.containers[keys[i]]) && fits(
        s.pending[i].key,
        infos[i],
        s.wanted,
        s.cmd,
        s.env,
    ) && image_of(infos[i]) == image_under(w, end, keys[i]) by {
        assert(keys.to_set().contains(keys[i]));
        assert(is_settled(end, none, keys[i]));
    }
    assert forall|i: int, j: int|
        #![trigger infos[i], infos[j]]
        0 <= i < j < infos.len() implies image_of(infos[i]) != image_of(infos[j]) by {
        assert(is_settled(end, none, keys[i]));
        assert(is_settled(end, none, keys[j]));
        assert(keys[i] != keys[j]);
    }
    assert forall|image: Text| s.wanted.contains_key(image) implies exists|i: int|
        0 <= i < infos.len() && image_of(#[trigger] infos[i]) == image by {
        assert(w.wanted.contains_key(image));
        assert(!end.wanted.contains_key(image));
        assert(has_container(w, end, none, image));
        let k = choose|k: Text| #[trigger] is_settled(end, none, k) && image_under(w, end, k) == image;
        assert(keys.to_set().contains(k));
        let i = choose|i: int| 0 <= i < keys.len() && keys[i] == k;
        assert(image_of(infos[i]) == image);
    }
    law_fitting_containers_are_kept(s, infos);
}

proof fn lemma_mounts_finite<R: HasRepository>(
    mounts: Map<Text, Text>,
    names: Seq<Text>,
    repos: Map<Text, R>,
    tag: Text,
)
    requires
        mounts.dom().finite(),
    ensures
        with_dep_mounts(mounts, names, repos, tag).dom().finite(),
    decreases names.len(),
{
    if names.len() > 0 {
        lemma_mounts_finite(mounts, names.drop_last(), repos, tag);
    }
}

proof fn lemma_wanted<R: HasRepository>(
    repo: Repository,
    repos: Map<Text, R>,
    transient_deps: Map<Text, NameSet>,
    tags: Seq<ImageTag<Text>>,
)
    ensures
        ({
            let wanted = wanted_of(repo, repos, transient_deps, tags);
            &&& wanted.dom().finite()
            &&& forall|image: Text| #[trigger] wanted.contains_key(image) ==> {
                &&& wanted[image].mounts.dom().finite()
                &&& exists|i: int|
                    0 <= i < tags.len() && (#[trigger] tags[i]).image == image && tags[i].combo
                        == wanted[image].combo
            }
        }),
    decreases tags.len(),
{
    if tags.len() > 0 {
        let rest = tags.drop_last();
        let t = tags.last();
        let before = wanted_of(repo, repos, transient_deps, rest);
        let wanted = wanted_of(repo, repos, transient_deps, tags);
        lemma_wanted(repo, repos, transient_deps, rest);
        lemma_mounts_finite(
            repo.own_mounts(t.tag),
            listed(transient_deps, repo.name@),
            repos,
            t.tag,
        );
        assert forall|image: Text| #[trigger] wanted.contains_key(image) implies wanted[image].mounts.dom().finite()
            && exists|i: int|
            0 <= i < tags.len() && (#[trigger] tags[i]).image == image && tags[i].combo
                == wanted[image].combo by {
            if image == t.image {
                assert(tags[tags.len() - 1].image == image);
            } else {
                assert(before.contains_key(image));
                let i = choose|i: int|
                    0 <= i < rest.len() && (#[trigger] rest[i]).image == image && rest[i].combo
                        == before[image].combo;
                assert(tags[i] == rest[i]);
            }
        }
    }
}

/// The containers that are remembered are those that are wanted: each of them
/// fits, no two of them are for the same image, and every image has one.
pub open spec fn as_wanted(w: World, containers: Map<Text, Text>) -> bool {
    &&& forall|k: Text| #[trigger] containers.contains_key(k) ==> fits(
        k,
        (w.show)(containers[k]),
        w.wanted,
        w.cmd,
        w.env,
    )
    &&& forall|k: Text, l: Text| #[trigger] containers.contains_key(k)
        && #[trigger] containers.contains_key(l) && k != l ==> image_of((w.show)(containers[k]))
        != image_of((w.show)(containers[l]))
    &&& forall|image: Text| #[trigger] w.wanted.contains_key(image) ==> exists|k: Text| #[trigger]
        containers.contains_key(k) && image_of((w.show)(containers[k])) == image
}

/// Once all is settled, the containers are those that are wanted.
proof fn lemma_as_wanted(w: World, s: SyncView)
    requires
        on_the_way(w, s, Seq::empty(), None),
        s.wanted.dom() == Set::<Text>::empty(),
    ensures
        as_wanted(w, s.cache.containers),
{
    let none = Seq::<Container<Text>>::empty();
    let containers = s.cache.containers;
    assert forall|k: Text| #[trigger] containers.contains_key(k) implies is_settled(s, none, k) by {
    }
    assert forall|k: Text, l: Text| #[trigger] containers.contains_key(k)
        && #[trigger] containers.contains_key(l) && k != l implies image_of((w.show)(containers[k]))
        != image_of((w.show)(containers[l])) by {
        assert(is_settled(s, none, k));
        assert(is_settled(s, none, l));
        assert(image_under(w, s, k) != image_under(w, s, l));
    }
    assert forall|image: Text| #[trigger] w.wanted.contains_key(image) implies exists|k: Text| #[trigger]
        containers.contains_key(k) && image_of((w.show)(containers[k])) == image by {
        assert(!s.wanted.contains_key(image));
        assert(has_container(w, s, none, image));
        let k = choose|k: Text| #[trigger] is_settled(s, none, k) && image_under(w, s, k) == image;
        assert(containers.contains_key(k));
    }
}

/// Images have identities, and no combination is part of the one of another
/// image.
pub open spec fn tags_apart(tags: Seq<ImageTag<Text>>) -> bool {
    &&& forall|i: int| 0 <= i < tags.len() ==> (#[trigger] tags[i]).image.len() > 0
    &&& forall|i: int, j: int|
        0 <= i < tags.len() && 0 <= j < tags.len() && (#[trigger] tags[i]).image != (
        #[trigger] tags[j]).image ==> !has_part(tags[i].combo, tags[j].combo)
}

/// What is wanted at the beginning of some work, and what the service shows.
pub open spec fn world_of(begun: SyncView, show: spec_fn(Text) -> InfoView) -> World {
    World { wanted: begun.wanted, cmd: begun.cmd, env: begun.env, show }
}

proof fn lemma_finished_run<R: HasRepository>(
    cache: CacheView,
    repo: Repository,
    repos: Map<Text, R>,
    transient_deps: Map<Text, NameSet>,
    tags: Seq<ImageTag<Text>>,
    show: spec_fn(Text) -> InfoView,
    replies: Seq<Answer>,
)
    requires
        cache.containers.dom().finite(),
        tags_apart(tags),
        ({
            let first = sync_begun(cache, repo, repos, transient_deps, tags);
            &&& all_tell_truly(world_of(first, show), sync_survey(first), replies)
            &&& sync_outcome(sync_survey(first), replies).1 is Finished
        }),
    ensures
        ({
            let first = sync_begun(cache, repo, repos, transient_deps, tags);
            let end = sync_outcome(sync_survey(first), replies).0;
            &&& on_the_way(world_of(first, show), end, Seq::empty(), None)
            &&& end.wanted.dom() == Set::<Text>::empty()
            &&& first.wanted.dom().finite()
        }),
{
    let first = sync_begun(cache, repo, repos, transient_deps, tags);
    let w = world_of(first, show);
    lemma_wanted(repo, repos, transient_deps, tags);
    assert(set_apart(w)) by {
        assert forall|i: Text| #[trigger] w.wanted.contains_key(i) implies i.len() > 0
            && w.wanted[i].mounts.dom().finite() by {
            let m = choose|m: int|
                0 <= m < tags.len() && (#[trigger] tags[m]).image == i && tags[m].combo
                    == w.wanted[i].combo;
        }
        assert forall|i: Text, j: Text| #[trigger] w.wanted.contains_key(i)
            && #[trigger] w.wanted.contains_key(j) && i != j implies !has_part(
            w.wanted[i].combo,
            w.wanted[j].combo,
        ) by {
            let m = choose|m: int|
                0 <= m < tags.len() && (#[trigger] tags[m]).image == i && tags[m].combo
                    == w.wanted[i].combo;
            let n = choose|n: int|
                0 <= n < tags.len() && (#[trigger] tags[n]).image == j && tags[n].combo
                    == w.wanted[j].combo;
        }
    }
    lemma_begun_stands(w, first);
    lemma_run_stands(w, sync_survey(first), replies);
    lemma_finished_is_ended(sync_survey(first), replies);
}

/// Once a run is finished, the containers that are remembered are those that are
/// wanted: each fits, no two are for the same image, every image has one, and no
/// other container that was looked at stays. This holds whatever was remembered
/// before, as long as the service shows every container that is looked at, and
/// shows those that were created as what they were created with; images have
/// identities; and no combination is part of the one of another image.
pub proof fn law_finished_run_leaves_what_is_wanted<R: HasRepository>(
    cache: CacheView,
    repo: Repository,
    repos: Map<Text, R>,
    transient_deps: Map<Text, NameSet>,
    tags: Seq<ImageTag<Text>>,
    show: spec_fn(Text) -> InfoView,
    replies: Seq<Answer>,
)
    requires
        cache.containers.dom().finite(),
        tags_apart(tags),
        ({
            let first = sync_begun(cache, repo, repos, transient_deps, tags);
            &&& all_tell_truly(world_of(first, show), sync_survey(first), replies)
            &&& sync_outcome(sync_survey(first), replies).1 is Finished
        }),
    ensures
        ({
            let first = sync_begun(cache, repo, repos, transient_deps, tags);
            let left = sync_outcome(sync_survey(first), replies).0.cache;
            as_wanted(world_of(first, show), left.containers)
        }),
{
    lemma_finished_run(cache, repo, repos, transient_deps, tags, show, replies);
    let first = sync_begun(cache, repo, repos, transient_deps, tags);
    lemma_as_wanted(world_of(first, show), sync_outcome(sync_survey(first), replies).0);
}

/// Once a run is finished, a second run for the same repository and the same
/// images looks at each container that is remembered, makes no other call,
/// changes nothing of what is remembered, and says so. This holds whatever was
/// remembered before the first run, under the same conditions.
pub proof fn law_second_run_is_idle<R: HasRepository>(
    cache: CacheView,
    repo: Repository,
    repos: Map<Text, R>,
    transient_deps: Map<Text, NameSet>,
    tags: Seq<ImageTag<Text>>,
    show: spec_fn(Text) -> InfoView,
    replies: Seq<Answer>,
)
    requires
        cache.containers.dom().finite(),
        tags_apart(tags),
        ({
            let first = sync_begun(cache, repo, repos, transient_deps, tags);
            &&& all_tell_truly(world_of(first, show), sync_survey(first), replies)
            &&& sync_outcome(sync_survey(first), replies).1 is Finished
        }),
    ensures
        ({
            let first = sync_begun(cache, repo, repos, transient_deps, tags);
            let left = sync_outcome(sync_survey(first), replies).0.cache;
            let second = sync_begun(left, repo, repos, transient_deps, tags);
            let infos = Seq::new(second.pending.len(), |i: int| show(second.pending[i].id));
            let again = sync_outcome(sync_survey(second), shown(infos));
            &&& again.1 == (Next::Finished { changed: false })
            &&& again.0.cache == left
            &&& sync_calls(sync_survey(second), shown(infos)) == Seq::new(
                second.pending.len(),
                |i: int| DockerCall::<Text, Seq<Text>>::Inspect { id: second.pending[i].id },
            )
        }),
{
    lemma_finished_run(cache, repo, repos, transient_deps, tags, show, replies);
    let first = sync_begun(cache, repo, repos, transient_deps, tags);
    let w = world_of(first, show);
    let end = sync_outcome(sync_survey(first), replies).0;
    let second = sync_begun(end.cache, repo, repos, transient_deps, tags);
    lemma_second_run(w, end, second);
    assert(Seq::new(second.pending.len(), |i: int| show(second.pending[i].id)) =~= Seq::new(
        second.pending.len(),
        |i: int| (w.show)(second.pending[i].id),
    ));
}

/// Work that is finished has ended.
proof fn lemma_finished_is_ended(at: (SyncView, Next), replies: Seq<Answer>)
    requires
        at.1 is Finished ==> at.0.phase is Ended,
    ensures
        sync_outcome(at, replies).1 is Finished ==> sync_outcome(at, replies).0.phase is Ended,
    decreases replies.len(),
{
    if replies.len() > 0 {
        lemma_finished_is_ended(sync_answered(at.0, replies[0]), replies.skip(1));
    }
}

} // verus!
