//! Maps and sets of names that are kept in the order of their names.

use vstd::prelude::*;
use crate::text::{comes_before, lemma_order_asymmetric, lemma_order_irreflexive, lemma_order_total, lemma_order_transitive, rank, texts, Rank, Text};

verus! {

/// Each text of the list comes before those that follow it.
pub open spec fn ascending(list: Seq<Text>) -> bool {
    forall|i: int, j: int|
        #![trigger list[i], list[j]]
        0 <= i < j < list.len() ==> comes_before(list[i], list[j])
}

/// An ascending list holds no text twice.
pub proof fn lemma_ascending_distinct(list: Seq<Text>)
    requires
        ascending(list),
    ensures
        list.no_duplicates(),
{
    assert forall|i: int, j: int| 0 <= i < list.len() && 0 <= j < list.len() && i != j implies list[i]
        != list[j] by {
        if i < j {
            lemma_order_asymmetric(list[i], list[j]);
        } else {
            lemma_order_asymmetric(list[j], list[i]);
        }
    }
}

/// The texts of a set can be listed in ascending order in one way only.
pub proof fn lemma_listing_unique(a: Seq<Text>, b: Seq<Text>)
    requires
        ascending(a),
        ascending(b),
        a.to_set() == b.to_set(),
    ensures
        a == b,
    decreases a.len(),
{
    if a.len() == 0 {
        if b.len() > 0 {
            assert(b.to_set().contains(b[0]));
            assert(a.contains(b[0]));
        }
        assert(a =~= b);
    } else {
        assert(a.to_set().contains(a[0]));
        assert(b.contains(a[0]));
        let j = choose|j: int| 0 <= j < b.len() && b[j] == a[0];
        assert(b.to_set().contains(b[0]));
        assert(a.contains(b[0]));
        let k = choose|k: int| 0 <= k < a.len() && a[k] == b[0];
        if j > 0 && k > 0 {
            assert(comes_before(b[0], b[j]));
            assert(comes_before(a[0], a[k]));
            lemma_order_asymmetric(a[0], b[0]);
        }
        assert(a[0] == b[0]);
        let s = a.skip(1);
        let t = b.skip(1);
        lemma_ascending_distinct(a);
        lemma_ascending_distinct(b);
        assert forall|x: Text| s.to_set().contains(x) == t.to_set().contains(x) by {
            if s.contains(x) {
                let m = choose|m: int| 0 <= m < s.len() && s[m] == x;
                assert(a[m + 1] == x);
                assert(a.to_set().contains(x));
                assert(b.contains(x));
                let n = choose|n: int| 0 <= n < b.len() && b[n] == x;
                assert(t[n - 1] == x);
            }
            if t.contains(x) {
                let m = choose|m: int| 0 <= m < t.len() && t[m] == x;
                assert(b[m + 1] == x);
                assert(b.to_set().contains(x));
                assert(a.contains(x));
                let n = choose|n: int| 0 <= n < a.len() && a[n] == x;
                assert(s[n - 1] == x);
            }
        }
        assert(s.to_set() =~= t.to_set());
        lemma_listing_unique(s, t);
        assert(a =~= seq![a[0]] + s);
        assert(b =~= seq![b[0]] + t);
    }
}

/// A list holds the texts of a set, in ascending order.
pub open spec fn is_listing(list: Seq<Text>, s: Set<Text>) -> bool {
    ascending(list) && list.to_set() == s
}

/// The texts of a finite set, in ascending order.
pub open spec fn listing(s: Set<Text>) -> Seq<Text> {
    choose|list: Seq<Text>| is_listing(list, s)
}

/// An ascending list of the texts of a set is the listing of the set.
pub proof fn lemma_listing(list: Seq<Text>, s: Set<Text>)
    requires
        is_listing(list, s),
    ensures
        listing(s) == list,
{
    lemma_listing_unique(list, listing(s));
}

/// Without its first text, a set is listed by the rest of its listing.
pub proof fn lemma_listing_rest(s: Set<Text>)
    requires
        is_listing(listing(s), s),
        listing(s).len() > 0,
    ensures
        s.contains(listing(s)[0]),
        is_listing(listing(s).skip(1), s.remove(listing(s)[0])),
        listing(s.remove(listing(s)[0])) == listing(s).skip(1),
{
    let l = listing(s);
    let t = l.skip(1);
    lemma_ascending_distinct(l);
    assert(l.to_set().contains(l[0]));
    assert forall|x: Text| t.to_set().contains(x) == s.remove(l[0]).contains(x) by {
        if t.contains(x) {
            let i = choose|i: int| 0 <= i < t.len() && t[i] == x;
            assert(l[i + 1] == x);
            assert(l.to_set().contains(x));
        }
        if s.contains(x) && x != l[0] {
            assert(l.to_set().contains(x));
            let i = choose|i: int| 0 <= i < l.len() && l[i] == x;
            assert(t[i - 1] == x);
        }
    }
    assert(t.to_set() =~= s.remove(l[0]));
    assert forall|i: int, j: int|
        #![trigger t[i], t[j]]
        0 <= i < j < t.len() implies comes_before(t[i], t[j]) by {
        assert(t[i] == l[i + 1]);
        assert(t[j] == l[j + 1]);
    }
    lemma_listing(t, s.remove(l[0]));
}

/// A text that is missing in an ascending list can be put into it.
proof fn lemma_placed(list: Seq<Text>, name: Text) -> (at: int)
    requires
        ascending(list),
        !list.contains(name),
    ensures
        0 <= at <= list.len(),
        ascending(list.insert(at, name)),
        list.insert(at, name).to_set() == list.to_set().insert(name),
    decreases list.len(),
{
    let at = lemma_place_from(list, name, 0);
    lemma_insert_ascending(list, at, name);
    let r = list.insert(at, name);
    assert forall|x: Text| r.to_set().contains(x) == list.to_set().insert(name).contains(x) by {
        if r.contains(x) {
            let k = choose|k: int| 0 <= k < r.len() && r[k] == x;
            if k < at {
                assert(list[k] == x);
            } else if k > at {
                assert(list[k - 1] == x);
            }
        }
        if list.contains(x) {
            let k = choose|k: int| 0 <= k < list.len() && list[k] == x;
            if k < at {
                assert(r[k] == x);
            } else {
                assert(r[k + 1] == x);
            }
        }
        if x == name {
            assert(r[at] == x);
        }
    }
    assert(r.to_set() =~= list.to_set().insert(name));
    at
}

/// The place of a text that is missing in an ascending list.
proof fn lemma_place_from(list: Seq<Text>, name: Text, i: int) -> (at: int)
    requires
        ascending(list),
        !list.contains(name),
        0 <= i <= list.len(),
        forall|j: int| 0 <= j < i ==> comes_before(#[trigger] list[j], name),
    ensures
        0 <= at <= list.len(),
        forall|j: int| 0 <= j < at ==> comes_before(#[trigger] list[j], name),
        forall|j: int| at <= j < list.len() ==> comes_before(name, #[trigger] list[j]),
    decreases list.len() - i,
{
    if i == list.len() {
        i
    } else {
        lemma_order_total(list[i], name);
        assert(list.contains(list[i]));
        if comes_before(list[i], name) {
            lemma_place_from(list, name, i + 1)
        } else {
            assert forall|j: int| i <= j < list.len() implies comes_before(name, #[trigger] list[j]) by {
                if j > i {
                    lemma_order_transitive(name, list[i], list[j]);
                }
            }
            i
        }
    }
}

/// Every finite set of texts can be listed in ascending order.
pub proof fn lemma_finite_listed(s: Set<Text>)
    requires
        s.finite(),
    ensures
        is_listing(listing(s), s),
        listing(s).len() == s.len(),
    decreases s.len(),
{
    if s.len() == 0 {
        let l = Seq::<Text>::empty();
        assert(s =~= Set::<Text>::empty());
        assert(l.to_set() =~= s);
        assert(is_listing(l, s));
    } else {
        let x = s.choose();
        let t = s.remove(x);
        lemma_finite_listed(t);
        let l = listing(t);
        if l.contains(x) {
            assert(l.to_set().contains(x));
        }
        let at = lemma_placed(l, x);
        assert(t.insert(x) =~= s);
        assert(is_listing(l.insert(at, x), s));
    }
    lemma_ascending_distinct(listing(s));
    listing(s).unique_seq_to_set();
}

/// A map from names to values.
pub struct NameMap<V> {
    names: Vec<String>,
    values: Vec<V>,
}

impl<V> NameMap<V> {
    /// The names in the map, in ascending order.
    pub closed spec fn names(&self) -> Seq<Text> {
        texts(self.names@)
    }

    /// The values in the map, in the order of their names.
    pub closed spec fn values(&self) -> Seq<V> {
        self.values@
    }

    /// Each name has one value, and the names ascend.
    pub open spec fn wf(&self) -> bool {
        &&& self.names().len() == self.values().len()
        &&& ascending(self.names())
    }
}

impl<V> View for NameMap<V> {
    type V = Map<Text, V>;

    open spec fn view(&self) -> Map<Text, V> {
        Map::new(
            |n: Text| self.names().contains(n),
            |n: Text| self.values()[self.names().index_of(n)],
        )
    }
}

impl<V> NameMap<V> {
    /// What stands at a position is what the map gives for the name there.
    pub proof fn lemma_at(&self, i: int)
        requires
            self.wf(),
            0 <= i < self.names().len(),
        ensures
            self@.contains_key(self.names()[i]),
            self@[self.names()[i]] == self.values()[i],
    {
        let n = self.names()[i];
        assert(self.names().contains(n));
        lemma_ascending_distinct(self.names());
        let j = self.names().index_of(n);
        assert(self.names()[j] == n);
        assert(i == j);
    }

    /// The names of the map are its keys.
    pub proof fn lemma_names(&self)
        requires
            self.wf(),
        ensures
            is_listing(self.names(), self@.dom()),
            listing(self@.dom()) == self.names(),
            self@.dom().finite(),
            self@.dom().len() == self.names().len(),
    {
        assert(self.names().to_set() =~= self@.dom());
        lemma_listing(self.names(), self@.dom());
        lemma_ascending_distinct(self.names());
        self.names().unique_seq_to_set();
        vstd::seq_lib::seq_to_set_is_finite(self.names());
    }

    /// A map without names.
    pub fn new() -> (r: Self)
        ensures
            r.wf(),
            r@ == Map::<Text, V>::empty(),
            r.names() == Seq::<Text>::empty(),
    {
        let r = NameMap { names: Vec::new(), values: Vec::new() };
        assert(r.names() =~= Seq::<Text>::empty());
        assert(r@ =~= Map::<Text, V>::empty());
        r
    }

    /// How many names the map holds.
    pub fn len(&self) -> (r: usize)
        requires
            self.wf(),
        ensures
            r == self.names().len(),
            r == self@.dom().len(),
    {
        proof {
            self.lemma_names();
        }
        self.names.len()
    }

    /// The name at a position.
    pub fn name_at(&self, i: usize) -> (r: &String)
        requires
            self.wf(),
            i < self.names().len(),
        ensures
            r@ == self.names()[i as int],
            self@.contains_key(r@),
    {
        proof {
            self.lemma_at(i as int);
        }
        &self.names[i]
    }

    /// The value at a position.
    pub fn value_at(&self, i: usize) -> (r: &V)
        requires
            self.wf(),
            i < self.names().len(),
        ensures
            *r == self.values()[i as int],
            *r == self@[self.names()[i as int]],
    {
        proof {
            self.lemma_at(i as int);
        }
        &self.values[i]
    }

    /// The first position whose name does not come before `name`.
    fn place(&self, name: &str) -> (r: usize)
        requires
            self.wf(),
        ensures
            r <= self.names().len(),
            forall|i: int| 0 <= i < r ==> comes_before(#[trigger] self.names()[i], name@),
            r < self.names().len() ==> self.names()[r as int] == name@ || comes_before(
                name@,
                self.names()[r as int],
            ),
    {
        let mut i: usize = 0;
        while i < self.names.len()
            invariant
                i <= self.names@.len(),
                forall|j: int| 0 <= j < i ==> comes_before(#[trigger] self.names()[j], name@),
            decreases self.names@.len() - i,
        {
            match rank(self.names[i].as_str(), name) {
                Rank::Before => {
                    i += 1;
                },
                _ => {
                    return i;
                },
            }
        }
        i
    }

    /// At the place of a name that is not there, the name itself is missing.
    proof fn lemma_missing(&self, name: Text, at: int)
        requires
            self.wf(),
            0 <= at <= self.names().len(),
            forall|i: int| 0 <= i < at ==> comes_before(#[trigger] self.names()[i], name),
            at < self.names().len() ==> comes_before(name, self.names()[at]),
        ensures
            !self@.contains_key(name),
            forall|i: int| at <= i < self.names().len() ==> comes_before(name, #[trigger] self.names()[i]),
    {
        assert forall|i: int| at <= i < self.names().len() implies comes_before(
            name,
            #[trigger] self.names()[i],
        ) by {
            if i > at {
                lemma_order_transitive(name, self.names()[at], self.names()[i]);
            }
        }
        if self.names().contains(name) {
            let k = choose|k: int| 0 <= k < self.names().len() && self.names()[k] == name;
            lemma_order_irreflexive(name);
            if k < at {
                assert(comes_before(self.names()[k], name));
            } else {
                assert(comes_before(name, self.names()[k]));
            }
        }
    }

    /// The position of a name.
    fn position(&self, name: &str) -> (r: Option<usize>)
        requires
            self.wf(),
        ensures
            match r {
                Some(i) => i < self.names().len() && self.names()[i as int] == name@
                    && self@.contains_key(name@) && self@[name@] == self.values()[i as int],
                None => !self@.contains_key(name@),
            },
    {
        let at = self.place(name);
        if at < self.names.len() {
            match rank(self.names[at].as_str(), name) {
                Rank::Same => {
                    proof {
                        self.lemma_at(at as int);
                    }
                    return Some(at);
                },
                Rank::Before => {
                    proof {
                        lemma_order_asymmetric(self.names()[at as int], name@);
                    }
                },
                Rank::After => {},
            }
        }
        proof {
            self.lemma_missing(name@, at as int);
        }
        None
    }

    /// Whether the map holds a name.
    pub fn contains_key(&self, name: &str) -> (r: bool)
        requires
            self.wf(),
        ensures
            r == self@.contains_key(name@),
    {
        self.position(name).is_some()
    }

    /// The value of a name.
    pub fn get(&self, name: &str) -> (r: Option<&V>)
        requires
            self.wf(),
        ensures
            match r {
                Some(v) => self@.contains_key(name@) && *v == self@[name@],
                None => !self@.contains_key(name@),
            },
    {
        match self.position(name) {
            Some(i) => Some(&self.values[i]),
            None => None,
        }
    }

    /// The value of a name, to be changed in place.
    pub fn get_mut(&mut self, name: &str) -> (r: Option<&mut V>)
        requires
            old(self).wf(),
        ensures
            match r {
                Some(v) => {
                    &&& old(self)@.contains_key(name@)
                    &&& *v == old(self)@[name@]
                    &&& final(self).wf()
                    &&& final(self).names() == old(self).names()
                    &&& final(self)@ == old(self)@.insert(name@, *final(v))
                },
                None => !old(self)@.contains_key(name@) && *final(self) == *old(self),
            },
    {
        let ghost before = *self;
        match self.position(name) {
            Some(i) => {
                proof {
                    assert forall|v: V| #![trigger before.values().update(i as int, v)] true implies
                        replaced(before.names(), before.values().update(i as int, v))
                        =~= before@.insert(name@, v) by {
                        lemma_replaced(before, i as int, v);
                    }
                }
                Some(&mut self.values[i])
            },
            None => None,
        }
    }

    /// Gives a name a value, in place of the one that it had.
    pub fn insert(&mut self, name: String, value: V)
        requires
            old(self).wf(),
        ensures
            final(self).wf(),
            final(self)@ == old(self)@.insert(name@, value),
            old(self)@.contains_key(name@) ==> final(self).names() == old(self).names(),
    {
        let ghost before = *self;
        match self.position(name.as_str()) {
            Some(i) => {
                self.values.set(i, value);
                proof {
                    assert(self.names() == before.names());
                    assert(self@.dom() =~= before@.insert(name@, value).dom());
                    assert forall|n: Text| self@.contains_key(n) implies self@[n]
                        == before@.insert(name@, value)[n] by {
                        let k = before.names().index_of(n);
                        assert(before.names()[k] == n);
                        self.lemma_at(k);
                        before.lemma_at(k);
                        lemma_ascending_distinct(before.names());
                    }
                    assert(self@ =~= before@.insert(name@, value));
                }
            },
            None => {
                let at = self.place(name.as_str());
                let ghost n0 = name@;
                proof {
                    if at < before.names().len() {
                        before.lemma_at(at as int);
                    }
                    before.lemma_missing(n0, at as int);
                }
                self.names.insert(at, name);
                self.values.insert(at, value);
                proof {
                    assert(self.names() =~= before.names().insert(at as int, n0));
                    assert(self.values() =~= before.values().insert(at as int, value));
                    lemma_insert_ascending(before.names(), at as int, n0);
                    assert forall|n: Text| self@.contains_key(n) == before@.insert(n0, value).contains_key(
                        n,
                    ) by {
                        if self.names().contains(n) {
                            let k = self.names().index_of(n);
                            if k < at {
                                assert(before.names()[k] == n);
                            } else if k > at {
                                assert(before.names()[k - 1] == n);
                            }
                        }
                        if before.names().contains(n) {
                            let k = before.names().index_of(n);
                            if k < at {
                                assert(self.names()[k] == n);
                            } else {
                                assert(self.names()[k + 1] == n);
                            }
                        }
                        if n == n0 {
                            assert(self.names()[at as int] == n);
                        }
                    }
                    assert forall|n: Text| self@.contains_key(n) implies self@[n]
                        == before@.insert(n0, value)[n] by {
                        let k = self.names().index_of(n);
                        assert(self.names()[k] == n);
                        self.lemma_at(k);
                        if k < at {
                            before.lemma_at(k);
                        } else if k > at {
                            before.lemma_at(k - 1);
                        }
                    }
                    assert(self@ =~= before@.insert(n0, value));
                }
            },
        }
    }

    /// Takes a name out of the map.
    pub fn remove(&mut self, name: &str)
        requires
            old(self).wf(),
        ensures
            final(self).wf(),
            final(self)@ == old(self)@.remove(name@),
    {
        let ghost before = *self;
        match self.position(name) {
            Some(i) => {
                self.names.remove(i);
                self.values.remove(i);
                proof {
                    assert(self.names() =~= before.names().remove(i as int));
                    assert(self.values() =~= before.values().remove(i as int));
                    lemma_ascending_distinct(before.names());
                    assert forall|j: int, k: int|
                        #![trigger self.names()[j], self.names()[k]]
                        0 <= j < k < self.names().len() implies comes_before(
                        self.names()[j],
                        self.names()[k],
                    ) by {
                        let j1 = if j < i {
                            j
                        } else {
                            j + 1
                        };
                        let k1 = if k < i {
                            k
                        } else {
                            k + 1
                        };
                        assert(comes_before(before.names()[j1], before.names()[k1]));
                    }
                    assert forall|n: Text| self@.contains_key(n) == before@.remove(name@).contains_key(n) by {
                        if self.names().contains(n) {
                            let k = self.names().index_of(n);
                            if k < i {
                                assert(before.names()[k] == n);
                            } else {
                                assert(before.names()[k + 1] == n);
                            }
                        }
                        if before.names().contains(n) && n != name@ {
                            let k = before.names().index_of(n);
                            if k < i {
                                assert(self.names()[k] == n);
                            } else {
                                assert(self.names()[k - 1] == n);
                            }
                        }
                    }
                    assert forall|n: Text| self@.contains_key(n) implies self@[n] == before@.remove(
                        name@,
                    )[n] by {
                        let k = self.names().index_of(n);
                        assert(self.names()[k] == n);
                        self.lemma_at(k);
                        if k < i {
                            before.lemma_at(k);
                        } else {
                            before.lemma_at(k + 1);
                        }
                    }
                    assert(self@ =~= before@.remove(name@));
                }
            },
            None => {
                assert(before@ =~= before@.remove(name@));
            },
        }
    }

    /// Takes all names out of the map.
    pub fn clear(&mut self)
        ensures
            final(self).wf(),
            final(self)@ == Map::<Text, V>::empty(),
            final(self).names() == Seq::<Text>::empty(),
    {
        self.names.clear();
        self.values.clear();
        assert(self.names() =~= Seq::<Text>::empty());
        assert(self@ =~= Map::<Text, V>::empty());
    }
}

/// The map that a list of names and a list of their values stand for.
spec fn replaced<V>(names: Seq<Text>, values: Seq<V>) -> Map<Text, V> {
    Map::new(|n: Text| names.contains(n), |n: Text| values[names.index_of(n)])
}

/// A new value at a position is a new value of the name there.
proof fn lemma_replaced<V>(m: NameMap<V>, i: int, v: V)
    requires
        m.wf(),
        0 <= i < m.names().len(),
    ensures
        replaced(m.names(), m.values().update(i, v)) == m@.insert(m.names()[i], v),
{
    let r = replaced(m.names(), m.values().update(i, v));
    let t = m@.insert(m.names()[i], v);
    lemma_ascending_distinct(m.names());
    m.lemma_at(i);
    assert(r.dom() =~= t.dom());
    assert forall|n: Text| r.contains_key(n) implies r[n] == t[n] by {
        let k = m.names().index_of(n);
        assert(m.names()[k] == n);
        m.lemma_at(k);
    }
    assert(r =~= t);
}

/// A text put at its place in an ascending list leaves the list ascending.
proof fn lemma_insert_ascending(list: Seq<Text>, at: int, name: Text)
    requires
        ascending(list),
        0 <= at <= list.len(),
        forall|i: int| 0 <= i < at ==> comes_before(#[trigger] list[i], name),
        forall|i: int| at <= i < list.len() ==> comes_before(name, #[trigger] list[i]),
    ensures
        ascending(list.insert(at, name)),
{
    let r = list.insert(at, name);
    assert forall|i: int, j: int|
        #![trigger r[i], r[j]]
        0 <= i < j < r.len() implies comes_before(r[i], r[j]) by {
        if i < at {
            assert(r[i] == list[i]);
        } else if i > at {
            assert(r[i] == list[i - 1]);
        }
        if j < at {
            assert(r[j] == list[j]);
        } else if j > at {
            assert(r[j] == list[j - 1]);
        }
    }
}

/// A set of names.
pub struct NameSet {
    members: NameMap<()>,
}

impl NameSet {
    /// The names in the set, in ascending order.
    pub closed spec fn names(&self) -> Seq<Text> {
        self.members.names()
    }

    /// The names of the set ascend.
    pub closed spec fn wf(&self) -> bool {
        self.members.wf()
    }
}

impl View for NameSet {
    type V = Set<Text>;

    closed spec fn view(&self) -> Set<Text> {
        self.members@.dom()
    }
}

impl NameSet {
    /// The listing of a set is ascending and holds its names and no others.
    pub proof fn lemma_names(&self)
        requires
            self.wf(),
        ensures
            is_listing(self.names(), self@),
            listing(self@) == self.names(),
            self.names().no_duplicates(),
            self@.finite(),
            forall|n: Text| #![trigger self@.contains(n)] self@.contains(n) == self.names().contains(n),
    {
        self.members.lemma_names();
        lemma_ascending_distinct(self.names());
        assert(self.names().to_set() =~= self@);
    }

    /// A set without names.
    pub fn new() -> (r: Self)
        ensures
            r.wf(),
            r@ == Set::<Text>::empty(),
            r.names() == Seq::<Text>::empty(),
    {
        let r = NameSet { members: NameMap::new() };
        assert(r@ =~= Set::<Text>::empty());
        r
    }

    /// How many names the set holds.
    pub fn len(&self) -> (r: usize)
        requires
            self.wf(),
        ensures
            r == self.names().len(),
            r == self@.len(),
    {
        self.members.len()
    }

    /// The name at a position of the listing.
    pub fn name_at(&self, i: usize) -> (r: &String)
        requires
            self.wf(),
            i < self.names().len(),
        ensures
            r@ == self.names()[i as int],
            self@.contains(r@),
    {
        self.members.name_at(i)
    }

    /// Whether the set holds a name.
    pub fn contains(&self, name: &str) -> (r: bool)
        requires
            self.wf(),
        ensures
            r == self@.contains(name@),
    {
        self.members.contains_key(name)
    }

    /// Puts a name into the set.
    pub fn insert(&mut self, name: String)
        requires
            old(self).wf(),
        ensures
            final(self).wf(),
            final(self)@ == old(self)@.insert(name@),
    {
        let ghost before = self.members@;
        self.members.insert(name, ());
        assert(self@ =~= before.dom().insert(name@));
    }

    /// Takes a name out of the set.
    pub fn remove(&mut self, name: &str)
        requires
            old(self).wf(),
        ensures
            final(self).wf(),
            final(self)@ == old(self)@.remove(name@),
    {
        let ghost before = self.members@;
        self.members.remove(name);
        assert(self@ =~= before.dom().remove(name@));
    }
}

} // verus!
