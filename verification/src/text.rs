//! Texts as sequences of characters: their order, and the few operations on
//! them that the rest of the library is built from.

use vstd::prelude::*;

verus! {

/// What a text holds.
pub type Text = Seq<char>;

/// The texts that a list of strings holds, in its order.
pub open spec fn texts(list: Seq<String>) -> Seq<Text> {
    Seq::new(list.len(), |i: int| list[i]@)
}

/// A string appended to a list appends its text.
pub proof fn lemma_texts_push(list: Seq<String>, s: String)
    ensures
        texts(list.push(s)) == texts(list).push(s@),
{
    assert(texts(list.push(s)) =~= texts(list).push(s@));
}

/// The text that an optional string holds.
pub open spec fn opt_text(o: Option<String>) -> Option<Text> {
    match o {
        Some(s) => Some(s@),
        None => None,
    }
}

/// The texts that an optional list of strings holds.
pub open spec fn opt_texts(o: Option<Vec<String>>) -> Option<Seq<Text>> {
    match o {
        Some(v) => Some(texts(v@)),
        None => None,
    }
}

/// `a` and `b` agree before position `i`, and there `a` either ends first or
/// holds the smaller character.
pub open spec fn less_at(a: Text, b: Text, i: int) -> bool {
    &&& 0 <= i <= a.len()
    &&& i < b.len()
    &&& forall|j: int| 0 <= j < i ==> a[j] == b[j]
    &&& i < a.len() ==> (a[i] as int) < (b[i] as int)
}

/// The lexicographic order of texts by the code points of their characters.
pub open spec fn comes_before(a: Text, b: Text) -> bool {
    exists|i: int| less_at(a, b, i)
}

/// No text comes before itself.
pub proof fn lemma_order_irreflexive(a: Text)
    ensures
        !comes_before(a, a),
{
}

/// Of two texts at most one comes before the other.
pub proof fn lemma_order_asymmetric(a: Text, b: Text)
    requires
        comes_before(a, b),
    ensures
        !comes_before(b, a),
        a != b,
{
    let i = choose|i: int| less_at(a, b, i);
    if comes_before(b, a) {
        let j = choose|j: int| less_at(b, a, j);
        if i < j {
            assert(a[i] == b[i]);
        } else if j < i {
            assert(a[j] == b[j]);
        }
        assert(false);
    }
    if a == b {
        lemma_order_irreflexive(a);
    }
}

/// The order of texts is transitive.
pub proof fn lemma_order_transitive(a: Text, b: Text, c: Text)
    requires
        comes_before(a, b),
        comes_before(b, c),
    ensures
        comes_before(a, c),
{
    let i = choose|i: int| less_at(a, b, i);
    let j = choose|j: int| less_at(b, c, j);
    let k = if i < j {
        i
    } else {
        j
    };
    assert(less_at(a, c, k));
}

/// Texts that agree before position `i` are the same, or one of them comes
/// before the other.
proof fn lemma_order_total_from(a: Text, b: Text, i: int)
    requires
        0 <= i <= a.len(),
        i <= b.len(),
        forall|j: int| 0 <= j < i ==> a[j] == b[j],
    ensures
        a == b || comes_before(a, b) || comes_before(b, a),
    decreases a.len() - i,
{
    if i < a.len() && i < b.len() {
        if a[i] == b[i] {
            lemma_order_total_from(a, b, i + 1);
        } else if (a[i] as int) < (b[i] as int) {
            assert(less_at(a, b, i));
        } else {
            assert(less_at(b, a, i));
        }
    } else if i < b.len() {
        assert(less_at(a, b, i));
    } else if i < a.len() {
        assert(less_at(b, a, i));
    } else {
        assert(a =~= b);
    }
}

/// Of two different texts one comes before the other.
pub proof fn lemma_order_total(a: Text, b: Text)
    ensures
        a == b || comes_before(a, b) || comes_before(b, a),
{
    lemma_order_total_from(a, b, 0);
}

/// How one text stands to another in the order.
pub enum Rank {
    Before,
    Same,
    After,
}

/// The characters of a text.
pub fn chars_of(s: &str) -> (r: Vec<char>)
    ensures
        r@ == s@,
{
    let mut r: Vec<char> = Vec::new();
    for c in it: s.chars()
        invariant
            r@ == it.seq().take(it.index() as int),
            it.seq() == s@,
    {
        r.push(c);
    }
    r
}

/// Compares two texts.
pub fn rank(a: &str, b: &str) -> (r: Rank)
    ensures
        match r {
            Rank::Before => comes_before(a@, b@),
            Rank::Same => a@ == b@,
            Rank::After => comes_before(b@, a@),
        },
{
    let x = chars_of(a);
    let y = chars_of(b);
    let mut i: usize = 0;
    while i < x.len() && i < y.len()
        invariant
            x@ == a@,
            y@ == b@,
            i <= x@.len(),
            i <= y@.len(),
            forall|j: int| 0 <= j < i ==> a@[j] == b@[j],
        decreases x@.len() - i,
    {
        let c: char = x[i];
        let d: char = y[i];
        if c < d {
            assert(less_at(a@, b@, i as int));
            return Rank::Before;
        }
        if d < c {
            assert(less_at(b@, a@, i as int));
            return Rank::After;
        }
        i += 1;
    }
    if i < y.len() {
        assert(less_at(a@, b@, i as int));
        Rank::Before
    } else if i < x.len() {
        assert(less_at(b@, a@, i as int));
        Rank::After
    } else {
        assert(a@ =~= b@);
        Rank::Same
    }
}

/// Whether two texts are the same.
pub fn same(a: &str, b: &str) -> (r: bool)
    ensures
        r == (a@ == b@),
{
    match rank(a, b) {
        Rank::Same => true,
        Rank::Before => {
            proof {
                lemma_order_asymmetric(a@, b@);
            }
            false
        },
        Rank::After => {
            proof {
                lemma_order_asymmetric(b@, a@);
            }
            false
        },
    }
}

/// `part` stands in `whole` from position `i` on.
pub open spec fn part_at(whole: Text, part: Text, i: int) -> bool {
    &&& 0 <= i
    &&& i + part.len() <= whole.len()
    &&& forall|j: int| 0 <= j < part.len() ==> whole[i + j] == part[j]
}

/// `part` stands somewhere in `whole`.
pub open spec fn has_part(whole: Text, part: Text) -> bool {
    exists|i: int| part_at(whole, part, i)
}

/// Whether `part` stands somewhere in `whole`.
pub fn contains(whole: &str, part: &str) -> (r: bool)
    ensures
        r == has_part(whole@, part@),
{
    let w = chars_of(whole);
    let p = chars_of(part);
    if p.len() > w.len() {
        return false;
    }
    let n: usize = w.len();
    let last: usize = n - p.len();
    let mut i: usize = 0;
    while i <= last
        invariant
            w@ == whole@,
            p@ == part@,
            n == w@.len(),
            last == n - p@.len(),
            i <= last + 1,
            forall|k: int| 0 <= k < i ==> !part_at(whole@, part@, k),
        decreases last + 1 - i,
    {
        let mut j: usize = 0;
        while j < p.len() && w[i + j] == p[j]
            invariant
                w@ == whole@,
                p@ == part@,
                n == w@.len(),
                last == n - p@.len(),
                i <= last,
                j <= p@.len(),
                forall|k: int| 0 <= k < j ==> whole@[i + k] == part@[k],
            decreases p@.len() - j,
        {
            j += 1;
        }
        if j == p.len() {
            assert(part_at(whole@, part@, i as int));
            return true;
        }
        assert(whole@[i + j] != part@[j as int]);
        if i == last {
            return false;
        }
        i += 1;
    }
    false
}

/// The part of a text before its first occurrence of `mark`, or all of it
/// where `mark` does not occur.
pub open spec fn until(s: Text, mark: char) -> Text
    decreases s.len(),
{
    if s.len() == 0 || s[0] == mark {
        Seq::empty()
    } else {
        seq![s[0]] + until(s.skip(1), mark)
    }
}

/// Cuts a text before the first occurrence of `mark`.
pub fn cut_at(s: &str, mark: char) -> (r: String)
    ensures
        r@ == until(s@, mark),
{
    let n: usize = s.unicode_len();
    let mut i: usize = 0;
    assert(s@.skip(0) == s@);
    while i < n && s.get_char(i) != mark
        invariant
            n == s@.len(),
            i <= n,
            until(s@, mark) == s@.take(i as int) + until(s@.skip(i as int), mark),
        decreases n - i,
    {
        assert(s@.skip(i as int).skip(1) == s@.skip(i + 1));
        assert(s@.take(i + 1) == s@.take(i as int) + seq![s@[i as int]]);
        i += 1;
    }
    assert(until(s@.skip(i as int), mark) == Seq::<char>::empty());
    s.substring_char(0, i).to_owned()
}

/// The texts of a list with `sep` between each two of them.
pub open spec fn joined(list: Seq<Text>, sep: Text) -> Text
    decreases list.len(),
{
    if list.len() == 0 {
        Seq::empty()
    } else if list.len() == 1 {
        list[0]
    } else {
        joined(list.drop_last(), sep) + sep + list.last()
    }
}

/// Joins the strings of a list with `sep` between each two of them.
pub fn join(list: &Vec<String>, sep: &str) -> (r: String)
    ensures
        r@ == joined(texts(list@), sep@),
{
    let mut r = String::new();
    let mut i: usize = 0;
    while i < list.len()
        invariant
            i <= list@.len(),
            r@ == joined(texts(list@).take(i as int), sep@),
        decreases list@.len() - i,
    {
        if i > 0 {
            r.append(sep);
        }
        r.append(list[i].as_str());
        assert(texts(list@).take(i + 1).drop_last() == texts(list@).take(i as int));
        i += 1;
    }
    assert(texts(list@).take(i as int) == texts(list@));
    r
}

/// The concatenation of two texts.
pub fn concat2(a: &str, b: &str) -> (r: String)
    ensures
        r@ == a@ + b@,
{
    let mut r = a.to_owned();
    r.append(b);
    r
}

/// The concatenation of three texts.
pub fn concat3(a: &str, b: &str, c: &str) -> (r: String)
    ensures
        r@ == a@ + b@ + c@,
{
    let mut r = concat2(a, b);
    r.append(c);
    r
}

/// A copy of a list of strings.
pub fn copy_texts(list: &Vec<String>) -> (r: Vec<String>)
    ensures
        r@ == list@,
{
    let mut r: Vec<String> = Vec::new();
    let mut i: usize = 0;
    while i < list.len()
        invariant
            i <= list@.len(),
            r@ == list@.take(i as int),
        decreases list@.len() - i,
    {
        r.push(list[i].clone());
        i += 1;
    }
    r
}

/// A copy of an optional list of strings.
pub fn copy_opt_texts(o: &Option<Vec<String>>) -> (r: Option<Vec<String>>)
    ensures
        opt_texts(r) == opt_texts(*o),
{
    match o {
        Some(v) => Some(copy_texts(v)),
        None => None,
    }
}

/// A copy of an optional string.
pub fn copy_opt_text(o: &Option<String>) -> (r: Option<String>)
    ensures
        r == *o,
{
    match o {
        Some(s) => Some(s.clone()),
        None => None,
    }
}

/// Whether two lists hold the same texts in the same order.
pub fn same_texts(a: &Vec<String>, b: &Vec<String>) -> (r: bool)
    ensures
        r == (texts(a@) == texts(b@)),
{
    if a.len() != b.len() {
        assert(texts(a@).len() != texts(b@).len());
        return false;
    }
    let mut i: usize = 0;
    while i < a.len()
        invariant
            a@.len() == b@.len(),
            i <= a@.len(),
            forall|j: int| 0 <= j < i ==> a@[j]@ == b@[j]@,
        decreases a@.len() - i,
    {
        if a[i] != b[i] {
            assert(texts(a@)[i as int] != texts(b@)[i as int]);
            return false;
        }
        i += 1;
    }
    assert(texts(a@) =~= texts(b@));
    true
}

} // verus!
