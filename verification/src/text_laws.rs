//! What the operations on texts and paths give, told by the texts that they are
//! put together from.

use vstd::prelude::*;
use crate::name_map::{is_listing, lemma_finite_listed, listing};
use crate::paths::{cache_name_spec, is_definition_spec, join_spec, last_dot};
use crate::text::{
    comes_before, has_part, joined, lemma_order_asymmetric, lemma_order_total, less_at, opt_text,
    opt_texts, part_at, texts, until, Text,
};

verus! {

/// The texts of a list of strings are those of the strings, one by one.
pub proof fn law_texts_are_those_of_the_strings(list: Seq<String>, s: String, v: Vec<String>)
    ensures
        texts(list).len() == list.len(),
        forall|i: int| 0 <= i < list.len() ==> #[trigger] texts(list)[i] == list[i]@,
        opt_text(Some(s)) == Some(s@),
        opt_text(None) is None,
        opt_texts(Some(v)) == Some(texts(v@)),
        opt_texts(None) is None,
{
}

/// Of two texts that differ first in one character, the one with the smaller
/// character comes first; and a text comes before whatever goes on from it.
pub proof fn law_order_by_first_difference(start: Text, c: char, d: char, a: Text, b: Text)
    ensures
        (c as int) < (d as int) ==> comes_before(start.push(c) + a, start.push(d) + b),
        comes_before(start, start.push(c) + a),
{
    if (c as int) < (d as int) {
        assert(less_at(start.push(c) + a, start.push(d) + b, start.len() as int));
    }
    assert(less_at(start, start.push(c) + a, start.len() as int));
}

/// Of two texts one comes before the other, unless they are the same, and never
/// both.
pub proof fn law_one_text_comes_first(a: Text, b: Text)
    ensures
        a == b ==> !comes_before(a, b),
        a != b ==> comes_before(a, b) != comes_before(b, a),
{
    if a != b {
        lemma_order_total(a, b);
    }
    if comes_before(a, b) {
        lemma_order_asymmetric(a, b);
    }
    if comes_before(b, a) {
        lemma_order_asymmetric(b, a);
    }
}

/// A text holds a part wherever the part was put into it, and nowhere else.
pub proof fn law_parts(before: Text, part: Text, after: Text, whole: Text)
    ensures
        has_part(before + part + after, part),
        has_part(whole, part) ==> exists|a: Text, b: Text| #![trigger a + part + b] whole == a + part + b,
{
    assert(part_at(before + part + after, part, before.len() as int));
    if has_part(whole, part) {
        let i = choose|i: int| part_at(whole, part, i);
        let a = whole.take(i);
        let b = whole.skip(i + part.len());
        assert(whole =~= a + part + b);
    }
}

/// A text is cut before the first mark in it, and is taken whole where there is
/// none.
pub proof fn law_cut_before_the_mark(start: Text, mark: char, rest: Text)
    requires
        !start.contains(mark),
    ensures
        until(start, mark) == start,
        until(start.push(mark) + rest, mark) == start,
    decreases start.len(),
{
    let whole = start.push(mark) + rest;
    if start.len() > 0 {
        assert(start.contains(start[0]));
        let tail = start.skip(1);
        assert(!tail.contains(mark)) by {
            if tail.contains(mark) {
                let i = choose|i: int| 0 <= i < tail.len() && tail[i] == mark;
                assert(start[i + 1] == mark);
            }
        }
        law_cut_before_the_mark(tail, mark, rest);
        assert(whole.skip(1) =~= tail.push(mark) + rest);
        assert(seq![start[0]] + tail =~= start);
    } else {
        assert(until(start, mark) =~= start);
        assert(whole[0] == mark);
        assert(until(whole, mark) =~= start);
    }
}

/// Lists that are joined after each other are joined with one separator between
/// them; one text alone is joined without any.
pub proof fn law_joining(a: Seq<Text>, b: Seq<Text>, sep: Text, x: Text)
    ensures
        joined(Seq::empty(), sep) == Seq::<char>::empty(),
        joined(seq![x], sep) == x,
        a.len() > 0 && b.len() > 0 ==> joined(a + b, sep) == joined(a, sep) + sep + joined(b, sep),
    decreases b.len(),
{
    if a.len() > 0 && b.len() > 0 {
        let all = a + b;
        let rest = b.drop_last();
        assert(all.drop_last() =~= a + rest);
        assert(all.last() == b.last());
        if b.len() == 1 {
            assert(a + rest =~= a);
        } else {
            law_joining(a, rest, sep, x);
            assert(joined(all, sep) =~= joined(a, sep) + sep + joined(b, sep));
        }
    }
}

/// The listing of a finite set holds each of its texts once, and each before all
/// that it comes before.
pub proof fn law_listing_is_sorted(s: Set<Text>)
    requires
        s.finite(),
    ensures
        listing(s).len() == s.len(),
        forall|x: Text| s.contains(x) == #[trigger] listing(s).contains(x),
        forall|i: int, j: int|
            #![trigger listing(s)[i], listing(s)[j]]
            0 <= i < j < listing(s).len() ==> comes_before(listing(s)[i], listing(s)[j]),
{
    lemma_finite_listed(s);
    assert(is_listing(listing(s), s));
    assert forall|x: Text| s.contains(x) == #[trigger] listing(s).contains(x) by {
        assert(listing(s).to_set().contains(x) == s.contains(x));
    }
}

/// A path that starts with a slash stays as it is, and so does one that is seen
/// from nowhere. Any other stands below the directory that it is seen from, with
/// one slash between them.
pub proof fn law_joined_paths(base: Text, path: Text, c: char)
    requires
        c != '/',
    ensures
        join_spec(base, seq!['/'] + path) == seq!['/'] + path,
        join_spec(Seq::empty(), path) == path,
        join_spec(base.push('/'), seq![c] + path) == base.push('/') + seq![c] + path,
        join_spec(base.push(c), Seq::empty()) == base.push(c).push('/'),
        join_spec(base.push('/'), Seq::empty()) == base.push('/'),
        forall|d: char| d != '/' ==> #[trigger] join_spec(base.push(d), seq![c] + path) == base.push(d)
            + seq!['/'] + seq![c] + path,
{
    reveal_strlit("/");
    assert("/"@ =~= seq!['/']);
    assert((seq!['/'] + path)[0] == '/');
    assert((seq![c] + path)[0] == c);
    assert(base.push('/').last() == '/');
    assert(base.push(c).last() == c);
    assert(join_spec(base.push('/'), seq![c] + path) =~= base.push('/') + seq![c] + path);
    assert(join_spec(base.push(c), Seq::empty()) =~= base.push(c).push('/'));
    assert(join_spec(base.push('/'), Seq::empty()) =~= base.push('/'));
    assert forall|d: char| d != '/' implies #[trigger] join_spec(base.push(d), seq![c] + path) == base.push(
        d,
    ) + seq!['/'] + seq![c] + path by {
        assert(base.push(d).last() == d);
        assert(join_spec(base.push(d), seq![c] + path) =~= base.push(d) + seq!['/'] + seq![c] + path);
    }
}

/// A file describes a repository exactly where its name is something followed by
/// `.toml`.
pub proof fn law_descriptions_end_in_toml(name: Text, stem: Text)
    ensures
        stem.len() > 0 ==> is_definition_spec(stem + ".toml"@),
        is_definition_spec(name) ==> exists|s: Text| s.len() > 0 && name == #[trigger] (s + ".toml"@),
{
    reveal_strlit(".toml");
    let suffix = ".toml"@;
    if stem.len() > 0 {
        assert(part_at(stem + suffix, suffix, (stem + suffix).len() - suffix.len()));
    }
    if is_definition_spec(name) {
        let n = name.len() - suffix.len();
        let s = name.take(n);
        assert forall|j: int| 0 <= j < suffix.len() implies name[n + j] == suffix[j] by {
        }
        assert(name =~= s + suffix);
    }
}

/// Where no dot stands in the end of a name, the last dot of it is the last one
/// before that.
proof fn lemma_last_dot(start: Text, end: Text)
    requires
        !end.contains('.'),
    ensures
        last_dot(start.push('.') + end) == start.len(),
        last_dot(end) == -1,
    decreases end.len(),
{
    let name = start.push('.') + end;
    if end.len() == 0 {
        assert(name.last() == '.');
    } else {
        let rest = end.drop_last();
        assert(end.contains(end.last()));
        assert(!rest.contains('.')) by {
            if rest.contains('.') {
                let i = choose|i: int| 0 <= i < rest.len() && rest[i] == '.';
                assert(end[i] == '.');
            }
        }
        lemma_last_dot(start, rest);
        assert(name.drop_last() =~= start.push('.') + rest);
        assert(name.last() == end.last());
    }
}

/// The cache of a repository is kept under the name of its description, with what
/// follows the last dot, or nothing, replaced by `toml.cache`. A dot that the
/// name starts with does not count.
pub proof fn law_names_of_caches(stem: Text, extension: Text)
    requires
        !extension.contains('.'),
    ensures
        stem.len() > 0 ==> cache_name_spec(stem.push('.') + extension) == stem + ".toml.cache"@,
        cache_name_spec(extension) == extension + ".toml.cache"@,
        cache_name_spec(seq!['.'] + extension) == seq!['.'] + extension + ".toml.cache"@,
{
    lemma_last_dot(stem, extension);
    lemma_last_dot(Seq::empty(), extension);
    let name = stem.push('.') + extension;
    assert(name.take(stem.len() as int) =~= stem);
    assert(Seq::<char>::empty().push('.') + extension =~= seq!['.'] + extension);
}

} // verus!
