//! How many times each repository was built.

use vstd::prelude::*;
use crate::text::Text;

verus! {

/// How many times a repository was built.
#[derive(Debug)]
pub struct BuildCount {
    pub name: String,
    pub builds: usize,
}

impl View for BuildCount {
    type V = (Text, usize);

    open spec fn view(&self) -> (Text, usize) {
        (self.name@, self.builds)
    }
}

/// The counts of a list.
pub open spec fn counts(list: Seq<BuildCount>) -> Seq<(Text, usize)> {
    Seq::new(list.len(), |i: int| list[i]@)
}

/// The counts that are a given number, in their order.
pub open spec fn with_builds(list: Seq<(Text, usize)>, builds: usize) -> Seq<(Text, usize)> {
    list.filter(|c: (Text, usize)| c.1 == builds)
}

/// No count stands before a smaller one.
pub open spec fn rising(list: Seq<(Text, usize)>) -> bool {
    forall|i: int, j: int|
        #![trigger list[i], list[j]]
        0 <= i < j < list.len() ==> list[i].1 <= list[j].1
}

/// A list is another one, put in order: counts do not fall, and repositories
/// with the same count stand as they stood.
pub open spec fn is_sorted_form(sorted: Seq<(Text, usize)>, list: Seq<(Text, usize)>) -> bool {
    &&& rising(sorted)
    &&& forall|builds: usize| #[trigger] with_builds(sorted, builds) == with_builds(list, builds)
}

/// The sum of all counts.
pub open spec fn total(list: Seq<(Text, usize)>) -> int
    decreases list.len(),
{
    if list.len() == 0 {
        0
    } else {
        total(list.drop_last()) + list.last().1
    }
}

/// No count of a list is a given number.
proof fn lemma_none_with(list: Seq<(Text, usize)>, builds: usize)
    requires
        forall|i: int| 0 <= i < list.len() ==> (#[trigger] list[i]).1 != builds,
    ensures
        with_builds(list, builds) == Seq::<(Text, usize)>::empty(),
    decreases list.len(),
{
    reveal(Seq::filter);
    if list.len() > 0 {
        lemma_none_with(list.drop_last(), builds);
    }
}

/// A count put behind all that are no larger and before all that are.
proof fn lemma_put(list: Seq<(Text, usize)>, at: int, c: (Text, usize))
    requires
        rising(list),
        0 <= at <= list.len(),
        forall|i: int| 0 <= i < at ==> (#[trigger] list[i]).1 <= c.1,
        forall|i: int| at <= i < list.len() ==> (#[trigger] list[i]).1 > c.1,
    ensures
        rising(list.insert(at, c)),
        forall|builds: usize| #[trigger] with_builds(list.insert(at, c), builds) == with_builds(
            list,
            builds,
        ) + with_builds(seq![c], builds),
{
    let head = list.take(at);
    let tail = list.skip(at);
    let new = list.insert(at, c);
    assert(new =~= (head + seq![c]) + tail);
    assert(list =~= head + tail);
    assert forall|i: int, j: int|
        #![trigger new[i], new[j]]
        0 <= i < j < new.len() implies new[i].1 <= new[j].1 by {
        if i < at {
            assert(new[i] == list[i]);
        } else if i > at {
            assert(new[i] == list[i - 1]);
        }
        if j < at {
            assert(new[j] == list[j]);
        } else if j > at {
            assert(new[j] == list[j - 1]);
        }
    }
    assert forall|builds: usize| #[trigger] with_builds(new, builds) == with_builds(list, builds)
        + with_builds(seq![c], builds) by {
        let pred = |c: (Text, usize)| c.1 == builds;
        Seq::filter_distributes_over_add(head + seq![c], tail, pred);
        Seq::filter_distributes_over_add(head, seq![c], pred);
        Seq::filter_distributes_over_add(head, tail, pred);
        if builds == c.1 {
            assert forall|i: int| 0 <= i < tail.len() implies (#[trigger] tail[i]).1 != builds by {
                assert(tail[i] == list[at + i]);
            }
            lemma_none_with(tail, builds);
        } else {
            lemma_none_with(seq![c], builds);
        }
        assert(with_builds(new, builds) =~= with_builds(list, builds) + with_builds(
            seq![c],
            builds,
        ));
    }
}

/// Puts the counts in order.
pub fn sort_counts(list: Vec<BuildCount>) -> (r: Vec<BuildCount>)
    ensures
        is_sorted_form(counts(r@), counts(list@)),
{
    let ghost all = counts(list@);
    let mut rest = list;
    let mut sorted: Vec<BuildCount> = Vec::new();
    proof {
        assert forall|builds: usize| #[trigger] with_builds(all, builds) == with_builds(
            counts(sorted@),
            builds,
        ) + with_builds(counts(rest@), builds) by {
            lemma_none_with(counts(sorted@), builds);
            assert(with_builds(all, builds) =~= with_builds(counts(sorted@), builds) + with_builds(
                counts(rest@),
                builds,
            ));
        }
    }
    while rest.len() > 0
        invariant
            rising(counts(sorted@)),
            forall|builds: usize| #[trigger] with_builds(all, builds) == with_builds(
                counts(sorted@),
                builds,
            ) + with_builds(counts(rest@), builds),
        decreases rest@.len(),
    {
        let ghost before = counts(sorted@);
        let ghost left = counts(rest@);
        let item = rest.remove(0);
        let ghost c = item@;
        let mut at: usize = 0;
        while at < sorted.len() && sorted[at].builds <= item.builds
            invariant
                at <= sorted@.len(),
                before == counts(sorted@),
                forall|i: int| 0 <= i < at ==> (#[trigger] before[i]).1 <= item.builds,
            decreases sorted@.len() - at,
        {
            at += 1;
        }
        proof {
            assert forall|i: int| at <= i < before.len() implies (#[trigger] before[i]).1 > c.1 by {
                assert(before[at as int].1 > c.1);
            }
            lemma_put(before, at as int, c);
        }
        sorted.insert(at, item);
        proof {
            assert(counts(sorted@) =~= before.insert(at as int, c));
            assert(left =~= seq![c] + counts(rest@));
            assert forall|builds: usize| #[trigger] with_builds(all, builds) == with_builds(
                counts(sorted@),
                builds,
            ) + with_builds(counts(rest@), builds) by {
                let pred = |c: (Text, usize)| c.1 == builds;
                Seq::filter_distributes_over_add(seq![c], counts(rest@), pred);
                assert(with_builds(all, builds) =~= with_builds(counts(sorted@), builds)
                    + with_builds(counts(rest@), builds));
            }
        }
    }
    proof {
        assert forall|builds: usize| #[trigger] with_builds(counts(sorted@), builds) == with_builds(
            all,
            builds,
        ) by {
            lemma_none_with(counts(rest@), builds);
            assert(with_builds(all, builds) =~= with_builds(counts(sorted@), builds));
        }
    }
    sorted
}

/// The first counts of a list make up no more than all.
proof fn lemma_total_of_first(list: Seq<(Text, usize)>, n: int)
    requires
        0 <= n <= list.len(),
    ensures
        0 <= total(list.take(n)) <= total(list),
    decreases list.len(),
{
    if n == list.len() {
        assert(list.take(n) =~= list);
        if n > 0 {
            lemma_total_of_first(list.drop_last(), n - 1);
        }
    } else {
        lemma_total_of_first(list.drop_last(), n);
        assert(list.drop_last().take(n) =~= list.take(n));
    }
}

/// How many builds there were in all. The number must fit the machine.
pub fn total_builds(list: &Vec<BuildCount>) -> (r: usize)
    requires
        total(counts(list@)) <= usize::MAX,
    ensures
        r == total(counts(list@)),
{
    let ghost all = counts(list@);
    let mut sum: usize = 0;
    let mut i: usize = 0;
    while i < list.len()
        invariant
            all == counts(list@),
            i <= list@.len(),
            sum == total(all.take(i as int)),
            total(all) <= usize::MAX,
        decreases list@.len() - i,
    {
        proof {
            lemma_total_of_first(all, i + 1);
            assert(all.take(i + 1).drop_last() =~= all.take(i as int));
            assert(all.take(i + 1).last() == all[i as int]);
        }
        sum = sum + list[i].builds;
        i += 1;
    }
    assert(all.take(i as int) =~= all);
    sum
}

/// Counts that are put in order are the same counts: none falls below the one
/// before it, none is lost, and none is added.
pub proof fn law_sorting_keeps_all(sorted: Seq<(Text, usize)>, list: Seq<(Text, usize)>)
    requires
        is_sorted_form(sorted, list),
    ensures
        forall|i: int, j: int|
            #![trigger sorted[i], sorted[j]]
            0 <= i < j < sorted.len() ==> sorted[i].1 <= sorted[j].1,
        sorted.to_multiset() == list.to_multiset(),
        sorted.len() == list.len(),
{
    broadcast use vstd::seq_lib::group_to_multiset_ensures;

    assert forall|c: (Text, usize)| sorted.to_multiset().count(c) == list.to_multiset().count(c) by {
        lemma_count_with(sorted, c);
        lemma_count_with(list, c);
        assert(with_builds(sorted, c.1) == with_builds(list, c.1));
    }
    assert(sorted.to_multiset() =~= list.to_multiset());
    assert(sorted.to_multiset().len() == sorted.len());
    assert(list.to_multiset().len() == list.len());
}

/// A count occurs as often in a list as among those of the same number.
proof fn lemma_count_with(list: Seq<(Text, usize)>, c: (Text, usize))
    ensures
        with_builds(list, c.1).to_multiset().count(c) == list.to_multiset().count(c),
    decreases list.len(),
{
    broadcast use vstd::seq_lib::group_to_multiset_ensures;

    reveal(Seq::filter);
    if list.len() > 0 {
        let rest = list.drop_last();
        lemma_count_with(rest, c);
        assert(list =~= rest.push(list.last()));
        if list.last().1 == c.1 {
            assert(with_builds(list, c.1) =~= with_builds(rest, c.1).push(list.last()));
        } else {
            assert(with_builds(list, c.1) =~= with_builds(rest, c.1));
        }
    } else {
        assert(with_builds(list, c.1) =~= list);
    }
}

/// Of two counts with the same number, the one that stood first stands first.
pub proof fn law_sorting_is_stable(
    sorted: Seq<(Text, usize)>,
    list: Seq<(Text, usize)>,
    builds: usize,
    pred: spec_fn((Text, usize)) -> bool,
)
    requires
        is_sorted_form(sorted, list),
        forall|c: (Text, usize)| #[trigger] pred(c) == (c.1 == builds),
    ensures
        sorted.filter(pred) == list.filter(pred),
{
    assert(with_builds(sorted, builds) == with_builds(list, builds));
    lemma_with_is_filter(sorted, builds, pred);
    lemma_with_is_filter(list, builds, pred);
}

proof fn lemma_with_is_filter(
    list: Seq<(Text, usize)>,
    builds: usize,
    pred: spec_fn((Text, usize)) -> bool,
)
    requires
        forall|c: (Text, usize)| #[trigger] pred(c) == (c.1 == builds),
    ensures
        with_builds(list, builds) == list.filter(pred),
    decreases list.len(),
{
    reveal(Seq::filter);
    if list.len() > 0 {
        lemma_with_is_filter(list.drop_last(), builds, pred);
        assert(pred(list.last()) == (list.last().1 == builds));
    }
}

/// The sum of two lists of counts is that of both.
pub proof fn law_totals_add_up(a: Seq<(Text, usize)>, b: Seq<(Text, usize)>, c: (Text, usize))
    ensures
        total(Seq::empty()) == 0,
        total(seq![c]) == c.1,
        total(a + b) == total(a) + total(b),
    decreases b.len(),
{
    assert(seq![c].drop_last() =~= Seq::<(Text, usize)>::empty());
    assert(total(seq![c].drop_last()) == 0);
    if b.len() > 0 {
        law_totals_add_up(a, b.drop_last(), c);
        assert((a + b).drop_last() =~= a + b.drop_last());
    } else {
        assert(a + b =~= a);
    }
}

/// The counts of a list are those of its entries.
pub proof fn law_counts_are_those_of_the_entries(list: Seq<BuildCount>)
    ensures
        counts(list).len() == list.len(),
        forall|i: int|
            0 <= i < list.len() ==> #[trigger] counts(list)[i] == (list[i].name@, list[i].builds),
{
}

} // verus!
