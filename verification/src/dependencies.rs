//! The dependencies of repositories as a graph, and the walk that finds what a
//! repository depends on.
//!
//! The walk keeps a list of names still to be visited. It takes the last of
//! them, and puts the dependencies of that repository in its place. A name that
//! is not known has none, and is passed over. The walk stops when the list is
//! empty.

use vstd::prelude::*;
use crate::text::Text;

verus! {

/// For each repository the names that it lists as its dependencies.
pub type Graph = Map<Text, Seq<Text>>;

/// Each name of a list is a dependency of the one before it.
pub open spec fn is_chain(g: Graph, p: Seq<Text>) -> bool {
    forall|i: int|
        #![trigger p[i]]
        0 <= i < p.len() - 1 ==> g.contains_key(p[i]) && g[p[i]].contains(p[i + 1])
}

/// A chain of dependencies comes from one of some names to a name.
pub open spec fn chain_from(g: Graph, names: Seq<Text>, p: Seq<Text>, name: Text) -> bool {
    &&& p.len() > 0
    &&& is_chain(g, p)
    &&& names.contains(p[0])
    &&& p.last() == name
}

/// A name is among some names, or is depended on by one of them, directly or
/// not.
pub open spec fn reaches(g: Graph, names: Seq<Text>, name: Text) -> bool {
    exists|p: Seq<Text>| chain_from(g, names, p, name)
}

/// A repository depends on a name, directly or through others.
pub open spec fn depends_on(g: Graph, name: Text, dep: Text) -> bool {
    g.contains_key(name) && reaches(g, g[name], dep)
}

/// No repository depends on itself, directly or through others.
pub open spec fn acyclic(g: Graph) -> bool {
    forall|n: Text| !#[trigger] depends_on(g, n, n)
}

/// The names that a name lists. One that is not known lists none.
pub open spec fn lists(g: Graph, name: Text) -> Seq<Text> {
    if g.contains_key(name) {
        g[name]
    } else {
        Seq::empty()
    }
}

/// What some names reach is what one of them reaches.
pub proof fn lemma_reached_from(g: Graph, names: Seq<Text>, name: Text) -> (i: int)
    requires
        reaches(g, names, name),
    ensures
        0 <= i < names.len(),
        reaches(g, seq![names[i]], name),
{
    let p = choose|p: Seq<Text>| chain_from(g, names, p, name);
    let i = choose|i: int| 0 <= i < names.len() && names[i] == p[0];
    assert(seq![names[i]][0] == p[0]);
    assert(chain_from(g, seq![names[i]], p, name));
    i
}

/// What one of some names reaches, they reach.
pub proof fn lemma_reached_by_one(g: Graph, names: Seq<Text>, i: int, name: Text)
    requires
        0 <= i < names.len(),
        reaches(g, seq![names[i]], name),
    ensures
        reaches(g, names, name),
{
    let p = choose|p: Seq<Text>| chain_from(g, seq![names[i]], p, name);
    let k = choose|k: int| 0 <= k < 1 && seq![names[i]][k] == p[0];
    assert(names[i] == p[0]);
    assert(chain_from(g, names, p, name));
}

/// Some names reach each of themselves.
pub proof fn lemma_reaches_itself(g: Graph, names: Seq<Text>, i: int)
    requires
        0 <= i < names.len(),
    ensures
        reaches(g, names, names[i]),
{
    assert(chain_from(g, names, seq![names[i]], names[i]));
}

/// A name reaches itself and what it depends on, and nothing else.
pub proof fn lemma_reached_from_name(g: Graph, name: Text, x: Text)
    ensures
        reaches(g, seq![name], x) == (x == name || depends_on(g, name, x)),
{
    if reaches(g, seq![name], x) && x != name {
        let p = choose|p: Seq<Text>| chain_from(g, seq![name], p, x);
        let k = choose|k: int| 0 <= k < 1 && seq![name][k] == p[0];
        assert(p[0] == name);
        let q = p.skip(1);
        assert(g[p[0]].contains(p[1]));
        assert forall|j: int| #![trigger q[j]] 0 <= j < q.len() - 1 implies g.contains_key(q[j])
            && g[q[j]].contains(q[j + 1]) by {
            assert(q[j] == p[j + 1]);
            assert(q[j + 1] == p[j + 1 + 1]);
        }
        assert(chain_from(g, g[name], q, x));
    }
    if x == name {
        lemma_reaches_itself(g, seq![name], 0);
    }
    if depends_on(g, name, x) {
        let p = choose|p: Seq<Text>| chain_from(g, g[name], p, x);
        let q = seq![name] + p;
        assert forall|j: int| #![trigger q[j]] 0 <= j < q.len() - 1 implies g.contains_key(q[j])
            && g[q[j]].contains(q[j + 1]) by {
            if j > 0 {
                assert(q[j] == p[j - 1]);
                assert(q[j + 1] == p[j - 1 + 1]);
            } else {
                assert(q[j + 1] == p[0]);
            }
        }
        assert(seq![name][0] == q[0]);
        assert(chain_from(g, seq![name], q, x));
    }
}

/// A repository depends on each name that it lists.
pub proof fn lemma_depends_on_listed(g: Graph, name: Text, i: int)
    requires
        g.contains_key(name),
        0 <= i < g[name].len(),
    ensures
        depends_on(g, name, g[name][i]),
{
    lemma_reaches_itself(g, g[name], i);
}

/// What a dependency of a repository depends on, the repository depends on.
pub proof fn law_dependencies_pass_on(g: Graph, a: Text, b: Text, c: Text)
    requires
        depends_on(g, a, b),
        depends_on(g, b, c),
    ensures
        depends_on(g, a, c),
{
    let p = choose|p: Seq<Text>| chain_from(g, g[a], p, b);
    let q = choose|q: Seq<Text>| chain_from(g, g[b], q, c);
    let r = p + q;
    assert forall|j: int| #![trigger r[j]] 0 <= j < r.len() - 1 implies g.contains_key(r[j])
        && g[r[j]].contains(r[j + 1]) by {
        if j + 1 < p.len() {
            assert(r[j] == p[j]);
            assert(r[j + 1] == p[j + 1]);
        } else if j + 1 == p.len() {
            assert(r[j] == p.last());
            assert(r[j + 1] == q[0]);
        } else {
            assert(r[j] == q[j - p.len()]);
            assert(r[j + 1] == q[j - p.len() + 1]);
        }
    }
    assert(r[0] == p[0]);
    assert(chain_from(g, g[a], r, c));
}

/// Each repository stands higher than all that it lists.
pub open spec fn ranked(g: Graph, height: spec_fn(Text) -> nat) -> bool {
    forall|n: Text, i: int|
        #![trigger g[n][i]]
        g.contains_key(n) && 0 <= i < g[n].len() ==> height(g[n][i]) < height(n)
}

/// Along a chain the heights fall.
proof fn lemma_chain_falls(g: Graph, height: spec_fn(Text) -> nat, p: Seq<Text>)
    requires
        ranked(g, height),
        is_chain(g, p),
        p.len() > 0,
    ensures
        height(p.last()) <= height(p[0]),
    decreases p.len(),
{
    if p.len() > 1 {
        let q = p.drop_last();
        assert forall|j: int| #![trigger q[j]] 0 <= j < q.len() - 1 implies g.contains_key(q[j])
            && g[q[j]].contains(q[j + 1]) by {
            assert(q[j] == p[j]);
            assert(q[j + 1] == p[j + 1]);
        }
        lemma_chain_falls(g, height, q);
        let a = p[p.len() - 2];
        assert(q.last() == a);
        assert(g[a].contains(p[p.len() - 2 + 1]));
        let i = choose|i: int| 0 <= i < g[a].len() && g[a][i] == p.last();
        assert(height(g[a][i]) < height(a));
    }
}

/// Where each repository can be put above all that it lists, none depends on
/// itself.
pub proof fn law_ranked_is_acyclic(g: Graph, height: spec_fn(Text) -> nat)
    requires
        ranked(g, height),
    ensures
        acyclic(g),
{
    assert forall|n: Text| !#[trigger] depends_on(g, n, n) by {
        if depends_on(g, n, n) {
            let p = choose|p: Seq<Text>| chain_from(g, g[n], p, n);
            lemma_chain_falls(g, height, p);
            let i = choose|i: int| 0 <= i < g[n].len() && g[n][i] == p[0];
            assert(height(g[n][i]) < height(n));
        }
    }
}

/// The names to be visited after the next one.
pub open spec fn after_visit(g: Graph, todo: Seq<Text>) -> Seq<Text> {
    todo.drop_last() + lists(g, todo.last())
}

/// The walk takes a number of visits from one list to another.
pub open spec fn leads(g: Graph, from: Seq<Text>, to: Seq<Text>, steps: nat) -> bool
    decreases steps,
{
    if steps == 0 {
        from == to
    } else {
        from.len() > 0 && leads(g, after_visit(g, from), to, (steps - 1) as nat)
    }
}

/// The walk stops after a number of visits.
pub open spec fn stops_after(g: Graph, todo: Seq<Text>, steps: nat) -> bool {
    leads(g, todo, Seq::empty(), steps)
}

/// What stands before the names to be visited makes no difference.
proof fn lemma_leads_below(g: Graph, below: Seq<Text>, from: Seq<Text>, to: Seq<Text>, steps: nat)
    requires
        leads(g, from, to, steps),
    ensures
        leads(g, below + from, below + to, steps),
    decreases steps,
{
    if steps > 0 {
        let next = after_visit(g, from);
        lemma_leads_below(g, below, next, to, (steps - 1) as nat);
        assert((below + from).drop_last() =~= below + from.drop_last());
        assert(after_visit(g, below + from) =~= below + next);
    }
}

/// One stretch of the walk after another is a stretch of the walk.
proof fn lemma_leads_on(g: Graph, a: Seq<Text>, b: Seq<Text>, c: Seq<Text>, m: nat, n: nat)
    requires
        leads(g, a, b, m),
        leads(g, b, c, n),
    ensures
        leads(g, a, c, m + n),
    decreases m,
{
    if m > 0 {
        lemma_leads_on(g, after_visit(g, a), b, c, (m - 1) as nat, n);
    }
}

/// The names on the way to a name: all known, none twice, and each one depends
/// on the name.
pub open spec fn is_way(g: Graph, way: Seq<Text>, name: Text) -> bool {
    &&& way.no_duplicates()
    &&& forall|j: int| 0 <= j < way.len() ==> depends_on(g, #[trigger] way[j], name)
}

/// A way is no longer than there are repositories.
pub proof fn lemma_way_length(g: Graph, way: Seq<Text>, name: Text)
    requires
        g.dom().finite(),
        is_way(g, way, name),
    ensures
        way.len() <= g.dom().len(),
{
    assert(way.to_set().subset_of(g.dom())) by {
        assert forall|x: Text| way.to_set().contains(x) implies g.dom().contains(x) by {
            let k = choose|k: int| 0 <= k < way.len() && way[k] == x;
            assert(depends_on(g, way[k], name));
        }
    }
    way.unique_seq_to_set();
    vstd::set_lib::lemma_len_subset(way.to_set(), g.dom());
}

/// From a way to a name that is not on it, the way to a name that it lists.
pub proof fn lemma_way_on(g: Graph, way: Seq<Text>, name: Text, i: int)
    requires
        is_way(g, way, name),
        !way.contains(name),
        g.contains_key(name),
        0 <= i < g[name].len(),
    ensures
        is_way(g, way.push(name), g[name][i]),
{
    let longer = way.push(name);
    lemma_depends_on_listed(g, name, i);
    assert forall|j: int| 0 <= j < longer.len() implies depends_on(
        g,
        #[trigger] longer[j],
        g[name][i],
    ) by {
        if j < way.len() {
            assert(depends_on(g, way[j], name));
            law_dependencies_pass_on(g, way[j], name, g[name][i]);
        }
    }
    assert forall|j: int, k: int| 0 <= j < longer.len() && 0 <= k < longer.len() && j != k implies longer[j]
        != longer[k] by {
        if j < way.len() {
            assert(way.contains(way[j]));
        }
        if k < way.len() {
            assert(way.contains(way[k]));
        }
    }
}

/// The walk from a name stops.
proof fn lemma_name_stops(g: Graph, name: Text, way: Seq<Text>) -> (steps: nat)
    requires
        acyclic(g),
        g.dom().finite(),
        is_way(g, way, name),
    ensures
        stops_after(g, seq![name], steps),
    decreases g.dom().len() - way.len(), 0nat,
{
    lemma_way_length(g, way, name);
    assert(!way.contains(name)) by {
        if way.contains(name) {
            let j = choose|j: int| 0 <= j < way.len() && way[j] == name;
            assert(depends_on(g, way[j], name));
        }
    }
    let list = lists(g, name);
    assert(seq![name].drop_last() + list =~= list);
    if g.contains_key(name) {
        if list.len() > 0 {
            lemma_way_on(g, way, name, 0);
            lemma_way_length(g, way.push(name), list[0]);
            let steps = lemma_listed_stop(g, name, way, list.len());
            assert(list.take(list.len() as int) =~= list);
            assert(leads(g, seq![name], Seq::empty(), steps + 1));
            steps + 1
        } else {
            assert(list =~= Seq::<Text>::empty());
            assert(leads(g, list, Seq::empty(), 0));
            assert(leads(g, seq![name], Seq::empty(), 1));
            1
        }
    } else {
        assert(leads(g, list, Seq::empty(), 0));
        assert(leads(g, seq![name], Seq::empty(), 1));
        1
    }
}

/// The walk from the first names that a name lists stops.
proof fn lemma_listed_stop(g: Graph, name: Text, way: Seq<Text>, n: nat) -> (steps: nat)
    requires
        acyclic(g),
        g.dom().finite(),
        is_way(g, way, name),
        !way.contains(name),
        g.contains_key(name),
        n <= g[name].len(),
        way.len() < g.dom().len(),
    ensures
        stops_after(g, g[name].take(n as int), steps),
    decreases g.dom().len() - way.len() - 1, n + 1,
{
    let list = g[name];
    if n == 0 {
        assert(list.take(0) =~= Seq::<Text>::empty());
        assert(leads(g, list.take(0), Seq::empty(), 0));
        0
    } else {
        let child = list[n - 1];
        let rest = list.take(n - 1);
        lemma_way_on(g, way, name, n - 1);
        let a = lemma_name_stops(g, child, way.push(name));
        let b = lemma_listed_stop(g, name, way, (n - 1) as nat);
        lemma_leads_below(g, rest, seq![child], Seq::empty(), a);
        assert(list.take(n as int) =~= rest + seq![child]);
        assert(rest + Seq::<Text>::empty() =~= rest);
        lemma_leads_on(g, list.take(n as int), rest, Seq::empty(), a, b);
        a + b
    }
}

/// Where no repository depends on itself, the walk stops from any names.
pub proof fn lemma_stops(g: Graph, todo: Seq<Text>) -> (steps: nat)
    requires
        acyclic(g),
        g.dom().finite(),
    ensures
        stops_after(g, todo, steps),
    decreases todo.len(),
{
    if todo.len() == 0 {
        assert(todo =~= Seq::<Text>::empty());
        0
    } else {
        let rest = todo.drop_last();
        let name = todo.last();
        assert(is_way(g, Seq::empty(), name));
        let a = lemma_name_stops(g, name, Seq::empty());
        let b = lemma_stops(g, rest);
        lemma_leads_below(g, rest, seq![name], Seq::empty(), a);
        assert(todo =~= rest + seq![name]);
        assert(rest + Seq::<Text>::empty() =~= rest);
        lemma_leads_on(g, todo, rest, Seq::empty(), a, b);
        a + b
    }
}

/// What some names reach is the last of them, or is reached after the visit of
/// that.
pub proof fn lemma_reached_after_visit(g: Graph, todo: Seq<Text>, x: Text)
    requires
        todo.len() > 0,
    ensures
        reaches(g, todo, x) == (x == todo.last() || reaches(g, after_visit(g, todo), x)),
{
    let top = todo.last();
    let next = after_visit(g, todo);
    let rest = todo.len() - 1;
    assert(todo[rest] == top);
    if reaches(g, todo, x) {
        let i = lemma_reached_from(g, todo, x);
        if i < rest {
            assert(next[i] == todo[i]);
            lemma_reached_by_one(g, next, i, x);
        } else {
            lemma_reached_from_name(g, top, x);
            if x != top {
                let k = lemma_reached_from(g, g[top], x);
                assert(next[rest + k] == g[top][k]);
                lemma_reached_by_one(g, next, rest + k, x);
            }
        }
    }
    if x == top {
        lemma_reaches_itself(g, todo, rest);
    }
    if reaches(g, next, x) {
        let i = lemma_reached_from(g, next, x);
        if i < rest {
            assert(next[i] == todo[i]);
            lemma_reached_by_one(g, todo, i, x);
        } else {
            assert(next[i] == g[top][i - rest]);
            lemma_reached_by_one(g, g[top], i - rest, x);
            lemma_reached_from_name(g, top, x);
            lemma_reached_by_one(g, todo, rest, x);
        }
    }
}

/// A walk that stops comes to every name that it reaches.
proof fn lemma_walk_comes_along(g: Graph, todo: Seq<Text>, steps: nat, x: Text)
    requires
        stops_after(g, todo, steps),
        reaches(g, todo, x),
    ensures
        exists|below: Seq<Text>, n: nat| #[trigger] stops_after(g, below.push(x), n) && n <= steps,
    decreases steps,
{
    if todo.len() == 0 {
        let i = lemma_reached_from(g, todo, x);
    } else if x == todo.last() {
        assert(todo =~= todo.drop_last().push(x));
        assert(stops_after(g, todo.drop_last().push(x), steps));
    } else {
        lemma_reached_after_visit(g, todo, x);
        if steps > 0 {
            lemma_walk_comes_along(g, after_visit(g, todo), (steps - 1) as nat, x);
            let (below, n) = choose|below: Seq<Text>, n: nat| #[trigger]
                stops_after(g, below.push(x), n) && n <= steps - 1;
            assert(stops_after(g, below.push(x), n));
        }
    }
}

/// A repository that depends on itself keeps the walk going.
proof fn lemma_circle_goes_on(g: Graph, x: Text, below: Seq<Text>, steps: nat)
    requires
        depends_on(g, x, x),
    ensures
        !stops_after(g, below.push(x), steps),
    decreases steps,
{
    let todo = below.push(x);
    if stops_after(g, todo, steps) {
        assert(todo.len() > 0);
        let next = after_visit(g, todo);
        assert(next =~= below + g[x]);
        let k = lemma_reached_from(g, g[x], x);
        assert(next[below.len() + k] == g[x][k]);
        lemma_reached_by_one(g, next, below.len() + k, x);
        lemma_walk_comes_along(g, next, (steps - 1) as nat, x);
        let (b, n) = choose|b: Seq<Text>, n: nat| #[trigger] stops_after(g, b.push(x), n) && n <= steps
            - 1;
        lemma_circle_goes_on(g, x, b, n);
    }
}

/// The walk never stops from names that reach a repository which depends on
/// itself.
pub proof fn law_circles_never_stop(g: Graph, todo: Seq<Text>, x: Text, steps: nat)
    requires
        reaches(g, todo, x),
        depends_on(g, x, x),
    ensures
        !stops_after(g, todo, steps),
{
    if stops_after(g, todo, steps) {
        lemma_walk_comes_along(g, todo, steps, x);
        let (b, n) = choose|b: Seq<Text>, n: nat| #[trigger] stops_after(g, b.push(x), n) && n <= steps;
        lemma_circle_goes_on(g, x, b, n);
    }
}

/// A repository depends on every name that it lists.
pub proof fn law_listed_names_are_dependencies(g: Graph, name: Text, i: int)
    requires
        g.contains_key(name),
        0 <= i < g[name].len(),
    ensures
        depends_on(g, name, g[name][i]),
{
    lemma_depends_on_listed(g, name, i);
}

/// A relation that holds between each repository and all that it lists, and that
/// passes on.
pub open spec fn holds_along(g: Graph, related: spec_fn(Text, Text) -> bool) -> bool {
    &&& forall|n: Text, i: int|
        #![trigger g[n][i]]
        g.contains_key(n) && 0 <= i < g[n].len() ==> related(n, g[n][i])
    &&& forall|a: Text, b: Text, c: Text| #[trigger] related(a, b) && #[trigger] related(b, c)
        ==> related(a, c)
}

/// A repository depends on nothing but what follows from what is listed: every
/// relation that holds along what is listed, and passes on, holds between a
/// repository and all that it depends on.
pub proof fn law_nothing_else_is_a_dependency(
    g: Graph,
    related: spec_fn(Text, Text) -> bool,
    name: Text,
    dep: Text,
)
    requires
        holds_along(g, related),
        depends_on(g, name, dep),
    ensures
        related(name, dep),
{
    let p = choose|p: Seq<Text>| chain_from(g, g[name], p, dep);
    let i = choose|i: int| 0 <= i < g[name].len() && g[name][i] == p[0];
    assert(related(name, g[name][i]));
    lemma_related_along(g, related, name, p, p.len() - 1);
}

proof fn lemma_related_along(
    g: Graph,
    related: spec_fn(Text, Text) -> bool,
    name: Text,
    p: Seq<Text>,
    k: int,
)
    requires
        holds_along(g, related),
        is_chain(g, p),
        0 <= k < p.len(),
        related(name, p[0]),
    ensures
        related(name, p[k]),
    decreases k,
{
    if k > 0 {
        lemma_related_along(g, related, name, p, k - 1);
        let a = p[k - 1];
        assert(g[a].contains(p[k - 1 + 1]));
        let i = choose|i: int| 0 <= i < g[a].len() && g[a][i] == p[k];
        assert(related(a, g[a][i]));
    }
}

/// A graph is free of circles exactly where no repository depends on itself.
pub proof fn law_acyclic_is_exact(g: Graph)
    ensures
        acyclic(g) <==> !exists|n: Text| #[trigger] depends_on(g, n, n),
{
}

} // verus!
