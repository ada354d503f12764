//! All repositories, and how they depend on each other.

use vstd::prelude::*;
use crate::dependencies::{
    acyclic, after_visit, depends_on, is_way, law_dependencies_pass_on, lemma_depends_on_listed,
    lemma_reached_after_visit,     lemma_reached_from, lemma_reached_from_name, lemma_stops, lemma_way_length, lemma_way_on, lists,
    reaches, stops_after, Graph,
};
use crate::name_map::{NameMap, NameSet};
use crate::repository::{depmap_wf, listed, HasRepository};
use crate::state::RepositoryState;
use crate::text::{copy_texts, texts, Text};
use crate::wait_flag::WaitFlag;

verus! {

/// The dependencies that repositories list.
pub open spec fn graph<R: HasRepository>(repos: NameMap<R>) -> Graph {
    repos@.map_values(|r: R| texts(r.repository().dependencies@))
}

/// The sets that a map holds.
pub open spec fn set_map(m: NameMap<NameSet>) -> Map<Text, Set<Text>> {
    m@.map_values(|s: NameSet| s@)
}

/// For each repository all repositories that it depends on, directly or not.
pub open spec fn transient(g: Graph) -> Map<Text, Set<Text>> {
    Map::new(
        |n: Text| g.contains_key(n),
        |n: Text| Set::new(|d: Text| g.contains_key(d) && depends_on(g, n, d)),
    )
}

/// Every name that a map lists is one of its keys.
pub open spec fn closed_map(m: Map<Text, Set<Text>>) -> bool {
    forall|n: Text, d: Text| #[trigger] m.contains_key(n) && #[trigger] m[n].contains(d)
        ==> m.contains_key(d)
}

/// For each key of a map the keys under which it is listed.
pub open spec fn inverse(m: Map<Text, Set<Text>>) -> Map<Text, Set<Text>> {
    Map::new(
        |n: Text| m.contains_key(n),
        |n: Text| Set::new(|k: Text| m.contains_key(k) && m[k].contains(n)),
    )
}

/// Builds a list of transient dependencies each repository contains
pub fn build_transient_depmap<R: HasRepository>(repos: &NameMap<R>) -> (out: NameMap<NameSet>)
    requires
        repos.wf(),
        acyclic(graph(*repos)),
    ensures
        depmap_wf(out),
        set_map(out) == transient(graph(*repos)),
{
    let ghost g = graph(*repos);
    proof {
        repos.lemma_names();
        assert(g.dom() =~= repos@.dom());
    }
    let mut out: NameMap<NameSet> = NameMap::new();
    let n: usize = repos.len();
    let mut i: usize = 0;
    while i < n
        invariant
            repos.wf(),
            g == graph(*repos),
            acyclic(g),
            g.dom().finite(),
            n == repos.names().len(),
            i <= n,
            depmap_wf(out),
            forall|x: Text| #![trigger out@.contains_key(x)]
                out@.contains_key(x) == repos.names().take(i as int).contains(x),
            forall|x: Text| #![trigger out@[x]] out@.contains_key(x) ==> out@[x]@ == transient(g)[x],
        decreases n - i,
    {
        let name = repos.name_at(i);
        let ghost key = name@;
        let mut out_set = NameSet::new();
        let mut deps = copy_texts(&repos.value_at(i).as_ref().dependencies);
        assert(g.contains_key(key));
        assert(texts(deps@) =~= g[key]);
        let ghost mut fuel: nat = lemma_stops(g, g[key]);
        while deps.len() > 0
            invariant
                repos.wf(),
                g == graph(*repos),
                g.contains_key(key),
                out_set.wf(),
                stops_after(g, texts(deps@), fuel),
                forall|x: Text| #![trigger out_set@.contains(x)]
                    (out_set@.contains(x) || g.contains_key(x) && reaches(g, texts(deps@), x)) == (
                    g.contains_key(x) && depends_on(g, key, x)),
            decreases fuel,
        {
            let ghost todo = texts(deps@);
            let ghost seen = out_set@;
            match deps.pop() {
                Some(d) => {
                    let ghost top = d@;
                    let ghost below = deps@;
                    assert(todo.last() == top);
                    assert(todo.drop_last() =~= texts(below));
                    assert(todo.len() > 0);
                    match repos.get(d.as_str()) {
                        Some(held) => {
                            out_set.insert(d);
                            let mut more = copy_texts(&held.as_ref().dependencies);
                            assert(texts(more@) == g[top]);
                            let ghost above = more@;
                            deps.append(&mut more);
                            assert(texts(deps@) =~= texts(below) + texts(above));
                        },
                        None => {
                            assert(texts(deps@) =~= todo.drop_last() + Seq::<Text>::empty());
                        },
                    }
                    proof {
                        assert(texts(deps@) =~= after_visit(g, todo));
                        fuel = (fuel - 1) as nat;
                        assert forall|x: Text| #![trigger out_set@.contains(x)]
                            (out_set@.contains(x) || g.contains_key(x) && reaches(
                                g,
                                texts(deps@),
                                x,
                            )) == (g.contains_key(x) && depends_on(g, key, x)) by {
                            lemma_reached_after_visit(g, todo, x);
                            assert(seen.contains(x) || !seen.contains(x));
                        }
                    }
                },
                None => {},
            }
        }
        proof {
            assert forall|x: Text| out_set@.contains(x) == transient(g)[key].contains(x) by {
                if reaches(g, texts(deps@), x) {
                    let k = lemma_reached_from(g, texts(deps@), x);
                }
            }
            assert(out_set@ =~= transient(g)[key]);
        }
        out.insert(name.clone(), out_set);
        proof {
            lemma_taken(repos.names(), i as int);
        }
        i += 1;
    }
    proof {
        assert(repos.names().take(n as int) =~= repos.names());
        assert(set_map(out) =~= transient(g));
    }
    out
}

/// What the inverse of a map holds for a key when the names under `done` of the
/// map, and of those under `key` the names in `part`, have been entered.
spec fn entered(
    m: Map<Text, Set<Text>>,
    done: Seq<Text>,
    key: Text,
    part: Seq<Text>,
    n: Text,
    k: Text,
) -> bool {
    done.contains(k) && m[k].contains(n) || k == key && part.contains(n)
}

/// For each name the names that it is listed under.
pub fn inverse_depmap(depmap: &NameMap<NameSet>) -> (out: NameMap<NameSet>)
    requires
        depmap_wf(*depmap),
        closed_map(set_map(*depmap)),
    ensures
        depmap_wf(out),
        set_map(out) == inverse(set_map(*depmap)),
{
    let ghost m = set_map(*depmap);
    let ghost names = depmap.names();
    let mut out: NameMap<NameSet> = NameMap::new();
    let n: usize = depmap.len();
    let mut i: usize = 0;
    while i < n
        invariant
            depmap.wf(),
            names == depmap.names(),
            n == names.len(),
            i <= n,
            depmap_wf(out),
            forall|x: Text| #![trigger out@.contains_key(x)]
                out@.contains_key(x) == names.take(i as int).contains(x),
            forall|x: Text| #![trigger out@[x]] out@.contains_key(x) ==> out@[x]@ == Set::<Text>::empty(),
        decreases n - i,
    {
        out.insert(depmap.name_at(i).clone(), NameSet::new());
        proof {
            lemma_taken(names, i as int);
        }
        i += 1;
    }
    assert(names.take(n as int) =~= names);
    i = 0;
    while i < n
        invariant
            depmap_wf(*depmap),
            names == depmap.names(),
            m == set_map(*depmap),
            closed_map(m),
            n == names.len(),
            i <= n,
            depmap_wf(out),
            out@.dom() == m.dom(),
            forall|x: Text, k: Text| #![trigger out@[x]@.contains(k)]
                out@.contains_key(x) ==> out@[x]@.contains(k) == (names.take(i as int).contains(k)
                    && m[k].contains(x)),
        decreases n - i,
    {
        let name = depmap.name_at(i);
        let deps = depmap.value_at(i);
        let ghost key = name@;
        let ghost done = names.take(i as int);
        let ghost listed = deps.names();
        let count: usize = deps.len();
        let mut j: usize = 0;
        proof {
            deps.lemma_names();
            assert(m.contains_key(key));
            assert(m[key] == deps@);
        }
        while j < count
            invariant
                deps.wf(),
                listed == deps.names(),
                key == name@,
                m.contains_key(key),
                m[key] == deps@,
                closed_map(m),
                count == listed.len(),
                j <= count,
                depmap_wf(out),
                out@.dom() == m.dom(),
                forall|x: Text, k: Text| #![trigger out@[x]@.contains(k)]
                    out@.contains_key(x) ==> out@[x]@.contains(k) == entered(
                        m,
                        done,
                        key,
                        listed.take(j as int),
                        x,
                        k,
                    ),
            decreases count - j,
        {
            let dep = deps.name_at(j);
            assert(m[key].contains(dep@));
            assert(m.contains_key(dep@));
            let ghost before = out@;
            match out.get_mut(dep.as_str()) {
                Some(set) => {
                    set.insert(name.clone());
                },
                None => {},
            }
            proof {
                lemma_taken(listed, j as int);
                assert(out@.dom() =~= before.dom());
                assert forall|x: Text, k: Text| #![trigger out@[x]@.contains(k)]
                    out@.contains_key(x) implies out@[x]@.contains(k) == entered(
                    m,
                    done,
                    key,
                    listed.take(j + 1),
                    x,
                    k,
                ) by {
                    assert(before.contains_key(x));
                    assert(before[x]@.contains(k) == entered(
                        m,
                        done,
                        key,
                        listed.take(j as int),
                        x,
                        k,
                    ));
                }
            }
            j += 1;
        }
        proof {
            lemma_taken(names, i as int);
            assert(listed.take(count as int) =~= listed);
        }
        i += 1;
    }
    proof {
        assert(names.take(n as int) =~= names);
        assert forall|x: Text| set_map(out).contains_key(x) implies set_map(out)[x] == inverse(m)[x] by {
            assert(set_map(out)[x] =~= inverse(m)[x]);
        }
        assert(set_map(out) =~= inverse(m));
    }
    out
}

/// One text more of a list.
proof fn lemma_taken(list: Seq<Text>, i: int)
    requires
        0 <= i < list.len(),
    ensures
        forall|x: Text| #![trigger list.take(i + 1).contains(x)]
            list.take(i + 1).contains(x) == (list.take(i).contains(x) || x == list[i]),
{
    assert forall|x: Text| #![trigger list.take(i + 1).contains(x)] list.take(i + 1).contains(x) == (
    list.take(i).contains(x) || x == list[i]) by {
        let now = list.take(i + 1);
        let was = list.take(i);
        if now.contains(x) {
            let k = choose|k: int| 0 <= k < now.len() && now[k] == x;
            if k < i {
                assert(was[k] == x);
            }
        }
        if was.contains(x) {
            let k = choose|k: int| 0 <= k < was.len() && was[k] == x;
            assert(now[k] == x);
        }
        assert(now[i] == list[i]);
    }
}

pub struct HbState {
    pub repos: NameMap<RepositoryState>,
    pub transient_dependencies: NameMap<NameSet>,
    pub transient_dependents: NameMap<NameSet>,
    /// How many repositories are being built.
    pub repos_in_build: WaitFlag<usize>,
}

impl HbState {
    /// The dependencies and dependents are those that the repositories list.
    pub open spec fn wf(&self) -> bool {
        &&& self.repos.wf()
        &&& acyclic(graph(self.repos))
        &&& depmap_wf(self.transient_dependencies)
        &&& depmap_wf(self.transient_dependents)
        &&& set_map(self.transient_dependencies) == transient(graph(self.repos))
        &&& set_map(self.transient_dependents) == inverse(transient(graph(self.repos)))
    }

    /// The repositories with their dependencies and dependents. None of them is
    /// being built.
    pub fn new(repos: NameMap<RepositoryState>) -> (r: Self)
        requires
            repos.wf(),
            acyclic(graph(repos)),
        ensures
            r.wf(),
            r.repos == repos,
            r.repos_in_build.value == 0,
    {
        let transient_dependencies = build_transient_depmap(&repos);
        proof {
            law_dependencies_are_repositories(graph(repos));
        }
        let transient_dependents = inverse_depmap(&transient_dependencies);
        HbState {
            repos,
            transient_dependencies,
            transient_dependents,
            repos_in_build: WaitFlag::default(),
        }
    }
}

/// Every dependency that is found is a repository, and so is every dependent.
pub proof fn law_dependencies_are_repositories(g: Graph)
    ensures
        transient(g).dom() == g.dom(),
        inverse(transient(g)).dom() == g.dom(),
        closed_map(transient(g)),
        closed_map(inverse(transient(g))),
{
    assert(transient(g).dom() =~= g.dom());
    assert(inverse(transient(g)).dom() =~= g.dom());
}

/// A repository is a dependent of another if and only if the other is a
/// dependency of it.
pub proof fn law_dependents_mirror_dependencies(m: Map<Text, Set<Text>>, a: Text, b: Text)
    requires
        m.contains_key(a),
        m.contains_key(b),
    ensures
        inverse(m)[b].contains(a) == m[a].contains(b),
{
}

/// The inverse of the inverse of a map is the map.
pub proof fn law_inverse_undoes_itself(m: Map<Text, Set<Text>>)
    requires
        closed_map(m),
    ensures
        inverse(inverse(m)) == m,
{
    let w = inverse(inverse(m));
    assert forall|n: Text| w.contains_key(n) implies w[n] == m[n] by {
        assert(w[n] =~= m[n]) by {
            assert forall|k: Text| w[n].contains(k) == m[n].contains(k) by {
                if m[n].contains(k) {
                    assert(m.contains_key(n));
                    assert(m.contains_key(k));
                }
            }
        }
    }
    assert(w =~= m);
}

/// No repository is its own dependency or its own dependent.
pub proof fn law_no_repository_waits_for_itself(g: Graph, n: Text)
    requires
        acyclic(g),
        g.contains_key(n),
    ensures
        !transient(g)[n].contains(n),
        !inverse(transient(g))[n].contains(n),
{
    assert(!depends_on(g, n, n));
}

/// A dependency that is listed is found if and only if it is a repository,
/// whatever else is listed.
pub proof fn law_unknown_names_hide_nothing(g: Graph, n: Text, i: int)
    requires
        g.contains_key(n),
        0 <= i < g[n].len(),
    ensures
        transient(g)[n].contains(g[n][i]) == g.contains_key(g[n][i]),
{
    lemma_depends_on_listed(g, n, i);
}

/// The dependencies of a repository hold those of each of them.
pub proof fn law_transient_dependencies_are_closed(g: Graph, a: Text, b: Text)
    requires
        g.contains_key(a),
        transient(g)[a].contains(b),
    ensures
        transient(g)[b].subset_of(transient(g)[a]),
{
    assert forall|c: Text| transient(g)[b].contains(c) implies transient(g)[a].contains(c) by {
        law_dependencies_pass_on(g, a, b, c);
    }
}

/// What a build is given as the dependencies and the dependents of a repository:
/// each of them once, the repository itself never, and one repository as a
/// dependency of another exactly where the other is a dependent of it.
pub proof fn law_builds_get_all_relations(state: HbState, a: Text, b: Text)
    requires
        state.wf(),
        state.repos@.contains_key(a),
        state.repos@.contains_key(b),
    ensures
        ({
            let dependencies = listed(state.transient_dependencies@, a);
            let dependents = listed(state.transient_dependents@, b);
            let found = transient(graph(state.repos));
            &&& dependencies.no_duplicates()
            &&& dependents.no_duplicates()
            &&& dependencies.contains(b) == found[a].contains(b)
            &&& dependents.contains(a) == found[a].contains(b)
            &&& a == b ==> !dependencies.contains(b)
        }),
{
    let g = graph(state.repos);
    law_dependencies_are_repositories(g);
    let m = state.transient_dependencies;
    let w = state.transient_dependents;
    assert(g.contains_key(a));
    assert(g.contains_key(b));
    assert(set_map(m).contains_key(a));
    assert(set_map(w).contains_key(b));
    m@[a].lemma_names();
    w@[b].lemma_names();
    assert(set_map(m)[a] == m@[a]@);
    assert(set_map(w)[b] == w@[b]@);
    assert(m@[a]@.contains(b) == m@[a].names().contains(b));
    assert(w@[b]@.contains(a) == w@[b].names().contains(a));
    assert(!depends_on(g, a, a));
}

/// Nothing that a name reaches depends on itself.
spec fn free_of_circles(g: Graph, name: Text) -> bool {
    forall|x: Text| #[trigger] reaches(g, seq![name], x) ==> !depends_on(g, x, x)
}

/// Whether nothing that a name reaches depends on itself, told from the names on
/// the way to it.
fn is_free_of_circles<R: HasRepository>(
    repos: &NameMap<R>,
    name: &String,
    way: &mut Vec<String>,
) -> (r: bool)
    requires
        repos.wf(),
        is_way(graph(*repos), texts(old(way)@), name@),
    ensures
        final(way)@ == old(way)@,
        r ==> free_of_circles(graph(*repos), name@),
        !r ==> !acyclic(graph(*repos)),
    decreases repos.names().len() - old(way)@.len(),
{
    let ghost g = graph(*repos);
    let ghost start = way@;
    let held = match repos.get(name.as_str()) {
        Some(held) => held,
        None => {
            assert forall|x: Text| #[trigger] reaches(g, seq![name@], x) implies !depends_on(
                g,
                x,
                x,
            ) by {
                lemma_reached_from_name(g, name@, x);
            }
            return true;
        },
    };
    let mut j: usize = 0;
    while j < way.len()
        invariant
            way@ == start,
            j <= way@.len(),
            g == graph(*repos),
            is_way(g, texts(start), name@),
            forall|k: int| 0 <= k < j ==> #[trigger] texts(start)[k] != name@,
        decreases way@.len() - j,
    {
        if way[j] == *name {
            assert(texts(start)[j as int] == name@);
            assert(depends_on(g, texts(start)[j as int], name@));
            return false;
        }
        j += 1;
    }
    let deps = &held.as_ref().dependencies;
    let ghost list = g[name@];
    assert(texts(deps@) =~= list);
    way.push(name.clone());
    let ghost longer = way@;
    proof {
        assert(texts(longer) =~= texts(start).push(name@));
        repos.lemma_names();
        assert(g.dom() =~= repos@.dom());
        if texts(start).contains(name@) {
            let k = choose|k: int| 0 <= k < texts(start).len() && texts(start)[k] == name@;
            assert(texts(start)[k] != name@);
        }
    }
    let mut i: usize = 0;
    while i < deps.len()
        invariant
            repos.wf(),
            g == graph(*repos),
            g.contains_key(name@),
            g.dom().finite(),
            g.dom().len() == repos.names().len(),
            list == g[name@],
            list == texts(deps@),
            i <= deps@.len(),
            start == old(way)@,
            way@ == longer,
            longer.len() == start.len() + 1,
            longer.drop_last() == start,
            texts(longer) == texts(start).push(name@),
            is_way(g, texts(start), name@),
            !texts(start).contains(name@),
            forall|k: int| 0 <= k < i ==> free_of_circles(g, #[trigger] list[k]),
        decreases deps@.len() - i,
    {
        proof {
            lemma_way_on(g, texts(start), name@, i as int);
            lemma_way_length(g, texts(longer), list[i as int]);
        }
        if !is_free_of_circles(repos, &deps[i], way) {
            way.pop();
            assert(way@ =~= start);
            return false;
        }
        i += 1;
    }
    way.pop();
    proof {
        assert(way@ =~= start);
        assert forall|x: Text| #[trigger] reaches(g, seq![name@], x) implies !depends_on(g, x, x) by {
            lemma_reached_from_name(g, name@, x);
            if depends_on(g, name@, x) {
                let k = lemma_reached_from(g, list, x);
                assert(free_of_circles(g, list[k]));
            }
        }
    }
    true
}

/// Whether no repository depends on itself, so that the walk along dependencies
/// stops.
pub fn walks_stop<R: HasRepository>(repos: &NameMap<R>) -> (r: bool)
    requires
        repos.wf(),
    ensures
        r == acyclic(graph(*repos)),
{
    let ghost g = graph(*repos);
    let n: usize = repos.len();
    let mut i: usize = 0;
    while i < n
        invariant
            repos.wf(),
            g == graph(*repos),
            n == repos.names().len(),
            i <= n,
            forall|k: int| 0 <= k < i ==> free_of_circles(g, #[trigger] repos.names()[k]),
        decreases n - i,
    {
        let name = repos.name_at(i);
        let mut way: Vec<String> = Vec::new();
        assert(texts(way@) =~= Seq::<Text>::empty());
        if !is_free_of_circles(repos, name, &mut way) {
            return false;
        }
        i += 1;
    }
    proof {
        assert forall|x: Text| !#[trigger] depends_on(g, x, x) by {
            if g.contains_key(x) {
                let k = repos.names().index_of(x);
                assert(repos.names()[k] == x);
                lemma_reached_from_name(g, x, x);
                assert(free_of_circles(g, repos.names()[k]));
            }
        }
    }
    true
}

/// The graph of some repositories holds for each of them the names that it lists,
/// in their order; the sets of a map are those that it holds.
pub proof fn law_graph_is_what_is_listed<R: HasRepository>(
    repos: NameMap<R>,
    m: NameMap<NameSet>,
    name: Text,
)
    ensures
        graph(repos).contains_key(name) == repos@.contains_key(name),
        repos@.contains_key(name) ==> graph(repos)[name] == Seq::new(
            repos@[name].repository().dependencies@.len(),
            |i: int| repos@[name].repository().dependencies@[i]@,
        ),
        set_map(m).contains_key(name) == m@.contains_key(name),
        m@.contains_key(name) ==> set_map(m)[name] == m@[name]@,
{
    if repos@.contains_key(name) {
        assert(graph(repos)[name] =~= Seq::new(
            repos@[name].repository().dependencies@.len(),
            |i: int| repos@[name].repository().dependencies@[i]@,
        ));
    }
}

/// The dependencies that are found for a repository are the repositories that it
/// depends on, and its dependents are those that depend on it.
pub proof fn law_relations_are_exact(g: Graph, a: Text, b: Text)
    requires
        g.contains_key(a),
    ensures
        transient(g).contains_key(a),
        inverse(transient(g)).contains_key(a),
        transient(g)[a].contains(b) <==> g.contains_key(b) && depends_on(g, a, b),
        inverse(transient(g))[a].contains(b) <==> g.contains_key(b) && depends_on(g, b, a),
        forall|n: Text| #[trigger] transient(g).contains_key(n) ==> g.contains_key(n),
        forall|n: Text| #[trigger] inverse(transient(g)).contains_key(n) ==> g.contains_key(n),
{
}

} // verus!
