//! What holds of the mounts and the command of a build container together.

use vstd::prelude::*;
use crate::name_map::NameSet;
use crate::repository::{
    dep_dir, dep_dirs, listed, output_dir, with_dep_mounts, HasRepository, Repository,
};
use crate::text::{comes_before, opt_texts, Text};
use crate::text_laws::law_joining;

verus! {

/// Dependencies with different names stand in different places, and none stands
/// where the source or the output does.
pub proof fn law_mount_places_differ(a: Text, b: Text)
    ensures
        dep_dir(a) == "/deps/"@ + a,
        dep_dir(a) == dep_dir(b) ==> a == b,
        dep_dir(a) != "/src"@,
        dep_dir(a) != "/repo"@,
        "/src"@ != "/repo"@,
{
    reveal_strlit("/deps/");
    reveal_strlit("/src");
    reveal_strlit("/repo");
    assert(dep_dir(a)[1] == 'd');
    assert("/src"@[1] == 's');
    assert("/repo"@[1] == 'r');
    if dep_dir(a) == dep_dir(b) {
        assert(dep_dir(a).skip(6) =~= a);
        assert(dep_dir(b).skip(6) =~= b);
    }
}

/// Each of some names that is known stands for the repository of that name.
pub open spec fn known_by_name<R: HasRepository>(names: Seq<Text>, repos: Map<Text, R>) -> bool {
    forall|i: int| #![trigger names[i]]
        0 <= i < names.len() && repos.contains_key(names[i]) ==> repos[names[i]].repository().name@
            == names[i]
}

proof fn lemma_dep_mounts<R: HasRepository>(
    mounts: Map<Text, Text>,
    names: Seq<Text>,
    repos: Map<Text, R>,
    tag: Text,
)
    requires
        known_by_name(names, repos),
    ensures
        ({
            let all = with_dep_mounts(mounts, names, repos, tag);
            &&& forall|i: int| #![trigger names[i]]
                0 <= i < names.len() && repos.contains_key(names[i]) ==> all.contains_key(
                    dep_dir(names[i]),
                ) && all[dep_dir(names[i])] == output_dir(repos[names[i]].repository(), tag)
            &&& forall|k: Text| #![trigger all.contains_key(k)]
                all.contains_key(k) ==> mounts.contains_key(k) || exists|i: int|
                    0 <= i < names.len() && repos.contains_key(names[i]) && k == dep_dir(
                        #[trigger] names[i],
                    )
            &&& forall|k: Text| #![trigger mounts.contains_key(k)]
                mounts.contains_key(k) && (forall|i: int| 0 <= i < names.len() ==> dep_dir(
                    #[trigger] names[i],
                ) != k) ==> all.contains_key(k) && all[k] == mounts[k]
        }),
    decreases names.len(),
{
    if names.len() > 0 {
        let rest = names.drop_last();
        let d = names.last();
        assert(known_by_name(rest, repos)) by {
            assert forall|i: int| #![trigger rest[i]] 0 <= i < rest.len() && repos.contains_key(
                rest[i],
            ) implies repos[rest[i]].repository().name@ == rest[i] by {
                assert(rest[i] == names[i]);
            }
        }
        lemma_dep_mounts(mounts, rest, repos, tag);
        let before = with_dep_mounts(mounts, rest, repos, tag);
        let all = with_dep_mounts(mounts, names, repos, tag);
        assert(d == names[names.len() - 1]);
        assert forall|i: int| #![trigger names[i]]
            0 <= i < names.len() && repos.contains_key(names[i]) implies all.contains_key(
            dep_dir(names[i]),
        ) && all[dep_dir(names[i])] == output_dir(repos[names[i]].repository(), tag) by {
            if i < rest.len() {
                assert(rest[i] == names[i]);
                law_mount_places_differ(names[i], d);
            }
        }
        assert forall|k: Text| #![trigger all.contains_key(k)] all.contains_key(k) implies mounts.contains_key(
            k,
        ) || exists|i: int|
            0 <= i < names.len() && repos.contains_key(names[i]) && k == dep_dir(#[trigger] names[i]) by {
            if before.contains_key(k) && !mounts.contains_key(k) {
                let i = choose|i: int|
                    0 <= i < rest.len() && repos.contains_key(rest[i]) && k == dep_dir(
                        #[trigger] rest[i],
                    );
                assert(names[i] == rest[i]);
            }
        }
        assert forall|k: Text| #![trigger mounts.contains_key(k)]
            mounts.contains_key(k) && (forall|i: int| 0 <= i < names.len() ==> dep_dir(
                #[trigger] names[i],
            ) != k) implies all.contains_key(k) && all[k] == mounts[k] by {
            assert forall|i: int| 0 <= i < rest.len() implies dep_dir(#[trigger] rest[i]) != k by {
                assert(rest[i] == names[i]);
            }
        }
    }
}

/// The container sees the source, the output, and under its name the output of
/// every dependency that is known, and nothing else.
pub proof fn law_mounts_are_exact<R: HasRepository>(
    r: Repository,
    tag: Text,
    repos: Map<Text, R>,
    transient_deps: Map<Text, NameSet>,
)
    requires
        known_by_name(listed(transient_deps, r.name@), repos),
    ensures
        ({
            let m = r.mount_map(tag, repos, transient_deps);
            let deps = listed(transient_deps, r.name@);
            &&& m.contains_key("/src"@) && m["/src"@] == r.src@
            &&& m.contains_key("/repo"@) && m["/repo"@] == r.repo@ + "/"@ + tag
            &&& forall|i: int| #![trigger deps[i]]
                0 <= i < deps.len() && repos.contains_key(deps[i]) ==> m.contains_key(
                    "/deps/"@ + deps[i],
                ) && m["/deps/"@ + deps[i]] == repos[deps[i]].repository().repo@ + "/"@ + tag
            &&& forall|k: Text| #![trigger m.contains_key(k)]
                m.contains_key(k) ==> k == "/src"@ || k == "/repo"@ || exists|i: int|
                    0 <= i < deps.len() && repos.contains_key(deps[i]) && k == "/deps/"@ + (
                    #[trigger] deps[i])
        }),
{
    let deps = listed(transient_deps, r.name@);
    let own = r.own_mounts(tag);
    lemma_dep_mounts(own, deps, repos, tag);
    law_mount_places_differ(Seq::empty(), Seq::empty());
    assert(own.contains_key("/src"@));
    assert(own.contains_key("/repo"@));
    assert forall|i: int| 0 <= i < deps.len() implies dep_dir(#[trigger] deps[i]) != "/src"@
        && dep_dir(deps[i]) != "/repo"@ by {
        law_mount_places_differ(deps[i], deps[i]);
    }
    let m = r.mount_map(tag, repos, transient_deps);
    assert forall|k: Text| #![trigger m.contains_key(k)] m.contains_key(k) implies k == "/src"@ || k
        == "/repo"@ || exists|i: int|
        0 <= i < deps.len() && repos.contains_key(deps[i]) && k == "/deps/"@ + (#[trigger] deps[i]) by {
        if !own.contains_key(k) {
            let i = choose|i: int|
                0 <= i < deps.len() && repos.contains_key(deps[i]) && k == dep_dir(
                    #[trigger] deps[i],
                );
            assert(k == "/deps/"@ + deps[i]);
        }
    }
}

/// Without dependencies the container sees the source and the output for the tag.
pub proof fn law_mounts_without_dependencies<R: HasRepository>(
    r: Repository,
    tag: Text,
    repos: Map<Text, R>,
    transient_deps: Map<Text, NameSet>,
)
    requires
        listed(transient_deps, r.name@).len() == 0,
    ensures
        r.mount_map(tag, repos, transient_deps) == Map::<Text, Text>::empty().insert(
            "/src"@,
            r.src@,
        ).insert("/repo"@, r.repo@ + "/"@ + tag),
{
}

/// All mounts are those without dependencies and then those of the dependencies.
pub proof fn law_mounts_start_with_the_own<R: HasRepository>(
    r: Repository,
    tag: Text,
    repos: Map<Text, R>,
    transient_deps: Map<Text, NameSet>,
)
    ensures
        r.mount_map(tag, repos, transient_deps) == with_dep_mounts(
            Map::<Text, Text>::empty().insert("/src"@, r.src@).insert(
                "/repo"@,
                r.repo@ + "/"@ + tag,
            ),
            listed(transient_deps, r.name@),
            repos,
            tag,
        ),
        with_dep_mounts(
            Map::<Text, Text>::empty(),
            Seq::empty(),
            repos,
            tag,
        ) == Map::<Text, Text>::empty(),
{
}

/// Where two repositories that are mounted carry the same name, the later of the
/// two dependencies is the one that is seen.
pub proof fn law_last_mount_of_a_name_counts<R: HasRepository>(
    mounts: Map<Text, Text>,
    deps: Seq<Text>,
    dep: Text,
    repos: Map<Text, R>,
    tag: Text,
)
    ensures
        repos.contains_key(dep) ==> with_dep_mounts(mounts, deps.push(dep), repos, tag)
            == with_dep_mounts(mounts, deps, repos, tag).insert(
            "/deps/"@ + repos[dep].repository().name@,
            repos[dep].repository().repo@ + "/"@ + tag,
        ),
        !repos.contains_key(dep) ==> with_dep_mounts(mounts, deps.push(dep), repos, tag)
            == with_dep_mounts(mounts, deps, repos, tag),
{
    assert(deps.push(dep).drop_last() =~= deps);
}

/// The names that are listed for a repository are those of its set, each once and
/// in ascending order; none where there is no set for it.
pub proof fn law_listed_names(m: Map<Text, NameSet>, name: Text)
    ensures
        !m.contains_key(name) ==> listed(m, name).len() == 0,
        m.contains_key(name) && m[name].wf() ==> {
            &&& listed(m, name).no_duplicates()
            &&& forall|x: Text| m[name]@.contains(x) == #[trigger] listed(m, name).contains(x)
            &&& forall|i: int, j: int|
                #![trigger listed(m, name)[i], listed(m, name)[j]]
                0 <= i < j < listed(m, name).len() ==> comes_before(
                    listed(m, name)[i],
                    listed(m, name)[j],
                )
        },
{
    if m.contains_key(name) && m[name].wf() {
        m[name].lemma_names();
        assert forall|x: Text| m[name]@.contains(x) == #[trigger] listed(m, name).contains(x) by {
            assert(m[name]@.contains(x) == m[name].names().contains(x));
        }
    }
}

/// The words that a repository adds to its command, in their order.
pub open spec fn extra_words(r: Repository) -> Seq<Text> {
    match r.extra_args {
        Some(words) => Seq::new(words@.len(), |i: int| words@[i]@),
        None => Seq::empty(),
    }
}

/// The command starts with `-j8`; names the directories of dependencies behind
/// `-e` where there are any, and only there; and ends with `-r /repo /src` and
/// all words that the repository adds, whatever its dependencies are.
pub proof fn law_command_is_exact(r: Repository, deps: Seq<Text>)
    ensures
        ({
            let c = r.command(deps);
            let end = seq!["-r"@, "/repo"@, "/src"@] + extra_words(r);
            &&& c[0] == "-j8"@
            &&& deps.len() == 0 ==> c == seq!["-j8"@] + end
            &&& deps.len() > 0 ==> c.len() == 3 + end.len() && c[1] == "-e"@ && c.skip(3) == end
            &&& deps.len() == 1 ==> c[2] == "/deps/"@ + deps[0]
        }),
{
    let c = r.command(deps);
    let end = seq!["-r"@, "/repo"@, "/src"@] + extra_words(r);
    let extra = match opt_texts(r.extra_args) {
        Some(words) => words,
        None => Seq::<Text>::empty(),
    };
    assert(extra =~= extra_words(r));
    if deps.len() == 0 {
        assert(c =~= seq!["-j8"@] + end);
    } else {
        assert(c.skip(3) =~= end);
        if deps.len() == 1 {
            assert(dep_dirs(deps) =~= seq![dep_dir(deps[0])]);
            law_joining(Seq::empty(), Seq::empty(), ","@, dep_dir(deps[0]));
        }
    }
}

/// The directories of dependencies stand in the command in the order of the
/// dependencies, with a comma between each two of them.
pub proof fn law_command_joins_dependencies(r: Repository, a: Seq<Text>, b: Seq<Text>)
    requires
        a.len() > 0,
        b.len() > 0,
    ensures
        r.command(a + b)[2] == r.command(a)[2] + ","@ + r.command(b)[2],
{
    assert(dep_dirs(a + b) =~= dep_dirs(a) + dep_dirs(b));
    law_joining(dep_dirs(a), dep_dirs(b), ","@, Seq::empty());
}

/// Every directory that the command names for a dependency is one that the
/// container sees, where the dependencies are known.
pub proof fn law_command_names_what_is_mounted<R: HasRepository>(
    r: Repository,
    tag: Text,
    repos: Map<Text, R>,
    transient_deps: Map<Text, NameSet>,
    i: int,
)
    requires
        known_by_name(listed(transient_deps, r.name@), repos),
        0 <= i < listed(transient_deps, r.name@).len(),
        repos.contains_key(listed(transient_deps, r.name@)[i]),
    ensures
        r.mount_map(tag, repos, transient_deps).contains_key(
            dep_dirs(listed(transient_deps, r.name@))[i],
        ),
{
    law_mounts_are_exact(r, tag, repos, transient_deps);
    let deps = listed(transient_deps, r.name@);
    assert(dep_dirs(deps)[i] == dep_dir(deps[i]));
}

/// The command depends on which dependencies there are, and not on how they were
/// found.
pub proof fn law_command_follows_the_set(
    r: Repository,
    a: Map<Text, NameSet>,
    b: Map<Text, NameSet>,
)
    requires
        a.contains_key(r.name@),
        b.contains_key(r.name@),
        a[r.name@].wf(),
        b[r.name@].wf(),
        a[r.name@]@ == b[r.name@]@,
    ensures
        r.command(listed(a, r.name@)) == r.command(listed(b, r.name@)),
{
    a[r.name@].lemma_names();
    b[r.name@].lemma_names();
}

} // verus!
