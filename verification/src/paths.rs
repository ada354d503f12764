//! Paths as texts, in the form that they have on Unix, and the names of the
//! files that describe repositories.

use vstd::prelude::*;
use crate::text::{concat2, part_at, Text};

verus! {

/// A path that does not depend on where it stands.
pub open spec fn is_absolute(path: Text) -> bool {
    path.len() > 0 && path[0] == '/'
}

/// A path seen from a directory: an absolute path is itself, and any other
/// stands below the directory.
pub open spec fn join_spec(base: Text, path: Text) -> Text {
    if is_absolute(path) || base.len() == 0 {
        path
    } else if base.last() == '/' {
        base + path
    } else {
        base + "/"@ + path
    }
}

/// A path seen from a directory.
pub fn join_path(base: &str, path: &str) -> (r: String)
    ensures
        r@ == join_spec(base@, path@),
{
    if path.unicode_len() > 0 && path.get_char(0) == '/' {
        return path.to_owned();
    }
    let n: usize = base.unicode_len();
    if n == 0 {
        return path.to_owned();
    }
    if base.get_char(n - 1) == '/' {
        concat2(base, path)
    } else {
        let mut r = concat2(base, "/");
        r.append(path);
        r
    }
}

/// What the name of a file that describes a repository ends in.
pub open spec fn definition_suffix() -> Text {
    ".toml"@
}

/// What the name of the file ends in that keeps the cache of a repository.
pub open spec fn cache_suffix() -> Text {
    ".toml.cache"@
}

/// A file name that has the extension of a description, and something before it.
pub open spec fn is_definition_spec(file_name: Text) -> bool {
    &&& file_name.len() > definition_suffix().len()
    &&& part_at(file_name, definition_suffix(), file_name.len() - definition_suffix().len())
}

/// Whether a file of a directory describes a repository, by its name.
pub fn is_definition(file_name: &str) -> (r: bool)
    ensures
        r == is_definition_spec(file_name@),
{
    let suffix = ".toml";
    proof {
        reveal_strlit(".toml");
    }
    let n: usize = file_name.unicode_len();
    let k: usize = suffix.unicode_len();
    if n <= k {
        return false;
    }
    let tail = file_name.substring_char(n - k, n);
    let r = crate::text::same(tail, suffix);
    proof {
        if r {
            assert forall|j: int| 0 <= j < k implies file_name@[n - k + j] == suffix@[j] by {
                assert(tail@[j] == suffix@[j]);
            }
        } else if part_at(file_name@, suffix@, n - k) {
            assert(tail@ =~= suffix@);
        }
    }
    r
}

/// Where the last dot of a file name stands; below zero where there is none.
pub open spec fn last_dot(name: Text) -> int
    decreases name.len(),
{
    if name.len() == 0 {
        -1
    } else if name.last() == '.' {
        name.len() - 1
    } else {
        last_dot(name.drop_last())
    }
}

/// A file name without its extension. A dot that the name starts with does not
/// set off an extension.
pub open spec fn stem(name: Text) -> Text {
    if last_dot(name) > 0 {
        name.take(last_dot(name))
    } else {
        name
    }
}

/// The name of the file that keeps the cache of a repository, from the name of
/// the file that describes it.
pub open spec fn cache_name_spec(name: Text) -> Text {
    stem(name) + cache_suffix()
}

/// The name of the file that keeps the cache of a repository, from the name of
/// the file that describes it, which stands in the same directory.
pub fn cache_name(file_name: &str) -> (r: String)
    ensures
        r@ == cache_name_spec(file_name@),
{
    let n: usize = file_name.unicode_len();
    let mut i: usize = n;
    assert(file_name@.take(n as int) =~= file_name@);
    while i > 0
        invariant
            n == file_name@.len(),
            i <= n,
            last_dot(file_name@) == last_dot(file_name@.take(i as int)),
        decreases i,
    {
        assert(file_name@.take(i as int).drop_last() =~= file_name@.take(i - 1));
        assert(file_name@.take(i as int).last() == file_name@[i - 1]);
        if file_name.get_char(i - 1) == '.' {
            if i > 1 {
                let head = file_name.substring_char(0, i - 1);
                assert(head@ =~= file_name@.take(i - 1));
                return concat2(head, ".toml.cache");
            }
            return concat2(file_name, ".toml.cache");
        }
        i -= 1;
    }
    concat2(file_name, ".toml.cache")
}

/// The cache of a repository is kept beside its description, under the name of
/// that with an ending of its own, and is no description itself.
pub proof fn law_caches_are_no_descriptions(name: Text)
    ensures
        is_definition_spec(name) ==> cache_name_spec(name) == name + ".cache"@,
        !is_definition_spec(cache_name_spec(name)),
{
    reveal_strlit(".toml");
    reveal_strlit(".toml.cache");
    reveal_strlit(".cache");
    let cache = cache_name_spec(name);
    let end = cache.len() - 1;
    assert(cache[end] == cache_suffix()[cache_suffix().len() - 1]);
    if is_definition_spec(cache) {
        assert(cache[cache.len() - 5 + 4] == definition_suffix()[4]);
    }
    if is_definition_spec(name) {
        let k = name.len() - 5;
        assert(name[k] == definition_suffix()[0]);
        assert(name[k + 1] == definition_suffix()[1]);
        assert(name[k + 2] == definition_suffix()[2]);
        assert(name[k + 3] == definition_suffix()[3]);
        assert(name[k + 4] == definition_suffix()[4]);
        let n1 = name.drop_last();
        let n2 = n1.drop_last();
        let n3 = n2.drop_last();
        let n4 = n3.drop_last();
        assert(last_dot(n4) == k);
        assert(last_dot(n3) == last_dot(n4));
        assert(last_dot(n2) == last_dot(n3));
        assert(last_dot(n1) == last_dot(n2));
        assert(last_dot(name) == k);
        assert(cache =~= name + ".cache"@);
    }
}

} // verus!
