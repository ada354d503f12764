//! What is remembered of a repository between two runs.

use vstd::prelude::*;
use crate::name_map::NameMap;
use crate::outside::{sha256_digest, sha256_text};
use crate::repository::text_map;
use crate::text::Text;

verus! {

pub struct RepositoryCache {
    pub repo_hash: String,
    /// Dirty flag indicating packages need to be rebuilt due to source or dependency changes
    pub dirty: bool,
    /// Image tag, container hash map
    pub docker_containers: NameMap<String>,
}

/// What a cache remembers.
pub struct CacheView {
    pub repo_hash: Text,
    pub dirty: bool,
    pub containers: Map<Text, Text>,
}

impl View for RepositoryCache {
    type V = CacheView;

    open spec fn view(&self) -> CacheView {
        CacheView {
            repo_hash: self.repo_hash@,
            dirty: self.dirty,
            containers: text_map(self.docker_containers),
        }
    }
}

/// The bytes that a repository is written as; none where it cannot be written.
pub open spec fn written(repo: Option<Vec<u8>>) -> Seq<u8> {
    match repo {
        Some(bytes) => bytes@,
        None => Seq::empty(),
    }
}

/// The cache once the digest of some bytes is remembered, and whether it differs
/// from the one remembered before.
pub open spec fn hash_synced(c: CacheView, bytes: Seq<u8>) -> (CacheView, bool) {
    (CacheView { repo_hash: sha256_text(bytes), ..c }, c.repo_hash != sha256_text(bytes))
}

/// A repository that is written as it was when its digest was remembered is not
/// taken for another one.
pub proof fn law_same_repository_is_known(c: CacheView, bytes: Seq<u8>)
    ensures
        hash_synced(hash_synced(c, bytes).0, bytes) == (hash_synced(c, bytes).0, false),
{
}

impl Default for RepositoryCache {
    fn default() -> (r: Self)
        ensures
            r.wf(),
            r@ == (CacheView { repo_hash: Seq::empty(), dirty: false, containers: Map::empty() }),
    {
        let r = RepositoryCache {
            repo_hash: String::new(),
            dirty: false,
            docker_containers: NameMap::new(),
        };
        assert(r@.containers =~= Map::<Text, Text>::empty());
        r
    }
}

impl RepositoryCache {
    /// The containers are in good order.
    pub open spec fn wf(&self) -> bool {
        self.docker_containers.wf()
    }

    /// Remembers a digest, and says whether it differs from the one remembered
    /// before.
    pub fn sync_digest(&mut self, hash: String) -> (r: bool)
        ensures
            final(self)@ == (CacheView { repo_hash: hash@, ..old(self)@ }),
            final(self).docker_containers == old(self).docker_containers,
            r == (old(self)@.repo_hash != hash@),
    {
        let eq = self.repo_hash == hash;
        self.repo_hash = hash;
        !eq
    }

    /// Remembers the digest of a repository as it is written, and says whether
    /// the repository differs from the one remembered before. Where none was
    /// remembered, it does.
    pub fn sync_hash(&mut self, repo: Option<Vec<u8>>) -> (r: bool)
        ensures
            (final(self)@, r) == hash_synced(old(self)@, written(repo)),
            old(self)@.repo_hash.len() == 0 ==> r,
            final(self).docker_containers == old(self).docker_containers,
    {
        let bytes = match repo {
            Some(b) => b,
            None => Vec::new(),
        };
        let hash = sha256_digest(bytes.as_slice());
        self.sync_digest(hash)
    }
}

/// Remembering a digest changes nothing else that is remembered, and tells a
/// change exactly where the digest before was another one.
pub proof fn law_digests_tell_changes(c: CacheView, bytes: Seq<u8>, v: Vec<u8>)
    ensures
        ({
            let (after, changed) = hash_synced(c, bytes);
            &&& after.repo_hash == sha256_text(bytes)
            &&& after.dirty == c.dirty
            &&& after.containers == c.containers
            &&& changed <==> c.repo_hash != sha256_text(bytes)
        }),
        written(Some(v)) == v@,
        written(None) == Seq::<u8>::empty(),
{
}

} // verus!
