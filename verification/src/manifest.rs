//! File manifests and the catalog that registers them: a manifest is
//! immutable once published, and republishing identical content is a silent
//! no-op while conflicting content under the same digest is rejected.

use vstd::prelude::*;
use crate::chunking::num_chunks;
use crate::digest::{bytes_eq, clone_bytes};
use crate::error::DeskShareError;

verus! {

/// A published manifest: the identity and chunk layout of one shared file.
pub struct SharedFile {
    /// Digest of the whole file content.
    pub hash: Vec<u8>,
    pub name: String,
    pub size: u64,
    /// Digest of each chunk, in index order; repeats are legal.
    pub chunks: Vec<Vec<u8>>,
    pub chunk_size: u64,
    pub total_chunks: usize,
    /// The peer that announced the file.
    pub peer_id: String,
    pub timestamp: u64,
}

impl SharedFile {
    /// The chunk digests as byte sequences.
    pub open spec fn chunks_view(self) -> Seq<Seq<u8>> {
        self.chunks@.map_values(|c: Vec<u8>| c@)
    }

    pub open spec fn wf(self) -> bool {
        &&& self.chunk_size > 0
        &&& self.total_chunks == self.chunks@.len()
        &&& self.chunks@.len() == num_chunks(self.size as nat, self.chunk_size as nat)
    }

    /// The fields determined by the file's content and chunk layout; what
    /// idempotent republication compares.
    pub open spec fn same_content(self, other: SharedFile) -> bool {
        &&& self.hash@ == other.hash@
        &&& self.size == other.size
        &&& self.chunk_size == other.chunk_size
        &&& self.total_chunks == other.total_chunks
        &&& self.chunks_view() == other.chunks_view()
    }

    /// Field-for-field agreement, by value.
    pub open spec fn like(self, other: SharedFile) -> bool {
        &&& self.same_content(other)
        &&& self.name@ == other.name@
        &&& self.peer_id@ == other.peer_id@
        &&& self.timestamp == other.timestamp
    }

    /// A fresh manifest with the same fields.
    pub fn duplicate(&self) -> (r: SharedFile)
        ensures
            r.like(*self),
    {
        let mut chunks: Vec<Vec<u8>> = Vec::new();
        let n = self.chunks.len();
        let mut i: usize = 0;
        while i < n
            invariant
                n == self.chunks@.len(),
                0 <= i <= n,
                chunks@.len() == i,
                forall|k: int| 0 <= k < i ==> #[trigger] chunks@[k]@ == self.chunks@[k]@,
            decreases n - i,
        {
            chunks.push(clone_bytes(&self.chunks[i]));
            i += 1;
        }
        let r = SharedFile {
            hash: clone_bytes(&self.hash),
            name: self.name.clone(),
            size: self.size,
            chunks,
            chunk_size: self.chunk_size,
            total_chunks: self.total_chunks,
            peer_id: self.peer_id.clone(),
            timestamp: self.timestamp,
        };
        proof {
            assert(r.chunks_view() =~= self.chunks_view());
        }
        r
    }

    /// Whether the two manifests describe the same content.
    pub fn content_matches(&self, other: &SharedFile) -> (r: bool)
        ensures
            r == self.same_content(*other),
    {
        if !bytes_eq(&self.hash, &other.hash) {
            return false;
        }
        if self.size != other.size || self.chunk_size != other.chunk_size || self.total_chunks
            != other.total_chunks {
            return false;
        }
        if self.chunks.len() != other.chunks.len() {
            proof {
                assert(self.chunks_view().len() != other.chunks_view().len());
            }
            return false;
        }
        let n = self.chunks.len();
        let mut i: usize = 0;
        while i < n
            invariant
                n == self.chunks@.len() == other.chunks@.len(),
                0 <= i <= n,
                forall|k: int| 0 <= k < i ==> #[trigger] self.chunks@[k]@ == other.chunks@[k]@,
            decreases n - i,
        {
            if !bytes_eq(&self.chunks[i], &other.chunks[i]) {
                proof {
                    assert(self.chunks_view()[i as int] != other.chunks_view()[i as int]);
                }
                return false;
            }
            i += 1;
        }
        proof {
            assert(self.chunks_view() =~= other.chunks_view());
        }
        true
    }
}

/// Whether some manifest in the catalog carries this file digest.
pub open spec fn has_manifest(s: Seq<SharedFile>, h: Seq<u8>) -> bool {
    exists|i: int| 0 <= i < s.len() && s[i].hash@ == h
}

/// The manifest in the catalog carrying this file digest; meaningful when
/// the catalog holds one and its digests are unique.
pub open spec fn manifest_at(s: Seq<SharedFile>, h: Seq<u8>) -> SharedFile {
    s[choose|i: int| 0 <= i < s.len() && s[i].hash@ == h]
}

/// What publication leaves in the catalog: an already-known digest leaves
/// it unchanged, a new one is appended.
pub open spec fn publish_result(s: Seq<SharedFile>, m: SharedFile) -> Seq<SharedFile> {
    if has_manifest(s, m.hash@) {
        s
    } else {
        s.push(m)
    }
}

/// The file digests in the catalog are pairwise distinct.
pub open spec fn unique_hashes(s: Seq<SharedFile>) -> bool {
    forall|i: int, j: int| 0 <= i < j < s.len() ==> s[i].hash@ != s[j].hash@
}

/// With unique digests, the manifest at a digest is the entry holding it.
pub proof fn lemma_manifest_at(s: Seq<SharedFile>, h: Seq<u8>, i: int)
    requires
        unique_hashes(s),
        0 <= i < s.len(),
        s[i].hash@ == h,
    ensures
        has_manifest(s, h),
        manifest_at(s, h) == s[i],
{
    let j = choose|j: int| 0 <= j < s.len() && s[j].hash@ == h;
    if j != i {
        if j < i {
            assert(s[j].hash@ != s[i].hash@);
        } else {
            assert(s[i].hash@ != s[j].hash@);
        }
    }
}

/// Registry of published manifests, one per file digest.
pub struct ManifestCatalog {
    entries: Vec<SharedFile>,
}

impl ManifestCatalog {
    pub closed spec fn entries_view(self) -> Seq<SharedFile> {
        self.entries@
    }

    pub open spec fn wf(self) -> bool {
        &&& unique_hashes(self.entries_view())
        &&& forall|i: int| 0 <= i < self.entries_view().len() ==> #[trigger] self.entries_view()[i].wf()
    }

    pub fn new() -> (r: ManifestCatalog)
        ensures
            r.wf(),
            r.entries_view().len() == 0,
    {
        ManifestCatalog { entries: Vec::new() }
    }

    /// Index of the entry carrying the digest, if any.
    fn find(&self, h: &Vec<u8>) -> (r: Option<usize>)
        ensures
            match r {
                Some(i) => i < self.entries_view().len() && self.entries_view()[i as int].hash@
                    == h@,
                None => !has_manifest(self.entries_view(), h@),
            },
    {
        let n = self.entries.len();
        let mut i: usize = 0;
        while i < n
            invariant
                n == self.entries@.len(),
                0 <= i <= n,
                forall|k: int| 0 <= k < i ==> self.entries@[k].hash@ != h@,
            decreases n - i,
        {
            if bytes_eq(&self.entries[i].hash, h) {
                return Some(i);
            }
            i += 1;
        }
        None
    }

    /// Register a manifest.  A digest not yet in the catalog is appended; a
    /// digest already present with the same content is a silent no-op; a
    /// digest already present with different content is rejected and the
    /// catalog is unchanged.
    pub fn publish(&mut self, m: SharedFile) -> (r: Result<(), DeskShareError>)
        requires
            old(self).wf(),
            m.wf(),
        ensures
            final(self).wf(),
            r is Ok <==> (!has_manifest(old(self).entries_view(), m.hash@) || manifest_at(
                old(self).entries_view(),
                m.hash@,
            ).same_content(m)),
            r is Ok ==> final(self).entries_view() == publish_result(old(self).entries_view(), m),
            r is Err ==> final(self).entries_view() == old(self).entries_view() && r == Err::<
                (),
                DeskShareError,
            >(DeskShareError::DuplicateManifest),
    {
        match self.find(&m.hash) {
            Some(i) => {
                proof {
                    lemma_manifest_at(self.entries_view(), m.hash@, i as int);
                }
                if self.entries[i].content_matches(&m) {
                    Ok(())
                } else {
                    Err(DeskShareError::DuplicateManifest)
                }
            },
            None => {
                self.entries.push(m);
                Ok(())
            },
        }
    }

    /// The manifest published under this file digest, if any.
    pub fn lookup(&self, h: &Vec<u8>) -> (r: Option<SharedFile>)
        requires
            self.wf(),
        ensures
            match r {
                Some(m) => {
                    &&& has_manifest(self.entries_view(), h@)
                    &&& m.like(manifest_at(self.entries_view(), h@))
                    &&& m.wf()
                },
                None => !has_manifest(self.entries_view(), h@),
            },
    {
        match self.find(h) {
            Some(i) => {
                proof {
                    lemma_manifest_at(self.entries_view(), h@, i as int);
                }
                let m = self.entries[i].duplicate();
                proof {
                    assert(self.entries_view()[i as int].wf());
                    assert(m.chunks_view().len() == m.chunks@.len());
                    assert(m.wf());
                }
                Some(m)
            },
            None => None,
        }
    }

    /// All published manifests.
    pub fn list(&self) -> (r: Vec<SharedFile>)
        ensures
            r@.len() == self.entries_view().len(),
            forall|i: int| 0 <= i < r@.len() ==> #[trigger] r@[i].like(self.entries_view()[i]),
    {
        let mut r: Vec<SharedFile> = Vec::new();
        let n = self.entries.len();
        let mut i: usize = 0;
        while i < n
            invariant
                n == self.entries@.len(),
                0 <= i <= n,
                r@.len() == i,
                forall|k: int| 0 <= k < i ==> #[trigger] r@[k].like(self.entries@[k]),
            decreases n - i,
        {
            r.push(self.entries[i].duplicate());
            i += 1;
        }
        r
    }
}

/// Publication is idempotent: publishing a manifest into a catalog that
/// already went through the same publication changes nothing, so no second
/// entry ever arises and the recorded chunk digests stay as they were.
pub proof fn lemma_publish_idempotent(s: Seq<SharedFile>, m: SharedFile)
    ensures
        publish_result(publish_result(s, m), m) == publish_result(s, m),
{
    let once = publish_result(s, m);
    if has_manifest(s, m.hash@) {
        assert(once == s);
    } else {
        assert(once == s.push(m));
        assert(once[s.len() as int].hash@ == m.hash@);
        assert(has_manifest(once, m.hash@));
    }
}

} // verus!
