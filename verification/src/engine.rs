//! The mesh file-distribution engine: shares split files into
//! content-addressed chunks, downloads drive one session per file through
//! verified chunk arrival, in-order assembly and a whole-file digest check.

use vstd::prelude::*;
use crate::chunking::{
    chunk_len, chunk_spec, count_marked, lemma_chunk_start_in_range, lemma_chunks_reassemble,
    lemma_count_marked_full, marked_bytes, num_chunks, take_chunk,
};
use crate::digest::{
    bytes_eq, bytes_to_hex, chunk_digest, chunk_digest_spec, clone_bytes, compute_digest,
    digest_of, hex_of,
};
use crate::error::DeskShareError;
use crate::manifest::{
    has_manifest, lemma_manifest_at, manifest_at, publish_result, ManifestCatalog, SharedFile,
};
use crate::peers::PeerIndex;
use crate::session::{
    all_chunks_stored, assembled_prefix, delivery_transition, is_terminal, progress_like,
    progress_matches, received_chunks_stored, status_rank, ChunkOutcome, DownloadingFile,
    FileChunk, TransferProgress, TransferStatus, RETRY_LIMIT,
};
use crate::store::ChunkStore;

verus! {

/// Default size of every chunk but possibly the last, in bytes.
pub const DEFAULT_CHUNK_SIZE: usize = 1024 * 1024;

/// Digest under which chunk `i` of `data` is addressed when shared with
/// chunk size `cs`.
pub open spec fn share_chunk_digest(data: Seq<u8>, cs: nat, i: int) -> Seq<u8> {
    chunk_digest_spec(i as u64, chunk_spec(data, cs, i as nat))
}

/// The chunk digest list a share of `data` publishes.
pub open spec fn share_digests(data: Seq<u8>, cs: nat) -> Seq<Seq<u8>> {
    Seq::new(num_chunks(data.len(), cs), |i: int| share_chunk_digest(data, cs, i))
}

/// No payload already in the store clashes with a chunk of `data`: where a
/// chunk's digest is already taken, it maps to that very chunk, and two
/// chunks of `data` meeting under one digest carry the same bytes.
pub open spec fn chunks_compatible(st: Map<Seq<u8>, Seq<u8>>, data: Seq<u8>, cs: nat) -> bool {
    &&& (forall|i: int| 0 <= i < num_chunks(data.len(), cs) && st.dom().contains(
        #[trigger] share_digests(data, cs)[i],
    ) ==> st[share_digests(data, cs)[i]] == chunk_spec(data, cs, i as nat))
    &&& (forall|i: int, j: int| 0 <= i < num_chunks(data.len(), cs) && 0 <= j < num_chunks(
        data.len(),
        cs,
    ) && share_digests(data, cs)[i] == share_digests(data, cs)[j] ==> chunk_spec(data, cs, i as nat)
        == chunk_spec(data, cs, j as nat))
}

/// The manifest's content fields are exactly those a share of `data` with
/// chunk size `cs` publishes.
pub open spec fn describes_content(m: SharedFile, data: Seq<u8>, cs: nat) -> bool {
    &&& m.hash@ == digest_of(data)
    &&& m.size == data.len()
    &&& m.chunk_size == cs
    &&& m.total_chunks == num_chunks(data.len(), cs)
    &&& m.chunks_view() == share_digests(data, cs)
}

/// The mesh file-distribution engine: the chunk store, the manifest
/// catalog, the peer availability index and the download sessions, behind
/// one handle so every mutation flows through its operations.
pub struct FileTransfer {
    store: ChunkStore,
    catalog: ManifestCatalog,
    availability: PeerIndex,
    sessions: Vec<DownloadingFile>,
    uploads: Vec<TransferProgress>,
    chunk_size: usize,
}

impl FileTransfer {
    pub closed spec fn store_contents(self) -> Map<Seq<u8>, Seq<u8>> {
        self.store.contents()
    }

    pub closed spec fn catalog_view(self) -> Seq<SharedFile> {
        self.catalog.entries_view()
    }

    pub closed spec fn sessions_view(self) -> Seq<DownloadingFile> {
        self.sessions@
    }

    pub closed spec fn peers_of(self, h: Seq<u8>) -> Seq<Seq<char>> {
        self.availability.peers_of(h)
    }

    pub closed spec fn uploads_view(self) -> Seq<TransferProgress> {
        self.uploads@
    }

    pub closed spec fn chunk_size_config(self) -> nat {
        self.chunk_size as nat
    }

    pub closed spec fn wf(self) -> bool {
        &&& self.catalog.wf()
        &&& self.availability.wf()
        &&& self.chunk_size > 0
        &&& (forall|i: int| 0 <= i < self.sessions@.len() ==> (#[trigger] self.sessions@[i]).wf())
        &&& (forall|i: int, j: int| 0 <= i < j < self.sessions@.len()
            ==> self.sessions@[i].file_hash@ != self.sessions@[j].file_hash@)
        &&& (forall|i: int| 0 <= i < self.sessions@.len() ==> received_chunks_stored(
            self.store.contents(),
            #[trigger] self.sessions@[i],
        ))
    }

    pub fn with_chunk_size(chunk_size: usize) -> (r: FileTransfer)
        requires
            chunk_size > 0,
        ensures
            r.wf(),
            r.chunk_size_config() == chunk_size,
            r.catalog_view().len() == 0,
            r.sessions_view().len() == 0,
            r.uploads_view().len() == 0,
            forall|d: Seq<u8>| !r.store_contents().dom().contains(d),
            forall|h: Seq<u8>| r.peers_of(h) == Seq::<Seq<char>>::empty(),
    {
        FileTransfer {
            store: ChunkStore::new(),
            catalog: ManifestCatalog::new(),
            availability: PeerIndex::new(),
            sessions: Vec::new(),
            uploads: Vec::new(),
            chunk_size,
        }
    }

    pub fn new() -> (r: FileTransfer)
        ensures
            r.wf(),
            r.chunk_size_config() == DEFAULT_CHUNK_SIZE,
            r.catalog_view().len() == 0,
            r.sessions_view().len() == 0,
            r.uploads_view().len() == 0,
            forall|d: Seq<u8>| !r.store_contents().dom().contains(d),
            forall|h: Seq<u8>| r.peers_of(h) == Seq::<Seq<char>>::empty(),
    {
        Self::with_chunk_size(DEFAULT_CHUNK_SIZE)
    }

    /// Share a file's content: split it into chunks, store each chunk under
    /// its index-bound digest, publish the manifest, record the origin peer
    /// as a source, and return the whole-file digest as the handle for
    /// later downloads.
    ///
    /// Fails with `IntegrityCheckFailed` when a chunk digest is already
    /// taken by a different payload, and with `DuplicateManifest` when a
    /// manifest with this file digest but different content is already
    /// published; succeeds on every other input, re-sharing identical
    /// content being a silent no-op of the catalog.
    #[verifier::loop_isolation(false)]
    pub fn share_file(&mut self, name: String, data: Vec<u8>, peer_id: String, timestamp: u64)
        -> (r: Result<Vec<u8>, DeskShareError>)
        requires
            old(self).wf(),
        ensures
            final(self).wf(),
            final(self).chunk_size_config() == old(self).chunk_size_config(),
            final(self).sessions_view() == old(self).sessions_view(),
            ({
                let cs = old(self).chunk_size_config();
                let n = num_chunks(data@.len(), cs);
                let digests = share_digests(data@, cs);
                let fd = digest_of(data@);
                match r {
                    Ok(d) => {
                        &&& d@ == fd
                        &&& d@.len() == 32
                        &&& chunks_compatible(old(self).store_contents(), data@, cs)
                        &&& (forall|i: int| 0 <= i < n ==> final(self).store_contents().dom().contains(
                            #[trigger] digests[i],
                        ) && final(self).store_contents()[digests[i]] == chunk_spec(data@, cs, i as nat))
                        &&& (forall|dd: Seq<u8>| old(self).store_contents().dom().contains(dd)
                            ==> final(self).store_contents().dom().contains(dd)
                                && final(self).store_contents()[dd] == old(self).store_contents()[dd])
                        &&& (forall|dd: Seq<u8>| final(self).store_contents().dom().contains(dd)
                            ==> old(self).store_contents().dom().contains(dd) || digests.contains(dd))
                        &&& has_manifest(final(self).catalog_view(), fd)
                        &&& describes_content(manifest_at(final(self).catalog_view(), fd), data@, cs)
                        &&& (!has_manifest(old(self).catalog_view(), fd) ==> {
                            let m = manifest_at(final(self).catalog_view(), fd);
                            &&& final(self).catalog_view() == old(self).catalog_view().push(m)
                            &&& m.name@ == name@
                            &&& m.peer_id@ == peer_id@
                            &&& m.timestamp == timestamp
                        })
                        &&& (has_manifest(old(self).catalog_view(), fd) ==> final(self).catalog_view()
                            == old(self).catalog_view())
                        &&& final(self).peers_of(fd) == (if old(self).peers_of(fd).contains(peer_id@) {
                            old(self).peers_of(fd)
                        } else {
                            old(self).peers_of(fd).push(peer_id@)
                        })
                        &&& (forall|h2: Seq<u8>| h2 != fd ==> final(self).peers_of(h2) == old(
                            self,
                        ).peers_of(h2))
                        &&& final(self).uploads_view().len() == old(self).uploads_view().len() + 1
                        &&& (forall|k: int| 0 <= k < old(self).uploads_view().len()
                            ==> final(self).uploads_view()[k] == old(self).uploads_view()[k])
                        &&& ({
                            let u = final(self).uploads_view().last();
                            &&& u.file_name@ == name@
                            &&& u.file_hash@ == hex_of(fd)
                            &&& u.bytes_transferred == data@.len()
                            &&& u.total_bytes == data@.len()
                            &&& u.percentage == 100
                            &&& u.status == TransferStatus::Completed
                        })
                    },
                    Err(e) => {
                        &&& (e == DeskShareError::IntegrityCheckFailed || e
                            == DeskShareError::DuplicateManifest)
                        &&& final(self).catalog_view() == old(self).catalog_view()
                        &&& final(self).uploads_view() == old(self).uploads_view()
                        &&& (forall|h2: Seq<u8>| final(self).peers_of(h2) == old(self).peers_of(h2))
                        &&& (forall|dd: Seq<u8>| old(self).store_contents().dom().contains(dd)
                            ==> final(self).store_contents().dom().contains(dd)
                                && final(self).store_contents()[dd] == old(self).store_contents()[dd])
                        &&& (forall|dd: Seq<u8>| final(self).store_contents().dom().contains(dd)
                            ==> old(self).store_contents().dom().contains(dd) || digests.contains(dd))
                        &&& (e == DeskShareError::IntegrityCheckFailed <==> !chunks_compatible(
                            old(self).store_contents(),
                            data@,
                            cs,
                        ))
                        &&& (e == DeskShareError::DuplicateManifest ==> has_manifest(
                            old(self).catalog_view(),
                            fd,
                        ) && !describes_content(manifest_at(old(self).catalog_view(), fd), data@, cs))
                    },
                }
            }),
    {
        let cs = self.chunk_size;
        let dlen = data.len();
        let file_digest = compute_digest(data.as_slice());
        let n: usize = if dlen == 0 {
            0
        } else {
            (dlen - 1) / cs + 1
        };
        proof {
            assert(n == num_chunks(data@.len(), cs as nat));
        }
        let ghost sd = share_digests(data@, cs as nat);
        let mut chunk_hashes: Vec<Vec<u8>> = Vec::new();
        let mut i: usize = 0;
        while i < n
            invariant
                self.wf(),
                cs == self.chunk_size,
                self.chunk_size == old(self).chunk_size,
                dlen == data@.len(),
                n == num_chunks(data@.len(), cs as nat),
                sd == share_digests(data@, cs as nat),
                0 <= i <= n,
                chunk_hashes@.len() == i,
                forall|k: int| 0 <= k < i ==> #[trigger] chunk_hashes@[k]@ == sd[k],
                forall|k: int| #![trigger sd[k]] 0 <= k < i ==> self.store.contents().dom().contains(
                    sd[k],
                ) && self.store.contents()[sd[k]] == chunk_spec(data@, cs as nat, k as nat),
                forall|dd: Seq<u8>| #![trigger old(self).store.contents().dom().contains(dd)]
                    old(self).store.contents().dom().contains(dd)
                    ==> self.store.contents().dom().contains(dd) && self.store.contents()[dd]
                        == old(self).store.contents()[dd],
                forall|dd: Seq<u8>| self.store.contents().dom().contains(dd)
                    ==> old(self).store.contents().dom().contains(dd) || (exists|k: int|
                        0 <= k < i && dd == sd[k]),
                self.catalog == old(self).catalog,
                self.availability == old(self).availability,
                self.sessions == old(self).sessions,
                self.uploads == old(self).uploads,
            decreases n - i,
        {
            let chunk = take_chunk(&data, cs, i);
            let cd = chunk_digest(i as u64, chunk.as_slice());
            proof {
                assert(cd@ == sd[i as int]);
            }
            chunk_hashes.push(clone_bytes(&cd));
            let ghost pre_contents = self.store.contents();
            match self.store.put(cd, chunk) {
                Ok(_) => {},
                Err(_) => {
                    proof {
                        assert(pre_contents.dom().contains(sd[i as int]));
                        assert(pre_contents[sd[i as int]] != chunk_spec(data@, cs as nat, i as nat));
                        if old(self).store.contents().dom().contains(sd[i as int]) {
                            assert(old(self).store.contents()[sd[i as int]] != chunk_spec(
                                data@,
                                cs as nat,
                                i as nat,
                            ));
                            assert(!chunks_compatible(old(self).store.contents(), data@, cs as nat));
                        } else {
                            let k = choose|k: int| 0 <= k < i && sd[i as int] == sd[k];
                            assert(pre_contents[sd[k]] == chunk_spec(data@, cs as nat, k as nat));
                            assert(chunk_spec(data@, cs as nat, k as nat) != chunk_spec(
                                data@,
                                cs as nat,
                                i as nat,
                            ));
                            assert(!chunks_compatible(old(self).store.contents(), data@, cs as nat));
                        }
                    }
                    return Err(DeskShareError::IntegrityCheckFailed);
                },
            }
            proof {
                assert forall|k: int| #![trigger sd[k]] 0 <= k < i + 1 implies
                    self.store.contents().dom().contains(sd[k]) && self.store.contents()[sd[k]]
                    == chunk_spec(data@, cs as nat, k as nat) by {
                    if k < i {
                        assert(pre_contents.dom().contains(sd[k]));
                        assert(pre_contents[sd[k]] == chunk_spec(data@, cs as nat, k as nat));
                    }
                }
                assert forall|dd: Seq<u8>| old(self).store.contents().dom().contains(dd) implies
                    self.store.contents().dom().contains(dd) && self.store.contents()[dd] == old(
                    self,
                ).store.contents()[dd] by {
                    assert(pre_contents.dom().contains(dd));
                    assert(pre_contents[dd] == old(self).store.contents()[dd]);
                    if !pre_contents.dom().contains(sd[i as int]) {
                        assert(dd != sd[i as int]);
                    }
                }
                assert forall|dd: Seq<u8>| self.store.contents().dom().contains(dd) implies old(
                    self,
                ).store.contents().dom().contains(dd) || (exists|k: int| 0 <= k < i + 1 && dd == sd[k]) by {
                    if !pre_contents.dom().contains(dd) {
                        assert(dd == sd[i as int]);
                    }
                }
                assert forall|si: int| 0 <= si < self.sessions@.len() implies received_chunks_stored(
                    self.store.contents(),
                    #[trigger] self.sessions@[si],
                ) by {
                    assert(received_chunks_stored(pre_contents, self.sessions@[si]));
                    assert forall|ci: int| 0 <= ci < self.sessions@[si].chunks_expected
                        && self.sessions@[si].chunks_received@[ci] implies self.store.contents().dom().contains(
                        #[trigger] self.sessions@[si].digests_view()[ci],
                    ) by {
                        assert(pre_contents.dom().contains(self.sessions@[si].digests_view()[ci]));
                    }
                }
            }
            i += 1;
        }
        proof {
            assert(chunks_compatible(old(self).store.contents(), data@, cs as nat)) by {
                assert forall|a: int| 0 <= a < n && old(self).store.contents().dom().contains(
                    #[trigger] sd[a],
                ) implies old(self).store.contents()[sd[a]] == chunk_spec(data@, cs as nat, a as nat) by {
                    assert(self.store.contents()[sd[a]] == chunk_spec(data@, cs as nat, a as nat));
                    assert(old(self).store.contents()[sd[a]] == self.store.contents()[sd[a]]);
                }
                assert forall|a: int, b: int| 0 <= a < n && 0 <= b < n && sd[a] == sd[b] implies chunk_spec(
                    data@,
                    cs as nat,
                    a as nat,
                ) == chunk_spec(data@, cs as nat, b as nat) by {
                    assert(self.store.contents()[sd[a]] == chunk_spec(data@, cs as nat, a as nat));
                    assert(self.store.contents()[sd[b]] == chunk_spec(data@, cs as nat, b as nat));
                }
            }
        }
        let manifest = SharedFile {
            hash: clone_bytes(&file_digest),
            name: name.clone(),
            size: dlen as u64,
            chunks: chunk_hashes,
            chunk_size: cs as u64,
            total_chunks: n,
            peer_id: peer_id.clone(),
            timestamp,
        };
        proof {
            assert(manifest.chunks_view() =~= sd);
            assert(manifest.wf());
            assert(describes_content(manifest, data@, cs as nat));
        }
        let ghost pre_catalog = self.catalog.entries_view();
        match self.catalog.publish(manifest) {
            Ok(_) => {},
            Err(e) => {
                proof {
                    assert(has_manifest(pre_catalog, digest_of(data@)));
                    assert(!manifest_at(pre_catalog, digest_of(data@)).same_content(manifest));
                    assert(!describes_content(
                        manifest_at(pre_catalog, digest_of(data@)),
                        data@,
                        cs as nat,
                    ));
                }
                return Err(e);
            },
        }
        proof {
            if has_manifest(pre_catalog, digest_of(data@)) {
                let im = choose|im: int|
                    0 <= im < pre_catalog.len() && pre_catalog[im].hash@ == digest_of(data@);
                lemma_manifest_at(pre_catalog, digest_of(data@), im);
                assert(manifest_at(pre_catalog, digest_of(data@)).same_content(manifest));
                assert(describes_content(manifest_at(pre_catalog, digest_of(data@)), data@, cs as nat));
            } else {
                lemma_manifest_at(
                    self.catalog.entries_view(),
                    digest_of(data@),
                    pre_catalog.len() as int,
                );
            }
        }
        self.availability.record(&file_digest, peer_id);
        let entry = TransferProgress {
            file_name: name,
            file_hash: bytes_to_hex(file_digest.as_slice()),
            bytes_transferred: dlen as u64,
            total_bytes: dlen as u64,
            percentage: 100,
            status: TransferStatus::Completed,
        };
        self.uploads.push(entry);
        Ok(file_digest)
    }
}

/// Whether some session is tracking this file digest.
pub open spec fn has_session(s: Seq<DownloadingFile>, h: Seq<u8>) -> bool {
    exists|i: int| 0 <= i < s.len() && s[i].file_hash@ == h
}

/// The index of the session tracking this file digest; meaningful when one
/// exists and the digests are unique.
pub open spec fn session_index(s: Seq<DownloadingFile>, h: Seq<u8>) -> int {
    choose|i: int| 0 <= i < s.len() && s[i].file_hash@ == h
}

/// With unique file digests, the session at a digest is the entry holding it.
pub proof fn lemma_session_at(s: Seq<DownloadingFile>, h: Seq<u8>, i: int)
    requires
        forall|a: int, b: int| 0 <= a < b < s.len() ==> s[a].file_hash@ != s[b].file_hash@,
        0 <= i < s.len(),
        s[i].file_hash@ == h,
    ensures
        has_session(s, h),
        session_index(s, h) == i,
{
    let j = session_index(s, h);
    if j != i {
        if j < i {
            assert(s[j].file_hash@ != s[i].file_hash@);
        } else {
            assert(s[i].file_hash@ != s[j].file_hash@);
        }
    }
}

/// The store holds, under every digest of the list, a payload that verifies
/// against that digest with the chunk length the manifest implies.
pub open spec fn store_ready_for(
    st: Map<Seq<u8>, Seq<u8>>,
    digests: Seq<Seq<u8>>,
    size: nat,
    cs: nat,
) -> bool {
    forall|i: int| 0 <= i < digests.len() ==> {
        &&& st.dom().contains(#[trigger] digests[i])
        &&& chunk_digest_spec(i as u64, st[digests[i]]) == digests[i]
        &&& st[digests[i]].len() == chunk_len(size, cs, i as nat)
    }
}

impl FileTransfer {
    fn find_session(&self, h: &Vec<u8>) -> (r: Option<usize>)
        ensures
            match r {
                Some(i) => i < self.sessions_view().len() && self.sessions_view()[i as int].file_hash@
                    == h@,
                None => !has_session(self.sessions_view(), h@),
            },
    {
        let n = self.sessions.len();
        let mut i: usize = 0;
        while i < n
            invariant
                n == self.sessions@.len(),
                0 <= i <= n,
                forall|k: int| 0 <= k < i ==> self.sessions@[k].file_hash@ != h@,
            decreases n - i,
        {
            if bytes_eq(&self.sessions[i].file_hash, h) {
                return Some(i);
            }
            i += 1;
        }
        None
    }

    /// Hand one delivered chunk to the session downloading the named file.
    /// The chunk is verified against the manifest digest for its index and
    /// the session moves as `delivery_transition` describes; a file no
    /// session is downloading is reported, not an error.
    pub fn on_chunk_received(&mut self, file_hash: &Vec<u8>, index: usize, bytes: Vec<u8>) -> (r:
        ChunkOutcome)
        requires
            old(self).wf(),
        ensures
            final(self).wf(),
            final(self).catalog_view() == old(self).catalog_view(),
            final(self).uploads_view() == old(self).uploads_view(),
            final(self).chunk_size_config() == old(self).chunk_size_config(),
            forall|h2: Seq<u8>| final(self).peers_of(h2) == old(self).peers_of(h2),
            !has_session(old(self).sessions_view(), file_hash@) ==> {
                &&& r == ChunkOutcome::NoSession
                &&& final(self).sessions_view() == old(self).sessions_view()
                &&& final(self).store_contents() == old(self).store_contents()
            },
            has_session(old(self).sessions_view(), file_hash@) ==> {
                let i = session_index(old(self).sessions_view(), file_hash@);
                &&& final(self).sessions_view() == old(self).sessions_view().update(
                    i,
                    final(self).sessions_view()[i],
                )
                &&& final(self).sessions_view()[i].wf()
                &&& delivery_transition(
                    old(self).sessions_view()[i],
                    final(self).sessions_view()[i],
                    old(self).store_contents(),
                    final(self).store_contents(),
                    index as int,
                    bytes@,
                    r,
                )
            },
    {
        let found = self.find_session(file_hash);
        match found {
            None => ChunkOutcome::NoSession,
            Some(i) => {
                proof {
                    lemma_session_at(self.sessions@, file_hash@, i as int);
                    assert(received_chunks_stored(self.store.contents(), self.sessions@[i as int]));
                }
                let ghost pre_sessions = self.sessions@;
                let ghost pre_store = self.store.contents();
                let s = &mut self.sessions[i];
                let r = s.deliver(&mut self.store, index, bytes);
                proof {
                    assert(self.sessions@ == pre_sessions.update(i as int, self.sessions@[i as int]));
                    assert forall|si: int| 0 <= si < self.sessions@.len() implies received_chunks_stored(
                        self.store.contents(),
                        #[trigger] self.sessions@[si],
                    ) by {
                        if si != i {
                            assert(self.sessions@[si] == pre_sessions[si]);
                            assert(received_chunks_stored(pre_store, pre_sessions[si]));
                            assert forall|ci: int| 0 <= ci < self.sessions@[si].chunks_expected
                                && self.sessions@[si].chunks_received@[ci] implies self.store.contents().dom().contains(
                                #[trigger] self.sessions@[si].digests_view()[ci],
                            ) by {
                                assert(pre_store.dom().contains(self.sessions@[si].digests_view()[ci]));
                            }
                        }
                    }
                }
                r
            },
        }
    }

    /// Deliver a chunk packaged as a `FileChunk` record.
    pub fn deliver_chunk(&mut self, chunk: FileChunk) -> (r: ChunkOutcome)
        requires
            old(self).wf(),
            chunk.index < usize::MAX,
        ensures
            final(self).wf(),
            final(self).catalog_view() == old(self).catalog_view(),
            final(self).uploads_view() == old(self).uploads_view(),
            forall|h2: Seq<u8>| final(self).peers_of(h2) == old(self).peers_of(h2),
            !has_session(old(self).sessions_view(), chunk.file_hash@) ==> r
                == ChunkOutcome::NoSession && final(self).sessions_view() == old(
                self,
            ).sessions_view(),
            has_session(old(self).sessions_view(), chunk.file_hash@) ==> delivery_transition(
                old(self).sessions_view()[session_index(old(self).sessions_view(), chunk.file_hash@)],
                final(self).sessions_view()[session_index(old(self).sessions_view(), chunk.file_hash@)],
                old(self).store_contents(),
                final(self).store_contents(),
                chunk.index as int,
                chunk.data@,
                r,
            ),
    {
        self.on_chunk_received(&chunk.file_hash, chunk.index as usize, chunk.data)
    }

    /// Abort the session downloading the named file: a live session moves to
    /// `Failed` with a `Cancelled` cause and accepts no further chunks; on a
    /// terminal session cancellation is an idempotent no-op.
    pub fn cancel_download(&mut self, file_hash: &Vec<u8>) -> (r: Result<(), DeskShareError>)
        requires
            old(self).wf(),
        ensures
            final(self).wf(),
            final(self).catalog_view() == old(self).catalog_view(),
            final(self).uploads_view() == old(self).uploads_view(),
            final(self).store_contents() == old(self).store_contents(),
            final(self).chunk_size_config() == old(self).chunk_size_config(),
            forall|h2: Seq<u8>| final(self).peers_of(h2) == old(self).peers_of(h2),
            !has_session(old(self).sessions_view(), file_hash@) ==> {
                &&& r == Err::<(), DeskShareError>(DeskShareError::SessionNotFound)
                &&& final(self).sessions_view() == old(self).sessions_view()
            },
            has_session(old(self).sessions_view(), file_hash@) ==> {
                let i = session_index(old(self).sessions_view(), file_hash@);
                let pre = old(self).sessions_view()[i];
                let post = final(self).sessions_view()[i];
                &&& r == Ok::<(), DeskShareError>(())
                &&& final(self).sessions_view() == old(self).sessions_view().update(i, post)
                &&& (is_terminal(pre.status) ==> post == pre)
                &&& (!is_terminal(pre.status) ==> {
                    &&& post.status == TransferStatus::Failed
                    &&& post.fail_reason == Some(DeskShareError::Cancelled)
                    &&& post.same_identity(pre)
                    &&& post.chunks_received@ == pre.chunks_received@
                    &&& post.received_count == pre.received_count
                    &&& post.bytes_received == pre.bytes_received
                    &&& post.attempts@ == pre.attempts@
                    &&& post.assembled == pre.assembled
                })
                &&& status_rank(post.status) >= status_rank(pre.status)
            },
    {
        let found = self.find_session(file_hash);
        match found {
            None => Err(DeskShareError::SessionNotFound),
            Some(i) => {
                proof {
                    lemma_session_at(self.sessions@, file_hash@, i as int);
                }
                let ghost pre_sessions = self.sessions@;
                let terminal = matches!(
                    self.sessions[i].status,
                    TransferStatus::Completed | TransferStatus::Failed
                );
                if !terminal {
                    let s = &mut self.sessions[i];
                    s.status = TransferStatus::Failed;
                    s.fail_reason = Some(DeskShareError::Cancelled);
                }
                proof {
                    if terminal {
                        assert(self.sessions@ =~= pre_sessions.update(
                            i as int,
                            self.sessions@[i as int],
                        ));
                    }
                    assert forall|si: int| 0 <= si < self.sessions@.len() implies received_chunks_stored(
                        self.store.contents(),
                        #[trigger] self.sessions@[si],
                    ) by {
                        if si != i {
                            assert(self.sessions@[si] == pre_sessions[si]);
                        } else {
                            assert(received_chunks_stored(self.store.contents(), pre_sessions[si]));
                            assert(self.sessions@[si].chunks_received@
                                == pre_sessions[si].chunks_received@);
                            assert(self.sessions@[si].digests_view()
                                == pre_sessions[si].digests_view());
                        }
                    }
                }
                Ok(())
            },
        }
    }

    /// Create the download session for a file whose manifest is locally
    /// known: the session starts with no chunk received and every expected
    /// chunk index scheduled, with the availability index's candidates as
    /// its sources.  Asking again for a file already being downloaded is a
    /// no-op returning the existing session's handle; a file without a
    /// manifest is refused.
    pub fn start_download(&mut self, file_hash: &Vec<u8>, output_path: String) -> (r: Result<
        usize,
        DeskShareError,
    >)
        requires
            old(self).wf(),
        ensures
            final(self).wf(),
            final(self).catalog_view() == old(self).catalog_view(),
            final(self).uploads_view() == old(self).uploads_view(),
            final(self).store_contents() == old(self).store_contents(),
            final(self).chunk_size_config() == old(self).chunk_size_config(),
            forall|h2: Seq<u8>| final(self).peers_of(h2) == old(self).peers_of(h2),
            has_session(old(self).sessions_view(), file_hash@) ==> {
                &&& r == Ok::<usize, DeskShareError>(
                    session_index(old(self).sessions_view(), file_hash@) as usize,
                )
                &&& final(self).sessions_view() == old(self).sessions_view()
            },
            (!has_session(old(self).sessions_view(), file_hash@) && !has_manifest(
                old(self).catalog_view(),
                file_hash@,
            )) ==> {
                &&& r == Err::<usize, DeskShareError>(DeskShareError::ManifestNotFound)
                &&& final(self).sessions_view() == old(self).sessions_view()
            },
            (!has_session(old(self).sessions_view(), file_hash@) && has_manifest(
                old(self).catalog_view(),
                file_hash@,
            )) ==> {
                let m = manifest_at(old(self).catalog_view(), file_hash@);
                let s = final(self).sessions_view().last();
                &&& r == Ok::<usize, DeskShareError>(old(self).sessions_view().len() as usize)
                &&& final(self).sessions_view() == old(self).sessions_view().push(s)
                &&& s.file_hash@ == file_hash@
                &&& s.file_name@ == m.name@
                &&& s.output_path@ == output_path@
                &&& s.chunk_size == m.chunk_size
                &&& s.total_bytes == m.size
                &&& s.chunks_expected == m.total_chunks
                &&& s.digests_view() == m.chunks_view()
                &&& s.peers@.map_values(|p: String| p@) == old(self).peers_of(file_hash@)
                &&& s.received_count == 0
                &&& s.bytes_received == 0
                &&& (forall|k: int| 0 <= k < s.chunks_expected ==> !s.chunks_received@[k])
                &&& (forall|k: int| 0 <= k < s.chunks_expected ==> s.attempts@[k] == 0)
                &&& (m.total_chunks > 0 ==> s.status == TransferStatus::InProgress
                    && s.assembled.is_none())
                &&& (m.total_chunks == 0 ==> is_terminal(s.status) && (if digest_of(Seq::<u8>::empty())
                    == file_hash@ {
                    s.status == TransferStatus::Completed && (s.assembled matches Some(v) && v@
                        == Seq::<u8>::empty())
                } else {
                    s.status == TransferStatus::Failed && s.fail_reason == Some(
                        DeskShareError::IntegrityCheckFailed,
                    )
                }))
            },
    {
        let found = self.find_session(file_hash);
        match found {
            Some(i) => {
                proof {
                    lemma_session_at(self.sessions@, file_hash@, i as int);
                }
                Ok(i)
            },
            None => {
                match self.catalog.lookup(file_hash) {
                    None => Err(DeskShareError::ManifestNotFound),
                    Some(m) => {
                        let n = m.total_chunks;
                        let mut received: Vec<bool> = Vec::new();
                        let mut attempts: Vec<u32> = Vec::new();
                        let mut k: usize = 0;
                        while k < n
                            invariant
                                0 <= k <= n,
                                received@.len() == k,
                                attempts@.len() == k,
                                count_marked(received@) == 0,
                                marked_bytes(received@, m.size as nat, m.chunk_size as nat) == 0,
                                forall|t: int| 0 <= t < k ==> !received@[t],
                                forall|t: int| 0 <= t < k ==> attempts@[t] == 0,
                            decreases n - k,
                        {
                            let ghost pre_received = received@;
                            received.push(false);
                            attempts.push(0);
                            proof {
                                assert(received@.drop_last() =~= pre_received);
                                assert(!received@.last());
                            }
                            k += 1;
                        }
                        let peers = self.availability.candidates(file_hash);
                        let mut session = DownloadingFile {
                            file_hash: clone_bytes(file_hash),
                            file_name: m.name,
                            output_path,
                            chunk_size: m.chunk_size,
                            total_bytes: m.size,
                            chunks_expected: n,
                            chunk_digests: m.chunks,
                            chunks_received: received,
                            received_count: 0,
                            bytes_received: 0,
                            attempts,
                            peers,
                            status: TransferStatus::InProgress,
                            fail_reason: None,
                            assembled: None,
                        };
                        proof {
                            assert(session.digests_view() == manifest_at(
                                self.catalog.entries_view(),
                                file_hash@,
                            ).chunks_view());
                            assert(session.wf());
                        }
                        if n == 0 {
                            proof {
                                assert(all_chunks_stored(self.store.contents(), session));
                            }
                            session.finish(&self.store);
                            proof {
                                assert(assembled_prefix(
                                    self.store.contents(),
                                    session.digests_view(),
                                    0,
                                ) == Seq::<u8>::empty());
                            }
                        }
                        let ghost pre_sessions = self.sessions@;
                        let handle = self.sessions.len();
                        self.sessions.push(session);
                        proof {
                            assert forall|si: int| 0 <= si < self.sessions@.len() implies received_chunks_stored(
                                self.store.contents(),
                                #[trigger] self.sessions@[si],
                            ) by {
                                if si < pre_sessions.len() {
                                    assert(self.sessions@[si] == pre_sessions[si]);
                                }
                            }
                            assert(self.sessions@ =~= pre_sessions.push(self.sessions@.last()));
                        }
                        Ok(handle)
                    },
                }
            },
        }
    }

    /// Start (or join) the download of a file and fetch every chunk that the
    /// local store can already supply, driving the session through
    /// verification, assembly and the whole-file digest check.  When the
    /// local store holds a verifying payload for every expected chunk and
    /// the reassembled bytes hash to the file digest, the fresh session
    /// completes with the reassembled file; chunks the store cannot supply
    /// leave their indices pending for remote fetching.
    #[verifier::loop_isolation(false)]
    pub fn download_file(&mut self, file_hash: &Vec<u8>, output_path: String) -> (r: Result<
        usize,
        DeskShareError,
    >)
        requires
            old(self).wf(),
        ensures
            final(self).wf(),
            final(self).catalog_view() == old(self).catalog_view(),
            final(self).uploads_view() == old(self).uploads_view(),
            final(self).store_contents() == old(self).store_contents(),
            final(self).chunk_size_config() == old(self).chunk_size_config(),
            forall|h2: Seq<u8>| final(self).peers_of(h2) == old(self).peers_of(h2),
            r is Err <==> (!has_session(old(self).sessions_view(), file_hash@) && !has_manifest(
                old(self).catalog_view(),
                file_hash@,
            )),
            r is Err ==> r == Err::<usize, DeskShareError>(DeskShareError::ManifestNotFound)
                && final(self).sessions_view() == old(self).sessions_view(),
            r matches Ok(i) ==> {
                &&& (i as int) < final(self).sessions_view().len()
                &&& final(self).sessions_view()[i as int].wf()
                &&& final(self).sessions_view()[i as int].file_hash@ == file_hash@
            },
            (has_session(old(self).sessions_view(), file_hash@) ==> {
                &&& r == Ok::<usize, DeskShareError>(
                    session_index(old(self).sessions_view(), file_hash@) as usize,
                )
                &&& final(self).sessions_view().len() == old(self).sessions_view().len()
            }),
            (!has_session(old(self).sessions_view(), file_hash@) && has_manifest(
                old(self).catalog_view(),
                file_hash@,
            )) ==> {
                let m = manifest_at(old(self).catalog_view(), file_hash@);
                let s = final(self).sessions_view().last();
                &&& r == Ok::<usize, DeskShareError>(old(self).sessions_view().len() as usize)
                &&& final(self).sessions_view().len() == old(self).sessions_view().len() + 1
                &&& s.file_hash@ == file_hash@
                &&& s.file_name@ == m.name@
                &&& s.output_path@ == output_path@
                &&& s.total_bytes == m.size
                &&& s.chunk_size == m.chunk_size
                &&& s.chunks_expected == m.total_chunks
                &&& s.digests_view() == m.chunks_view()
                &&& ((store_ready_for(
                    old(self).store_contents(),
                    m.chunks_view(),
                    m.size as nat,
                    m.chunk_size as nat,
                ) && digest_of(
                    assembled_prefix(
                        old(self).store_contents(),
                        m.chunks_view(),
                        m.total_chunks as nat,
                    ),
                ) == file_hash@) ==> {
                    &&& s.status == TransferStatus::Completed
                    &&& (s.assembled matches Some(v) && v@ == assembled_prefix(
                        old(self).store_contents(),
                        m.chunks_view(),
                        m.total_chunks as nat,
                    ))
                    &&& s.received_count == m.total_chunks
                    &&& s.bytes_received == m.size
                })
            },
    {
        let ghost fresh = !has_session(old(self).sessions_view(), file_hash@);
        let pre_len = self.sessions.len();
        let started = self.start_download(file_hash, output_path);
        let idx = match started {
            Ok(i) => i,
            Err(e) => {
                return Err(e);
            },
        };
        let ghost st0 = self.store.contents();
        let ghost sess0 = self.sessions@;
        let ghost s0 = self.sessions@[idx as int];
        let ghost dv0 = s0.digests_view();
        let ghost nn = s0.chunks_expected as nat;
        let ghost h0 = s0.file_hash@;
        let ghost ready = store_ready_for(st0, dv0, s0.total_bytes as nat, s0.chunk_size as nat);
        proof {
            assert(self.sessions_view() == self.sessions@);
            assert(old(self).sessions_view().len() == pre_len as int);
            if fresh {
                assert(has_manifest(old(self).catalog_view(), file_hash@));
                assert(idx as int == old(self).sessions_view().len());
                assert(self.sessions_view() == old(self).sessions_view().push(
                    self.sessions_view().last(),
                ));
                assert(s0 == self.sessions_view().last());
                assert(s0.file_hash@ == file_hash@);
            } else {
                let j = session_index(old(self).sessions_view(), file_hash@);
                assert(exists|i: int|
                    0 <= i < old(self).sessions_view().len() && old(self).sessions_view()[
                    i].file_hash@ == file_hash@);
                assert(0 <= j < old(self).sessions_view().len() && old(self).sessions_view()[
                j].file_hash@ == file_hash@);
                assert(self.sessions_view() == old(self).sessions_view());
                assert(idx as int == j);
                assert(s0 == old(self).sessions_view()[j]);
            }
        }
        let n = self.sessions[idx].chunks_expected;
        let mut index: usize = 0;
        while index < n
            invariant
                self.wf(),
                self.store.contents() == st0,
                self.catalog.entries_view() == old(self).catalog.entries_view(),
                forall|h2: Seq<u8>| self.peers_of(h2) == old(self).peers_of(h2),
                self.uploads@ == old(self).uploads@,
                self.chunk_size == old(self).chunk_size,
                s0.file_hash@ == file_hash@,
                self.sessions@.len() == sess0.len(),
                idx < sess0.len(),
                forall|j: int| 0 <= j < sess0.len() && j != idx ==> self.sessions@[j] == sess0[j],
                0 <= index <= n,
                n == s0.chunks_expected,
                self.sessions@[idx as int].same_identity(s0),
                status_rank(self.sessions@[idx as int].status) >= status_rank(s0.status),
                fresh ==> (forall|k: int| index <= k < n
                    ==> #[trigger] self.sessions@[idx as int].attempts@[k] == 0),
                fresh ==> (is_terminal(self.sessions@[idx as int].status)
                    ==> self.sessions@[idx as int].received_count == n),
                fresh ==> (self.sessions@[idx as int].received_count == n ==> is_terminal(
                    self.sessions@[idx as int].status,
                )),
                (fresh && ready) ==> (forall|k: int| 0 <= k < index
                    ==> self.sessions@[idx as int].chunks_received@[k]),
                fresh ==> (is_terminal(self.sessions@[idx as int].status) ==> {
                    let s = self.sessions@[idx as int];
                    &&& (s.status == TransferStatus::Completed <==> digest_of(
                        assembled_prefix(st0, dv0, nn),
                    ) == h0)
                    &&& (s.status == TransferStatus::Completed ==> (s.assembled matches Some(v)
                        && v@ == assembled_prefix(st0, dv0, nn)))
                }),
            decreases n - index,
        {
            let digest = clone_bytes(&self.sessions[idx].chunk_digests[index]);
            proof {
                assert(digest@ == dv0[index as int]);
            }
            let fetched = self.store.get(&digest);
            match fetched {
                Some(bytes) => {
                    let ghost pre_s = self.sessions@[idx as int];
                    proof {
                        assert(received_chunks_stored(self.store.contents(), pre_s));
                        if fresh && ready {
                            assert(st0.dom().contains(dv0[index as int]));
                            assert(pre_s.chunk_ok(index as int, bytes@));
                        }
                    }
                    let s = &mut self.sessions[idx];
                    let outcome = s.deliver(&mut self.store, index, bytes);
                    proof {
                        let post_s = self.sessions@[idx as int];
                        assert(delivery_transition(
                            pre_s,
                            post_s,
                            st0,
                            self.store.contents(),
                            index as int,
                            bytes@,
                            outcome,
                        ));
                        assert(self.store.contents() == st0);
                        assert forall|si: int| 0 <= si < self.sessions@.len() implies received_chunks_stored(
                            self.store.contents(),
                            #[trigger] self.sessions@[si],
                        ) by {
                            if si != idx {
                                assert(self.sessions@[si] == sess0[si]);
                            }
                        }
                        if fresh {
                            assert(pre_s.attempts@[index as int] == 0);
                            if !is_terminal(pre_s.status) && !pre_s.chunks_received@[index as int]
                                && !pre_s.chunk_ok(index as int, bytes@) {
                                assert(pre_s.attempts@[index as int] + 1 < RETRY_LIMIT);
                                assert(post_s.status == pre_s.status);
                            }
                            if is_terminal(pre_s.status) {
                                assert(post_s == pre_s);
                            }
                            if is_terminal(post_s.status) && !is_terminal(pre_s.status) {
                                assert(post_s.received_count == pre_s.received_count + 1);
                                crate::chunking::lemma_count_marked_le(post_s.chunks_received@);
                                assert(post_s.received_count <= n);
                                if post_s.received_count < n {
                                    assert(post_s.status == TransferStatus::InProgress);
                                    assert(false);
                                }
                                assert(post_s.received_count == n);
                                assert(pre_s.digests_view() == dv0);
                                assert(pre_s.file_hash@ == h0);
                                assert(post_s.status == TransferStatus::Completed <==> digest_of(
                                    assembled_prefix(st0, dv0, nn),
                                ) == h0);
                            }
                            if fresh && ready && is_terminal(post_s.status) {
                                lemma_count_marked_full(post_s.chunks_received@);
                            }
                        }
                        if fresh && ready {
                            assert forall|k: int| 0 <= k < index + 1 implies
                                self.sessions@[idx as int].chunks_received@[k] by {
                                if is_terminal(pre_s.status) {
                                    lemma_count_marked_full(pre_s.chunks_received@);
                                } else if k < index {
                                    assert(pre_s.chunks_received@[k]);
                                }
                            }
                        }
                    }
                },
                None => {
                    proof {
                        if fresh && ready {
                            assert(st0.dom().contains(dv0[index as int]));
                            assert(false);
                        }
                    }
                },
            }
            index += 1;
        }
        proof {
            if fresh && ready && digest_of(assembled_prefix(st0, dv0, nn)) == h0 {
                let s = self.sessions@[idx as int];
                assert(forall|k: int| 0 <= k < n ==> s.chunks_received@[k]);
                lemma_count_marked_full(s.chunks_received@);
                assert(s.received_count == n);
                assert(is_terminal(s.status));
                assert(s.status == TransferStatus::Completed);
                crate::chunking::lemma_marked_bytes_full(
                    s.chunks_received@,
                    s.total_bytes as nat,
                    s.chunk_size as nat,
                );
                assert(s.bytes_received == s.total_bytes);
            }
            assert(self.sessions@.last() == self.sessions@[idx as int] || !fresh);
            assert(self.sessions@[idx as int].wf());
            assert(self.sessions@[idx as int].file_hash@ == file_hash@);
        }
        Ok(idx)
    }
}

/// Upper bound on concurrently outstanding chunk requests per session.
pub const MAX_CONCURRENT_REQUESTS: usize = 8;

/// How long a single chunk request may wait for an answer before the
/// attempt counts as failed and the index is retried against another
/// candidate.  The transport enforcing this runs outside the engine.
pub const CHUNK_REQUEST_TIMEOUT_MS: u64 = 5000;

impl FileTransfer {
    /// A snapshot of every transfer for reporting: first the uploads, which
    /// are complete from the moment of publication, then the live download
    /// sessions; every percentage lies between 0 and 100.
    pub fn get_transfer_progress(&self) -> (r: Vec<TransferProgress>)
        requires
            self.wf(),
        ensures
            r@.len() == self.uploads_view().len() + self.sessions_view().len(),
            forall|k: int| 0 <= k < self.uploads_view().len() ==> progress_like(
                #[trigger] r@[k],
                self.uploads_view()[k],
            ),
            forall|j: int| 0 <= j < self.sessions_view().len()
                ==> progress_matches(
                #[trigger] r@[self.uploads_view().len() + j],
                self.sessions_view()[j],
            ),
    {
        let mut r: Vec<TransferProgress> = Vec::new();
        let nu = self.uploads.len();
        let mut k: usize = 0;
        while k < nu
            invariant
                nu == self.uploads@.len(),
                0 <= k <= nu,
                r@.len() == k,
                forall|t: int| 0 <= t < k ==> progress_like(
                    #[trigger] r@[t],
                    self.uploads@[t],
                ),
            decreases nu - k,
        {
            r.push(self.uploads[k].duplicate());
            k += 1;
        }
        let ns = self.sessions.len();
        let mut j: usize = 0;
        while j < ns
            invariant
                self.wf(),
                nu == self.uploads@.len(),
                ns == self.sessions@.len(),
                0 <= j <= ns,
                r@.len() == nu + j,
                forall|t: int| 0 <= t < nu ==> progress_like(
                    #[trigger] r@[t],
                    self.uploads@[t],
                ),
                forall|t: int| 0 <= t < j ==> progress_matches(
                    #[trigger] r@[nu + t],
                    self.sessions@[t],
                ),
            decreases ns - j,
        {
            r.push(self.sessions[j].progress());
            j += 1;
        }
        r
    }

    /// The status of the session downloading the named file, if one exists.
    pub fn transfer_status(&self, file_hash: &Vec<u8>) -> (r: Option<TransferStatus>)
        ensures
            match r {
                Some(st) => has_session(self.sessions_view(), file_hash@) && exists|i: int|
                    0 <= i < self.sessions_view().len() && (#[trigger] self.sessions_view()[i]).file_hash@
                        == file_hash@ && st == self.sessions_view()[i].status,
                None => !has_session(self.sessions_view(), file_hash@),
            },
    {
        match self.find_session(file_hash) {
            Some(i) => Some(self.sessions[i].status),
            None => None,
        }
    }

    /// The reassembled file of a completed session, if the named file's
    /// session has completed.
    pub fn assembled_output(&self, file_hash: &Vec<u8>) -> (r: Option<Vec<u8>>)
        requires
            self.wf(),
        ensures
            match r {
                Some(v) => exists|i: int|
                    0 <= i < self.sessions_view().len() && (#[trigger] self.sessions_view()[i]).file_hash@
                        == file_hash@ && (self.sessions_view()[i].assembled matches Some(a) && v@
                        == a@),
                None => !has_session(self.sessions_view(), file_hash@) || (forall|i: int|
                    0 <= i < self.sessions_view().len() && (#[trigger] self.sessions_view()[i]).file_hash@
                        == file_hash@ ==> self.sessions_view()[i].assembled is None),
            },
    {
        match self.find_session(file_hash) {
            Some(i) => {
                match &self.sessions[i].assembled {
                    Some(bytes) => Some(clone_bytes(bytes)),
                    None => {
                        proof {
                            assert forall|t: int|
                                0 <= t < self.sessions_view().len() && (
                                #[trigger] self.sessions_view()[t]).file_hash@ == file_hash@ implies
                                self.sessions_view()[t].assembled is None by {
                                lemma_one_session_per_digest(self, t, i as int);
                            }
                        }
                        None
                    },
                }
            },
            None => None,
        }
    }

    /// Serve a chunk from the local store to a requesting peer: the payload
    /// stored under the digest, or `ChunkNotFound` when the store does not
    /// hold it.
    pub fn handle_chunk_request(&self, chunk_hash: &Vec<u8>, _requesting_peer: &String) -> (r:
        Result<(Vec<u8>, Vec<u8>), DeskShareError>)
        ensures
            match r {
                Ok(p) => {
                    &&& self.store_contents().dom().contains(chunk_hash@)
                    &&& p.0@ == chunk_hash@
                    &&& p.1@ == self.store_contents()[chunk_hash@]
                },
                Err(e) => {
                    &&& e == DeskShareError::ChunkNotFound
                    &&& !self.store_contents().dom().contains(chunk_hash@)
                },
            },
    {
        match self.store.get(chunk_hash) {
            Some(bytes) => Ok((clone_bytes(chunk_hash), bytes)),
            None => Err(DeskShareError::ChunkNotFound),
        }
    }

    /// Register a manifest obtained from a peer, exactly as publication of
    /// a local share does: a new digest is appended, identical content
    /// under a known digest is a silent no-op, and conflicting content
    /// under a known digest is rejected.
    pub fn publish_manifest(&mut self, m: SharedFile) -> (r: Result<(), DeskShareError>)
        requires
            old(self).wf(),
            m.wf(),
        ensures
            final(self).wf(),
            final(self).store_contents() == old(self).store_contents(),
            final(self).sessions_view() == old(self).sessions_view(),
            final(self).uploads_view() == old(self).uploads_view(),
            final(self).chunk_size_config() == old(self).chunk_size_config(),
            forall|h2: Seq<u8>| final(self).peers_of(h2) == old(self).peers_of(h2),
            r is Ok <==> (!has_manifest(old(self).catalog_view(), m.hash@) || manifest_at(
                old(self).catalog_view(),
                m.hash@,
            ).same_content(m)),
            r is Ok ==> final(self).catalog_view() == publish_result(old(self).catalog_view(), m),
            r is Err ==> final(self).catalog_view() == old(self).catalog_view() && r == Err::<
                (),
                DeskShareError,
            >(DeskShareError::DuplicateManifest),
    {
        self.catalog.publish(m)
    }

    /// Record that a peer holds a file, as discovery or an announcement
    /// reports it.
    pub fn record_peer(&mut self, file_hash: &Vec<u8>, peer_id: String)
        requires
            old(self).wf(),
        ensures
            final(self).wf(),
            final(self).store_contents() == old(self).store_contents(),
            final(self).sessions_view() == old(self).sessions_view(),
            final(self).uploads_view() == old(self).uploads_view(),
            final(self).catalog_view() == old(self).catalog_view(),
            final(self).chunk_size_config() == old(self).chunk_size_config(),
            final(self).peers_of(file_hash@) == (if old(self).peers_of(file_hash@).contains(
                peer_id@,
            ) {
                old(self).peers_of(file_hash@)
            } else {
                old(self).peers_of(file_hash@).push(peer_id@)
            }),
            forall|h2: Seq<u8>| h2 != file_hash@ ==> final(self).peers_of(h2) == old(self).peers_of(
                h2,
            ),
    {
        self.availability.record(file_hash, peer_id);
    }

    /// Forget that a peer holds a file, as a departure or a failed probe
    /// reports it.
    pub fn remove_peer(&mut self, file_hash: &Vec<u8>, peer_id: &String)
        requires
            old(self).wf(),
        ensures
            final(self).wf(),
            final(self).store_contents() == old(self).store_contents(),
            final(self).sessions_view() == old(self).sessions_view(),
            final(self).uploads_view() == old(self).uploads_view(),
            final(self).catalog_view() == old(self).catalog_view(),
            final(self).chunk_size_config() == old(self).chunk_size_config(),
            !final(self).peers_of(file_hash@).contains(peer_id@),
            final(self).peers_of(file_hash@) == old(self).peers_of(file_hash@).remove_value(
                peer_id@,
            ),
            forall|h2: Seq<u8>| h2 != file_hash@ ==> final(self).peers_of(h2) == old(self).peers_of(
                h2,
            ),
    {
        self.availability.remove(file_hash, peer_id);
    }

    /// Demote an unresponsive peer to the back of a file's round-robin
    /// order, as the timeout handling reports it; the peer stays known and
    /// is retried after the others.
    pub fn demote_peer(&mut self, file_hash: &Vec<u8>, peer_id: &String)
        requires
            old(self).wf(),
        ensures
            final(self).wf(),
            final(self).store_contents() == old(self).store_contents(),
            final(self).sessions_view() == old(self).sessions_view(),
            final(self).uploads_view() == old(self).uploads_view(),
            final(self).catalog_view() == old(self).catalog_view(),
            final(self).chunk_size_config() == old(self).chunk_size_config(),
            old(self).peers_of(file_hash@).contains(peer_id@) ==> final(self).peers_of(file_hash@)
                == old(self).peers_of(file_hash@).remove_value(peer_id@).push(peer_id@),
            !old(self).peers_of(file_hash@).contains(peer_id@) ==> final(self).peers_of(file_hash@)
                == old(self).peers_of(file_hash@),
            forall|h2: Seq<u8>| h2 != file_hash@ ==> final(self).peers_of(h2) == old(self).peers_of(
                h2,
            ),
    {
        self.availability.demote(file_hash, peer_id);
    }

    /// Every published manifest.
    pub fn get_shared_files(&self) -> (r: Vec<SharedFile>)
        ensures
            r@.len() == self.catalog_view().len(),
            forall|i: int| 0 <= i < r@.len() ==> (#[trigger] r@[i]).like(self.catalog_view()[i]),
    {
        self.catalog.list()
    }

    /// The candidate peers recorded for a file, in round-robin order.
    pub fn candidates(&self, file_hash: &Vec<u8>) -> (r: Vec<String>)
        requires
            self.wf(),
        ensures
            r@.map_values(|p: String| p@) == self.peers_of(file_hash@),
    {
        self.availability.candidates(file_hash)
    }

    /// The peer to ask next for one chunk of a download: candidates rotate
    /// with the chunk index, and every failed attempt for the index moves on
    /// to the next candidate, so a retry targets a different peer whenever
    /// more than one is known.
    pub fn next_source(&self, file_hash: &Vec<u8>, index: usize) -> (r: Option<String>)
        requires
            self.wf(),
        ensures
            match r {
                Some(p) => exists|i: int|
                    {
                        &&& 0 <= i < self.sessions_view().len()
                        &&& (#[trigger] self.sessions_view()[i]).file_hash@ == file_hash@
                        &&& index < self.sessions_view()[i].chunks_expected
                        &&& self.sessions_view()[i].peers@.len() > 0
                        &&& p@ == self.sessions_view()[i].peers@[((index
                            + self.sessions_view()[i].attempts@[index as int]) as int) % (
                        self.sessions_view()[i].peers@.len() as int)]@
                    },
                None => !has_session(self.sessions_view(), file_hash@) || (forall|i: int|
                    0 <= i < self.sessions_view().len() && (#[trigger] self.sessions_view()[i]).file_hash@
                        == file_hash@ ==> index >= self.sessions_view()[i].chunks_expected
                        || self.sessions_view()[i].peers@.len() == 0),
            },
    {
        match self.find_session(file_hash) {
            None => None,
            Some(i) => {
                let s = &self.sessions[i];
                if index >= s.chunks_expected || s.peers.len() == 0 {
                    proof {
                        assert forall|t: int|
                            0 <= t < self.sessions_view().len() && (
                            #[trigger] self.sessions_view()[t]).file_hash@ == file_hash@ implies
                            index >= self.sessions_view()[t].chunks_expected
                                || self.sessions_view()[t].peers@.len() == 0 by {
                            lemma_one_session_per_digest(self, t, i as int);
                        }
                    }
                    return None;
                }
                let tried = s.attempts[index];
                let slot = (((index as u128) + (tried as u128)) % (s.peers.len() as u128)) as usize;
                Some(s.peers[slot].clone())
            },
        }
    }
}

impl FileTransfer {
    /// The next batch of chunk requests for a download: the lowest pending
    /// indices, each paired with its round-robin source peer, at most
    /// `MAX_CONCURRENT_REQUESTS` and at most one per known candidate.  A
    /// shorter batch than the limit allows means every pending index is in
    /// it.
    pub fn next_requests(&self, file_hash: &Vec<u8>) -> (r: Vec<(usize, String)>)
        requires
            self.wf(),
        ensures
            !has_session(self.sessions_view(), file_hash@) ==> r@.len() == 0,
            has_session(self.sessions_view(), file_hash@) ==> {
                let s = self.sessions_view()[session_index(self.sessions_view(), file_hash@)];
                let limit = vstd::math::min(s.peers@.len() as int, MAX_CONCURRENT_REQUESTS as int);
                &&& r@.len() <= limit
                &&& (forall|t: int| 0 <= t < r@.len() ==> {
                    let k = (#[trigger] r@[t]).0 as int;
                    &&& k < s.chunks_expected
                    &&& !s.chunks_received@[k]
                    &&& s.peers@.len() > 0
                    &&& r@[t].1@ == s.peers@[((k + s.attempts@[k]) as int) % (
                    s.peers@.len() as int)]@
                })
                &&& (forall|t1: int, t2: int| 0 <= t1 < t2 < r@.len() ==> (#[trigger] r@[t1]).0 < (
                #[trigger] r@[t2]).0)
                &&& (r@.len() < limit ==> forall|k: int|
                    0 <= k < s.chunks_expected && !s.chunks_received@[k] ==> exists|t: int|
                        0 <= t < r@.len() && (#[trigger] r@[t]).0 == k)
            },
    {
        let mut r: Vec<(usize, String)> = Vec::new();
        let found = self.find_session(file_hash);
        match found {
            None => r,
            Some(i) => {
                proof {
                    lemma_session_at(self.sessions@, file_hash@, i as int);
                }
                let s = &self.sessions[i];
                let peer_count = s.peers.len();
                let limit = if peer_count < MAX_CONCURRENT_REQUESTS {
                    peer_count
                } else {
                    MAX_CONCURRENT_REQUESTS
                };
                let n = s.chunks_expected;
                let mut k: usize = 0;
                while k < n && r.len() < limit
                    invariant
                        self.wf(),
                        i < self.sessions@.len(),
                        s == self.sessions@[i as int],
                        s.wf(),
                        n == s.chunks_expected,
                        peer_count == s.peers@.len(),
                        limit == vstd::math::min(peer_count as int, MAX_CONCURRENT_REQUESTS as int),
                        0 <= k <= n,
                        r@.len() <= limit,
                        forall|t: int| 0 <= t < r@.len() ==> {
                            let kk = (#[trigger] r@[t]).0 as int;
                            &&& kk < k
                            &&& kk < s.chunks_expected
                            &&& !s.chunks_received@[kk]
                            &&& s.peers@.len() > 0
                            &&& r@[t].1@ == s.peers@[((kk + s.attempts@[kk]) as int) % (
                            s.peers@.len() as int)]@
                        },
                        forall|t1: int, t2: int| 0 <= t1 < t2 < r@.len() ==> (#[trigger] r@[t1]).0
                            < (#[trigger] r@[t2]).0,
                        r@.len() < limit ==> forall|kk: int|
                            0 <= kk < k && !s.chunks_received@[kk] ==> exists|t: int|
                                0 <= t < r@.len() && (#[trigger] r@[t]).0 == kk,
                    decreases n - k,
                {
                    if !s.chunks_received[k] {
                        let tried = s.attempts[k];
                        let slot = (((k as u128) + (tried as u128)) % (peer_count as u128)) as usize;
                        let ghost pre_r = r@;
                        r.push((k, s.peers[slot].clone()));
                        proof {
                            assert(r@ == pre_r.push((k, r@.last().1)));
                            assert forall|kk: int|
                                0 <= kk < k + 1 && !s.chunks_received@[kk] implies exists|t: int|
                                0 <= t < r@.len() && (#[trigger] r@[t]).0 == kk by {
                                if kk == k {
                                    assert(r@[r@.len() - 1].0 == kk);
                                } else {
                                    if pre_r.len() < limit {
                                        let t = choose|t: int|
                                            0 <= t < pre_r.len() && pre_r[t].0 == kk;
                                        assert(r@[t].0 == kk);
                                    } else {
                                        assert(false);
                                    }
                                }
                            }
                        }
                    }
                    k += 1;
                }
                r
            },
        }
    }
}

/// Two sessions carrying the same file digest are the same session.
proof fn lemma_one_session_per_digest(ft: &FileTransfer, t: int, i: int)
    requires
        ft.wf(),
        0 <= t < ft.sessions_view().len(),
        0 <= i < ft.sessions_view().len(),
        ft.sessions_view()[t].file_hash@ == ft.sessions_view()[i].file_hash@,
    ensures
        t == i,
{
    if t < i {
        assert(ft.sessions_view()[t].file_hash@ != ft.sessions_view()[i].file_hash@);
    } else if i < t {
        assert(ft.sessions_view()[i].file_hash@ != ft.sessions_view()[t].file_hash@);
    }
}

/// Round trip: a store holding, under each of a payload's chunk digests,
/// exactly that chunk reassembles in index order to the payload itself, so
/// the whole-file digest of the reassembly is the digest the share
/// computed.  Together with the contracts of `share_file` (which leaves the
/// store in exactly that state) and `download_file` (which completes a
/// fresh session with the reassembly when the store is ready and the digest
/// matches), sharing a file and downloading it by the returned digest
/// yields byte-identical content.
pub proof fn lemma_share_download_round_trip(st: Map<Seq<u8>, Seq<u8>>, data: Seq<u8>, cs: nat)
    requires
        cs > 0,
        forall|i: int| 0 <= i < num_chunks(data.len(), cs) ==> st.dom().contains(
            #[trigger] share_digests(data, cs)[i],
        ) && st[share_digests(data, cs)[i]] == chunk_spec(data, cs, i as nat),
    ensures
        store_ready_for(st, share_digests(data, cs), data.len(), cs),
        assembled_prefix(st, share_digests(data, cs), num_chunks(data.len(), cs)) == data,
        digest_of(assembled_prefix(st, share_digests(data, cs), num_chunks(data.len(), cs)))
            == digest_of(data),
{
    let sd = share_digests(data, cs);
    let n = num_chunks(data.len(), cs);
    assert forall|i: int| 0 <= i < n implies st.dom().contains(#[trigger] sd[i])
        && chunk_digest_spec(i as u64, st[sd[i]]) == sd[i] && st[sd[i]].len() == chunk_len(
        data.len(),
        cs,
        i as nat,
    ) by {
        lemma_chunk_start_in_range(data.len(), cs, i as nat);
        assert(chunk_spec(data, cs, i as nat).len() == chunk_len(data.len(), cs, i as nat));
    }
    lemma_assembled_prefix_restores(st, data, cs, n);
    lemma_chunks_reassemble(data, cs);
}

/// The reassembly of the first `k` chunks from a store holding them equals
/// the concatenation of the payload's first `k` chunks.
proof fn lemma_assembled_prefix_restores(st: Map<Seq<u8>, Seq<u8>>, data: Seq<u8>, cs: nat, k: nat)
    requires
        cs > 0,
        k <= num_chunks(data.len(), cs),
        forall|i: int| 0 <= i < num_chunks(data.len(), cs) ==> st.dom().contains(
            #[trigger] share_digests(data, cs)[i],
        ) && st[share_digests(data, cs)[i]] == chunk_spec(data, cs, i as nat),
    ensures
        assembled_prefix(st, share_digests(data, cs), k) == crate::chunking::concat_chunks_upto(
            data,
            cs,
            k,
        ),
    decreases k,
{
    if k > 0 {
        lemma_assembled_prefix_restores(st, data, cs, (k - 1) as nat);
    }
}

} // verus!

