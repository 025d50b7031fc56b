//! Per-file download sessions: which chunk indices have arrived, how many
//! bytes they account for, the bounded per-index retry budget, and the
//! terminal transition to assembly or failure.

use vstd::prelude::*;
use crate::chunking::{
    chunk_len, count_marked, lemma_count_marked_full, lemma_count_marked_le, lemma_mark_update,
    lemma_marked_bytes_le, marked_bytes, num_chunks,
};
use crate::digest::{bytes_eq, chunk_digest, chunk_digest_spec, compute_digest, digest_of, hex_of, bytes_to_hex};
use crate::error::DeskShareError;
use crate::store::ChunkStore;

verus! {

/// How often a chunk index may be delivered corrupt before the whole
/// session fails.
pub const RETRY_LIMIT: u32 = 3;

/// Where a transfer stands.  `Completed` and `Failed` are terminal: a
/// session never leaves them.
#[derive(Clone, Copy, Debug, PartialEq, Eq, Structural)]
pub enum TransferStatus {
    Pending,
    InProgress,
    Completed,
    Failed,
}

/// Strictly forward order on the states of the session state machine.
pub open spec fn status_rank(s: TransferStatus) -> int {
    match s {
        TransferStatus::Pending => 0,
        TransferStatus::InProgress => 1,
        TransferStatus::Completed => 2,
        TransferStatus::Failed => 2,
    }
}

pub open spec fn is_terminal(s: TransferStatus) -> bool {
    s == TransferStatus::Completed || s == TransferStatus::Failed
}

/// What became of one delivered chunk.
#[derive(Clone, Copy, Debug, PartialEq, Eq, Structural)]
pub enum ChunkOutcome {
    /// No session is downloading the named file.
    NoSession,
    /// The delivery changed nothing: the session is terminal, the index is
    /// out of range, or that index had already been received.
    Ignored,
    /// The chunk verified and was recorded; more chunks are still missing.
    Accepted,
    /// The chunk verified, was the last one missing, and the assembled file
    /// passed the whole-file digest check.
    Completed,
    /// The chunk did not verify; the index may be retried against another
    /// peer.
    Rejected,
    /// The session moved to `Failed`: the retry budget for this index is
    /// exhausted, or the assembled file failed the whole-file digest check.
    Failed,
}

/// Integer percentage, 0 through 100, that `bytes` is of `total`; an empty
/// file counts as fully transferred.
pub open spec fn percentage_spec(bytes: nat, total: nat) -> int {
    if total == 0 {
        100
    } else {
        (bytes as int * 100) / (total as int)
    }
}

pub proof fn lemma_percentage_bounds(bytes: nat, total: nat)
    requires
        bytes <= total,
    ensures
        0 <= percentage_spec(bytes, total) <= 100,
{
    if total > 0 {
        vstd::arithmetic::mul::lemma_mul_inequality(bytes as int, total as int, 100);
        vstd::arithmetic::div_mod::lemma_div_is_ordered(
            bytes as int * 100,
            total as int * 100,
            total as int,
        );
        vstd::arithmetic::div_mod::lemma_div_multiples_vanish(100, total as int);
        vstd::arithmetic::div_mod::lemma_div_pos_is_pos(bytes as int * 100, total as int);
    }
}

/// The integer percentage of `total` that `bytes` makes up.
pub fn compute_percentage(bytes: u64, total: u64) -> (r: u64)
    requires
        bytes <= total,
    ensures
        r == percentage_spec(bytes as nat, total as nat),
        r <= 100,
{
    proof {
        lemma_percentage_bounds(bytes as nat, total as nat);
    }
    if total == 0 {
        100
    } else {
        (((bytes as u128) * 100) / (total as u128)) as u64
    }
}

/// Snapshot of one transfer for reporting: derived from session state,
/// never the source of truth.
#[derive(Clone, Debug)]
pub struct TransferProgress {
    pub file_name: String,
    /// Lowercase hex rendering of the file digest.
    pub file_hash: String,
    pub bytes_transferred: u64,
    pub total_bytes: u64,
    /// Integer percent, always 0 through 100.
    pub percentage: u64,
    pub status: TransferStatus,
}

/// Field-for-field agreement of two progress snapshots, by value.
pub open spec fn progress_like(a: TransferProgress, b: TransferProgress) -> bool {
    &&& a.file_name@ == b.file_name@
    &&& a.file_hash@ == b.file_hash@
    &&& a.bytes_transferred == b.bytes_transferred
    &&& a.total_bytes == b.total_bytes
    &&& a.percentage == b.percentage
    &&& a.status == b.status
}

/// The snapshot reports exactly the session's standing: its name, its file
/// digest in hex, its byte counts, the derived percentage and its status.
pub open spec fn progress_matches(p: TransferProgress, s: DownloadingFile) -> bool {
    &&& p.file_name@ == s.file_name@
    &&& p.file_hash@ == hex_of(s.file_hash@)
    &&& p.bytes_transferred == s.bytes_received
    &&& p.total_bytes == s.total_bytes
    &&& p.percentage == percentage_spec(s.bytes_received as nat, s.total_bytes as nat)
    &&& p.percentage <= 100
    &&& p.status == s.status
}

impl TransferProgress {
    /// A fresh snapshot with the same fields.
    pub fn duplicate(&self) -> (r: TransferProgress)
        ensures
            progress_like(r, *self),
    {
        TransferProgress {
            file_name: self.file_name.clone(),
            file_hash: self.file_hash.clone(),
            bytes_transferred: self.bytes_transferred,
            total_bytes: self.total_bytes,
            percentage: self.percentage,
            status: self.status,
        }
    }
}

/// One chunk of one file in transit between peers.
#[derive(Clone, Debug)]
pub struct FileChunk {
    pub chunk_hash: Vec<u8>,
    pub data: Vec<u8>,
    pub index: u64,
    pub file_hash: Vec<u8>,
}

/// The mutable state of one in-flight download.
pub struct DownloadingFile {
    pub file_hash: Vec<u8>,
    pub file_name: String,
    pub output_path: String,
    pub chunk_size: u64,
    pub total_bytes: u64,
    pub chunks_expected: usize,
    /// Digest of each expected chunk, by index, copied from the manifest.
    pub chunk_digests: Vec<Vec<u8>>,
    /// Which indices have been verified-received.
    pub chunks_received: Vec<bool>,
    pub received_count: usize,
    pub bytes_received: u64,
    /// Failed delivery attempts per index.
    pub attempts: Vec<u32>,
    /// Candidate source peers, in round-robin order.
    pub peers: Vec<String>,
    pub status: TransferStatus,
    pub fail_reason: Option<DeskShareError>,
    /// The reassembled file, present exactly once the session completed.
    pub assembled: Option<Vec<u8>>,
}

impl DownloadingFile {
    /// The expected chunk digests, as byte sequences.
    pub open spec fn digests_view(self) -> Seq<Seq<u8>> {
        self.chunk_digests@.map_values(|c: Vec<u8>| c@)
    }

    pub open spec fn wf(self) -> bool {
        &&& self.chunk_size > 0
        &&& self.chunks_expected == num_chunks(self.total_bytes as nat, self.chunk_size as nat)
        &&& self.chunk_digests@.len() == self.chunks_expected
        &&& self.chunks_received@.len() == self.chunks_expected
        &&& self.attempts@.len() == self.chunks_expected
        &&& self.received_count == count_marked(self.chunks_received@)
        &&& self.bytes_received == marked_bytes(
            self.chunks_received@,
            self.total_bytes as nat,
            self.chunk_size as nat,
        )
        &&& (forall|i: int| 0 <= i < self.attempts@.len() ==> #[trigger] self.attempts@[i] <= RETRY_LIMIT)
        &&& (!is_terminal(self.status) ==> forall|i: int|
            0 <= i < self.attempts@.len() ==> #[trigger] self.attempts@[i] < RETRY_LIMIT)
        &&& (self.status == TransferStatus::Completed ==> self.received_count == self.chunks_expected)
        &&& (self.fail_reason.is_some() <==> self.status == TransferStatus::Failed)
        &&& (self.status == TransferStatus::Pending ==> self.received_count == 0)
        &&& (self.assembled.is_some() ==> self.status == TransferStatus::Completed)
    }

    /// Everything about the session except the marks, counters, status and
    /// assembly result: what a delivery may never change.
    pub open spec fn same_identity(self, other: DownloadingFile) -> bool {
        &&& self.file_hash@ == other.file_hash@
        &&& self.file_name@ == other.file_name@
        &&& self.output_path@ == other.output_path@
        &&& self.chunk_size == other.chunk_size
        &&& self.total_bytes == other.total_bytes
        &&& self.chunks_expected == other.chunks_expected
        &&& self.digests_view() == other.digests_view()
        &&& self.peers@.map_values(|p: String| p@) == other.peers@.map_values(|p: String| p@)
    }

    /// Whether `bytes` is acceptable as chunk `index`: its digest, which
    /// binds the index, matches the manifest, and its length is the chunk
    /// length the manifest implies.
    pub open spec fn chunk_ok(self, index: int, bytes: Seq<u8>) -> bool {
        &&& chunk_digest_spec(index as u64, bytes) == self.digests_view()[index]
        &&& bytes.len() == chunk_len(self.total_bytes as nat, self.chunk_size as nat, index as nat)
    }
}

/// The file the chunk store yields for the first `k` chunk digests of a
/// session, concatenated in index order.
pub open spec fn assembled_prefix(
    st: Map<Seq<u8>, Seq<u8>>,
    digests: Seq<Seq<u8>>,
    k: nat,
) -> Seq<u8>
    decreases k,
{
    if k == 0 {
        Seq::empty()
    } else {
        assembled_prefix(st, digests, (k - 1) as nat) + st[digests[k - 1]]
    }
}

/// The store holds every chunk the session expects.
pub open spec fn all_chunks_stored(st: Map<Seq<u8>, Seq<u8>>, s: DownloadingFile) -> bool {
    forall|i: int| 0 <= i < s.chunks_expected ==> st.dom().contains(s.digests_view()[i])
}

/// The store holds, under every expected chunk digest, a payload that
/// verifies against that digest and has the manifest's chunk length.
pub open spec fn assembly_ready(st: Map<Seq<u8>, Seq<u8>>, s: DownloadingFile) -> bool {
    forall|i: int| 0 <= i < s.chunks_expected ==> {
        &&& st.dom().contains(#[trigger] s.digests_view()[i])
        &&& s.chunk_ok(i, st[s.digests_view()[i]])
    }
}

/// Every chunk index a session has verified-received is present in the
/// store under its expected digest.
pub open spec fn received_chunks_stored(st: Map<Seq<u8>, Seq<u8>>, s: DownloadingFile) -> bool {
    forall|i: int| 0 <= i < s.chunks_expected && s.chunks_received@[i] ==> st.dom().contains(
        #[trigger] s.digests_view()[i],
    )
}

/// Exactly how one delivered chunk moves a session (and the store) forward.
///
/// A delivery on a terminal session, for an out-of-range index or for an
/// already-received index changes nothing; a verified fresh chunk is marked
/// and stored, with the last missing one triggering assembly in index order
/// and the whole-file digest check; an unverified chunk burns one retry for
/// its index and exhausting the budget fails the session.  The status only
/// ever moves forward.
pub open spec fn delivery_transition(
    pre: DownloadingFile,
    post: DownloadingFile,
    st_pre: Map<Seq<u8>, Seq<u8>>,
    st_post: Map<Seq<u8>, Seq<u8>>,
    index: int,
    bytes: Seq<u8>,
    r: ChunkOutcome,
) -> bool {
    &&& post.same_identity(pre)
    &&& status_rank(post.status) >= status_rank(pre.status)
    &&& (forall|d: Seq<u8>| st_pre.dom().contains(d) ==> st_post.dom().contains(d) && st_post[d]
        == st_pre[d])
    &&& (forall|d: Seq<u8>| st_post.dom().contains(d) ==> st_pre.dom().contains(d) || (index
        < pre.chunks_expected && d == pre.digests_view()[index]))
    &&& ((is_terminal(pre.status) || index >= pre.chunks_expected || (index < pre.chunks_expected
        && pre.chunks_received@[index])) ==> {
        &&& post == pre
        &&& st_post == st_pre
        &&& r == ChunkOutcome::Ignored
    })
    &&& ((!is_terminal(pre.status) && 0 <= index < pre.chunks_expected
        && !pre.chunks_received@[index] && pre.chunk_ok(index, bytes)) ==> {
        &&& post.chunks_received@ == pre.chunks_received@.update(index, true)
        &&& post.received_count == pre.received_count + 1
        &&& post.bytes_received == pre.bytes_received + bytes.len()
        &&& post.attempts@ == pre.attempts@
        &&& st_post == (if st_pre.dom().contains(pre.digests_view()[index]) {
            st_pre
        } else {
            st_pre.insert(pre.digests_view()[index], bytes)
        })
        &&& (post.received_count < pre.chunks_expected ==> {
            &&& post.status == TransferStatus::InProgress
            &&& post.assembled.is_none()
            &&& r == ChunkOutcome::Accepted
        })
        &&& (post.received_count == pre.chunks_expected ==> {
            let whole_file = assembled_prefix(st_post, pre.digests_view(), pre.chunks_expected as nat);
            if digest_of(whole_file) == pre.file_hash@ {
                &&& post.status == TransferStatus::Completed
                &&& post.assembled matches Some(v) && v@ == whole_file
                &&& r == ChunkOutcome::Completed
            } else {
                &&& post.status == TransferStatus::Failed
                &&& post.fail_reason == Some(DeskShareError::IntegrityCheckFailed)
                &&& r == ChunkOutcome::Failed
            }
        })
    })
    &&& ((!is_terminal(pre.status) && 0 <= index < pre.chunks_expected
        && !pre.chunks_received@[index] && !pre.chunk_ok(index, bytes)) ==> {
        &&& post.chunks_received@ == pre.chunks_received@
        &&& post.received_count == pre.received_count
        &&& post.bytes_received == pre.bytes_received
        &&& post.assembled == pre.assembled
        &&& st_post == st_pre
        &&& post.attempts@ == pre.attempts@.update(index, (pre.attempts@[index] + 1) as u32)
        &&& (pre.attempts@[index] + 1 >= RETRY_LIMIT ==> {
            &&& post.status == TransferStatus::Failed
            &&& post.fail_reason == Some(DeskShareError::IntegrityCheckFailed)
            &&& r == ChunkOutcome::Failed
        })
        &&& (pre.attempts@[index] + 1 < RETRY_LIMIT ==> {
            &&& post.status == pre.status
            &&& r == ChunkOutcome::Rejected
        })
    })
}

impl DownloadingFile {
    /// Read every expected chunk from the store, in index order, and
    /// concatenate.
    fn assemble(&self, store: &ChunkStore) -> (r: Vec<u8>)
        requires
            self.wf(),
            all_chunks_stored(store.contents(), *self),
        ensures
            r@ == assembled_prefix(store.contents(), self.digests_view(), self.chunks_expected as nat),
    {
        let mut out: Vec<u8> = Vec::new();
        let mut i: usize = 0;
        while i < self.chunks_expected
            invariant
                self.wf(),
                all_chunks_stored(store.contents(), *self),
                0 <= i <= self.chunks_expected,
                out@ == assembled_prefix(store.contents(), self.digests_view(), i as nat),
            decreases self.chunks_expected - i,
        {
            let digest = &self.chunk_digests[i];
            proof {
                assert(self.digests_view()[i as int] == digest@);
            }
            match store.get(digest) {
                Some(bytes) => {
                    out.extend_from_slice(bytes.as_slice());
                },
                None => {
                    proof {
                        assert(false);
                    }
                },
            }
            i += 1;
        }
        out
    }

    /// Run the end-of-download check: concatenate all chunks in index
    /// order, recompute the whole-file digest, and move to `Completed` or
    /// to `Failed` accordingly.
    pub(crate) fn finish(&mut self, store: &ChunkStore)
        requires
            old(self).wf(),
            !is_terminal(old(self).status),
            old(self).received_count == old(self).chunks_expected,
            all_chunks_stored(store.contents(), *old(self)),
        ensures
            final(self).wf(),
            final(self).same_identity(*old(self)),
            final(self).chunks_received@ == old(self).chunks_received@,
            final(self).received_count == old(self).received_count,
            final(self).bytes_received == old(self).bytes_received,
            final(self).attempts@ == old(self).attempts@,
            is_terminal(final(self).status),
            ({
                let whole_file = assembled_prefix(
                    store.contents(),
                    old(self).digests_view(),
                    old(self).chunks_expected as nat,
                );
                if digest_of(whole_file) == old(self).file_hash@ {
                    &&& final(self).status == TransferStatus::Completed
                    &&& final(self).assembled matches Some(v) && v@ == whole_file
                } else {
                    &&& final(self).status == TransferStatus::Failed
                    &&& final(self).fail_reason == Some(DeskShareError::IntegrityCheckFailed)
                }
            }),
    {
        let data = self.assemble(store);
        let whole = compute_digest(data.as_slice());
        if bytes_eq(&whole, &self.file_hash) {
            self.status = TransferStatus::Completed;
            self.assembled = Some(data);
        } else {
            self.status = TransferStatus::Failed;
            self.fail_reason = Some(DeskShareError::IntegrityCheckFailed);
        }
    }

    /// The chunk length the manifest implies for `index`.
    pub fn expected_len(&self, index: usize) -> (r: u64)
        requires
            self.wf(),
            index < self.chunks_expected,
        ensures
            r == chunk_len(self.total_bytes as nat, self.chunk_size as nat, index as nat),
    {
        proof {
            crate::chunking::lemma_chunk_start_in_range(
                self.total_bytes as nat,
                self.chunk_size as nat,
                index as nat,
            );
        }
        let off = (index as u64) * self.chunk_size;
        let rem = self.total_bytes - off;
        if rem < self.chunk_size {
            rem
        } else {
            self.chunk_size
        }
    }

    /// The reporting snapshot for this session.
    pub fn progress(&self) -> (r: TransferProgress)
        requires
            self.wf(),
        ensures
            progress_matches(r, *self),
    {
        proof {
            lemma_marked_bytes_le(
                self.chunks_received@,
                self.total_bytes as nat,
                self.chunk_size as nat,
            );
        }
        TransferProgress {
            file_name: self.file_name.clone(),
            file_hash: bytes_to_hex(self.file_hash.as_slice()),
            bytes_transferred: self.bytes_received,
            total_bytes: self.total_bytes,
            percentage: compute_percentage(self.bytes_received, self.total_bytes),
            status: self.status,
        }
    }

    /// Record one delivered chunk.
    ///
    /// A delivery on a terminal session, for an out-of-range index or for an
    /// index already received changes nothing.  A chunk whose recomputed
    /// digest and length match the manifest is marked received and stored;
    /// when it was the last one missing, the file is assembled in index
    /// order and held to the whole-file digest.  A chunk that does not
    /// verify counts against the index's retry budget, and exhausting the
    /// budget fails the session.  The status only ever moves forward.
    pub fn deliver(&mut self, store: &mut ChunkStore, index: usize, bytes: Vec<u8>) -> (r:
        ChunkOutcome)
        requires
            old(self).wf(),
            received_chunks_stored(old(store).contents(), *old(self)),
        ensures
            final(self).wf(),
            received_chunks_stored(final(store).contents(), *final(self)),
            delivery_transition(
                *old(self),
                *final(self),
                old(store).contents(),
                final(store).contents(),
                index as int,
                bytes@,
                r,
            ),
    {
        if matches!(self.status, TransferStatus::Completed | TransferStatus::Failed) {
            return ChunkOutcome::Ignored;
        }
        if index >= self.chunks_expected {
            return ChunkOutcome::Ignored;
        }
        if self.chunks_received[index] {
            return ChunkOutcome::Ignored;
        }
        let computed = chunk_digest(index as u64, bytes.as_slice());
        let want_len = self.expected_len(index);
        let valid = bytes_eq(&computed, &self.chunk_digests[index]) && bytes.len() as u64
            == want_len;
        proof {
            assert(self.digests_view()[index as int] == self.chunk_digests@[index as int]@);
            assert(valid == self.chunk_ok(index as int, bytes@));
        }
        if !valid {
            let tried = self.attempts[index] + 1;
            self.attempts[index] = tried;
            if tried >= RETRY_LIMIT {
                self.status = TransferStatus::Failed;
                self.fail_reason = Some(DeskShareError::IntegrityCheckFailed);
                return ChunkOutcome::Failed;
            }
            return ChunkOutcome::Rejected;
        }
        proof {
            lemma_mark_update(
                self.chunks_received@,
                self.total_bytes as nat,
                self.chunk_size as nat,
                index as int,
            );
            lemma_count_marked_le(self.chunks_received@.update(index as int, true));
            lemma_marked_bytes_le(
                self.chunks_received@.update(index as int, true),
                self.total_bytes as nat,
                self.chunk_size as nat,
            );
        }
        let ghost pre_marks = self.chunks_received@;
        self.chunks_received[index] = true;
        self.received_count = self.received_count + 1;
        self.bytes_received = self.bytes_received + bytes.len() as u64;
        self.status = TransferStatus::InProgress;
        let chunk_key = crate::digest::clone_bytes(&self.chunk_digests[index]);
        let stored = store.put(chunk_key, bytes);
        proof {
            if stored is Err {
                assert(store.contents().dom().contains(self.digests_view()[index as int]));
            }
        }
        if self.received_count == self.chunks_expected {
            proof {
                lemma_count_marked_full(self.chunks_received@);
                assert(forall|i: int| 0 <= i < self.chunks_expected
                    ==> self.chunks_received@[i]);
                assert forall|i: int| 0 <= i < self.chunks_expected implies store.contents().dom().contains(
                    #[trigger] self.digests_view()[i],
                ) by {
                    if i != index {
                        assert(self.chunks_received@ == pre_marks.update(index as int, true));
                        assert(pre_marks.update(index as int, true)[i] == pre_marks[i]);
                        assert(self.chunks_received@[i]);
                        assert(pre_marks[i]);
                        assert(old(self).chunks_received@[i]);
                        assert(old(store).contents().dom().contains(old(self).digests_view()[i]));
                    }
                }
            }
            self.finish(store);
            if matches!(self.status, TransferStatus::Completed) {
                return ChunkOutcome::Completed;
            }
            return ChunkOutcome::Failed;
        }
        ChunkOutcome::Accepted
    }
}

/// Assembly is only ever declared once every chunk index has been
/// verified-received: a completed session has every mark set and accounts
/// for exactly the whole file's bytes, whatever order the chunks arrived
/// in.
pub proof fn lemma_completed_session_is_full(s: DownloadingFile)
    requires
        s.wf(),
        s.status == TransferStatus::Completed,
    ensures
        forall|k: int| 0 <= k < s.chunks_expected ==> s.chunks_received@[k],
        s.bytes_received == s.total_bytes,
{
    lemma_count_marked_full(s.chunks_received@);
    crate::chunking::lemma_marked_bytes_full(
        s.chunks_received@,
        s.total_bytes as nat,
        s.chunk_size as nat,
    );
}

} // verus!
