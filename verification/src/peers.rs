//! Peer availability: which peers are believed to hold which file, and the
//! round-robin source selection that spreads chunk requests across them.

use vstd::prelude::*;
use crate::digest::bytes_eq;

verus! {

/// The peers known to hold one file.
pub struct PeerEntry {
    pub file_hash: Vec<u8>,
    /// In round-robin order; an unresponsive peer is demoted to the back.
    pub peers: Vec<String>,
}

impl PeerEntry {
    pub open spec fn peers_view(self) -> Seq<Seq<char>> {
        self.peers@.map_values(|p: String| p@)
    }

    /// The listed peers are pairwise distinct.
    pub open spec fn wf(self) -> bool {
        forall|i: int, j: int| 0 <= i < j < self.peers_view().len()
            ==> self.peers_view()[i] != self.peers_view()[j]
    }

    /// Position of a peer in this entry, if listed.
    fn peer_pos(&self, peer: &String) -> (r: Option<usize>)
        ensures
            match r {
                Some(k) => k < self.peers_view().len() && self.peers_view()[k as int] == peer@,
                None => !self.peers_view().contains(peer@),
            },
    {
        let n = self.peers.len();
        let mut k: usize = 0;
        while k < n
            invariant
                n == self.peers@.len(),
                0 <= k <= n,
                forall|t: int| 0 <= t < k ==> self.peers@[t]@ != peer@,
            decreases n - k,
        {
            if self.peers[k].eq(peer) {
                return Some(k);
            }
            k += 1;
        }
        proof {
            assert(forall|t: int| 0 <= t < self.peers_view().len()
                ==> self.peers_view()[t] != peer@);
        }
        None
    }
}

/// Whether some entry records peers for this file digest.
pub open spec fn has_peer_entry(s: Seq<PeerEntry>, h: Seq<u8>) -> bool {
    exists|i: int| 0 <= i < s.len() && s[i].file_hash@ == h
}

/// The peers an entry sequence records for a digest, in round-robin order;
/// empty when none was ever recorded.
pub open spec fn entry_peers(s: Seq<PeerEntry>, h: Seq<u8>) -> Seq<Seq<char>> {
    if has_peer_entry(s, h) {
        s[choose|i: int| 0 <= i < s.len() && s[i].file_hash@ == h].peers_view()
    } else {
        Seq::empty()
    }
}

/// Advisory mapping from file digest to the peers believed to hold the
/// file: a listed peer may have gone offline, so the list guides source
/// selection but guarantees nothing.
pub struct PeerIndex {
    entries: Vec<PeerEntry>,
}

impl PeerIndex {
    pub closed spec fn entries_view(self) -> Seq<PeerEntry> {
        self.entries@
    }

    /// The peers recorded for a file.
    pub open spec fn peers_of(self, h: Seq<u8>) -> Seq<Seq<char>> {
        entry_peers(self.entries_view(), h)
    }

    pub open spec fn wf(self) -> bool {
        &&& (forall|i: int, j: int| 0 <= i < j < self.entries_view().len()
            ==> self.entries_view()[i].file_hash@ != self.entries_view()[j].file_hash@)
        &&& (forall|i: int| 0 <= i < self.entries_view().len() ==> (#[trigger] self.entries_view()[i]).wf())
    }

    pub fn new() -> (r: PeerIndex)
        ensures
            r.wf(),
            forall|h: Seq<u8>| r.peers_of(h) == Seq::<Seq<char>>::empty(),
    {
        PeerIndex { entries: Vec::new() }
    }

    fn find(&self, h: &Vec<u8>) -> (r: Option<usize>)
        ensures
            match r {
                Some(i) => i < self.entries_view().len() && self.entries_view()[i as int].file_hash@
                    == h@,
                None => !has_peer_entry(self.entries_view(), h@),
            },
    {
        let n = self.entries.len();
        let mut i: usize = 0;
        while i < n
            invariant
                n == self.entries@.len(),
                0 <= i <= n,
                forall|k: int| 0 <= k < i ==> self.entries@[k].file_hash@ != h@,
            decreases n - i,
        {
            if bytes_eq(&self.entries[i].file_hash, h) {
                return Some(i);
            }
            i += 1;
        }
        None
    }

    /// Record that `peer` holds the file; recording a peer twice changes
    /// nothing, and no other file's peers change.
    pub fn record(&mut self, h: &Vec<u8>, peer: String)
        requires
            old(self).wf(),
        ensures
            final(self).wf(),
            final(self).peers_of(h@) == (if old(self).peers_of(h@).contains(peer@) {
                old(self).peers_of(h@)
            } else {
                old(self).peers_of(h@).push(peer@)
            }),
            forall|h2: Seq<u8>| h2 != h@ ==> final(self).peers_of(h2) == old(self).peers_of(h2),
    {
        match self.find(h) {
            Some(i) => {
                proof {
                    lemma_entry_peers_at(self.entries_view(), h@, i as int);
                }
                match self.entries[i].peer_pos(&peer) {
                    Some(k) => {
                        proof {
                            assert(old(self).peers_of(h@)[k as int] == peer@);
                            assert(old(self).peers_of(h@).contains(peer@));
                        }
                    },
                    None => {
                        let entry = &mut self.entries[i];
                        entry.peers.push(peer);
                        proof {
                            let pre = old(self).entries_view();
                            let post = self.entries@;
                            assert(post[i as int].peers_view() =~= entry_peers(pre, h@).push(peer@));
                            assert(post[i as int].wf());
                            lemma_entry_peers_at(post, h@, i as int);
                            assert forall|h2: Seq<u8>| h2 != h@ implies entry_peers(post, h2)
                                == entry_peers(pre, h2) by {
                                lemma_frame_one_entry(pre, post, i as int, h2);
                            }
                        }
                    },
                }
            },
            None => {
                let entry = PeerEntry {
                    file_hash: crate::digest::clone_bytes(h),
                    peers: vec![peer],
                };
                proof {
                    assert(entry.peers_view() =~= Seq::<Seq<char>>::empty().push(peer@));
                    assert(old(self).peers_of(h@) == Seq::<Seq<char>>::empty());
                }
                self.entries.push(entry);
                proof {
                    let pre = old(self).entries_view();
                    let post = self.entries@;
                    assert(post[pre.len() as int].file_hash@ == h@);
                    lemma_entry_peers_at(post, h@, pre.len() as int);
                    assert forall|h2: Seq<u8>| h2 != h@ implies entry_peers(post, h2)
                        == entry_peers(pre, h2) by {
                        lemma_frame_push_entry(pre, post, h2);
                    }
                }
            },
        }
    }

    /// Forget that `peer` holds the file; removing an unknown peer changes
    /// nothing, and no other file's peers change.
    pub fn remove(&mut self, h: &Vec<u8>, peer: &String)
        requires
            old(self).wf(),
        ensures
            final(self).wf(),
            !final(self).peers_of(h@).contains(peer@),
            final(self).peers_of(h@) == old(self).peers_of(h@).remove_value(peer@),
            forall|h2: Seq<u8>| h2 != h@ ==> final(self).peers_of(h2) == old(self).peers_of(h2),
    {
        match self.find(h) {
            Some(i) => {
                proof {
                    lemma_entry_peers_at(self.entries_view(), h@, i as int);
                }
                match self.entries[i].peer_pos(peer) {
                    Some(k) => {
                        let entry = &mut self.entries[i];
                        entry.peers.remove(k);
                        proof {
                            let pre = old(self).entries_view();
                            let prepeers = entry_peers(pre, h@);
                            let post = self.entries@;
                            assert(post[i as int].peers_view() =~= prepeers.remove(k as int));
                            lemma_remove_unique(prepeers, peer@, k as int);
                            lemma_unique_after_remove(prepeers, k as int);
                            assert(post[i as int].wf());
                            lemma_entry_peers_at(post, h@, i as int);
                            lemma_removed_value_gone(prepeers, peer@, k as int);
                            assert forall|h2: Seq<u8>| h2 != h@ implies entry_peers(post, h2)
                                == entry_peers(pre, h2) by {
                                lemma_frame_one_entry(pre, post, i as int, h2);
                            }
                        }
                    },
                    None => {
                        proof {
                            lemma_remove_value_absent(old(self).peers_of(h@), peer@);
                        }
                    },
                }
            },
            None => {
                proof {
                    assert(old(self).peers_of(h@) == Seq::<Seq<char>>::empty());
                    lemma_remove_value_absent(old(self).peers_of(h@), peer@);
                }
            },
        }
    }

    /// Demote an unresponsive peer to the back of the file's round-robin
    /// order, so later chunks still retry it after the others have been
    /// tried; the peer is not removed.  Demoting an unknown peer changes
    /// nothing, and no other file's peers change.
    pub fn demote(&mut self, h: &Vec<u8>, peer: &String)
        requires
            old(self).wf(),
        ensures
            final(self).wf(),
            old(self).peers_of(h@).contains(peer@) ==> final(self).peers_of(h@) == old(
                self,
            ).peers_of(h@).remove_value(peer@).push(peer@),
            !old(self).peers_of(h@).contains(peer@) ==> final(self).peers_of(h@) == old(
                self,
            ).peers_of(h@),
            forall|h2: Seq<u8>| h2 != h@ ==> final(self).peers_of(h2) == old(self).peers_of(h2),
    {
        match self.find(h) {
            Some(i) => {
                proof {
                    lemma_entry_peers_at(self.entries_view(), h@, i as int);
                }
                match self.entries[i].peer_pos(peer) {
                    Some(k) => {
                        let entry = &mut self.entries[i];
                        let moved = entry.peers.remove(k);
                        entry.peers.push(moved);
                        proof {
                            let pre = old(self).entries_view();
                            let prepeers = entry_peers(pre, h@);
                            let post = self.entries@;
                            assert(post[i as int].peers_view() =~= prepeers.remove(k as int).push(
                                peer@,
                            ));
                            lemma_remove_unique(prepeers, peer@, k as int);
                            lemma_unique_after_remove(prepeers, k as int);
                            lemma_removed_value_gone(prepeers, peer@, k as int);
                            assert(post[i as int].wf()) by {
                                assert(forall|t: int|
                                    0 <= t < prepeers.remove(k as int).len()
                                        ==> prepeers.remove(k as int)[t] != peer@);
                            }
                            lemma_entry_peers_at(post, h@, i as int);
                            assert forall|h2: Seq<u8>| h2 != h@ implies entry_peers(post, h2)
                                == entry_peers(pre, h2) by {
                                lemma_frame_one_entry(pre, post, i as int, h2);
                            }
                        }
                    },
                    None => {},
                }
            },
            None => {
                proof {
                    assert(old(self).peers_of(h@) == Seq::<Seq<char>>::empty());
                }
            },
        }
    }

    /// The candidate source peers for a file, in round-robin order.
    pub fn candidates(&self, h: &Vec<u8>) -> (r: Vec<String>)
        requires
            self.wf(),
        ensures
            r@.map_values(|p: String| p@) == self.peers_of(h@),
    {
        match self.find(h) {
            Some(i) => {
                proof {
                    lemma_entry_peers_at(self.entries_view(), h@, i as int);
                }
                let entry = &self.entries[i];
                let n = entry.peers.len();
                let mut r: Vec<String> = Vec::new();
                let mut k: usize = 0;
                while k < n
                    invariant
                        n == entry.peers@.len(),
                        0 <= k <= n,
                        r@.len() == k,
                        forall|t: int| 0 <= t < k ==> #[trigger] r@[t]@ == entry.peers@[t]@,
                    decreases n - k,
                {
                    r.push(entry.peers[k].clone());
                    k += 1;
                }
                proof {
                    assert(r@.map_values(|p: String| p@) =~= entry.peers_view());
                }
                r
            },
            None => {
                let r: Vec<String> = Vec::new();
                proof {
                    assert(r@.map_values(|p: String| p@) =~= Seq::<Seq<char>>::empty());
                }
                r
            },
        }
    }
}

/// The round-robin source policy: attempt `k` for a chunk is sent to
/// candidate `k mod n`, so consecutive attempts go to different peers
/// whenever more than one candidate is known.
pub fn select_source(candidates: &Vec<String>, attempt: usize) -> (r: Option<String>)
    ensures
        candidates@.len() == 0 ==> r is None,
        candidates@.len() > 0 ==> r == Some(candidates@[(attempt as int) % (candidates@.len() as int)]),
{
    if candidates.len() == 0 {
        None
    } else {
        Some(candidates[attempt % candidates.len()].clone())
    }
}

/// With unique file digests, the peers of a digest are those of the entry
/// holding it.
proof fn lemma_entry_peers_at(s: Seq<PeerEntry>, h: Seq<u8>, i: int)
    requires
        forall|a: int, b: int| 0 <= a < b < s.len() ==> s[a].file_hash@ != s[b].file_hash@,
        0 <= i < s.len(),
        s[i].file_hash@ == h,
    ensures
        has_peer_entry(s, h),
        entry_peers(s, h) == s[i].peers_view(),
{
    let j = choose|j: int| 0 <= j < s.len() && s[j].file_hash@ == h;
    if j != i {
        if j < i {
            assert(s[j].file_hash@ != s[i].file_hash@);
        } else {
            assert(s[i].file_hash@ != s[j].file_hash@);
        }
    }
}

/// Removing the sole occurrence of a value is what `remove_value` names.
proof fn lemma_remove_unique(s: Seq<Seq<char>>, v: Seq<char>, k: int)
    requires
        0 <= k < s.len(),
        s[k] == v,
        forall|i: int, j: int| 0 <= i < j < s.len() ==> s[i] != s[j],
    ensures
        s.remove_value(v) == s.remove(k),
{
    assert(s.contains(v));
    s.index_of_first_ensures(v);
    let first = s.index_of_first(v);
    match first {
        Some(f) => {
            if f != k {
                if f < k {
                    assert(s[f] != s[k]);
                } else {
                    assert(s[k] != s[f]);
                }
            }
        },
        None => {
            assert(false);
        },
    }
}

/// After removing the only index holding a value, no index holds it.
proof fn lemma_removed_value_gone(s: Seq<Seq<char>>, v: Seq<char>, k: int)
    requires
        0 <= k < s.len(),
        s[k] == v,
        forall|i: int, j: int| 0 <= i < j < s.len() ==> s[i] != s[j],
    ensures
        !s.remove(k).contains(v),
{
    s.remove_ensures(k);
    assert forall|t: int| 0 <= t < s.remove(k).len() implies s.remove(k)[t] != v by {
        if t < k {
            assert(s.remove(k)[t] == s[t]);
            assert(s[t] != s[k]);
        } else {
            assert(s.remove(k)[t] == s[t + 1]);
            assert(s[k] != s[t + 1]);
        }
    }
}

/// Distinctness survives removal of one index.
proof fn lemma_unique_after_remove(s: Seq<Seq<char>>, k: int)
    requires
        0 <= k < s.len(),
        forall|i: int, j: int| 0 <= i < j < s.len() ==> s[i] != s[j],
    ensures
        forall|i: int, j: int| 0 <= i < j < s.remove(k).len() ==> s.remove(k)[i] != s.remove(k)[j],
{
    s.remove_ensures(k);
    assert forall|i: int, j: int| 0 <= i < j < s.remove(k).len() implies s.remove(k)[i] != s.remove(
        k,
    )[j] by {
        let oi: int = if i < k {
            i
        } else {
            i + 1
        };
        let oj: int = if j < k {
            j
        } else {
            j + 1
        };
        assert(s[oi] != s[oj]);
    }
}

/// `remove_value` of an absent value changes nothing.
proof fn lemma_remove_value_absent(s: Seq<Seq<char>>, v: Seq<char>)
    requires
        !s.contains(v),
    ensures
        s.remove_value(v) == s,
{
    s.index_of_first_ensures(v);
}

/// Changing one entry leaves every other file digest's peers unchanged.
proof fn lemma_frame_one_entry(pre: Seq<PeerEntry>, post: Seq<PeerEntry>, i: int, h2: Seq<u8>)
    requires
        pre.len() == post.len(),
        0 <= i < pre.len(),
        forall|k: int| 0 <= k < pre.len() && k != i ==> post[k] == pre[k],
        post[i].file_hash@ == pre[i].file_hash@,
        h2 != pre[i].file_hash@,
        forall|a: int, b: int| 0 <= a < b < pre.len() ==> pre[a].file_hash@ != pre[b].file_hash@,
    ensures
        entry_peers(post, h2) == entry_peers(pre, h2),
{
    if has_peer_entry(pre, h2) {
        let k = choose|k: int| 0 <= k < pre.len() && pre[k].file_hash@ == h2;
        assert(post[k].file_hash@ == h2);
        assert(has_peer_entry(post, h2));
        let k2 = choose|t: int| 0 <= t < post.len() && post[t].file_hash@ == h2;
        assert(k2 != i);
        assert(post[k2] == pre[k2]);
        let k3 = choose|t: int| 0 <= t < pre.len() && pre[t].file_hash@ == h2;
        assert(k3 != i);
        assert(post[k3] == pre[k3]);
        if k2 != k3 {
            if k2 < k3 {
                assert(pre[k2].file_hash@ != pre[k3].file_hash@);
            } else {
                assert(pre[k3].file_hash@ != pre[k2].file_hash@);
            }
        }
    } else {
        if has_peer_entry(post, h2) {
            let t = choose|t: int| 0 <= t < post.len() && post[t].file_hash@ == h2;
            assert(t != i);
            assert(pre[t].file_hash@ == h2);
        }
    }
}

/// Appending an entry for one digest leaves every other digest's peers
/// unchanged.
proof fn lemma_frame_push_entry(pre: Seq<PeerEntry>, post: Seq<PeerEntry>, h2: Seq<u8>)
    requires
        post.len() == pre.len() + 1,
        forall|k: int| 0 <= k < pre.len() ==> post[k] == pre[k],
        h2 != post[pre.len() as int].file_hash@,
        forall|a: int, b: int| 0 <= a < b < pre.len() ==> pre[a].file_hash@ != pre[b].file_hash@,
    ensures
        entry_peers(post, h2) == entry_peers(pre, h2),
{
    if has_peer_entry(pre, h2) {
        let k = choose|k: int| 0 <= k < pre.len() && pre[k].file_hash@ == h2;
        assert(post[k].file_hash@ == h2);
        assert(has_peer_entry(post, h2));
        let k2 = choose|t: int| 0 <= t < post.len() && post[t].file_hash@ == h2;
        assert(k2 != pre.len());
        assert(post[k2] == pre[k2]);
        let k3 = choose|t: int| 0 <= t < pre.len() && pre[t].file_hash@ == h2;
        assert(post[k3] == pre[k3]);
        if k2 != k3 {
            if k2 < k3 {
                assert(pre[k2].file_hash@ != pre[k3].file_hash@);
            } else {
                assert(pre[k3].file_hash@ != pre[k2].file_hash@);
            }
        }
    } else {
        if has_peer_entry(post, h2) {
            let t = choose|t: int| 0 <= t < post.len() && post[t].file_hash@ == h2;
            assert(t < pre.len() ==> pre[t].file_hash@ == h2);
            assert(t == pre.len() ==> post[t].file_hash@ == h2 && h2 != post[t].file_hash@);
        }
    }
}

} // verus!
