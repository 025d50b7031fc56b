//! Content-addressed chunk store: append-only storage of immutable byte
//! blocks keyed by digest, backed by a concurrent map from an outside crate.

use vstd::prelude::*;
use crate::error::DeskShareError;

verus! {

#[verifier::external_type_specification]
#[verifier::external_body]
#[verifier::reject_recursive_types(K)]
#[verifier::reject_recursive_types(V)]
#[verifier::reject_recursive_types(S)]
pub struct ExDashMap<K, V, S>(dashmap::DashMap<K, V, S>);

/// Abstract name for what the backing map holds: which digest is mapped to
/// which payload.
pub uninterp spec fn map_entries(m: dashmap::DashMap<Vec<u8>, Vec<u8>>) -> Map<Seq<u8>, Seq<u8>>;

/// Relies on dashmap::DashMap::new: creates an empty map.
#[verifier::external_body]
fn dm_new() -> (r: dashmap::DashMap<Vec<u8>, Vec<u8>>)
    ensures
        forall|k: Seq<u8>| !map_entries(r).dom().contains(k),
{
    dashmap::DashMap::new()
}

/// Relies on dashmap::DashMap::insert: afterwards the key maps to the
/// value; no other key's mapping changes.
#[verifier::external_body]
fn dm_insert(m: &mut dashmap::DashMap<Vec<u8>, Vec<u8>>, k: Vec<u8>, v: Vec<u8>)
    ensures
        map_entries(*final(m)) == map_entries(*old(m)).insert(k@, v@),
{
    m.insert(k, v);
}

/// Relies on dashmap::DashMap::get: returns the value the key is mapped
/// to, or nothing when the key is absent.
#[verifier::external_body]
fn dm_get(m: &dashmap::DashMap<Vec<u8>, Vec<u8>>, k: &Vec<u8>) -> (r: Option<Vec<u8>>)
    ensures
        match r {
            Some(v) => map_entries(*m).dom().contains(k@) && v@ == map_entries(*m)[k@],
            None => !map_entries(*m).dom().contains(k@),
        },
{
    m.get(k).map(|e| e.value().clone())
}

/// Relies on dashmap::DashMap::contains_key.
#[verifier::external_body]
fn dm_contains(m: &dashmap::DashMap<Vec<u8>, Vec<u8>>, k: &Vec<u8>) -> (r: bool)
    ensures
        r == map_entries(*m).dom().contains(k@),
{
    m.contains_key(k)
}

/// Append-only, content-addressed storage of chunk payloads.  Once a digest
/// is mapped to a payload the mapping never changes: re-inserting the same
/// payload is a no-op and a different payload under the same digest is
/// rejected as an integrity fault.
pub struct ChunkStore {
    chunks: dashmap::DashMap<Vec<u8>, Vec<u8>>,
}

impl ChunkStore {
    /// Which digest currently addresses which payload.
    pub closed spec fn contents(self) -> Map<Seq<u8>, Seq<u8>> {
        map_entries(self.chunks)
    }

    pub fn new() -> (r: ChunkStore)
        ensures
            r.contents() == Map::<Seq<u8>, Seq<u8>>::empty(),
    {
        let r = ChunkStore { chunks: dm_new() };
        proof {
            assert(r.contents() =~= Map::<Seq<u8>, Seq<u8>>::empty());
        }
        r
    }

    /// Store `bytes` under `digest`.  Returns `Ok(true)` when the digest was
    /// new, `Ok(false)` for an identical re-insertion (a no-op), and rejects
    /// a different payload under an existing digest without changing the
    /// store.
    pub fn put(&mut self, digest: Vec<u8>, bytes: Vec<u8>) -> (r: Result<bool, DeskShareError>)
        ensures
            old(self).contents().dom().contains(digest@) ==> {
                &&& final(self).contents() == old(self).contents()
                &&& r == (if old(self).contents()[digest@] == bytes@ {
                    Ok::<bool, DeskShareError>(false)
                } else {
                    Err::<bool, DeskShareError>(DeskShareError::IntegrityCheckFailed)
                })
            },
            !old(self).contents().dom().contains(digest@) ==> {
                &&& final(self).contents() == old(self).contents().insert(digest@, bytes@)
                &&& r == Ok::<bool, DeskShareError>(true)
            },
    {
        match dm_get(&self.chunks, &digest) {
            Some(existing) => {
                if crate::digest::bytes_eq(&existing, &bytes) {
                    Ok(false)
                } else {
                    Err(DeskShareError::IntegrityCheckFailed)
                }
            },
            None => {
                dm_insert(&mut self.chunks, digest, bytes);
                Ok(true)
            },
        }
    }

    /// The payload stored under `digest`, if any.
    pub fn get(&self, digest: &Vec<u8>) -> (r: Option<Vec<u8>>)
        ensures
            match r {
                Some(v) => self.contents().dom().contains(digest@) && v@ == self.contents()[digest@],
                None => !self.contents().dom().contains(digest@),
            },
    {
        dm_get(&self.chunks, digest)
    }

    pub fn contains(&self, digest: &Vec<u8>) -> (r: bool)
        ensures
            r == self.contents().dom().contains(digest@),
    {
        dm_contains(&self.chunks, digest)
    }
}

} // verus!

