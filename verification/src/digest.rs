//! Content addressing: cryptographic digests for whole files and for
//! individual chunks, where a chunk's digest binds the chunk to its index.

use vstd::prelude::*;

verus! {

/// Abstract name for the digest that the hash function assigns to a byte
/// sequence.  The hash itself is computed by an outside crate; nothing in
/// this crate states what the digest of particular bytes is.
pub uninterp spec fn digest_of(data: Seq<u8>) -> Seq<u8>;

/// Length in bytes of every digest this crate handles.
pub const DIGEST_LEN: usize = 32;

/// Relies on blake3::hash: a pure function of the input bytes whose output
/// is always 32 bytes.
#[verifier::external_body]
pub fn compute_digest(data: &[u8]) -> (r: Vec<u8>)
    ensures
        r@ == digest_of(data@),
        r@.len() == DIGEST_LEN,
{
    blake3::hash(data).as_bytes().to_vec()
}

/// The little-endian byte rendering of a 64-bit chunk index.
pub open spec fn u64_le_bytes(x: u64) -> Seq<u8> {
    seq![
        (x & 0xff) as u8,
        ((x >> 8) & 0xff) as u8,
        ((x >> 16) & 0xff) as u8,
        ((x >> 24) & 0xff) as u8,
        ((x >> 32) & 0xff) as u8,
        ((x >> 40) & 0xff) as u8,
        ((x >> 48) & 0xff) as u8,
        ((x >> 56) & 0xff) as u8,
    ]
}

pub fn u64_to_le_bytes(x: u64) -> (r: Vec<u8>)
    ensures
        r@ == u64_le_bytes(x),
{
    let mut r: Vec<u8> = Vec::new();
    r.push((x & 0xff) as u8);
    r.push(((x >> 8) & 0xff) as u8);
    r.push(((x >> 16) & 0xff) as u8);
    r.push(((x >> 24) & 0xff) as u8);
    r.push(((x >> 32) & 0xff) as u8);
    r.push(((x >> 40) & 0xff) as u8);
    r.push(((x >> 48) & 0xff) as u8);
    r.push(((x >> 56) & 0xff) as u8);
    proof {
        assert(r@ =~= u64_le_bytes(x));
    }
    r
}

pub proof fn lemma_u64_le_bytes_injective(x: u64, y: u64)
    requires
        u64_le_bytes(x) == u64_le_bytes(y),
    ensures
        x == y,
{
    assert(u64_le_bytes(x)[0] == u64_le_bytes(y)[0]);
    assert(u64_le_bytes(x)[1] == u64_le_bytes(y)[1]);
    assert(u64_le_bytes(x)[2] == u64_le_bytes(y)[2]);
    assert(u64_le_bytes(x)[3] == u64_le_bytes(y)[3]);
    assert(u64_le_bytes(x)[4] == u64_le_bytes(y)[4]);
    assert(u64_le_bytes(x)[5] == u64_le_bytes(y)[5]);
    assert(u64_le_bytes(x)[6] == u64_le_bytes(y)[6]);
    assert(u64_le_bytes(x)[7] == u64_le_bytes(y)[7]);
    assert((x & 0xff) as u8 == (y & 0xff) as u8
        && ((x >> 8) & 0xff) as u8 == ((y >> 8) & 0xff) as u8
        && ((x >> 16) & 0xff) as u8 == ((y >> 16) & 0xff) as u8
        && ((x >> 24) & 0xff) as u8 == ((y >> 24) & 0xff) as u8
        && ((x >> 32) & 0xff) as u8 == ((y >> 32) & 0xff) as u8
        && ((x >> 40) & 0xff) as u8 == ((y >> 40) & 0xff) as u8
        && ((x >> 48) & 0xff) as u8 == ((y >> 48) & 0xff) as u8
        && ((x >> 56) & 0xff) as u8 == ((y >> 56) & 0xff) as u8
        ==> x == y) by (bit_vector);
}

/// The bytes actually hashed for chunk `index` of a file: the index in
/// little-endian followed by the chunk's payload.  Hashing the index with
/// the payload means the same payload at two different offsets is addressed
/// by two different preimages.
pub open spec fn chunk_preimage(index: u64, bytes: Seq<u8>) -> Seq<u8> {
    u64_le_bytes(index) + bytes
}

/// Digest under which chunk `index` with payload `bytes` is addressed.
pub open spec fn chunk_digest_spec(index: u64, bytes: Seq<u8>) -> Seq<u8> {
    digest_of(chunk_preimage(index, bytes))
}

/// A chunk's preimage determines, and is determined by, its index and its
/// payload: in particular the same payload at two different indices is
/// hashed from two different preimages.
pub proof fn lemma_chunk_preimage_binds_index(i: u64, j: u64, a: Seq<u8>, b: Seq<u8>)
    requires
        chunk_preimage(i, a) == chunk_preimage(j, b),
    ensures
        i == j,
        a == b,
{
    let pa = chunk_preimage(i, a);
    let pb = chunk_preimage(j, b);
    assert(pa.len() == 8 + a.len());
    assert(pb.len() == 8 + b.len());
    assert(a.len() == b.len());
    assert(u64_le_bytes(i) =~= u64_le_bytes(j)) by {
        assert forall|k: int| 0 <= k < 8 implies u64_le_bytes(i)[k] == u64_le_bytes(j)[k] by {
            assert(pa[k] == u64_le_bytes(i)[k]);
            assert(pb[k] == u64_le_bytes(j)[k]);
        }
    }
    lemma_u64_le_bytes_injective(i, j);
    assert(a =~= b) by {
        assert forall|k: int| 0 <= k < a.len() implies a[k] == b[k] by {
            assert(pa[8 + k] == a[k]);
            assert(pb[8 + k] == b[k]);
        }
    }
}

pub fn chunk_digest(index: u64, bytes: &[u8]) -> (r: Vec<u8>)
    ensures
        r@ == chunk_digest_spec(index, bytes@),
        r@.len() == 32,
{
    let mut preimage = u64_to_le_bytes(index);
    preimage.extend_from_slice(bytes);
    proof {
        assert(preimage@ == chunk_preimage(index, bytes@));
    }
    compute_digest(preimage.as_slice())
}

/// Byte-for-byte equality of two byte vectors.
pub fn bytes_eq(a: &Vec<u8>, b: &Vec<u8>) -> (r: bool)
    ensures
        r == (a@ == b@),
{
    if a.len() != b.len() {
        proof {
            assert(a@ != b@);
        }
        return false;
    }
    let n = a.len();
    let mut i: usize = 0;
    while i < n
        invariant
            n == a@.len() == b@.len(),
            0 <= i <= n,
            forall|k: int| 0 <= k < i ==> a@[k] == b@[k],
        decreases n - i,
    {
        if a[i] != b[i] {
            return false;
        }
        i += 1;
    }
    proof {
        assert(a@ =~= b@);
    }
    true
}

/// A fresh byte vector with the same contents.
pub fn clone_bytes(v: &Vec<u8>) -> (r: Vec<u8>)
    ensures
        r@ == v@,
{
    let mut r: Vec<u8> = Vec::new();
    let n = v.len();
    let mut i: usize = 0;
    while i < n
        invariant
            n == v@.len(),
            0 <= i <= n,
            r@ == v@.take(i as int),
        decreases n - i,
    {
        r.push(v[i]);
        proof {
            assert(r@ =~= v@.take(i + 1));
        }
        i += 1;
    }
    proof {
        assert(v@.take(n as int) =~= v@);
    }
    r
}

/// The lowercase hexadecimal digit for a nibble.
pub open spec fn hex_digit(n: u8) -> char
    recommends
        n < 16,
{
    if n < 10 {
        (n + 48) as char
    } else {
        (n + 87) as char
    }
}

/// Lowercase hexadecimal rendering of a byte sequence, two digits per byte,
/// high nibble first.
pub open spec fn hex_of(bytes: Seq<u8>) -> Seq<char>
    decreases bytes.len(),
{
    if bytes.len() == 0 {
        Seq::empty()
    } else {
        seq![hex_digit(bytes[0] >> 4), hex_digit(bytes[0] & 0xf)] + hex_of(bytes.drop_first())
    }
}

/// Relies on hex::encode: lowercase digits, two per byte, high nibble first.
#[verifier::external_body]
pub fn bytes_to_hex(data: &[u8]) -> (r: String)
    ensures
        r@ == hex_of(data@),
{
    hex::encode(data)
}

} // verus!
