//! Splitting a byte payload into fixed-size chunks (the last chunk possibly
//! short), and the bookkeeping over which chunk indices of a download have
//! arrived: how many are marked and how many bytes they account for.

use vstd::prelude::*;
use vstd::arithmetic::div_mod::lemma_fundamental_div_mod;
use vstd::arithmetic::div_mod::lemma_mod_bound;
use vstd::arithmetic::mul::lemma_mul_inequality;

verus! {

/// Number of fixed-size chunks a payload of `size` bytes splits into.
pub open spec fn num_chunks(size: nat, chunk_size: nat) -> nat
    recommends
        chunk_size > 0,
{
    if size == 0 {
        0
    } else {
        (((size - 1) / (chunk_size as int)) + 1) as nat
    }
}

/// Length of chunk `i` of a payload of `size` bytes: `chunk_size` for every
/// chunk but possibly the last, zero past the end.
pub open spec fn chunk_len(size: nat, chunk_size: nat, i: nat) -> nat {
    if i * chunk_size < size {
        if size - i * chunk_size < chunk_size {
            (size - i * chunk_size) as nat
        } else {
            chunk_size
        }
    } else {
        0
    }
}

/// The bytes of chunk `i` of `data`.
pub open spec fn chunk_spec(data: Seq<u8>, chunk_size: nat, i: nat) -> Seq<u8> {
    data.subrange(
        vstd::math::min((i * chunk_size) as int, data.len() as int),
        vstd::math::min((i * chunk_size + chunk_len(data.len(), chunk_size, i)) as int, data.len() as int),
    )
}

/// Concatenation, in index order, of the first `k` chunks of `data`.
pub open spec fn concat_chunks_upto(data: Seq<u8>, chunk_size: nat, k: nat) -> Seq<u8>
    decreases k,
{
    if k == 0 {
        Seq::empty()
    } else {
        concat_chunks_upto(data, chunk_size, (k - 1) as nat) + chunk_spec(data, chunk_size, (k - 1) as nat)
    }
}

/// Every chunk index below the chunk count begins strictly inside the
/// payload, and the chunk count is the least count covering the payload.
pub proof fn lemma_num_chunks_bounds(size: nat, chunk_size: nat)
    requires
        chunk_size > 0,
    ensures
        num_chunks(size, chunk_size) * chunk_size >= size,
        size > 0 ==> (num_chunks(size, chunk_size) - 1) * chunk_size < size,
{
    if size > 0 {
        let cs = chunk_size as int;
        let d = (size - 1) / cs;
        lemma_fundamental_div_mod(size - 1, cs);
        lemma_mod_bound(size - 1, cs);
        assert((d + 1) * cs == d * cs + cs) by (nonlinear_arith);
        assert(d * cs == cs * d) by (nonlinear_arith);
    }
}

/// A chunk index below the chunk count begins before the end of the payload.
pub proof fn lemma_chunk_start_in_range(size: nat, chunk_size: nat, i: nat)
    requires
        chunk_size > 0,
        i < num_chunks(size, chunk_size),
    ensures
        i * chunk_size < size,
        chunk_len(size, chunk_size, i) > 0,
{
    let cs = chunk_size as int;
    let d = (size - 1) / cs;
    lemma_fundamental_div_mod(size - 1, cs);
    lemma_mod_bound(size - 1, cs);
    lemma_mul_inequality(i as int, d, cs);
    assert(d * cs == cs * d) by (nonlinear_arith);
}

/// Concatenating the first `k` chunks yields exactly the first
/// `min(k * chunk_size, size)` bytes of the payload.
pub proof fn lemma_concat_chunks_prefix(data: Seq<u8>, chunk_size: nat, k: nat)
    requires
        chunk_size > 0,
    ensures
        concat_chunks_upto(data, chunk_size, k)
            == data.take(vstd::math::min((k * chunk_size) as int, data.len() as int)),
    decreases k,
{
    let size = data.len();
    if k == 0 {
        assert(concat_chunks_upto(data, chunk_size, 0) =~= data.take(0));
    } else {
        let km1 = (k - 1) as nat;
        lemma_concat_chunks_prefix(data, chunk_size, km1);
        assert(km1 * chunk_size + chunk_size == k * chunk_size) by (nonlinear_arith)
            requires
                km1 == k - 1,
        ;
        let a = vstd::math::min((km1 * chunk_size) as int, size as int);
        let b = vstd::math::min((k * chunk_size) as int, size as int);
        assert(chunk_spec(data, chunk_size, km1) =~= data.subrange(a, b));
        assert(data.take(a) + data.subrange(a, b) =~= data.take(b));
    }
}

/// Reassembly: concatenating all chunks of a payload, in index order,
/// restores the payload exactly.
pub proof fn lemma_chunks_reassemble(data: Seq<u8>, chunk_size: nat)
    requires
        chunk_size > 0,
    ensures
        concat_chunks_upto(data, chunk_size, num_chunks(data.len(), chunk_size)) == data,
{
    let n = num_chunks(data.len(), chunk_size);
    lemma_num_chunks_bounds(data.len(), chunk_size);
    lemma_concat_chunks_prefix(data, chunk_size, n);
    assert(data.take(data.len() as int) =~= data);
}

/// How many entries of a mark vector are set.
pub open spec fn count_marked(r: Seq<bool>) -> nat
    decreases r.len(),
{
    if r.len() == 0 {
        0
    } else {
        count_marked(r.drop_last()) + (if r.last() {
            1nat
        } else {
            0
        })
    }
}

/// Total payload bytes accounted for by the set entries of a mark vector,
/// chunk `i` accounting for `chunk_len(size, chunk_size, i)` bytes.
pub open spec fn marked_bytes(r: Seq<bool>, size: nat, chunk_size: nat) -> nat
    decreases r.len(),
{
    if r.len() == 0 {
        0
    } else {
        marked_bytes(r.drop_last(), size, chunk_size) + (if r.last() {
            chunk_len(size, chunk_size, (r.len() - 1) as nat)
        } else {
            0
        })
    }
}

pub proof fn lemma_count_marked_le(r: Seq<bool>)
    ensures
        count_marked(r) <= r.len(),
    decreases r.len(),
{
    if r.len() > 0 {
        lemma_count_marked_le(r.drop_last());
    }
}

/// A fully counted mark vector has every entry set, and conversely.
pub proof fn lemma_count_marked_full(r: Seq<bool>)
    ensures
        count_marked(r) == r.len() <==> (forall|i: int| 0 <= i < r.len() ==> r[i]),
    decreases r.len(),
{
    if r.len() > 0 {
        lemma_count_marked_full(r.drop_last());
        lemma_count_marked_le(r.drop_last());
        if count_marked(r) == r.len() {
            assert(forall|i: int| 0 <= i < r.len() - 1 ==> r[i] == r.drop_last()[i]);
        }
        if forall|i: int| 0 <= i < r.len() ==> r[i] {
            assert(forall|i: int| 0 <= i < r.len() - 1 ==> r.drop_last()[i]);
            assert(r.last());
        }
    }
}

/// Setting one unset entry raises the count by one and the accounted bytes
/// by that chunk's length.
pub proof fn lemma_mark_update(r: Seq<bool>, size: nat, chunk_size: nat, j: int)
    requires
        0 <= j < r.len(),
        !r[j],
    ensures
        count_marked(r.update(j, true)) == count_marked(r) + 1,
        marked_bytes(r.update(j, true), size, chunk_size)
            == marked_bytes(r, size, chunk_size) + chunk_len(size, chunk_size, j as nat),
    decreases r.len(),
{
    let u = r.update(j, true);
    if j == r.len() - 1 {
        assert(u.drop_last() =~= r.drop_last());
        assert(u.last());
    } else {
        assert(u.drop_last() =~= r.drop_last().update(j, true));
        assert(u.last() == r.last());
        lemma_mark_update(r.drop_last(), size, chunk_size, j);
    }
}

/// The bytes accounted for by the first `k` chunk indices, were they all
/// set: `min(k * chunk_size, size)`.
pub open spec fn covered_upto(size: nat, chunk_size: nat, k: nat) -> int {
    vstd::math::min((k * chunk_size) as int, size as int)
}

proof fn lemma_covered_upto_step(size: nat, chunk_size: nat, k: nat)
    requires
        chunk_size > 0,
        k > 0,
    ensures
        covered_upto(size, chunk_size, k)
            == covered_upto(size, chunk_size, (k - 1) as nat) + chunk_len(size, chunk_size, (k - 1) as nat),
{
    let km1 = (k - 1) as nat;
    assert(km1 * chunk_size + chunk_size == k * chunk_size) by (nonlinear_arith)
        requires
            km1 == k - 1,
    ;
}

/// The marked bytes never exceed what the marked indices could cover, so in
/// particular never exceed the payload size.
pub proof fn lemma_marked_bytes_le(r: Seq<bool>, size: nat, chunk_size: nat)
    requires
        chunk_size > 0,
    ensures
        marked_bytes(r, size, chunk_size) <= covered_upto(size, chunk_size, r.len()),
        marked_bytes(r, size, chunk_size) <= size,
    decreases r.len(),
{
    if r.len() > 0 {
        lemma_marked_bytes_le(r.drop_last(), size, chunk_size);
        lemma_covered_upto_step(size, chunk_size, r.len());
    }
}

/// When every chunk index of the payload is marked, the marked bytes equal
/// the payload size exactly.
pub proof fn lemma_marked_bytes_full(r: Seq<bool>, size: nat, chunk_size: nat)
    requires
        chunk_size > 0,
        r.len() == num_chunks(size, chunk_size),
        forall|i: int| 0 <= i < r.len() ==> r[i],
    ensures
        marked_bytes(r, size, chunk_size) == size,
{
    lemma_num_chunks_bounds(size, chunk_size);
    lemma_marked_bytes_covered(r, size, chunk_size);
}

proof fn lemma_marked_bytes_covered(r: Seq<bool>, size: nat, chunk_size: nat)
    requires
        chunk_size > 0,
        forall|i: int| 0 <= i < r.len() ==> r[i],
    ensures
        marked_bytes(r, size, chunk_size) == covered_upto(size, chunk_size, r.len()),
    decreases r.len(),
{
    if r.len() > 0 {
        assert(forall|i: int| 0 <= i < r.len() - 1 ==> r.drop_last()[i]);
        lemma_marked_bytes_covered(r.drop_last(), size, chunk_size);
        lemma_covered_upto_step(size, chunk_size, r.len());
        assert(r.last());
    }
}

/// Extract chunk `i` of `data`.
pub fn take_chunk(data: &Vec<u8>, chunk_size: usize, i: usize) -> (r: Vec<u8>)
    requires
        chunk_size > 0,
        i < num_chunks(data@.len(), chunk_size as nat),
    ensures
        r@ == chunk_spec(data@, chunk_size as nat, i as nat),
        r@.len() == chunk_len(data@.len(), chunk_size as nat, i as nat),
{
    let dlen = data.len();
    proof {
        lemma_chunk_start_in_range(data@.len(), chunk_size as nat, i as nat);
    }
    let start = i * chunk_size;
    let rem = dlen - start;
    let len = if rem < chunk_size {
        rem
    } else {
        chunk_size
    };
    let mut r: Vec<u8> = Vec::new();
    let mut j: usize = 0;
    while j < len
        invariant
            dlen == data@.len(),
            start + len <= dlen,
            0 <= j <= len,
            r@.len() == j,
            forall|k: int| 0 <= k < j ==> r@[k] == data@[start + k],
        decreases len - j,
    {
        r.push(data[start + j]);
        j += 1;
    }
    proof {
        assert(r@ =~= chunk_spec(data@, chunk_size as nat, i as nat));
    }
    r
}

} // verus!
