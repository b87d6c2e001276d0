//! The layout of the persistent store: one record per block, under a key
//! that sorts as the block's index does.

use vstd::prelude::*;

verus! {

/// The `width` low-order base-256 digits of `n`, most significant first.
pub open spec fn be_bytes(n: nat, width: nat) -> Seq<u8>
    decreases width,
{
    if width == 0 {
        Seq::empty()
    } else {
        be_bytes(n / 256, (width - 1) as nat).push((n % 256) as u8)
    }
}

/// The store key of the block at `index`: the index as eight bytes, most
/// significant first.
pub open spec fn key_of(index: u64) -> Seq<u8> {
    be_bytes(index as nat, 8)
}

/// Whether `a` comes before `b` in the order of the store: at the first
/// place where they differ `a` has the smaller byte.
pub open spec fn key_before(a: Seq<u8>, b: Seq<u8>) -> bool {
    exists|k: int|
        0 <= k < a.len() && k < b.len() && a[k] < b[k] && (forall|j: int|
            0 <= j < k ==> a[j] == b[j])
}

/// `256` to the power `width`.
pub open spec fn radix_pow(width: nat) -> nat
    decreases width,
{
    if width == 0 {
        1
    } else {
        256 * radix_pow((width - 1) as nat)
    }
}

/// Appends the `width` low-order base-256 digits of `n` to `out`.
fn push_be(out: &mut Vec<u8>, n: u64, width: usize)
    ensures
        final(out)@ == old(out)@ + be_bytes(n as nat, width as nat),
    decreases width,
{
    let ghost base = out@;
    if width > 0 {
        push_be(out, n / 256, width - 1);
        out.push((n % 256) as u8);
    }
    proof {
        assert(out@ =~= base + be_bytes(n as nat, width as nat));
    }
}

/// The store key of the block at `index`.
pub fn block_key(index: u64) -> (r: Vec<u8>)
    ensures
        r@ == key_of(index),
        r@.len() == 8,
{
    let mut r: Vec<u8> = Vec::new();
    push_be(&mut r, index, 8);
    proof {
        assert(r@ =~= key_of(index));
        lemma_be_bytes_len(index as nat, 8);
    }
    r
}

/// A number is written with as many bytes as asked for.
pub proof fn lemma_be_bytes_len(n: nat, width: nat)
    ensures
        be_bytes(n, width).len() == width,
    decreases width,
{
    if width > 0 {
        lemma_be_bytes_len(n / 256, (width - 1) as nat);
    }
}

/// Numbers that fit in `width` bytes are ordered as their byte strings are.
pub proof fn lemma_be_bytes_ordered(a: nat, b: nat, width: nat)
    requires
        a < b < radix_pow(width),
    ensures
        key_before(be_bytes(a, width), be_bytes(b, width)),
    decreases width,
{
    lemma_be_bytes_len(a, width);
    lemma_be_bytes_len(b, width);
    if width > 0 {
        let w = (width - 1) as nat;
        let x = be_bytes(a, width);
        let y = be_bytes(b, width);
        lemma_be_bytes_len(a / 256, w);
        lemma_be_bytes_len(b / 256, w);
        assert(b / 256 < radix_pow(w)) by (nonlinear_arith)
            requires
                b < 256 * radix_pow(w),
        ;
        if a / 256 < b / 256 {
            lemma_be_bytes_ordered(a / 256, b / 256, w);
            let p = be_bytes(a / 256, w);
            let q = be_bytes(b / 256, w);
            let k = choose|k: int|
                0 <= k < p.len() && k < q.len() && p[k] < q[k] && (forall|j: int|
                    0 <= j < k ==> p[j] == q[j]);
            assert(x[k] < y[k] && (forall|j: int| 0 <= j < k ==> x[j] == y[j]));
        } else {
            assert(a / 256 == b / 256);
            assert(a % 256 < b % 256);
            assert(x[w as int] < y[w as int] && (forall|j: int| 0 <= j < w ==> x[j] == y[j]));
        }
    }
}

/// Store keys sort as block indices do: a scan of the store in key order
/// meets the blocks in index order.
pub proof fn lemma_keys_sort_by_index(a: u64, b: u64)
    requires
        a < b,
    ensures
        key_before(key_of(a), key_of(b)),
        key_of(a) != key_of(b),
{
    assert(radix_pow(8) == 0x1_0000_0000_0000_0000) by {
        reveal_with_fuel(radix_pow, 9);
    }
    lemma_be_bytes_ordered(a as nat, b as nat, 8);
}

} // verus!
