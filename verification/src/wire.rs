//! Little-endian byte-level encoding: the mathematical model of multi-byte
//! fields on the wire, and verified readers and writers for them.

use vstd::prelude::*;

verus! {

/// 256 to the power `w`: the number of values a `w`-byte field can hold.
pub open spec fn pow256(w: nat) -> nat
    decreases w,
{
    if w == 0 {
        1
    } else {
        256 * pow256((w - 1) as nat)
    }
}

/// The value of a little-endian byte string.
pub open spec fn le_nat(b: Seq<u8>) -> nat
    decreases b.len(),
{
    if b.len() == 0 {
        0
    } else {
        (b[0] + 256 * le_nat(b.skip(1))) as nat
    }
}

/// The `w`-byte little-endian encoding of `n` (high bits beyond `w` bytes are
/// discarded).
pub open spec fn le_bytes(n: nat, w: nat) -> Seq<u8>
    decreases w,
{
    if w == 0 {
        Seq::empty()
    } else {
        seq![(n % 256) as u8] + le_bytes(n / 256, (w - 1) as nat)
    }
}

pub proof fn lemma_le_bytes_len(n: nat, w: nat)
    ensures
        le_bytes(n, w).len() == w,
    decreases w,
{
    if w > 0 {
        lemma_le_bytes_len(n / 256, (w - 1) as nat);
    }
}

pub proof fn lemma_le_nat_bound(b: Seq<u8>)
    ensures
        le_nat(b) < pow256(b.len()),
    decreases b.len(),
{
    if b.len() > 0 {
        lemma_le_nat_bound(b.skip(1));
    }
}

/// Reading back the `w`-byte encoding of `n < 256^w` recovers `n`.
pub proof fn lemma_le_nat_of_le_bytes(n: nat, w: nat)
    requires
        n < pow256(w),
    ensures
        le_nat(le_bytes(n, w)) == n,
    decreases w,
{
    if w > 0 {
        assert(n / 256 < pow256((w - 1) as nat)) by (nonlinear_arith)
            requires
                n < 256 * pow256((w - 1) as nat),
        ;
        lemma_le_nat_of_le_bytes(n / 256, (w - 1) as nat);
        lemma_le_bytes_len(n / 256, (w - 1) as nat);
        let s = le_bytes(n, w);
        assert(s.skip(1) =~= le_bytes(n / 256, (w - 1) as nat));
        assert(n % 256 + 256 * (n / 256) == n) by (nonlinear_arith);
    }
}

/// Re-encoding the value of a byte string recovers the same bytes.
pub proof fn lemma_le_bytes_of_le_nat(b: Seq<u8>)
    ensures
        le_bytes(le_nat(b), b.len()) == b,
    decreases b.len(),
{
    if b.len() > 0 {
        let r = le_nat(b.skip(1));
        let v = le_nat(b);
        assert(v == b[0] + 256 * r);
        assert(v % 256 == b[0] && v / 256 == r) by (nonlinear_arith)
            requires
                v == b[0] + 256 * r,
                0 <= b[0] < 256,
        ;
        lemma_le_bytes_of_le_nat(b.skip(1));
        assert(le_bytes(v, b.len()) =~= b);
    }
}

pub proof fn lemma_pow256_values()
    ensures
        pow256(0) == 1,
        pow256(1) == 0x100,
        pow256(2) == 0x10000,
        pow256(4) == 0x100000000,
        pow256(8) == 0x10000000000000000,
{
    reveal_with_fuel(pow256, 9);
}

/// A field of at most eight bytes fits in a `u64`, and its value re-encodes
/// to the same bytes.
pub proof fn lemma_le_cast_u64(b: Seq<u8>)
    requires
        b.len() <= 8,
    ensures
        (le_nat(b) as u64) as nat == le_nat(b),
        le_bytes(le_nat(b), b.len()) == b,
{
    lemma_le_nat_bound(b);
    lemma_pow256_mono(b.len(), 8);
    lemma_pow256_values();
    lemma_le_bytes_of_le_nat(b);
}

/// A field of at most four bytes fits in a `u32`, and its value re-encodes
/// to the same bytes.
pub proof fn lemma_le_cast_u32(b: Seq<u8>)
    requires
        b.len() <= 4,
    ensures
        (le_nat(b) as u32) as nat == le_nat(b),
        le_bytes(le_nat(b), b.len()) == b,
{
    lemma_le_nat_bound(b);
    lemma_pow256_mono(b.len(), 4);
    lemma_pow256_values();
    lemma_le_bytes_of_le_nat(b);
}

/// A value below `256^w` survives a round trip through its `w`-byte encoding.
pub proof fn lemma_le_value(n: nat, w: nat)
    requires
        n < pow256(w),
    ensures
        le_nat(le_bytes(n, w)) == n,
        le_bytes(n, w).len() == w,
{
    lemma_le_nat_of_le_bytes(n, w);
    lemma_le_bytes_len(n, w);
}

/// Reads the `w`-byte little-endian field at `pos`.
pub fn read_le(buf: &[u8], pos: usize, w: usize) -> (r: u64)
    requires
        pos + w <= buf.len(),
        w <= 8,
    ensures
        r as nat == le_nat(buf@.subrange(pos as int, (pos + w) as int)),
{
    let mut r: u64 = 0;
    let mut k: usize = w;
    proof {
        assert(buf@.subrange((pos + w) as int, (pos + w) as int) =~= Seq::<u8>::empty());
    }
    while k > 0
        invariant
            pos + w <= buf.len(),
            w <= 8,
            k <= w,
            r as nat == le_nat(buf@.subrange((pos + k) as int, (pos + w) as int)),
        decreases k,
    {
        let ghost prev = buf@.subrange((pos + k) as int, (pos + w) as int);
        proof {
            lemma_le_nat_bound(prev);
            lemma_pow256_mono((w - k) as nat, 7);
            assert(pow256(7) == 72057594037927936) by {
                reveal_with_fuel(pow256, 8);
            }
        }
        k = k - 1;
        let ghost cur = buf@.subrange((pos + k) as int, (pos + w) as int);
        proof {
            assert(cur.skip(1) =~= prev);
            assert(le_nat(cur) == cur[0] + 256 * le_nat(prev));
        }
        r = r * 256 + buf[pos + k] as u64;
    }
    r
}

pub proof fn lemma_pow256_mono(a: nat, b: nat)
    requires
        a <= b,
    ensures
        pow256(a) <= pow256(b),
    decreases b,
{
    if a < b {
        lemma_pow256_mono(a, (b - 1) as nat);
        assert(pow256((b - 1) as nat) <= 256 * pow256((b - 1) as nat)) by (nonlinear_arith)
            requires
                pow256((b - 1) as nat) >= 0,
        ;
    }
}

/// Appends a copy of `src` to `out`.
pub fn push_bytes(out: &mut Vec<u8>, src: &[u8])
    ensures
        final(out)@ == old(out)@ + src@,
{
    let n = src.len();
    let mut k: usize = 0;
    while k < n
        invariant
            k <= n,
            n == src@.len(),
            out@ == old(out)@ + src@.take(k as int),
        decreases n - k,
    {
        out.push(src[k]);
        proof {
            assert(old(out)@ + src@.take(k as int) + seq![src@[k as int]] =~= old(out)@
                + src@.take(k + 1));
        }
        k = k + 1;
    }
    proof {
        assert(src@.take(n as int) =~= src@);
    }
}

/// Appends the `w`-byte little-endian encoding of `n`.
pub fn write_le(out: &mut Vec<u8>, n: u64, w: usize)
    requires
        w <= 8,
    ensures
        final(out)@ == old(out)@ + le_bytes(n as nat, w as nat),
{
    let mut cur: u64 = n;
    let mut k: usize = 0;
    while k < w
        invariant
            k <= w,
            out@ + le_bytes(cur as nat, (w - k) as nat) == old(out)@ + le_bytes(
                n as nat,
                w as nat,
            ),
        decreases w - k,
    {
        let ghost pre = out@;
        let ghost c0 = cur as nat;
        out.push((cur % 256) as u8);
        cur = cur / 256;
        k = k + 1;
        proof {
            assert(le_bytes(c0, (w - k + 1) as nat) == seq![(c0 % 256) as u8] + le_bytes(
                c0 / 256,
                (w - k) as nat,
            ));
            assert(out@ + le_bytes(cur as nat, (w - k) as nat) =~= pre + le_bytes(
                c0,
                (w - k + 1) as nat,
            ));
        }
    }
    proof {
        assert(out@ + le_bytes(cur as nat, 0) =~= out@);
    }
}

} // verus!
