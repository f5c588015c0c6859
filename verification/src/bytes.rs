//! Little-endian integer decoding over byte buffers.
//!
//! Every multi-byte field of an NTFS on-disk structure is little-endian;
//! these are the primitives the decoders are built on.

use vstd::prelude::*;

verus! {

/// 256 raised to the power `n`: the number of values an `n`-byte field can take.
pub open spec fn pow256(n: nat) -> nat
    decreases n,
{
    if n == 0 {
        1
    } else {
        256 * pow256((n - 1) as nat)
    }
}

/// The unsigned value of the `n` bytes of `b` starting at `off`,
/// least-significant byte first.
pub open spec fn le_nat(b: Seq<u8>, off: int, n: nat) -> nat
    decreases n,
{
    if n == 0 {
        0
    } else {
        (b[off] + 256 * le_nat(b, off + 1, (n - 1) as nat)) as nat
    }
}

/// The signed value of the `n` bytes of `b` starting at `off`:
/// the unsigned value, sign-extended from its top bit.
pub open spec fn le_int(b: Seq<u8>, off: int, n: nat) -> int {
    if n > 0 && b[off + n - 1] >= 128 {
        le_nat(b, off, n) - pow256(n)
    } else {
        le_nat(b, off, n) as int
    }
}

/// The values of `pow256` up to eight bytes, spelled out.
pub proof fn lemma_pow256_values()
    ensures
        pow256(0) == 1,
        pow256(1) == 0x100,
        pow256(2) == 0x1_0000,
        pow256(3) == 0x100_0000,
        pow256(4) == 0x1_0000_0000,
        pow256(5) == 0x100_0000_0000,
        pow256(6) == 0x1_0000_0000_0000,
        pow256(7) == 0x100_0000_0000_0000,
        pow256(8) == 0x1_0000_0000_0000_0000,
{
    assert(pow256(0) == 1);
    assert(pow256(1) == 0x100);
    assert(pow256(2) == 0x1_0000);
    assert(pow256(3) == 0x100_0000);
    assert(pow256(4) == 0x1_0000_0000);
    assert(pow256(5) == 0x100_0000_0000);
    assert(pow256(6) == 0x1_0000_0000_0000);
    assert(pow256(7) == 0x100_0000_0000_0000);
    assert(pow256(8) == 0x1_0000_0000_0000_0000);
}

/// `pow256` grows with its argument.
pub proof fn lemma_pow256_increases(m: nat, n: nat)
    requires
        m <= n,
    ensures
        pow256(m) <= pow256(n),
    decreases n,
{
    if m < n {
        lemma_pow256_increases(m, (n - 1) as nat);
    }
}

/// An `n`-byte field is smaller than `pow256(n)`.
pub proof fn lemma_le_nat_bound(b: Seq<u8>, off: int, n: nat)
    ensures
        le_nat(b, off, n) < pow256(n),
    decreases n,
{
    if n > 0 {
        lemma_le_nat_bound(b, off + 1, (n - 1) as nat);
    }
}

/// The top byte of an `n`-byte field carries weight `pow256(n - 1)`.
pub proof fn lemma_le_nat_split_high(b: Seq<u8>, off: int, n: nat)
    requires
        1 <= n,
    ensures
        le_nat(b, off, n) == le_nat(b, off, (n - 1) as nat) + b[off + n - 1] * pow256(
            (n - 1) as nat,
        ),
    decreases n,
{
    if n == 1 {
        assert(le_nat(b, off, 1) == b[off] + 256 * le_nat(b, off + 1, 0));
        assert(le_nat(b, off, 0) == 0);
        assert(pow256(0) == 1);
    } else {
        lemma_le_nat_split_high(b, off + 1, (n - 1) as nat);
        let hi = b[off + n - 1];
        let p1 = pow256((n - 1) as nat);
        let p2 = pow256((n - 2) as nat);
        assert(le_nat(b, off, n) == b[off] + 256 * le_nat(b, off + 1, (n - 1) as nat));
        assert(le_nat(b, off + 1, (n - 1) as nat) == le_nat(b, off + 1, (n - 2) as nat) + hi * p2);
        assert(le_nat(b, off, (n - 1) as nat) == b[off] + 256 * le_nat(b, off + 1, (n - 2) as nat));
        assert(p1 == 256 * p2);
        assert(256 * (hi * p2) == hi * p1) by (nonlinear_arith)
            requires
                p1 == 256 * p2,
        ;
    }
}

/// The value of a field does not depend on bytes outside it.
pub proof fn lemma_le_nat_depends_on_range(b1: Seq<u8>, b2: Seq<u8>, off: int, n: nat)
    requires
        forall|i: int| off <= i < off + n ==> b1[i] == b2[i],
    ensures
        le_nat(b1, off, n) == le_nat(b2, off, n),
    decreases n,
{
    if n > 0 {
        lemma_le_nat_depends_on_range(b1, b2, off + 1, (n - 1) as nat);
    }
}

/// Reads the `n`-byte little-endian unsigned field of `b` at `off`.
pub fn read_le(b: &[u8], off: usize, n: usize) -> (r: u64)
    requires
        n <= 8,
        off + n <= b@.len(),
    ensures
        r == le_nat(b@, off as int, n as nat),
{
    proof {
        lemma_pow256_values();
    }
    let blen = b.len();
    let mut acc: u64 = 0;
    let mut k: usize = n;
    while k > 0
        invariant
            k <= n <= 8,
            off + n <= blen == b@.len(),
            blen <= usize::MAX,
            acc == le_nat(b@, off + k, (n - k) as nat),
            acc < pow256((n - k) as nat),
            pow256(8) == 0x1_0000_0000_0000_0000,
        decreases k,
    {
        k = k - 1;
        let byte = b[off + k];
        proof {
            lemma_pow256_increases((n - k) as nat, 8);
            assert(pow256((n - k) as nat) == 256 * pow256((n - k - 1) as nat));
        }
        acc = 256 * acc + byte as u64;
    }
    acc
}

/// Reads the `n`-byte little-endian signed field of `b` at `off`,
/// sign-extending from the top bit of the last byte.
pub fn read_le_signed(b: &[u8], off: usize, n: usize) -> (r: i64)
    requires
        1 <= n <= 8,
        off + n <= b@.len(),
    ensures
        r == le_int(b@, off as int, n as nat),
        -128 * pow256((n - 1) as nat) <= r < 128 * pow256((n - 1) as nat),
{
    proof {
        lemma_pow256_values();
        lemma_pow256_increases((n - 1) as nat, 7);
        lemma_le_nat_bound(b@, off as int, n as nat);
        lemma_le_nat_bound(b@, off as int, (n - 1) as nat);
        lemma_le_nat_split_high(b@, off as int, n as nat);
    }
    let blen = b.len();
    let u = read_le(b, off, n);
    let hi = b[off + n - 1];
    let modulus: u128 = pow256_u128(n);
    if hi >= 128 {
        assert(u >= 128 * pow256((n - 1) as nat)) by {
            assert(b@[off + n - 1] * pow256((n - 1) as nat) >= 128 * pow256((n - 1) as nat))
                by (nonlinear_arith)
                requires
                    b@[off + n - 1] >= 128,
                    pow256((n - 1) as nat) >= 1,
            ;
        }
        assert(256 * pow256((n - 1) as nat) == pow256(n as nat));
        let v: i128 = u as i128 - modulus as i128;
        v as i64
    } else {
        assert(u < 128 * pow256((n - 1) as nat)) by {
            assert(b@[off + n - 1] * pow256((n - 1) as nat) <= 127 * pow256((n - 1) as nat))
                by (nonlinear_arith)
                requires
                    b@[off + n - 1] <= 127,
                    pow256((n - 1) as nat) >= 1,
            ;
        }
        u as i64
    }
}

/// `pow256(n)` as a machine integer, for `n` at most eight.
pub fn pow256_u128(n: usize) -> (r: u128)
    requires
        n <= 8,
    ensures
        r == pow256(n as nat),
{
    proof {
        lemma_pow256_values();
    }
    let table: [u128; 9] = [
        1,
        0x100,
        0x1_0000,
        0x100_0000,
        0x1_0000_0000,
        0x100_0000_0000,
        0x1_0000_0000_0000,
        0x100_0000_0000_0000,
        0x1_0000_0000_0000_0000,
    ];
    table[n]
}

/// Reads the two-byte little-endian field of `b` at `off`.
pub fn read_u16(b: &[u8], off: usize) -> (r: u16)
    requires
        off + 2 <= b@.len(),
    ensures
        r == le_nat(b@, off as int, 2),
{
    proof {
        lemma_pow256_values();
        lemma_le_nat_bound(b@, off as int, 2);
    }
    read_le(b, off, 2) as u16
}

/// Reads the four-byte little-endian field of `b` at `off`.
pub fn read_u32(b: &[u8], off: usize) -> (r: u32)
    requires
        off + 4 <= b@.len(),
    ensures
        r == le_nat(b@, off as int, 4),
{
    proof {
        lemma_pow256_values();
        lemma_le_nat_bound(b@, off as int, 4);
    }
    read_le(b, off, 4) as u32
}

/// Reads the eight-byte little-endian field of `b` at `off`.
pub fn read_u64(b: &[u8], off: usize) -> (r: u64)
    requires
        off + 8 <= b@.len(),
    ensures
        r == le_nat(b@, off as int, 8),
{
    read_le(b, off, 8)
}

} // verus!
