//! The update-sequence fixup of MFT records.
//!
//! NTFS tear protection replaces the last two bytes of every 512-byte
//! sector of a record with a check value, keeping the displaced bytes in
//! the update-sequence array (USA).  Decoding must put them back.

use vstd::prelude::*;
use crate::bytes::le_nat;
use crate::errors::Error;

verus! {

/// Byte offset of the update-sequence array, from the record header.
pub open spec fn spec_usa_offset(b: Seq<u8>) -> int {
    le_nat(b, 4, 2) as int
}

/// Number of entries of the update-sequence array (check value included),
/// from the record header.
pub open spec fn spec_usa_count(b: Seq<u8>) -> int {
    le_nat(b, 6, 2) as int
}

/// The update-sequence fields describe a record of `b`'s size: the array
/// stays inside the header area of the first sector, and one entry exists
/// for each full 512-byte sector of the buffer.
pub open spec fn usa_wf(b: Seq<u8>) -> bool {
    let off = spec_usa_offset(b);
    let cnt = spec_usa_count(b);
    &&& cnt >= 1
    &&& 8 <= off
    &&& off + 2 * cnt <= 510
    &&& 512 * (cnt - 1) <= b.len()
}

/// The last two bytes of sector `k` of `b` equal the check value.
pub open spec fn check_matches(b: Seq<u8>, k: int) -> bool {
    let off = spec_usa_offset(b);
    b[512 * k - 2] == b[off] && b[512 * k - 1] == b[off + 1]
}

/// Every sector's trailing bytes equal the check value.
pub open spec fn spec_fixup_matches(b: Seq<u8>) -> bool {
    forall|k: int| 1 <= k < spec_usa_count(b) ==> #[trigger] check_matches(b, k)
}

/// Byte `i` of `b` after the fixup of the sectors below `hi`: a sector's
/// trailing byte pair is replaced by that sector's USA entry, every other
/// byte is left alone.
pub open spec fn fixup_byte_upto(b: Seq<u8>, i: int, hi: int) -> u8 {
    let off = spec_usa_offset(b);
    if (i + 2) % 512 == 0 && 1 <= (i + 2) / 512 < hi {
        b[off + 2 * ((i + 2) / 512)]
    } else if (i + 1) % 512 == 0 && 1 <= (i + 1) / 512 < hi {
        b[off + 2 * ((i + 1) / 512) + 1]
    } else {
        b[i]
    }
}

/// Byte `i` of `b` after the full fixup.
pub open spec fn fixup_byte(b: Seq<u8>, i: int) -> u8 {
    fixup_byte_upto(b, i, spec_usa_count(b))
}

/// The whole buffer after the fixup.
pub open spec fn spec_fixed(b: Seq<u8>) -> Seq<u8> {
    Seq::new(b.len(), |i: int| fixup_byte(b, i))
}

/// Applies the update-sequence fixup to a record buffer.
///
/// Returns the repaired buffer; `InvalidRecord` when the header's USA
/// fields do not describe the buffer, `FixupMismatch` when some sector's
/// trailing bytes differ from the check value.
pub fn apply_fixup(b: &Vec<u8>) -> (r: Result<Vec<u8>, Error>)
    requires
        b@.len() >= 512,
    ensures
        match r {
            Ok(f) => usa_wf(b@) && spec_fixup_matches(b@) && f@ == spec_fixed(b@),
            Err(Error::InvalidRecord) => !usa_wf(b@),
            Err(Error::FixupMismatch) => usa_wf(b@) && !spec_fixup_matches(b@),
            Err(_) => false,
        },
{
    let len = b.len();
    let off = crate::bytes::read_u16(b.as_slice(), 4) as usize;
    let cnt = crate::bytes::read_u16(b.as_slice(), 6) as usize;
    if cnt < 1 || off < 8 || off + 2 * cnt > 510 || 512 * (cnt - 1) > len {
        return Err(Error::InvalidRecord);
    }
    assert(usa_wf(b@));
    let mut f: Vec<u8> = Vec::new();
    let mut i: usize = 0;
    while i < len
        invariant
            i <= len == b@.len(),
            f@ == b@.subrange(0, i as int),
        decreases len - i,
    {
        f.push(b[i]);
        proof {
            assert(f@ =~= b@.subrange(0, i + 1));
        }
        i = i + 1;
    }
    assert(f@ =~= b@);
    let mut k: usize = 1;
    while k < cnt
        invariant
            1 <= k <= cnt,
            off == spec_usa_offset(b@),
            cnt == spec_usa_count(b@),
            usa_wf(b@),
            len == b@.len() == f@.len(),
            len >= 512,
            512 * (cnt - 1) <= len,
            forall|j: int| 1 <= j < k ==> #[trigger] check_matches(b@, j),
            forall|i: int|
                0 <= i < len ==> #[trigger] f@[i] == fixup_byte_upto(b@, i, k as int),
        decreases cnt - k,
    {
        proof {
            assert(512 * k <= 512 * (cnt - 1)) by (nonlinear_arith)
                requires
                    k <= cnt - 1,
            ;
        }
        let lo = 512 * k - 2;
        if b[lo] != b[off] || b[lo + 1] != b[off + 1] {
            proof {
                assert(!check_matches(b@, k as int));
            }
            return Err(Error::FixupMismatch);
        }
        f.set(lo, b[off + 2 * k]);
        f.set(lo + 1, b[off + 2 * k + 1]);
        proof {
            lemma_fixup_step(b@, k as int, f@);
        }
        k = k + 1;
    }
    proof {
        assert(f@ =~= spec_fixed(b@));
    }
    Ok(f)
}

/// After repairing sector `k`'s byte pair in a buffer that was fixed up
/// to `k`, the buffer is fixed up to `k + 1`.
proof fn lemma_fixup_step(b: Seq<u8>, k: int, f: Seq<u8>)
    requires
        usa_wf(b),
        1 <= k < spec_usa_count(b),
        f.len() == b.len(),
        forall|i: int|
            0 <= i < b.len() && i != 512 * k - 2 && i != 512 * k - 1 ==> #[trigger] f[i]
                == fixup_byte_upto(b, i, k),
        f[512 * k - 2] == b[spec_usa_offset(b) + 2 * k],
        f[512 * k - 1] == b[spec_usa_offset(b) + 2 * k + 1],
    ensures
        forall|i: int| 0 <= i < b.len() ==> #[trigger] f[i] == fixup_byte_upto(b, i, k + 1),
{
    let cnt = spec_usa_count(b);
    assert(512 * k <= 512 * (cnt - 1)) by (nonlinear_arith)
        requires
            k <= cnt - 1,
    ;
    assert forall|i: int| 0 <= i < b.len() implies #[trigger] f[i] == fixup_byte_upto(
        b,
        i,
        k + 1,
    ) by {
        lemma_sector_index(i, k);
        if i == 512 * k - 2 {
            assert((i + 2) % 512 == 0 && (i + 2) / 512 == k);
        } else if i == 512 * k - 1 {
            assert((i + 1) % 512 == 0 && (i + 1) / 512 == k);
        } else {
            assert(f[i] == fixup_byte_upto(b, i, k));
            assert(fixup_byte_upto(b, i, k) == fixup_byte_upto(b, i, k + 1));
        }
    }
}

/// The byte pair of sector `k` sits exactly at indices `512k - 2` and
/// `512k - 1`.
proof fn lemma_sector_index(i: int, k: int)
    requires
        1 <= k,
    ensures
        (i == 512 * k - 2) <==> ((i + 2) % 512 == 0 && (i + 2) / 512 == k),
        (i == 512 * k - 1) <==> ((i + 1) % 512 == 0 && (i + 1) / 512 == k),
{
    assert((i == 512 * k - 2) <==> ((i + 2) % 512 == 0 && (i + 2) / 512 == k))
        by (nonlinear_arith);
    assert((i == 512 * k - 1) <==> ((i + 1) % 512 == 0 && (i + 1) / 512 == k))
        by (nonlinear_arith);
}

/// The inverse of the fixup: the last two bytes of every sector are
/// overwritten with the check value again.
pub open spec fn spec_unfixed(f: Seq<u8>) -> Seq<u8> {
    let off = spec_usa_offset(f);
    let cnt = spec_usa_count(f);
    Seq::new(
        f.len(),
        |i: int|
            if (i + 2) % 512 == 0 && 1 <= (i + 2) / 512 < cnt {
                f[off]
            } else if (i + 1) % 512 == 0 && 1 <= (i + 1) / 512 < cnt {
                f[off + 1]
            } else {
                f[i]
            },
    )
}

/// The fixup leaves the whole header area of the first sector alone; in
/// particular the USA fields and the array itself read the same before
/// and after.
pub proof fn lemma_fixed_preserves_header(b: Seq<u8>)
    requires
        usa_wf(b),
        b.len() >= 512,
    ensures
        forall|i: int| 0 <= i < 510 ==> #[trigger] spec_fixed(b)[i] == b[i],
        spec_usa_offset(spec_fixed(b)) == spec_usa_offset(b),
        spec_usa_count(spec_fixed(b)) == spec_usa_count(b),
{
    assert forall|i: int| 0 <= i < 510 implies #[trigger] spec_fixed(b)[i] == b[i] by {
        if (i + 2) % 512 == 0 && 1 <= (i + 2) / 512 < spec_usa_count(b) {
            assert(i == 512 * ((i + 2) / 512) - 2) by (nonlinear_arith)
                requires
                    (i + 2) % 512 == 0,
            ;
            assert(false);
        }
        if (i + 1) % 512 == 0 && 1 <= (i + 1) / 512 < spec_usa_count(b) {
            assert(i == 512 * ((i + 1) / 512) - 1) by (nonlinear_arith)
                requires
                    (i + 1) % 512 == 0,
            ;
            assert(false);
        }
    }
    crate::bytes::lemma_le_nat_depends_on_range(spec_fixed(b), b, 4, 2);
    crate::bytes::lemma_le_nat_depends_on_range(spec_fixed(b), b, 6, 2);
}

/// After the fixup, the trailing byte pair of every sector equals that
/// sector's USA entry.
pub proof fn lemma_fixed_check_bytes(b: Seq<u8>)
    requires
        usa_wf(b),
        b.len() >= 512,
    ensures
        forall|k: int|
            1 <= k < spec_usa_count(b) ==> #[trigger] spec_fixed(b)[512 * k - 2] == b[
                spec_usa_offset(b) + 2 * k
            ] && spec_fixed(b)[512 * k - 1] == b[spec_usa_offset(b) + 2 * k + 1],
{
    let cnt = spec_usa_count(b);
    assert forall|k: int| 1 <= k < cnt implies #[trigger] spec_fixed(b)[512 * k - 2] == b[
        spec_usa_offset(b) + 2 * k
    ] && spec_fixed(b)[512 * k - 1] == b[spec_usa_offset(b) + 2 * k + 1] by {
        assert(512 * k <= 512 * (cnt - 1)) by (nonlinear_arith)
            requires
                k <= cnt - 1,
        ;
        lemma_sector_index(512 * k - 2, k);
        lemma_sector_index(512 * k - 1, k);
    }
}

/// The round trip of the fixup: on a record whose sectors all carried the
/// check value, re-writing the check value over the repaired byte pairs
/// recovers the original buffer byte for byte.
pub proof fn lemma_fixup_round_trip(b: Seq<u8>)
    requires
        usa_wf(b),
        spec_fixup_matches(b),
        b.len() >= 512,
    ensures
        spec_unfixed(spec_fixed(b)) == b,
{
    let f = spec_fixed(b);
    let off = spec_usa_offset(b);
    let cnt = spec_usa_count(b);
    lemma_fixed_preserves_header(b);
    assert forall|i: int| 0 <= i < b.len() implies #[trigger] spec_unfixed(f)[i] == b[i] by {
        if (i + 2) % 512 == 0 && 1 <= (i + 2) / 512 < cnt {
            let k = (i + 2) / 512;
            assert(i == 512 * k - 2) by (nonlinear_arith)
                requires
                    (i + 2) % 512 == 0,
                    k == (i + 2) / 512,
            ;
            assert(check_matches(b, k));
            assert(spec_unfixed(f)[i] == f[off]);
            assert(f[off] == b[off]);
        } else if (i + 1) % 512 == 0 && 1 <= (i + 1) / 512 < cnt {
            let k = (i + 1) / 512;
            assert(i == 512 * k - 1) by (nonlinear_arith)
                requires
                    (i + 1) % 512 == 0,
                    k == (i + 1) / 512,
            ;
            assert(check_matches(b, k));
            assert(spec_unfixed(f)[i] == f[off + 1]);
            assert(f[off + 1] == b[off + 1]);
        } else {
            assert(spec_unfixed(f)[i] == f[i]);
            assert(f[i] == fixup_byte_upto(b, i, cnt));
            lemma_sector_index(i, 1);
            assert(f[i] == b[i]);
        }
    }
    assert(spec_unfixed(spec_fixed(b)) =~= b);
}

} // verus!
