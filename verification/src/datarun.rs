//! Decoding of NTFS data runs: the extent list of a non-resident attribute.
//!
//! A run list is a string of variable-length records, terminated by a zero
//! header byte.  The header's low nibble gives the byte count of the
//! length field, the high nibble the byte count of the offset field; the
//! offset is a signed delta from the previous run's cluster number, and a
//! missing offset marks a sparse run.

use vstd::prelude::*;
use crate::bytes::{le_nat, le_int, read_le, read_le_signed, lemma_pow256_values, lemma_le_nat_bound};
use crate::errors::Error;

verus! {

/// One decoded data run: a cluster count and the signed delta of its
/// starting cluster from the previous run's; `None` marks a sparse run.
#[derive(Debug, Clone, PartialEq, Eq)]
pub struct DataRunEntry {
    pub cluster_count: u64,
    pub lcn_delta: Option<i64>,
}

/// Byte count of the length field of the run headed at `off`.
pub open spec fn run_len_bytes(b: Seq<u8>, off: int) -> int {
    (b[off] % 16) as int
}

/// Byte count of the offset field of the run headed at `off`.
pub open spec fn run_off_bytes(b: Seq<u8>, off: int) -> int {
    (b[off] / 16) as int
}

/// Offset of the run after the one headed at `off`.
pub open spec fn next_run_off(b: Seq<u8>, off: int) -> int {
    off + 1 + run_len_bytes(b, off) + run_off_bytes(b, off)
}

/// The run headed at `off` has a non-empty length field and fits before `end`.
pub open spec fn valid_run_at(b: Seq<u8>, off: int, end: int) -> bool {
    &&& off < end <= b.len()
    &&& b[off] != 0
    &&& 1 <= run_len_bytes(b, off) <= 8
    &&& run_off_bytes(b, off) <= 8
    &&& next_run_off(b, off) <= end
}

/// The run list starting at `off` is well formed up to `end`: a chain of
/// valid runs reaching a zero terminator before `end`.
pub open spec fn runs_wf_from(b: Seq<u8>, off: int, end: int) -> bool
    decreases end - off,
{
    if !(0 <= off < end && end <= b.len()) {
        false
    } else if b[off] == 0 {
        true
    } else if valid_run_at(b, off, end) {
        runs_wf_from(b, next_run_off(b, off), end)
    } else {
        false
    }
}

/// The number of runs in the list starting at `off`.
pub open spec fn runs_count_from(b: Seq<u8>, off: int, end: int) -> nat
    decreases end - off,
{
    if !(0 <= off < end && end <= b.len()) {
        0
    } else if b[off] == 0 {
        0
    } else if valid_run_at(b, off, end) {
        1 + runs_count_from(b, next_run_off(b, off), end)
    } else {
        0
    }
}

/// Offset of the `j`-th run of the list starting at `off`.
pub open spec fn run_off(b: Seq<u8>, off: int, j: int) -> int
    decreases j,
{
    if j <= 0 {
        off
    } else {
        run_off(b, next_run_off(b, off), j - 1)
    }
}

/// Advancing the start of the list by one run shifts every index by one.
pub proof fn lemma_run_off_snoc(b: Seq<u8>, off: int, j: int)
    requires
        j >= 0,
    ensures
        run_off(b, off, j + 1) == next_run_off(b, run_off(b, off, j)),
    decreases j,
{
    if j == 0 {
        assert(run_off(b, off, 1) == run_off(b, next_run_off(b, off), 0));
    } else {
        lemma_run_off_snoc(b, next_run_off(b, off), j - 1);
        assert(run_off(b, off, j + 1) == run_off(b, next_run_off(b, off), j));
        assert(run_off(b, off, j) == run_off(b, next_run_off(b, off), j - 1));
    }
}

/// The entry `r` decodes the run headed at `off`.
pub open spec fn run_matches(r: DataRunEntry, b: Seq<u8>, off: int) -> bool {
    let l = run_len_bytes(b, off);
    let o = run_off_bytes(b, off);
    &&& r.cluster_count == le_nat(b, off + 1, l as nat)
    &&& (if o == 0 {
        r.lcn_delta is None
    } else {
        r.lcn_delta == Some(le_int(b, off + 1 + l, o as nat) as i64)
    })
}

/// Decodes the run list of `b` between `off` and `end`.
///
/// Returns the runs in order; `None` when the list is not well formed.
pub fn parse_runs(b: &Vec<u8>, off: usize, end: usize) -> (r: Option<Vec<DataRunEntry>>)
    requires
        off < end <= b@.len(),
    ensures
        match r {
            Some(v) => {
                &&& runs_wf_from(b@, off as int, end as int)
                &&& v@.len() == runs_count_from(b@, off as int, end as int)
                &&& forall|j: int|
                    0 <= j < v@.len() ==> #[trigger] run_matches(
                        v@[j],
                        b@,
                        run_off(b@, off as int, j),
                    )
            },
            None => !runs_wf_from(b@, off as int, end as int),
        },
{
    let mut runs: Vec<DataRunEntry> = Vec::new();
    let mut cur: usize = off;
    loop
        invariant
            off <= cur < end <= b@.len(),
            cur == run_off(b@, off as int, runs@.len() as int),
            runs_wf_from(b@, off as int, end as int) == runs_wf_from(b@, cur as int, end as int),
            runs_count_from(b@, off as int, end as int) == runs@.len() + runs_count_from(
                b@,
                cur as int,
                end as int,
            ),
            forall|j: int|
                0 <= j < runs@.len() ==> #[trigger] run_matches(
                    runs@[j],
                    b@,
                    run_off(b@, off as int, j),
                ),
        decreases end - cur,
    {
        let h: u8 = b[cur];
        if h == 0 {
            return Some(runs);
        }
        let l: usize = (h % 16) as usize;
        let o: usize = (h / 16) as usize;
        let room: usize = end - cur;
        if l < 1 || l > 8 || o > 8 || 1 + l + o > room {
            assert(!valid_run_at(b@, cur as int, end as int));
            return None;
        }
        proof {
            lemma_pow256_values();
            lemma_le_nat_bound(b@, cur + 1, l as nat);
        }
        let count: u64 = read_le(b.as_slice(), cur + 1, l);
        let delta: Option<i64> = if o == 0 {
            None
        } else {
            Some(read_le_signed(b.as_slice(), cur + 1 + l, o))
        };
        let entry = DataRunEntry { cluster_count: count, lcn_delta: delta };
        assert(run_matches(entry, b@, cur as int));
        let ghost prev_len = runs@.len() as int;
        runs.push(entry);
        proof {
            lemma_run_off_snoc(b@, off as int, prev_len);
        }
        let next: usize = cur + 1 + l + o;
        if next >= end {
            // A well-formed list still needs its terminator before `end`.
            assert(!runs_wf_from(b@, next as int, end as int));
            return None;
        }
        cur = next;
    }
}

/// Total cluster count of a run sequence.
pub open spec fn total_clusters(runs: Seq<DataRunEntry>) -> int
    decreases runs.len(),
{
    if runs.len() == 0 {
        0
    } else {
        runs[0].cluster_count + total_clusters(runs.skip(1))
    }
}

/// Computes the total cluster count of a run list, or `None` when it
/// does not fit in 64 bits.
pub fn sum_clusters(runs: &Vec<DataRunEntry>) -> (r: Option<u64>)
    ensures
        match r {
            Some(s) => s == total_clusters(runs@),
            None => total_clusters(runs@) > u64::MAX,
        },
{
    let mut acc: u64 = 0;
    let mut i: usize = 0;
    assert(runs@.skip(0) =~= runs@);
    while i < runs.len()
        invariant
            i <= runs@.len(),
            acc + total_clusters(runs@.skip(i as int)) == total_clusters(runs@),
        decreases runs@.len() - i,
    {
        proof {
            assert(runs@.skip(i as int)[0] == runs@[i as int]);
            assert(runs@.skip(i as int).skip(1) =~= runs@.skip(i + 1));
            lemma_total_clusters_nonneg(runs@.skip(i + 1));
        }
        let c: u64 = runs[i].cluster_count;
        if acc > u64::MAX - c {
            return None;
        }
        acc = acc + c;
        i = i + 1;
    }
    proof {
        assert(runs@.skip(runs@.len() as int) =~= Seq::<DataRunEntry>::empty());
    }
    Some(acc)
}

/// A run sequence's total cluster count is never negative.
pub proof fn lemma_total_clusters_nonneg(runs: Seq<DataRunEntry>)
    ensures
        total_clusters(runs) >= 0,
    decreases runs.len(),
{
    if runs.len() > 0 {
        lemma_total_clusters_nonneg(runs.skip(1));
    }
}

} // verus!
