//! Reconstruction of a file's unnamed data stream.
//!
//! A resident stream is the record's embedded payload verbatim.  A
//! non-resident stream is rebuilt extent by extent: the run list resolves
//! to absolute cluster extents, the caller reads each non-sparse extent
//! from the medium, sparse extents become zeros, and the concatenation is
//! truncated to the stream's real size.

use vstd::prelude::*;
use crate::datarun::{DataRunEntry, total_clusters, sum_clusters, lemma_total_clusters_nonneg};
use crate::errors::Error;

verus! {

/// One resolved extent: an absolute cluster range, or a sparse stretch.
#[derive(Debug, Clone, PartialEq, Eq)]
pub struct Extent {
    /// Absolute starting cluster; zero for a sparse extent.
    pub lcn: u64,
    /// Length in clusters.
    pub clusters: u64,
    /// True when the extent has no clusters on disk and reads as zeros.
    pub sparse: bool,
}

/// The delta a run contributes to the running cluster number.
pub open spec fn delta_of(r: DataRunEntry) -> int {
    match r.lcn_delta {
        Some(d) => d as int,
        None => 0,
    }
}

/// The running cluster number after the deltas of runs `0..=j`.
pub open spec fn lcn_at(runs: Seq<DataRunEntry>, j: int) -> int
    decreases j + 1,
{
    if j < 0 {
        0
    } else {
        lcn_at(runs, j - 1) + delta_of(runs[j])
    }
}

/// Every prefix of the run list resolves to a representable,
/// non-negative cluster number.
pub open spec fn lcns_ok(runs: Seq<DataRunEntry>) -> bool {
    forall|j: int| 0 <= j < runs.len() ==> 0 <= #[trigger] lcn_at(runs, j) <= i64::MAX
}

/// The extent `e` resolves run `j` of `runs`.
pub open spec fn extent_matches(e: Extent, runs: Seq<DataRunEntry>, j: int) -> bool {
    &&& e.clusters == runs[j].cluster_count
    &&& e.sparse == (runs[j].lcn_delta is None)
    &&& (!e.sparse ==> e.lcn == lcn_at(runs, j))
    &&& (e.sparse ==> e.lcn == 0)
}

/// Resolves a run list into absolute extents by accumulating the signed
/// deltas; a sparse run leaves the running cluster number unchanged.
///
/// `InvalidRecord` reports a list whose running cluster number leaves
/// `0..=i64::MAX` at some run.
pub fn resolve_runs(runs: &Vec<DataRunEntry>) -> (r: Result<Vec<Extent>, Error>)
    ensures
        match r {
            Ok(v) => {
                &&& lcns_ok(runs@)
                &&& v@.len() == runs@.len()
                &&& forall|j: int|
                    0 <= j < v@.len() ==> #[trigger] extent_matches(v@[j], runs@, j)
            },
            Err(Error::InvalidRecord) => !lcns_ok(runs@),
            Err(_) => false,
        },
{
    let mut extents: Vec<Extent> = Vec::new();
    let mut current: i64 = 0;
    let mut i: usize = 0;
    while i < runs.len()
        invariant
            i <= runs@.len(),
            extents@.len() == i,
            current == lcn_at(runs@, i - 1),
            current >= 0,
            forall|j: int| 0 <= j < i ==> 0 <= #[trigger] lcn_at(runs@, j) <= i64::MAX,
            forall|j: int| 0 <= j < i ==> #[trigger] extent_matches(extents@[j], runs@, j),
        decreases runs@.len() - i,
    {
        let run = &runs[i];
        match run.lcn_delta {
            Some(d) => {
                let next: i128 = current as i128 + d as i128;
                if next < 0 || next > i64::MAX as i128 {
                    assert(lcn_at(runs@, i as int) == next);
                    return Err(Error::InvalidRecord);
                }
                current = next as i64;
                extents.push(
                    Extent { lcn: current as u64, clusters: run.cluster_count, sparse: false },
                );
            },
            None => {
                extents.push(Extent { lcn: 0, clusters: run.cluster_count, sparse: true });
            },
        }
        assert(lcn_at(runs@, i as int) == lcn_at(runs@, i - 1) + delta_of(runs@[i as int]));
        i = i + 1;
    }
    Ok(extents)
}

/// Total length in bytes of a run list's clusters.
pub open spec fn runs_total_bytes(runs: Seq<DataRunEntry>, cluster_size: nat) -> int {
    total_clusters(runs) * cluster_size
}

/// Decides whether a non-resident attribute's run list covers exactly
/// its allocated size: the invariant every well-formed non-resident
/// attribute obeys.
pub fn runs_match_allocation(
    runs: &Vec<DataRunEntry>,
    cluster_size: u64,
    allocated_size: u64,
) -> (r: bool)
    requires
        cluster_size > 0,
    ensures
        r == (runs_total_bytes(runs@, cluster_size as nat) == allocated_size),
{
    let total = match sum_clusters(runs) {
        Some(t) => t,
        None => {
            proof {
                let t = total_clusters(runs@);
                assert(t * cluster_size >= t) by (nonlinear_arith)
                    requires
                        cluster_size >= 1,
                        t >= 0,
                ;
            }
            return false;
        },
    };
    if total > u64::MAX / cluster_size {
        proof {
            let cs = cluster_size as int;
            assert(total * cs > (u64::MAX as int / cs) * cs + (cs - 1)) by (nonlinear_arith)
                requires
                    cs > 0,
                    total > u64::MAX as int / cs,
            ;
            assert((u64::MAX as int / cs) * cs + (cs - 1) >= u64::MAX) by (nonlinear_arith)
                requires
                    cs > 0,
            ;
        }
        return false;
    }
    proof {
        let cs = cluster_size as int;
        assert(total * cs <= (u64::MAX as int / cs) * cs) by (nonlinear_arith)
            requires
                cs > 0,
                0 <= total <= u64::MAX as int / cs,
        ;
        assert((u64::MAX as int / cs) * cs <= u64::MAX) by (nonlinear_arith)
            requires
                cs > 0,
        ;
    }
    total * cluster_size == allocated_size
}

/// The well-formedness of a non-resident data stream against a cluster
/// size: its runs cover exactly the allocated size, and the real size
/// does not exceed it.
pub open spec fn non_resident_wf(
    runs: Seq<DataRunEntry>,
    cluster_size: nat,
    allocated_size: u64,
    real_size: u64,
) -> bool {
    &&& runs_total_bytes(runs, cluster_size) == allocated_size
    &&& real_size <= allocated_size
}

/// How a selected record's data stream is to be materialised: a
/// resident stream is already in hand; a non-resident one names the
/// extents the caller must read before assembling.
#[derive(Debug, Clone, PartialEq, Eq)]
pub enum DataPlan {
    Resident(Vec<u8>),
    NonResident { extents: Vec<Extent>, real_size: u64 },
}

/// One positioned read of the medium, in bytes; a sparse range is not
/// read at all and contributes zeros.
#[derive(Debug, Clone, Copy, PartialEq, Eq, Structural)]
pub struct ReadRange {
    pub offset: u64,
    pub length: u64,
    pub sparse: bool,
}

/// The byte range extent `j` occupies on the medium.
pub open spec fn range_matches(r: ReadRange, e: Extent, cluster_size: nat) -> bool {
    &&& r.sparse == e.sparse
    &&& r.length == e.clusters * cluster_size
    &&& r.offset == (if e.sparse {
        0int
    } else {
        e.lcn * cluster_size
    })
}

/// Turns resolved extents into the positioned byte reads the caller must
/// issue: each extent starts at its cluster number times the cluster
/// size and is as many bytes long as it has clusters.
///
/// `InvalidRecord` reports an extent whose byte offset or length cannot
/// be represented in 64 bits.
pub fn extent_read_plan(extents: &Vec<Extent>, cluster_size: u64) -> (r: Result<
    Vec<ReadRange>,
    Error,
>)
    ensures
        match r {
            Ok(v) => {
                &&& v@.len() == extents@.len()
                &&& forall|j: int|
                    0 <= j < v@.len() ==> #[trigger] range_matches(
                        v@[j],
                        extents@[j],
                        cluster_size as nat,
                    )
            },
            Err(Error::InvalidRecord) => exists|j: int|
                0 <= j < extents@.len() && (#[trigger] extents@[j].clusters * cluster_size
                    > u64::MAX || (!extents@[j].sparse && extents@[j].lcn * cluster_size
                    > u64::MAX)),
            Err(_) => false,
        },
{
    let mut out: Vec<ReadRange> = Vec::new();
    let mut i: usize = 0;
    while i < extents.len()
        invariant
            i <= extents@.len(),
            out@.len() == i,
            forall|j: int|
                0 <= j < i ==> #[trigger] range_matches(out@[j], extents@[j], cluster_size as nat),
        decreases extents@.len() - i,
    {
        let e = &extents[i];
        proof {
            assert(e.clusters * cluster_size <= 0xFFFF_FFFF_FFFF_FFFF * 0xFFFF_FFFF_FFFF_FFFF)
                by (nonlinear_arith)
                requires
                    e.clusters <= 0xFFFF_FFFF_FFFF_FFFF,
                    cluster_size <= 0xFFFF_FFFF_FFFF_FFFF,
            ;
        }
        let len_wide: u128 = (e.clusters as u128) * (cluster_size as u128);
        if len_wide > u64::MAX as u128 {
            return Err(Error::InvalidRecord);
        }
        let length: u64 = len_wide as u64;
        if e.sparse {
            out.push(ReadRange { offset: 0, length, sparse: true });
        } else {
            proof {
                assert(e.lcn * cluster_size <= 0xFFFF_FFFF_FFFF_FFFF * 0xFFFF_FFFF_FFFF_FFFF)
                    by (nonlinear_arith)
                    requires
                        e.lcn <= 0xFFFF_FFFF_FFFF_FFFF,
                        cluster_size <= 0xFFFF_FFFF_FFFF_FFFF,
                ;
            }
            let off_wide: u128 = (e.lcn as u128) * (cluster_size as u128);
            if off_wide > u64::MAX as u128 {
                return Err(Error::InvalidRecord);
            }
            out.push(ReadRange { offset: off_wide as u64, length, sparse: false });
        }
        i = i + 1;
    }
    Ok(out)
}

/// A sequence of `n` zero bytes.
pub open spec fn zero_bytes(n: nat) -> Seq<u8> {
    Seq::new(n, |i: int| 0u8)
}

/// The bytes one extent contributes to the stream: its chunk as read
/// from the medium, or zeros for a sparse extent.
pub open spec fn extent_bytes(e: Extent, chunk: Seq<u8>, cluster_size: nat) -> Seq<u8> {
    if e.sparse {
        zero_bytes((e.clusters * cluster_size) as nat)
    } else {
        chunk
    }
}

/// The whole stream before truncation: the extents' bytes in order.
pub open spec fn full_stream(extents: Seq<Extent>, chunks: Seq<Seq<u8>>, cluster_size: nat) -> Seq<
    u8,
>
    decreases extents.len(),
{
    if extents.len() == 0 {
        Seq::empty()
    } else {
        extent_bytes(extents[0], chunks[0], cluster_size) + full_stream(
            extents.skip(1),
            chunks.skip(1),
            cluster_size,
        )
    }
}

/// Each chunk is sized to its extent: empty for a sparse extent, one
/// cluster-size batch per cluster otherwise.
pub open spec fn chunks_match(extents: Seq<Extent>, chunks: Seq<Seq<u8>>, cluster_size: nat) -> bool {
    &&& chunks.len() == extents.len()
    &&& forall|j: int|
        0 <= j < extents.len() ==> #[trigger] chunks[j].len() == (if extents[j].sparse {
            0int
        } else {
            extents[j].clusters * cluster_size
        })
}

/// Byte length the extent occupies in the stream.
pub open spec fn extent_len_bytes(e: Extent, cluster_size: nat) -> int {
    e.clusters * cluster_size
}

/// Total byte length of a sequence of extents.
pub open spec fn extents_total_bytes(extents: Seq<Extent>, cluster_size: nat) -> int
    decreases extents.len(),
{
    if extents.len() == 0 {
        0
    } else {
        extent_len_bytes(extents[0], cluster_size) + extents_total_bytes(
            extents.skip(1),
            cluster_size,
        )
    }
}

/// The assembled stream is exactly as long as the extents say.
pub proof fn lemma_full_stream_len(extents: Seq<Extent>, chunks: Seq<Seq<u8>>, cluster_size: nat)
    requires
        chunks_match(extents, chunks, cluster_size),
    ensures
        full_stream(extents, chunks, cluster_size).len() == extents_total_bytes(
            extents,
            cluster_size,
        ),
        extents_total_bytes(extents, cluster_size) >= 0,
    decreases extents.len(),
{
    if extents.len() > 0 {
        assert(chunks_match(extents.skip(1), chunks.skip(1), cluster_size)) by {
            assert(forall|j: int|
                0 <= j < extents.len() - 1 ==> extents.skip(1)[j] == extents[j + 1]
                    && chunks.skip(1)[j] == chunks[j + 1]);
        }
        lemma_full_stream_len(extents.skip(1), chunks.skip(1), cluster_size);
        assert(extents[0].clusters * cluster_size >= 0) by (nonlinear_arith);
    }
}

/// Assembles a non-resident stream from its extents and the chunks the
/// caller read for them, truncated to `real_size`.
pub fn assemble_stream(
    extents: &Vec<Extent>,
    chunks: &Vec<Vec<u8>>,
    cluster_size: u64,
    real_size: u64,
) -> (r: Vec<u8>)
    requires
        chunks_match(extents@, chunks.deep_view(), cluster_size as nat),
        real_size <= extents_total_bytes(extents@, cluster_size as nat),
        extents_total_bytes(extents@, cluster_size as nat) <= usize::MAX,
    ensures
        r@.len() == real_size,
        r@ == full_stream(extents@, chunks.deep_view(), cluster_size as nat).take(
            real_size as int,
        ),
{
    let ghost cs = cluster_size as nat;
    let ghost dchunks = chunks.deep_view();
    let ghost all = full_stream(extents@, dchunks, cs);
    proof {
        lemma_full_stream_len(extents@, dchunks, cs);
    }
    let mut out: Vec<u8> = Vec::new();
    let mut i: usize = 0;
    while i < extents.len()
        invariant
            i <= extents@.len(),
            chunks_match(extents@, dchunks, cs),
            dchunks == chunks.deep_view(),
            cs == cluster_size as nat,
            extents_total_bytes(extents@, cs) <= usize::MAX,
            all == full_stream(extents@, dchunks, cs),
            all.len() == extents_total_bytes(extents@, cs),
            out@ == full_stream(extents@.take(i as int), dchunks.take(i as int), cs),
            out@.len() == extents_total_bytes(extents@.take(i as int), cs),
        decreases extents@.len() - i,
    {
        proof {
            lemma_prefix_step(extents@, dchunks, cs, i as int);
            lemma_total_prefix_bound(extents@, cs, i as int);
            lemma_skip_total_step(extents@, cs, i as int);
            lemma_extents_total_nonneg(extents@.skip(i + 1), cs);
            assert(extent_len_bytes(extents@[i as int], cs) <= usize::MAX);
        }
        let ghost prefix = out@;
        let sparse: bool = extents[i].sparse;
        let clusters: u64 = extents[i].clusters;
        if sparse {
            let total: u64 = clusters * cluster_size;
            let count: usize = total as usize;
            let mut z: usize = 0;
            while z < count
                invariant
                    z <= count,
                    out@ == prefix + zero_bytes(z as nat),
                decreases count - z,
            {
                out.push(0u8);
                proof {
                    assert(out@ =~= prefix + zero_bytes((z + 1) as nat));
                }
                z = z + 1;
            }
            proof {
                assert(zero_bytes(count as nat) =~= extent_bytes(
                    extents@[i as int],
                    dchunks[i as int],
                    cs,
                ));
            }
        } else {
            let chunk: &Vec<u8> = &chunks[i];
            proof {
                assert(chunk@ == dchunks[i as int]);
            }
            let clen: usize = chunk.len();
            let mut z: usize = 0;
            while z < clen
                invariant
                    z <= clen == chunk@.len(),
                    chunk@ == dchunks[i as int],
                    out@ == prefix + chunk@.take(z as int),
                decreases clen - z,
            {
                out.push(chunk[z]);
                proof {
                    assert(out@ =~= prefix + chunk@.take(z + 1));
                }
                z = z + 1;
            }
            proof {
                assert(chunk@.take(clen as int) =~= chunk@);
                assert(chunk@ == extent_bytes(extents@[i as int], dchunks[i as int], cs));
            }
        }
        i = i + 1;
    }
    proof {
        assert(extents@.take(extents@.len() as int) =~= extents@);
        assert(dchunks.take(extents@.len() as int) =~= dchunks);
    }
    out.truncate(real_size as usize);
    out
}

/// Prefix step: appending extent `i`'s bytes extends the assembled prefix.
proof fn lemma_prefix_step(extents: Seq<Extent>, chunks: Seq<Seq<u8>>, cluster_size: nat, i: int)
    requires
        chunks.len() == extents.len(),
        0 <= i < extents.len(),
    ensures
        full_stream(extents.take(i + 1), chunks.take(i + 1), cluster_size) == full_stream(
            extents.take(i),
            chunks.take(i),
            cluster_size,
        ) + extent_bytes(extents[i], chunks[i], cluster_size),
        extents_total_bytes(extents.take(i + 1), cluster_size) == extents_total_bytes(
            extents.take(i),
            cluster_size,
        ) + extent_len_bytes(extents[i], cluster_size),
    decreases i,
{
    if i == 0 {
        assert(extents.take(1).skip(1) =~= extents.take(0));
        assert(chunks.take(1).skip(1) =~= chunks.take(0));
        assert(extents.take(0).len() == 0);
        assert(full_stream(extents.take(1), chunks.take(1), cluster_size) == extent_bytes(
            extents[0],
            chunks[0],
            cluster_size,
        ) + full_stream(extents.take(0), chunks.take(0), cluster_size));
        assert(full_stream(extents.take(0), chunks.take(0), cluster_size) =~= Seq::<u8>::empty());
        assert(full_stream(extents.take(1), chunks.take(1), cluster_size) =~= Seq::<
            u8,
        >::empty() + extent_bytes(extents[0], chunks[0], cluster_size));
        assert(Seq::<u8>::empty() + extent_bytes(extents[0], chunks[0], cluster_size)
            =~= extent_bytes(extents[0], chunks[0], cluster_size));
    } else {
        lemma_prefix_step(extents.skip(1), chunks.skip(1), cluster_size, i - 1);
        assert(extents.take(i + 1).skip(1) =~= extents.skip(1).take(i));
        assert(chunks.take(i + 1).skip(1) =~= chunks.skip(1).take(i));
        assert(extents.take(i).skip(1) =~= extents.skip(1).take(i - 1));
        assert(chunks.take(i).skip(1) =~= chunks.skip(1).take(i - 1));
        assert(extents.skip(1)[i - 1] == extents[i]);
        assert(chunks.skip(1)[i - 1] == chunks[i]);
        assert(extents.take(i + 1)[0] == extents[0]);
        assert(chunks.take(i + 1)[0] == chunks[0]);
        assert(extents.take(i)[0] == extents[0]);
        assert(chunks.take(i)[0] == chunks[0]);
        assert(full_stream(extents.take(i), chunks.take(i), cluster_size) + extent_bytes(
            extents[i],
            chunks[i],
            cluster_size,
        ) =~= extent_bytes(extents[0], chunks[0], cluster_size) + (full_stream(
            extents.skip(1).take(i - 1),
            chunks.skip(1).take(i - 1),
            cluster_size,
        ) + extent_bytes(extents.skip(1)[i - 1], chunks.skip(1)[i - 1], cluster_size)));
    }
}

/// A prefix never occupies more bytes than the whole.
proof fn lemma_total_prefix_bound(extents: Seq<Extent>, cluster_size: nat, i: int)
    requires
        0 <= i <= extents.len(),
    ensures
        extents_total_bytes(extents.take(i), cluster_size) + extents_total_bytes(
            extents.skip(i),
            cluster_size,
        ) == extents_total_bytes(extents, cluster_size),
        extents_total_bytes(extents.skip(i), cluster_size) >= 0,
        forall|j: int|
            0 <= j < extents.len() ==> #[trigger] extent_len_bytes(extents[j], cluster_size) >= 0,
    decreases i,
{
    assert forall|j: int|
        0 <= j < extents.len() implies #[trigger] extent_len_bytes(extents[j], cluster_size)
        >= 0 by {
        assert(extents[j].clusters * cluster_size >= 0) by (nonlinear_arith);
    }
    if i == 0 {
        assert(extents.take(0).len() == 0);
        assert(extents.skip(0) =~= extents);
        lemma_extents_total_nonneg(extents, cluster_size);
    } else {
        lemma_total_prefix_bound(extents, cluster_size, i - 1);
        lemma_prefix_total_step(extents, cluster_size, i - 1);
        lemma_skip_total_step(extents, cluster_size, i - 1);
        lemma_extents_total_nonneg(extents.skip(i), cluster_size);
    }
}

/// Totals are never negative.
proof fn lemma_extents_total_nonneg(extents: Seq<Extent>, cluster_size: nat)
    ensures
        extents_total_bytes(extents, cluster_size) >= 0,
    decreases extents.len(),
{
    if extents.len() > 0 {
        lemma_extents_total_nonneg(extents.skip(1), cluster_size);
        assert(extents[0].clusters * cluster_size >= 0) by (nonlinear_arith);
    }
}

/// Extending a prefix by one extent adds that extent's bytes.
proof fn lemma_prefix_total_step(extents: Seq<Extent>, cluster_size: nat, i: int)
    requires
        0 <= i < extents.len(),
    ensures
        extents_total_bytes(extents.take(i + 1), cluster_size) == extents_total_bytes(
            extents.take(i),
            cluster_size,
        ) + extent_len_bytes(extents[i], cluster_size),
    decreases i,
{
    if i == 0 {
        assert(extents.take(1).skip(1) =~= extents.take(0));
        assert(extents.take(0).len() == 0);
        assert(extents.take(1)[0] == extents[0]);
    } else {
        lemma_prefix_total_step(extents.skip(1), cluster_size, i - 1);
        assert(extents.take(i + 1).skip(1) =~= extents.skip(1).take(i));
        assert(extents.take(i).skip(1) =~= extents.skip(1).take(i - 1));
        assert(extents.skip(1)[i - 1] == extents[i]);
        assert(extents.take(i + 1)[0] == extents[0]);
        assert(extents.take(i)[0] == extents[0]);
    }
}

/// The bytes an extent contributes are as long as the extent itself.
proof fn lemma_extent_bytes_len(extents: Seq<Extent>, chunks: Seq<Seq<u8>>, cluster_size: nat, j: int)
    requires
        chunks_match(extents, chunks, cluster_size),
        0 <= j < extents.len(),
    ensures
        extent_bytes(extents[j], chunks[j], cluster_size).len() == extent_len_bytes(
            extents[j],
            cluster_size,
        ),
{
    assert(extents[j].clusters * cluster_size >= 0) by (nonlinear_arith);
}

/// Where extent `j`'s bytes stand in the assembled stream: the stream,
/// from extent `j`'s starting offset on, reads that extent's bytes.
pub proof fn lemma_stream_index(extents: Seq<Extent>, chunks: Seq<Seq<u8>>, cluster_size: nat, j: int)
    requires
        chunks_match(extents, chunks, cluster_size),
        0 <= j < extents.len(),
    ensures
        forall|i: int|
            0 <= i < extent_len_bytes(extents[j], cluster_size) ==> full_stream(
                extents,
                chunks,
                cluster_size,
            )[extents_total_bytes(extents.take(j), cluster_size) + i] == #[trigger] extent_bytes(
                extents[j],
                chunks[j],
                cluster_size,
            )[i],
    decreases j,
{
    let stream = full_stream(extents, chunks, cluster_size);
    let first = extent_bytes(extents[0], chunks[0], cluster_size);
    let rest = full_stream(extents.skip(1), chunks.skip(1), cluster_size);
    lemma_extent_bytes_len(extents, chunks, cluster_size, 0);
    assert(chunks_match(extents.skip(1), chunks.skip(1), cluster_size)) by {
        assert(forall|x: int|
            0 <= x < extents.len() - 1 ==> extents.skip(1)[x] == extents[x + 1] && chunks.skip(
                1,
            )[x] == chunks[x + 1]);
    }
    if j == 0 {
        assert(extents.take(0).len() == 0);
        assert forall|i: int| 0 <= i < extent_len_bytes(extents[0], cluster_size) implies stream[
            extents_total_bytes(extents.take(0), cluster_size) + i
        ] == #[trigger] extent_bytes(extents[0], chunks[0], cluster_size)[i] by {
            assert(stream == first + rest);
            assert((first + rest)[i] == first[i]);
        }
    } else {
        lemma_stream_index(extents.skip(1), chunks.skip(1), cluster_size, j - 1);
        lemma_extent_bytes_len(extents, chunks, cluster_size, j);
        assert(extents.skip(1)[j - 1] == extents[j]);
        assert(chunks.skip(1)[j - 1] == chunks[j]);
        assert(extents.take(j).skip(1) =~= extents.skip(1).take(j - 1));
        assert(extents.take(j)[0] == extents[0]);
        assert(extents_total_bytes(extents.take(j), cluster_size) == extent_len_bytes(
            extents[0],
            cluster_size,
        ) + extents_total_bytes(extents.skip(1).take(j - 1), cluster_size));
        let off0 = extent_len_bytes(extents[0], cluster_size);
        let offp = extents_total_bytes(extents.skip(1).take(j - 1), cluster_size);
        lemma_extents_total_nonneg(extents.skip(1).take(j - 1), cluster_size);
        lemma_full_stream_len(extents.skip(1), chunks.skip(1), cluster_size);
        lemma_total_prefix_bound(extents.skip(1), cluster_size, j - 1);
        lemma_skip_total_step(extents.skip(1), cluster_size, j - 1);
        lemma_extents_total_nonneg(extents.skip(1).skip(j), cluster_size);
        assert forall|i: int| 0 <= i < extent_len_bytes(extents[j], cluster_size) implies stream[
            extents_total_bytes(extents.take(j), cluster_size) + i
        ] == #[trigger] extent_bytes(extents[j], chunks[j], cluster_size)[i] by {
            assert(rest[offp + i] == extent_bytes(
                extents.skip(1)[j - 1],
                chunks.skip(1)[j - 1],
                cluster_size,
            )[i]);
            assert(stream == first + rest);
            assert((first + rest)[off0 + (offp + i)] == rest[offp + i]);
        }
    }
}

/// Sparse semantics: a sparse run produces zero bytes of exactly the
/// run's length, at exactly the run's position in the stream.
pub proof fn lemma_sparse_extent_zeros(
    extents: Seq<Extent>,
    chunks: Seq<Seq<u8>>,
    cluster_size: nat,
    j: int,
)
    requires
        chunks_match(extents, chunks, cluster_size),
        0 <= j < extents.len(),
        extents[j].sparse,
    ensures
        forall|i: int|
            0 <= i < extent_len_bytes(extents[j], cluster_size) ==> #[trigger] full_stream(
                extents,
                chunks,
                cluster_size,
            )[extents_total_bytes(extents.take(j), cluster_size) + i] == 0,
{
    lemma_stream_index(extents, chunks, cluster_size, j);
    assert(extents[j].clusters * cluster_size >= 0) by (nonlinear_arith);
    assert forall|i: int|
        0 <= i < extent_len_bytes(extents[j], cluster_size) implies #[trigger] full_stream(
        extents,
        chunks,
        cluster_size,
    )[extents_total_bytes(extents.take(j), cluster_size) + i] == 0 by {
        assert(extent_bytes(extents[j], chunks[j], cluster_size)[i] == zero_bytes(
            (extents[j].clusters * cluster_size) as nat,
        )[i]);
    }
}

/// Dropping one extent from the remainder removes that extent's bytes.
proof fn lemma_skip_total_step(extents: Seq<Extent>, cluster_size: nat, i: int)
    requires
        0 <= i < extents.len(),
    ensures
        extents_total_bytes(extents.skip(i), cluster_size) == extent_len_bytes(
            extents[i],
            cluster_size,
        ) + extents_total_bytes(extents.skip(i + 1), cluster_size),
{
    assert(extents.skip(i)[0] == extents[i]);
    assert(extents.skip(i).skip(1) =~= extents.skip(i + 1));
}

} // verus!
