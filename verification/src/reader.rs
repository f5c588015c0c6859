//! The reader: source resolution and the MFT read path.
//!
//! A source is named by a path that may be a raw image file, a block
//! device node, or a mounted directory that the host mount table maps
//! back to its device.  Paths and the mount table travel through the
//! library as raw bytes.

use vstd::prelude::*;
use crate::bootsector::{NtfsBootSector, FileSystems, detect_file_system, is_ntfs_sig};
use crate::errors::Error;
use crate::record::{MftRecord, Attribute, AttributeContent, is_unnamed_data, decode_record,
    record_matches, record_decodable, is_file_magic};
use crate::fixup::{usa_wf, spec_fixup_matches};
use crate::reconstruct::{Extent, DataPlan, resolve_runs, runs_match_allocation, non_resident_wf,
    lcns_ok, extent_matches};
use crate::datarun::total_clusters;

verus! {

/// What kind of file-system object a source path names.
#[derive(Debug, Clone, Copy, PartialEq, Eq, Structural)]
pub enum PathKind {
    Directory,
    RegularFile,
    BlockDevice,
    Missing,
}

/// The path begins with "/dev/".
pub open spec fn has_dev_prefix(p: Seq<u8>) -> bool {
    p.len() >= 5 && p[0] == 0x2F && p[1] == 0x64 && p[2] == 0x65 && p[3] == 0x76 && p[4] == 0x2F
}

/// Sorts a path into the three source shapes the reader accepts, from
/// what the file system reports about it: an existing directory, an
/// existing regular file, a device node under "/dev/", or nothing usable.
pub fn path_kind(path: &Vec<u8>, is_dir: bool, is_file: bool) -> (r: PathKind)
    ensures
        r == (if is_dir {
            PathKind::Directory
        } else if is_file {
            PathKind::RegularFile
        } else if has_dev_prefix(path@) {
            PathKind::BlockDevice
        } else {
            PathKind::Missing
        }),
{
    if is_dir {
        PathKind::Directory
    } else if is_file {
        PathKind::RegularFile
    } else if path.len() >= 5 && path[0] == 0x2F && path[1] == 0x64 && path[2] == 0x65 && path[3]
        == 0x76 && path[4] == 0x2F {
        PathKind::BlockDevice
    } else {
        PathKind::Missing
    }
}

/// A byte that separates fields of a mount-table line.
pub open spec fn is_ws(c: u8) -> bool {
    c == 0x20 || c == 0x09
}

/// First index at or after `i`, before `end`, holding a non-separator.
pub open spec fn spec_skip_ws(b: Seq<u8>, i: int, end: int) -> int
    decreases end - i,
{
    if i < end && is_ws(b[i]) {
        spec_skip_ws(b, i + 1, end)
    } else {
        i
    }
}

/// First index at or after `i`, before `end`, holding a separator.
pub open spec fn spec_token_end(b: Seq<u8>, i: int, end: int) -> int
    decreases end - i,
{
    if i < end && !is_ws(b[i]) {
        spec_token_end(b, i + 1, end)
    } else {
        i
    }
}

/// Index of the next line feed at or after `i`, or the end of the buffer.
pub open spec fn spec_line_end(b: Seq<u8>, i: int) -> int
    decreases b.len() - i,
{
    if 0 <= i < b.len() && b[i] != 0x0A {
        spec_line_end(b, i + 1)
    } else {
        i
    }
}

/// The device field of the first mount-table line, at or after `i`,
/// whose mount-point field equals `target`.
///
/// A line is `device  mount-point  ...`, fields separated by blanks.
pub open spec fn spec_mount_lookup(b: Seq<u8>, i: int, target: Seq<u8>) -> Option<Seq<u8>>
    decreases b.len() + 1 - i,
{
    if !(0 <= i < b.len()) {
        None
    } else {
        let raw_end = spec_line_end(b, i);
        let end = if raw_end < i {
            i
        } else if raw_end > b.len() {
            b.len() as int
        } else {
            raw_end
        };
        let d0 = spec_skip_ws(b, i, end);
        let d1 = spec_token_end(b, d0, end);
        let m0 = spec_skip_ws(b, d1, end);
        let m1 = spec_token_end(b, m0, end);
        if d1 > d0 && m1 > m0 && b.subrange(m0, m1) == target {
            Some(b.subrange(d0, d1))
        } else {
            spec_mount_lookup(b, end + 1, target)
        }
    }
}

/// Advances past leading separators, before `end`.
fn skip_ws(b: &Vec<u8>, i: usize, end: usize) -> (r: usize)
    requires
        i <= end <= b@.len(),
    ensures
        r == spec_skip_ws(b@, i as int, end as int),
        i <= r <= end,
{
    let mut cur: usize = i;
    while cur < end && (b[cur] == 0x20 || b[cur] == 0x09)
        invariant
            i <= cur <= end <= b@.len(),
            spec_skip_ws(b@, i as int, end as int) == spec_skip_ws(b@, cur as int, end as int),
        decreases end - cur,
    {
        cur = cur + 1;
    }
    cur
}

/// Advances to the first separator, before `end`.
fn token_end(b: &Vec<u8>, i: usize, end: usize) -> (r: usize)
    requires
        i <= end <= b@.len(),
    ensures
        r == spec_token_end(b@, i as int, end as int),
        i <= r <= end,
{
    let mut cur: usize = i;
    while cur < end && !(b[cur] == 0x20 || b[cur] == 0x09)
        invariant
            i <= cur <= end <= b@.len(),
            spec_token_end(b@, i as int, end as int) == spec_token_end(b@, cur as int, end as int),
        decreases end - cur,
    {
        cur = cur + 1;
    }
    cur
}

/// Advances to the next line feed, or the end of the buffer.
fn line_end(b: &Vec<u8>, i: usize) -> (r: usize)
    requires
        i <= b@.len(),
    ensures
        r == spec_line_end(b@, i as int),
        i <= r <= b@.len(),
{
    let len = b.len();
    let mut cur: usize = i;
    while cur < len && b[cur] != 0x0A
        invariant
            i <= cur <= len == b@.len(),
            spec_line_end(b@, i as int) == spec_line_end(b@, cur as int),
        decreases len - cur,
    {
        cur = cur + 1;
    }
    cur
}

/// Compares a window of `b` with `target`, byte for byte.
fn range_equals(b: &Vec<u8>, lo: usize, hi: usize, target: &Vec<u8>) -> (r: bool)
    requires
        lo <= hi <= b@.len(),
    ensures
        r == (b@.subrange(lo as int, hi as int) == target@),
{
    if hi - lo != target.len() {
        proof {
            assert(b@.subrange(lo as int, hi as int).len() == hi - lo);
        }
        return false;
    }
    let n: usize = hi - lo;
    let mut i: usize = 0;
    while i < n
        invariant
            i <= n == target@.len(),
            lo + n == hi <= b@.len(),
            forall|j: int| 0 <= j < i ==> b@[lo + j] == target@[j],
        decreases n - i,
    {
        if b[lo + i] != target[i] {
            proof {
                assert(b@.subrange(lo as int, hi as int)[i as int] != target@[i as int]);
            }
            return false;
        }
        i = i + 1;
    }
    proof {
        assert(b@.subrange(lo as int, hi as int) =~= target@);
    }
    true
}

/// Copies a window of `b` out into a fresh buffer.
fn copy_range(b: &Vec<u8>, lo: usize, hi: usize) -> (r: Vec<u8>)
    requires
        lo <= hi <= b@.len(),
    ensures
        r@ == b@.subrange(lo as int, hi as int),
{
    let mut out: Vec<u8> = Vec::new();
    let mut i: usize = lo;
    while i < hi
        invariant
            lo <= i <= hi <= b@.len(),
            out@ == b@.subrange(lo as int, i as int),
        decreases hi - i,
    {
        out.push(b[i]);
        proof {
            assert(out@ =~= b@.subrange(lo as int, i + 1));
        }
        i = i + 1;
    }
    out
}

/// Finds, in the mount table `mounts`, the device whose mount point is
/// `mount_point`: the first field of the first line whose second field
/// equals it.
pub fn find_block_device(mounts: &Vec<u8>, mount_point: &Vec<u8>) -> (r: Option<Vec<u8>>)
    ensures
        match r {
            Some(dev) => spec_mount_lookup(mounts@, 0, mount_point@) == Some(dev@),
            None => spec_mount_lookup(mounts@, 0, mount_point@) is None,
        },
{
    let len = mounts.len();
    let mut i: usize = 0;
    while i < len
        invariant
            i <= len + 1,
            len == mounts@.len(),
            spec_mount_lookup(mounts@, 0, mount_point@) == spec_mount_lookup(
                mounts@,
                i as int,
                mount_point@,
            ),
        decreases len + 1 - i,
    {
        let end = line_end(mounts, i);
        let d0 = skip_ws(mounts, i, end);
        let d1 = token_end(mounts, d0, end);
        let m0 = skip_ws(mounts, d1, end);
        let m1 = token_end(mounts, m0, end);
        if d1 > d0 && m1 > m0 && range_equals(mounts, m0, m1, mount_point) {
            return Some(copy_range(mounts, d0, d1));
        }
        if end >= len {
            proof {
                assert(spec_mount_lookup(mounts@, i as int, mount_point@) == spec_mount_lookup(
                    mounts@,
                    end + 1,
                    mount_point@,
                ));
                assert(spec_mount_lookup(mounts@, end + 1, mount_point@) is None);
            }
            return None;
        }
        i = end + 1;
    }
    None
}

/// A record signature stands 4-byte aligned at `i` of the window: the
/// magic of a live record, of a corrupt one, or a wiped zero-digit block.
pub open spec fn sig_at(w: Seq<u8>, i: int) -> bool {
    &&& 0 <= i
    &&& i + 4 <= w.len()
    &&& i % 4 == 0
    &&& ((w[i] == 0x46 && w[i + 1] == 0x49 && w[i + 2] == 0x4C && w[i + 3] == 0x45)  // "FILE"
        || (w[i] == 0x42 && w[i + 1] == 0x41 && w[i + 2] == 0x41 && w[i + 3] == 0x44)  // "BAAD"
        || (w[i] == 0x30 && w[i + 1] == 0x30 && w[i + 2] == 0x30 && w[i + 3] == 0x30))  // "0000"
}

/// Scans a window of the medium for the first 4-byte-aligned MFT record
/// signature and returns its offset within the window.
pub fn find_signature_in_window(w: &Vec<u8>) -> (r: Option<usize>)
    ensures
        match r {
            Some(i) => sig_at(w@, i as int) && forall|j: int| 0 <= j < i ==> !sig_at(w@, j),
            None => forall|j: int| !sig_at(w@, j),
        },
{
    let len = w.len();
    if len < 4 {
        return None;
    }
    let mut i: usize = 0;
    while i <= len - 4
        invariant
            len == w@.len(),
            4 <= len,
            i % 4 == 0,
            forall|j: int| j < i ==> !sig_at(w@, j),
        decreases len - i,
    {
        let a = w[i];
        let b = w[i + 1];
        let c = w[i + 2];
        let d = w[i + 3];
        if (a == 0x46 && b == 0x49 && c == 0x4C && d == 0x45) || (a == 0x42 && b == 0x41 && c
            == 0x41 && d == 0x44) || (a == 0x30 && b == 0x30 && c == 0x30 && d == 0x30) {
            return Some(i);
        }
        proof {
            assert forall|j: int| j < i + 4 implies !sig_at(w@, j) by {
                if i <= j < i + 4 {
                    if j % 4 == 0 {
                        assert(j == i) by (nonlinear_arith)
                            requires
                                i % 4 == 0,
                                j % 4 == 0,
                                i <= j < i + 4,
                        ;
                    }
                }
            }
        }
        i = i + 4;
    }
    proof {
        assert forall|j: int| true implies !sig_at(w@, j) by {
            if 0 <= j && j + 4 <= w@.len() {
                assert(j < i);
            }
        }
    }
    None
}

/// `i` is the index of the first unnamed DATA attribute.
pub open spec fn is_first_unnamed_data(attrs: Seq<Attribute>, i: int) -> bool {
    &&& 0 <= i < attrs.len()
    &&& is_unnamed_data(attrs[i])
    &&& forall|j: int| 0 <= j < i ==> !is_unnamed_data(#[trigger] attrs[j])
}

/// The record carries no unnamed DATA attribute at all.
pub open spec fn no_unnamed_data(attrs: Seq<Attribute>) -> bool {
    forall|j: int| 0 <= j < attrs.len() ==> !is_unnamed_data(#[trigger] attrs[j])
}

/// The plan materialises attribute `i`'s stream: a resident stream's
/// bytes verbatim, or a non-resident stream's runs resolved to extents.
pub open spec fn plan_resolves(plan: DataPlan, attrs: Seq<Attribute>, i: int, cs: nat) -> bool {
    match plan {
        DataPlan::Resident(d) => attrs[i].content matches AttributeContent::ResidentData(rd)
            && d@ == rd@,
        DataPlan::NonResident { extents, real_size } => attrs[i].content
            matches AttributeContent::NonResidentData(nr) && {
            &&& real_size == nr.real_size
            &&& lcns_ok(nr.data_runs@)
            &&& non_resident_wf(nr.data_runs@, cs, nr.allocated_size, nr.real_size)
            &&& extents@.len() == nr.data_runs@.len()
            &&& forall|j: int|
                0 <= j < extents@.len() ==> #[trigger] extent_matches(extents@[j], nr.data_runs@, j)
        },
    }
}

/// Attribute `i` is a DATA attribute that cannot be reconstructed: its
/// content is not a data stream, its running cluster numbers leave the
/// representable range, or its runs do not cover its allocated size.
pub open spec fn data_bad_at(attrs: Seq<Attribute>, i: int, cs: nat) -> bool {
    match attrs[i].content {
        AttributeContent::ResidentData(_) => false,
        AttributeContent::NonResidentData(nr) => !(lcns_ok(nr.data_runs@) && non_resident_wf(
            nr.data_runs@,
            cs,
            nr.allocated_size,
            nr.real_size,
        )),
        _ => true,
    }
}

/// Cluster coverage of a planned reconstruction: whenever the reader
/// hands out a non-resident plan for attribute `i`, the sum of that
/// attribute's run lengths times the cluster size equals its allocated
/// size exactly.
pub proof fn lemma_plan_covers_allocation(
    plan: DataPlan,
    attrs: Seq<Attribute>,
    i: int,
    cs: nat,
)
    requires
        0 <= i < attrs.len(),
        plan_resolves(plan, attrs, i, cs),
        plan is NonResident,
    ensures
        attrs[i].content matches AttributeContent::NonResidentData(nr)
            ==> total_clusters(nr.data_runs@) * cs == nr.allocated_size,
{
}

/// One open source: the resolved path of the readable medium, and the
/// NTFS geometry decoded from its boot sector.
#[derive(Debug, Clone, PartialEq)]
pub struct Reader {
    pub path: Vec<u8>,
    pub boot_sector: NtfsBootSector,
}

/// Resolves the user's path to the path that is actually opened: a
/// directory goes through the mount table to its backing device, a
/// regular file or device node is used as it stands, and anything else
/// does not exist.
pub fn resolve_device_path(path: Vec<u8>, kind: PathKind, mounts: &Vec<u8>) -> (r: Result<
    Vec<u8>,
    Error,
>)
    ensures
        match r {
            Ok(p) => match kind {
                PathKind::Directory => spec_mount_lookup(mounts@, 0, path@) == Some(p@),
                PathKind::RegularFile => p@ == path@,
                PathKind::BlockDevice => p@ == path@,
                PathKind::Missing => false,
            },
            Err(Error::MountNotFound(p)) => kind is Directory && spec_mount_lookup(
                mounts@,
                0,
                path@,
            ) is None && p@ == path@,
            Err(Error::NotFound(p)) => kind is Missing && p@ == path@,
            Err(_) => false,
        },
{
    match kind {
        PathKind::Directory => match find_block_device(mounts, &path) {
            Some(dev) => Ok(dev),
            None => Err(Error::MountNotFound(path)),
        },
        PathKind::RegularFile => Ok(path),
        PathKind::BlockDevice => Ok(path),
        PathKind::Missing => Err(Error::NotFound(path)),
    }
}

impl Reader {
    /// Builds a reader for the medium at `path` from the first 512 bytes
    /// of the medium and the window at absolute offset 32769.  Anything
    /// that does not classify as NTFS is refused, by name.
    pub fn from_path(path: Vec<u8>, boot: &Vec<u8>, iso: &Vec<u8>) -> (r: Result<Reader, Error>)
        requires
            boot@.len() >= 512,
        ensures
            match r {
                Ok(rd) => {
                    &&& is_ntfs_sig(boot@)
                    &&& rd.boot_sector.is_decode_of(boot@)
                    &&& rd.path@ == path@
                },
                Err(Error::UnsupportedFileSystem(name)) => {
                    &&& !is_ntfs_sig(boot@)
                    &&& name@ == crate::bootsector::spec_classified_name(boot@, iso@)
                },
                Err(_) => false,
            },
    {
        match detect_file_system(boot.as_slice(), iso.as_slice()) {
            FileSystems::NTFS(bs) => Ok(Reader { path, boot_sector: bs }),
            fs => Err(Error::UnsupportedFileSystem(fs.name())),
        }
    }

    /// The absolute byte offset where the boot-sector geometry places
    /// the MFT, or `None` when that offset cannot be represented.
    pub fn locate_mft(&self) -> (r: Option<u64>)
        ensures
            match r {
                Some(o) => o == self.boot_sector.logical_cluster_mft
                    * self.boot_sector.spec_cluster_size(),
                None => self.boot_sector.logical_cluster_mft * self.boot_sector.spec_cluster_size()
                    > u64::MAX,
            },
    {
        self.boot_sector.mft_offset()
    }

    /// Plans the materialisation of a record's unnamed data stream.
    ///
    /// `EmptyData` reports a record with no unnamed DATA attribute (a
    /// deleted record's attributes may have been recycled);
    /// `InvalidRecord` one whose DATA attribute cannot be reconstructed.
    pub fn read_data_from_entry(&self, record: &MftRecord) -> (r: Result<DataPlan, Error>)
        requires
            self.boot_sector.wf(),
        ensures
            match r {
                Ok(plan) => exists|i: int|
                    #[trigger] is_first_unnamed_data(record.attributes@, i) && plan_resolves(
                        plan,
                        record.attributes@,
                        i,
                        self.boot_sector.spec_cluster_size(),
                    ),
                Err(Error::EmptyData) => no_unnamed_data(record.attributes@),
                Err(Error::InvalidRecord) => exists|i: int|
                    #[trigger] is_first_unnamed_data(record.attributes@, i) && data_bad_at(
                        record.attributes@,
                        i,
                        self.boot_sector.spec_cluster_size(),
                    ),
                Err(_) => false,
            },
    {
        let idx: usize = match record.find_data_attribute() {
            Some(i) => i,
            None => {
                return Err(Error::EmptyData);
            },
        };
        assert(is_first_unnamed_data(record.attributes@, idx as int));
        let a = &record.attributes[idx];
        match &a.content {
            AttributeContent::ResidentData(d) => {
                let bytes = copy_range(d, 0, d.len());
                proof {
                    assert(bytes@ =~= d@);
                }
                Ok(DataPlan::Resident(bytes))
            },
            AttributeContent::NonResidentData(nr) => {
                let cs: u64 = self.boot_sector.cluster_size();
                assert(cs >= 512) by (nonlinear_arith)
                    requires
                        cs == self.boot_sector.bytes_per_sector
                            * self.boot_sector.sectors_per_cluster,
                        self.boot_sector.bytes_per_sector >= 512,
                        self.boot_sector.sectors_per_cluster >= 1,
                ;
                if !runs_match_allocation(&nr.data_runs, cs, nr.allocated_size) || nr.real_size
                    > nr.allocated_size {
                    return Err(Error::InvalidRecord);
                }
                match resolve_runs(&nr.data_runs) {
                    Ok(extents) => Ok(DataPlan::NonResident { extents, real_size: nr.real_size }),
                    Err(_) => Err(Error::InvalidRecord),
                }
            },
            _ => Err(Error::InvalidRecord),
        }
    }

    /// Plans the extraction of the MFT itself from its first record:
    /// decodes record 0 and hands back its data stream's plan, resident
    /// bytes or the extents of the routinely fragmented MFT.
    pub fn read_mft(&self, record0: &Vec<u8>) -> (r: Result<DataPlan, Error>)
        requires
            self.boot_sector.wf(),
            record0@.len() >= 512,
        ensures
            match r {
                Ok(plan) => exists|rec: MftRecord|
                    #[trigger] record_matches(rec, record0@, 0) && exists|i: int|
                        #[trigger] is_first_unnamed_data(rec.attributes@, i) && plan_resolves(
                            plan,
                            rec.attributes@,
                            i,
                            self.boot_sector.spec_cluster_size(),
                        ),
                Err(Error::EmptyData) => exists|rec: MftRecord|
                    #[trigger] record_matches(rec, record0@, 0) && no_unnamed_data(rec.attributes@),
                Err(Error::FixupMismatch) => is_file_magic(record0@) && usa_wf(record0@)
                    && !spec_fixup_matches(record0@),
                Err(Error::InvalidRecord) => {
                    ||| !record_decodable(record0@)
                    ||| (is_file_magic(record0@) && usa_wf(record0@) && !spec_fixup_matches(
                        record0@,
                    ))
                    ||| exists|rec: MftRecord|
                        #[trigger] record_matches(rec, record0@, 0) && exists|i: int|
                            #[trigger] is_first_unnamed_data(rec.attributes@, i) && data_bad_at(
                                rec.attributes@,
                                i,
                                self.boot_sector.spec_cluster_size(),
                            )
                },
                Err(_) => false,
            },
    {
        let rec: MftRecord = match decode_record(record0, 0) {
            Ok(rec) => rec,
            Err(e) => {
                return Err(e);
            },
        };
        self.read_data_from_entry(&rec)
    }
}

} // verus!
