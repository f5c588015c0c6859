//! MFT record decoding: header, fixup, and the ordered attribute list.

use vstd::prelude::*;
use crate::bytes::{le_nat, read_u16, read_u32, read_u64, read_le, lemma_pow256_values,
    lemma_le_nat_bound};
use crate::datarun::{DataRunEntry, runs_wf_from, runs_count_from, run_off, run_matches,
    parse_runs};
use crate::errors::Error;
use crate::fixup::{spec_fixed, spec_usa_offset, usa_wf, spec_fixup_matches, apply_fixup};

verus! {

/// A decoded FILE_NAME attribute.
#[derive(Debug, Clone, PartialEq, Eq)]
pub struct FileNameAttr {
    /// MFT record number of the parent directory (low 48 bits of the reference).
    pub parent_record: u64,
    /// Sequence number of the parent reference (high 16 bits).
    pub parent_sequence: u16,
    /// Allocated size of the file as recorded in the attribute.
    pub physical_size: u64,
    /// Real size of the file as recorded in the attribute.
    pub logical_size: u64,
    /// The name's namespace: 0 POSIX, 1 Win32, 2 DOS, 3 Win32-and-DOS.
    pub namespace: u8,
    /// The file name as UTF-16 code units.
    pub name: Vec<u16>,
}

/// A decoded non-resident data attribute.
#[derive(Debug, Clone, PartialEq, Eq)]
pub struct NonResidentData {
    pub vcn_first: u64,
    pub vcn_last: u64,
    pub allocated_size: u64,
    pub real_size: u64,
    pub initialized_size: u64,
    pub data_runs: Vec<DataRunEntry>,
}

/// The decoded content of one attribute.
#[derive(Debug, Clone, PartialEq, Eq)]
pub enum AttributeContent {
    FileName(FileNameAttr),
    ResidentData(Vec<u8>),
    NonResidentData(NonResidentData),
    Other,
}

/// One attribute of an MFT record.
#[derive(Debug, Clone, PartialEq, Eq)]
pub struct Attribute {
    pub type_code: u32,
    /// The attribute's own name as UTF-16 code units; empty for the
    /// unnamed stream.
    pub name: Vec<u16>,
    pub resident: bool,
    pub content: AttributeContent,
}

/// A decoded MFT record.
#[derive(Debug, Clone, PartialEq, Eq)]
pub struct MftRecord {
    pub record_number: u64,
    pub sequence: u16,
    pub hard_link_count: u16,
    /// Bit 0: in use; bit 1: directory.
    pub flags: u16,
    pub used_size: u32,
    pub allocated_size: u32,
    /// Reference to the base record, zero for base records.
    pub base_reference: u64,
    /// True when the record's magic was "BAAD": kept for diagnostics,
    /// never recovered from.
    pub corrupt: bool,
    pub attributes: Vec<Attribute>,
}

/// "FILE" stands at the head of the record.
pub open spec fn is_file_magic(b: Seq<u8>) -> bool {
    b.len() >= 4 && b[0] == 0x46 && b[1] == 0x49 && b[2] == 0x4C && b[3] == 0x45
}

/// "BAAD" stands at the head of the record.
pub open spec fn is_baad_magic(b: Seq<u8>) -> bool {
    b.len() >= 4 && b[0] == 0x42 && b[1] == 0x41 && b[2] == 0x41 && b[3] == 0x44
}

/// The `n` UTF-16 code units of `b` starting at `off`, little-endian.
pub open spec fn utf16_units(b: Seq<u8>, off: int, n: nat) -> Seq<u16> {
    Seq::new(n, |i: int| le_nat(b, off + 2 * i, 2) as u16)
}

/// Type code of the attribute headed at `off`.
pub open spec fn attr_type(b: Seq<u8>, off: int) -> int {
    le_nat(b, off, 4) as int
}

/// Record length of the attribute headed at `off`.
pub open spec fn attr_len(b: Seq<u8>, off: int) -> int {
    le_nat(b, off + 4, 4) as int
}

/// Offset of the attribute following the one headed at `off`.
pub open spec fn attr_end(b: Seq<u8>, off: int) -> int {
    off + attr_len(b, off)
}

/// The attribute headed at `off` is resident.
pub open spec fn attr_resident(b: Seq<u8>, off: int) -> bool {
    b[off + 8] == 0
}

/// Length in code units of the name of the attribute headed at `off`.
pub open spec fn attr_name_len(b: Seq<u8>, off: int) -> int {
    b[off + 9] as int
}

/// Offset, relative to the attribute, of its name.
pub open spec fn attr_name_off(b: Seq<u8>, off: int) -> int {
    le_nat(b, off + 10, 2) as int
}

/// Content length of a resident attribute headed at `off`.
pub open spec fn attr_content_len(b: Seq<u8>, off: int) -> int {
    le_nat(b, off + 16, 4) as int
}

/// Content offset, relative to the attribute, of a resident attribute.
pub open spec fn attr_content_off(b: Seq<u8>, off: int) -> int {
    le_nat(b, off + 20, 2) as int
}

/// Run-list offset, relative to the attribute, of a non-resident attribute.
pub open spec fn attr_runs_off(b: Seq<u8>, off: int) -> int {
    le_nat(b, off + 32, 2) as int
}

/// The sentinel type code stands at `off`.
pub open spec fn is_attrs_end(b: Seq<u8>, off: int) -> bool {
    0 <= off && off + 4 <= b.len() && attr_type(b, off) == 0xFFFF_FFFF
}

/// Structural validity of the FILE_NAME content at `c` with length `clen`.
pub open spec fn file_name_content_wf(b: Seq<u8>, c: int, clen: int) -> bool {
    &&& clen >= 0x42
    &&& clen >= 0x42 + 2 * (b[c + 0x40] as int)
}

/// Structural validity of the attribute headed at `off`.
pub open spec fn valid_attr_at(b: Seq<u8>, off: int) -> bool {
    &&& 0 <= off
    &&& off + 24 <= b.len()
    &&& attr_type(b, off) != 0xFFFF_FFFF
    &&& attr_len(b, off) >= 24
    &&& attr_end(b, off) <= b.len()
    &&& attr_name_off(b, off) + 2 * attr_name_len(b, off) <= attr_len(b, off)
    &&& if attr_resident(b, off) {
        &&& attr_content_off(b, off) + attr_content_len(b, off) <= attr_len(b, off)
        &&& (attr_type(b, off) == 0x30 ==> file_name_content_wf(
            b,
            off + attr_content_off(b, off),
            attr_content_len(b, off),
        ))
    } else {
        &&& attr_len(b, off) >= 64
        &&& 64 <= attr_runs_off(b, off) < attr_len(b, off)
        &&& runs_wf_from(b, off + attr_runs_off(b, off), attr_end(b, off))
    }
}

/// The attribute list starting at `off` is well formed: a chain of valid
/// attributes reaching the sentinel.
pub open spec fn attrs_wf_from(b: Seq<u8>, off: int) -> bool
    decreases b.len() - off,
{
    if is_attrs_end(b, off) {
        true
    } else if valid_attr_at(b, off) {
        attrs_wf_from(b, attr_end(b, off))
    } else {
        false
    }
}

/// The number of attributes in the list starting at `off`.
pub open spec fn attr_count_from(b: Seq<u8>, off: int) -> nat
    decreases b.len() - off,
{
    if is_attrs_end(b, off) {
        0
    } else if valid_attr_at(b, off) {
        1 + attr_count_from(b, attr_end(b, off))
    } else {
        0
    }
}

/// Offset of the `j`-th attribute of the list starting at `off`.
pub open spec fn attr_off(b: Seq<u8>, off: int, j: int) -> int
    decreases j,
{
    if j <= 0 {
        off
    } else {
        attr_off(b, attr_end(b, off), j - 1)
    }
}

/// Advancing the start of the list by one attribute shifts every index by one.
pub proof fn lemma_attr_off_snoc(b: Seq<u8>, off: int, j: int)
    requires
        j >= 0,
    ensures
        attr_off(b, off, j + 1) == attr_end(b, attr_off(b, off, j)),
    decreases j,
{
    if j == 0 {
        assert(attr_off(b, off, 1) == attr_off(b, attr_end(b, off), 0));
    } else {
        lemma_attr_off_snoc(b, attr_end(b, off), j - 1);
        assert(attr_off(b, off, j + 1) == attr_off(b, attr_end(b, off), j));
        assert(attr_off(b, off, j) == attr_off(b, attr_end(b, off), j - 1));
    }
}

/// The decoded FILE_NAME `fa` equals the content at `c`.
pub open spec fn file_name_matches(fa: FileNameAttr, b: Seq<u8>, c: int) -> bool {
    &&& fa.parent_record == le_nat(b, c, 6)
    &&& fa.parent_sequence == le_nat(b, c + 6, 2)
    &&& fa.physical_size == le_nat(b, c + 0x28, 8)
    &&& fa.logical_size == le_nat(b, c + 0x30, 8)
    &&& fa.namespace == b[c + 0x41]
    &&& fa.name@ == utf16_units(b, c + 0x42, b[c + 0x40] as nat)
}

/// The decoded non-resident data `nr` equals the attribute headed at `off`.
pub open spec fn non_resident_matches(nr: NonResidentData, b: Seq<u8>, off: int) -> bool {
    let rstart = off + attr_runs_off(b, off);
    let rend = attr_end(b, off);
    &&& nr.vcn_first == le_nat(b, off + 16, 8)
    &&& nr.vcn_last == le_nat(b, off + 24, 8)
    &&& nr.allocated_size == le_nat(b, off + 40, 8)
    &&& nr.real_size == le_nat(b, off + 48, 8)
    &&& nr.initialized_size == le_nat(b, off + 56, 8)
    &&& nr.data_runs@.len() == runs_count_from(b, rstart, rend)
    &&& forall|j: int|
        0 <= j < nr.data_runs@.len() ==> #[trigger] run_matches(
            nr.data_runs@[j],
            b,
            run_off(b, rstart, j),
        )
}

/// The decoded attribute `a` equals the attribute headed at `off`.
pub open spec fn attr_matches(a: Attribute, b: Seq<u8>, off: int) -> bool {
    let c = off + attr_content_off(b, off);
    let clen = attr_content_len(b, off);
    &&& a.type_code == attr_type(b, off)
    &&& a.resident == attr_resident(b, off)
    &&& a.name@ == utf16_units(b, off + attr_name_off(b, off), attr_name_len(b, off) as nat)
    &&& if attr_resident(b, off) {
        if attr_type(b, off) == 0x30 {
            a.content matches AttributeContent::FileName(fa) && file_name_matches(fa, b, c)
        } else if attr_type(b, off) == 0x80 {
            a.content matches AttributeContent::ResidentData(d) && d@ == b.subrange(c, c + clen)
        } else {
            a.content is Other
        }
    } else {
        if attr_type(b, off) == 0x80 {
            a.content matches AttributeContent::NonResidentData(nr) && non_resident_matches(
                nr,
                b,
                off,
            )
        } else {
            a.content is Other
        }
    }
}

/// Reads `n` UTF-16 code units of `b` at `off`.
pub fn read_utf16(b: &Vec<u8>, off: usize, n: usize) -> (r: Vec<u16>)
    requires
        off + 2 * n <= b@.len(),
    ensures
        r@ == utf16_units(b@, off as int, n as nat),
{
    let blen: usize = b.len();
    let mut v: Vec<u16> = Vec::new();
    let mut i: usize = 0;
    while i < n
        invariant
            i <= n,
            off + 2 * n <= b@.len() == blen,
            v@.len() == i,
            forall|j: int| 0 <= j < i ==> v@[j] == le_nat(b@, off + 2 * j, 2),
        decreases n - i,
    {
        let u: u16 = read_u16(b.as_slice(), off + 2 * i);
        v.push(u);
        i = i + 1;
    }
    proof {
        assert(v@ =~= utf16_units(b@, off as int, n as nat));
    }
    v
}

/// Decodes the attribute headed at `off`.
///
/// `Ok(None)` reports the list terminator; `Err` a structurally broken
/// attribute.
pub fn parse_attribute(b: &Vec<u8>, off: usize) -> (r: Result<Option<(Attribute, usize)>, Error>)
    ensures
        match r {
            Ok(Some((a, next))) => {
                &&& valid_attr_at(b@, off as int)
                &&& attr_matches(a, b@, off as int)
                &&& next == attr_end(b@, off as int)
                &&& off + 24 <= next <= b@.len()
            },
            Ok(None) => is_attrs_end(b@, off as int),
            Err(Error::InvalidRecord) => !is_attrs_end(b@, off as int) && !valid_attr_at(
                b@,
                off as int,
            ),
            Err(_) => false,
        },
{
    proof {
        lemma_pow256_values();
    }
    let len = b.len();
    if off < len && len - off >= 4 {
        let ty: u32 = read_u32(b.as_slice(), off);
        if ty == 0xFFFF_FFFF {
            return Ok(None);
        }
    }
    if off >= len || len - off < 24 {
        return Err(Error::InvalidRecord);
    }
    let ty: u32 = read_u32(b.as_slice(), off);
    if ty == 0xFFFF_FFFF {
        return Ok(None);
    }
    let alen_raw: u32 = read_u32(b.as_slice(), off + 4);
    if alen_raw < 24 || (alen_raw as u64) > (len - off) as u64 {
        return Err(Error::InvalidRecord);
    }
    let alen: usize = alen_raw as usize;
    let resident: bool = b[off + 8] == 0;
    let name_len: usize = b[off + 9] as usize;
    let name_off: usize = read_u16(b.as_slice(), off + 10) as usize;
    if name_off + 2 * name_len > alen {
        return Err(Error::InvalidRecord);
    }
    let name: Vec<u16> = read_utf16(b, off + name_off, name_len);
    if resident {
        let clen_raw: u32 = read_u32(b.as_slice(), off + 16);
        let coff: usize = read_u16(b.as_slice(), off + 20) as usize;
        if (coff as u64) + (clen_raw as u64) > (alen as u64) {
            return Err(Error::InvalidRecord);
        }
        let clen: usize = clen_raw as usize;
        let c: usize = off + coff;
        if ty == 0x30 {
            if clen < 0x42 {
                return Err(Error::InvalidRecord);
            }
            let fn_len: usize = b[c + 0x40] as usize;
            if clen < 0x42 + 2 * fn_len {
                return Err(Error::InvalidRecord);
            }
            let fa = FileNameAttr {
                parent_record: read_le(b.as_slice(), c, 6),
                parent_sequence: read_u16(b.as_slice(), c + 6),
                physical_size: read_u64(b.as_slice(), c + 0x28),
                logical_size: read_u64(b.as_slice(), c + 0x30),
                namespace: b[c + 0x41],
                name: read_utf16(b, c + 0x42, fn_len),
            };
            proof {
                lemma_le_nat_bound(b@, c as int, 6);
            }
            let a = Attribute {
                type_code: ty,
                name,
                resident,
                content: AttributeContent::FileName(fa),
            };
            assert(valid_attr_at(b@, off as int));
            assert(attr_matches(a, b@, off as int));
            Ok(Some((a, off + alen)))
        } else if ty == 0x80 {
            let mut data: Vec<u8> = Vec::new();
            let mut i: usize = 0;
            while i < clen
                invariant
                    i <= clen,
                    c + clen <= b@.len() == len,
                    data@ == b@.subrange(c as int, c + i),
                decreases clen - i,
            {
                data.push(b[c + i]);
                proof {
                    assert(data@ =~= b@.subrange(c as int, c + i + 1));
                }
                i = i + 1;
            }
            let a = Attribute {
                type_code: ty,
                name,
                resident,
                content: AttributeContent::ResidentData(data),
            };
            assert(attr_matches(a, b@, off as int));
            Ok(Some((a, off + alen)))
        } else {
            let a = Attribute { type_code: ty, name, resident, content: AttributeContent::Other };
            Ok(Some((a, off + alen)))
        }
    } else {
        if alen < 64 {
            return Err(Error::InvalidRecord);
        }
        let runs_off: usize = read_u16(b.as_slice(), off + 32) as usize;
        if runs_off < 64 || runs_off >= alen {
            return Err(Error::InvalidRecord);
        }
        if ty == 0x80 {
            let runs: Vec<DataRunEntry> = match parse_runs(b, off + runs_off, off + alen) {
                Some(v) => v,
                None => {
                    return Err(Error::InvalidRecord);
                },
            };
            let nr = NonResidentData {
                vcn_first: read_u64(b.as_slice(), off + 16),
                vcn_last: read_u64(b.as_slice(), off + 24),
                allocated_size: read_u64(b.as_slice(), off + 40),
                real_size: read_u64(b.as_slice(), off + 48),
                initialized_size: read_u64(b.as_slice(), off + 56),
                data_runs: runs,
            };
            let a = Attribute {
                type_code: ty,
                name,
                resident,
                content: AttributeContent::NonResidentData(nr),
            };
            assert(attr_matches(a, b@, off as int));
            Ok(Some((a, off + alen)))
        } else {
            match parse_runs(b, off + runs_off, off + alen) {
                Some(_) => {},
                None => {
                    return Err(Error::InvalidRecord);
                },
            }
            let a = Attribute { type_code: ty, name, resident, content: AttributeContent::Other };
            Ok(Some((a, off + alen)))
        }
    }
}

/// The record `rec`, decoded with ordinal `ordinal`, equals the record
/// buffer `b`.
pub open spec fn record_matches(rec: MftRecord, b: Seq<u8>, ordinal: u64) -> bool {
    if is_baad_magic(b) {
        &&& rec.corrupt
        &&& rec.record_number == ordinal
        &&& rec.sequence == 0
        &&& rec.hard_link_count == 0
        &&& rec.flags == 0
        &&& rec.used_size == 0
        &&& rec.allocated_size == 0
        &&& rec.base_reference == 0
        &&& rec.attributes@.len() == 0
    } else {
        let f = spec_fixed(b);
        let first = le_nat(f, 0x14, 2) as int;
        &&& is_file_magic(b)
        &&& usa_wf(b)
        &&& spec_fixup_matches(b)
        &&& !rec.corrupt
        &&& rec.sequence == le_nat(f, 0x10, 2)
        &&& rec.hard_link_count == le_nat(f, 0x12, 2)
        &&& rec.flags == le_nat(f, 0x16, 2)
        &&& rec.used_size == le_nat(f, 0x18, 4)
        &&& rec.allocated_size == le_nat(f, 0x1C, 4)
        &&& rec.base_reference == le_nat(f, 0x20, 8)
        &&& rec.record_number == (if spec_usa_offset(b) >= 0x30 {
            le_nat(f, 0x2C, 4) as u64
        } else {
            ordinal
        })
        &&& attrs_wf_from(f, first)
        &&& rec.attributes@.len() == attr_count_from(f, first)
        &&& forall|j: int|
            0 <= j < rec.attributes@.len() ==> #[trigger] attr_matches(
                rec.attributes@[j],
                f,
                attr_off(f, first, j),
            )
    }
}

/// The buffer decodes to a record: a corrupt "BAAD" stub, or a "FILE"
/// record whose fixup fields and attribute list are well formed.
pub open spec fn record_decodable(b: Seq<u8>) -> bool {
    ||| is_baad_magic(b)
    ||| (is_file_magic(b) && usa_wf(b) && attrs_wf_from(
        spec_fixed(b),
        le_nat(spec_fixed(b), 0x14, 2) as int,
    ))
}

/// Decodes one MFT record buffer.
///
/// `ordinal` is the record's position in the MFT, used when the header
/// carries no record number of its own.  A "BAAD" record decodes to a
/// corrupt stub; a buffer with any other magic than "FILE" is invalid.
pub fn decode_record(b: &Vec<u8>, ordinal: u64) -> (r: Result<MftRecord, Error>)
    requires
        512 <= b@.len(),
    ensures
        match r {
            Ok(rec) => record_matches(rec, b@, ordinal),
            Err(Error::FixupMismatch) => is_file_magic(b@) && usa_wf(b@) && !spec_fixup_matches(
                b@,
            ),
            Err(Error::InvalidRecord) => !record_decodable(b@) || (is_file_magic(b@) && usa_wf(b@)
                && !spec_fixup_matches(b@)),
            Err(_) => false,
        },
{
    if b[0] == 0x42 && b[1] == 0x41 && b[2] == 0x41 && b[3] == 0x44 {
        return Ok(
            MftRecord {
                record_number: ordinal,
                sequence: 0,
                hard_link_count: 0,
                flags: 0,
                used_size: 0,
                allocated_size: 0,
                base_reference: 0,
                corrupt: true,
                attributes: Vec::new(),
            },
        );
    }
    if !(b[0] == 0x46 && b[1] == 0x49 && b[2] == 0x4C && b[3] == 0x45) {
        return Err(Error::InvalidRecord);
    }
    let usa_off: u16 = read_u16(b.as_slice(), 4);
    let f: Vec<u8> = match apply_fixup(b) {
        Ok(f) => f,
        Err(e) => {
            return Err(e);
        },
    };
    proof {
        crate::fixup::lemma_fixed_preserves_header(b@);
        lemma_pow256_values();
        lemma_le_nat_bound(f@, 0x14, 2);
        crate::bytes::lemma_le_nat_depends_on_range(f@, b@, 4, 2);
    }
    let first: usize = read_u16(f.as_slice(), 0x14) as usize;
    let mut attrs: Vec<Attribute> = Vec::new();
    let mut cur: usize = first;
    let flen: usize = f.len();
    loop
        invariant
            cur <= flen + 0x1_0000,
            flen == f@.len(),
            f@ == spec_fixed(b@),
            is_file_magic(b@),
            usa_wf(b@),
            spec_fixup_matches(b@),
            f@.len() == b@.len() >= 512,
            first == le_nat(f@, 0x14, 2),
            cur == attr_off(f@, first as int, attrs@.len() as int),
            cur >= first,
            attrs_wf_from(f@, first as int) == attrs_wf_from(f@, cur as int),
            attr_count_from(f@, first as int) == attrs@.len() + attr_count_from(f@, cur as int),
            forall|j: int|
                0 <= j < attrs@.len() ==> #[trigger] attr_matches(
                    attrs@[j],
                    f@,
                    attr_off(f@, first as int, j),
                ),
        ensures
            f@ == spec_fixed(b@),
            attrs_wf_from(f@, first as int),
            attrs@.len() == attr_count_from(f@, first as int),
            forall|j: int|
                0 <= j < attrs@.len() ==> #[trigger] attr_matches(
                    attrs@[j],
                    f@,
                    attr_off(f@, first as int, j),
                ),
        decreases flen + 0x1_0000 - cur,
    {
        let step = parse_attribute(&f, cur);
        match step {
            Ok(None) => {
                break;
            },
            Ok(Some(pair)) => {
                let (a, next) = pair;
                let ghost prev_len = attrs@.len() as int;
                attrs.push(a);
                proof {
                    lemma_attr_off_snoc(f@, first as int, prev_len);
                }
                cur = next;
            },
            Err(_) => {
                assert(!attrs_wf_from(f@, cur as int));
                return Err(Error::InvalidRecord);
            },
        }
    }
    let usa_off_usize: usize = usa_off as usize;
    let record_number: u64 = if usa_off_usize >= 0x30 {
        read_u32(f.as_slice(), 0x2C) as u64
    } else {
        ordinal
    };
    let rec = MftRecord {
        record_number,
        sequence: read_u16(f.as_slice(), 0x10),
        hard_link_count: read_u16(f.as_slice(), 0x12),
        flags: read_u16(f.as_slice(), 0x16),
        used_size: read_u32(f.as_slice(), 0x18),
        allocated_size: read_u32(f.as_slice(), 0x1C),
        base_reference: read_u64(f.as_slice(), 0x20),
        corrupt: false,
        attributes: attrs,
    };
    assert(record_matches(rec, b@, ordinal));
    Ok(rec)
}

impl MftRecord {
    /// The in-use bit of the record's flags.
    pub fn is_allocated(&self) -> (r: bool)
        ensures
            r == (self.flags % 2 == 1),
    {
        self.flags % 2 == 1
    }

    /// The directory bit of the record's flags.
    pub fn is_dir(&self) -> (r: bool)
        ensures
            r == ((self.flags / 2) % 2 == 1),
    {
        (self.flags / 2) % 2 == 1
    }
}

/// The attribute is a DATA attribute of the unnamed stream.
pub open spec fn is_unnamed_data(a: Attribute) -> bool {
    a.type_code == 0x80 && a.name@.len() == 0
}

/// The attribute is a FILE_NAME attribute.
pub open spec fn is_file_name(a: Attribute) -> bool {
    a.type_code == 0x30 && a.content is FileName
}

impl MftRecord {
    /// Index of the first unnamed DATA attribute, if any.
    pub fn find_data_attribute(&self) -> (r: Option<usize>)
        ensures
            match r {
                Some(i) => {
                    &&& i < self.attributes@.len()
                    &&& is_unnamed_data(self.attributes@[i as int])
                    &&& forall|j: int| 0 <= j < i ==> !is_unnamed_data(#[trigger] self.attributes@[j])
                },
                None => forall|j: int|
                    0 <= j < self.attributes@.len() ==> !is_unnamed_data(
                        #[trigger] self.attributes@[j],
                    ),
            },
    {
        let mut i: usize = 0;
        while i < self.attributes.len()
            invariant
                i <= self.attributes@.len(),
                forall|j: int| 0 <= j < i ==> !is_unnamed_data(#[trigger] self.attributes@[j]),
            decreases self.attributes@.len() - i,
        {
            let a = &self.attributes[i];
            if a.type_code == 0x80 && a.name.len() == 0 {
                return Some(i);
            }
            i = i + 1;
        }
        None
    }
}

} // verus!
