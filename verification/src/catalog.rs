//! The undelete catalog: every unallocated, non-directory record that
//! still bears a file name, in MFT order, with its full path resolved by
//! walking parent references.

use vstd::prelude::*;
use crate::bytes::le_nat;
use crate::errors::Error;
use crate::fixup::{spec_fixed, spec_usa_offset, usa_wf, spec_fixup_matches};
use crate::record::{MftRecord, AttributeContent, decode_record, record_matches, attrs_wf_from,
    attr_count_from, attr_off, attr_type, attr_resident, attr_content_off, utf16_units,
    is_file_magic, attr_matches};

verus! {

/// First-attribute offset of a record buffer, after fixup.
pub open spec fn w_first(w: Seq<u8>) -> int {
    le_nat(spec_fixed(w), 0x14, 2) as int
}

/// The record buffer decodes cleanly: live magic, sound fixup fields,
/// matching check bytes, and a well-formed attribute list.
pub open spec fn rec_ok(w: Seq<u8>) -> bool {
    &&& is_file_magic(w)
    &&& usa_wf(w)
    &&& spec_fixup_matches(w)
    &&& attrs_wf_from(spec_fixed(w), w_first(w))
}

/// The record's flags field.
pub open spec fn w_flags(w: Seq<u8>) -> int {
    le_nat(spec_fixed(w), 0x16, 2) as int
}

/// The record is in use (bit 0 of the flags).
pub open spec fn w_in_use(w: Seq<u8>) -> bool {
    w_flags(w) % 2 == 1
}

/// The record is a directory (bit 1 of the flags).
pub open spec fn w_is_dir(w: Seq<u8>) -> bool {
    (w_flags(w) / 2) % 2 == 1
}

/// The record's own number: from its header when the header carries one,
/// else its ordinal position in the MFT.
pub open spec fn w_recno(w: Seq<u8>, ordinal: u64) -> u64 {
    if spec_usa_offset(w) >= 0x30 {
        le_nat(spec_fixed(w), 0x2C, 4) as u64
    } else {
        ordinal
    }
}

/// Number of attributes of the record buffer.
pub open spec fn w_n_attrs(w: Seq<u8>) -> int {
    attr_count_from(spec_fixed(w), w_first(w)) as int
}

/// Offset of attribute `j` inside the fixed-up buffer.
pub open spec fn w_attr_off(w: Seq<u8>, j: int) -> int {
    attr_off(spec_fixed(w), w_first(w), j)
}

/// Attribute `j` is a resident FILE_NAME attribute.
pub open spec fn w_attr_is_fn(w: Seq<u8>, j: int) -> bool {
    &&& attr_type(spec_fixed(w), w_attr_off(w, j)) == 0x30
    &&& attr_resident(spec_fixed(w), w_attr_off(w, j))
}

/// Start of attribute `j`'s content inside the fixed-up buffer.
pub open spec fn w_fn_content(w: Seq<u8>, j: int) -> int {
    w_attr_off(w, j) + attr_content_off(spec_fixed(w), w_attr_off(w, j))
}

/// Namespace byte of FILE_NAME attribute `j`.
pub open spec fn w_fn_ns(w: Seq<u8>, j: int) -> int {
    spec_fixed(w)[w_fn_content(w, j) + 0x41] as int
}

/// Name of FILE_NAME attribute `j`, as UTF-16 code units.
pub open spec fn w_fn_name(w: Seq<u8>, j: int) -> Seq<u16> {
    utf16_units(
        spec_fixed(w),
        w_fn_content(w, j) + 0x42,
        spec_fixed(w)[w_fn_content(w, j) + 0x40] as nat,
    )
}

/// Parent record number of FILE_NAME attribute `j` (low 48 bits of the
/// parent reference).
pub open spec fn w_fn_parent(w: Seq<u8>, j: int) -> u64 {
    le_nat(spec_fixed(w), w_fn_content(w, j), 6) as u64
}

/// First FILE_NAME attribute at or after `j`, or -1.
pub open spec fn first_fn_from(w: Seq<u8>, j: int) -> int
    decreases w_n_attrs(w) - j,
{
    if j < 0 || j >= w_n_attrs(w) {
        -1
    } else if w_attr_is_fn(w, j) {
        j
    } else {
        first_fn_from(w, j + 1)
    }
}

/// First FILE_NAME attribute at or after `j` whose namespace is not the
/// DOS namespace, or -1.
pub open spec fn first_non_dos_fn_from(w: Seq<u8>, j: int) -> int
    decreases w_n_attrs(w) - j,
{
    if j < 0 || j >= w_n_attrs(w) {
        -1
    } else if w_attr_is_fn(w, j) && w_fn_ns(w, j) != 2 {
        j
    } else {
        first_non_dos_fn_from(w, j + 1)
    }
}

/// The FILE_NAME attribute used for display: the first in a namespace
/// other than DOS, else the first of any namespace, else -1.
pub open spec fn best_fn(w: Seq<u8>) -> int {
    if first_non_dos_fn_from(w, 0) >= 0 {
        first_non_dos_fn_from(w, 0)
    } else {
        first_fn_from(w, 0)
    }
}

/// The record's display name: the best FILE_NAME attribute's name, or
/// empty when the record has none.
pub open spec fn w_best_name(w: Seq<u8>) -> Seq<u16> {
    if best_fn(w) >= 0 {
        w_fn_name(w, best_fn(w))
    } else {
        Seq::empty()
    }
}

/// Parent reference of the best FILE_NAME attribute; zero without one.
pub open spec fn w_best_parent(w: Seq<u8>) -> u64 {
    if best_fn(w) >= 0 {
        w_fn_parent(w, best_fn(w))
    } else {
        0
    }
}

/// One catalog entry, as mathematics: what of an entry the catalog's
/// contract pins down.
pub struct EntryModel {
    pub name: Seq<u16>,
    pub record_number: u64,
    pub is_allocated: bool,
}

/// A record the undelete catalog retains: cleanly decoded, not in use,
/// not a directory, and bearing a non-empty file name.
pub open spec fn retained(w: Seq<u8>) -> bool {
    &&& rec_ok(w)
    &&& !w_in_use(w)
    &&& !w_is_dir(w)
    &&& w_best_name(w).len() > 0
}

/// A record the plain name listing keeps: cleanly decoded with a
/// non-empty file name, whatever its flags.
pub open spec fn named(w: Seq<u8>) -> bool {
    rec_ok(w) && w_best_name(w).len() > 0
}

/// One candidate for undeletion, as presented to the selector.
#[derive(Debug, Clone, PartialEq, Eq)]
pub struct UndeleteEntry {
    /// The file's name — the full resolved path in the catalog, the
    /// bare name in the plain listing — as UTF-16 code units.
    pub filename: Vec<u16>,
    pub record_number: u64,
    pub is_allocated: bool,
}

/// The text a sequence of UTF-16 code units decodes to.
pub uninterp spec fn utf16_text(units: Seq<u16>) -> Seq<char>;

/// Relies on String::from_utf16_lossy of std: the resulting text is a
/// function of the code units alone.
#[verifier::external_body]
fn utf16_lossy_string(units: &Vec<u16>) -> (r: String)
    ensures
        r@ == utf16_text(units@),
{
    String::from_utf16_lossy(units.as_slice())
}

impl UndeleteEntry {
    /// The entry's name as displayable text.
    pub fn display_name(&self) -> (r: String)
        ensures
            r@ == utf16_text(self.filename@),
    {
        utf16_lossy_string(&self.filename)
    }
}

/// The code unit survives path sanitization: everything but the
/// brackets the reconstruction write path cannot keep.
pub open spec fn unit_kept(u: u16) -> bool {
    u != 0x5B && u != 0x5D
}

/// The first `i` code units of `v`, with the bracket characters removed.
pub open spec fn spec_sanitized_prefix(v: Seq<u16>, i: int) -> Seq<u16>
    decreases i,
{
    if i <= 0 {
        Seq::empty()
    } else {
        spec_sanitized_prefix(v, i - 1) + (if unit_kept(v[i - 1]) {
            seq![v[i - 1]]
        } else {
            Seq::empty()
        })
    }
}

/// The code units of `v` with the bracket characters removed.
pub open spec fn spec_sanitized(v: Seq<u16>) -> Seq<u16> {
    spec_sanitized_prefix(v, v.len() as int)
}

/// Strips the characters the host path layer cannot represent — `[` and
/// `]` — from a path's code units; used on the write path only, the
/// catalog keeps names as they were.
pub fn sanitize_units(v: &Vec<u16>) -> (r: Vec<u16>)
    ensures
        r@ == spec_sanitized(v@),
{
    let mut out: Vec<u16> = Vec::new();
    let mut i: usize = 0;
    while i < v.len()
        invariant
            i <= v@.len(),
            out@ == spec_sanitized_prefix(v@, i as int),
        decreases v@.len() - i,
    {
        let u: u16 = v[i];
        if u != 0x5B && u != 0x5D {
            out.push(u);
            proof {
                assert(out@ =~= spec_sanitized_prefix(v@, i + 1));
            }
        } else {
            proof {
                assert(out@ =~= spec_sanitized_prefix(v@, i + 1));
            }
        }
        i = i + 1;
    }
    out
}

/// Number of whole records the MFT buffer holds at `record_size` stride.
pub open spec fn spec_record_count(mft_len: nat, record_size: nat) -> int {
    (mft_len as int) / (record_size as int)
}

/// Record `n`'s window of the MFT buffer.
pub open spec fn window(mft: Seq<u8>, record_size: nat, n: int) -> Seq<u8> {
    mft.subrange(n * record_size, n * record_size + record_size)
}

/// A record index below the count stays within the buffer.
pub proof fn lemma_window_in_bounds(mft_len: nat, record_size: nat, n: int)
    requires
        record_size > 0,
        0 <= n < spec_record_count(mft_len, record_size),
    ensures
        n * record_size + record_size <= mft_len,
        n * record_size >= 0,
{
    let len = mft_len as int;
    let rs = record_size as int;
    assert(n * rs >= 0) by (nonlinear_arith)
        requires
            n >= 0,
            rs > 0,
    ;
    assert((n + 1) * rs <= (len / rs) * rs) by (nonlinear_arith)
        requires
            rs > 0,
            n + 1 <= len / rs,
    ;
    assert((len / rs) * rs <= len) by (nonlinear_arith)
        requires
            rs > 0,
            len >= 0,
    ;
    assert((n + 1) * rs == n * rs + rs) by (nonlinear_arith);
}

/// The MFT held as one buffer, with the record stride it was built for.
#[derive(Debug, Clone, PartialEq)]
pub struct ParserWrapper {
    mft: Vec<u8>,
    record_size: usize,
}

impl ParserWrapper {
    /// The stride covers at least one fixup sector.
    pub closed spec fn wf(self) -> bool {
        self.record_size >= 512
    }

    /// The buffer the wrapper iterates.
    pub closed spec fn spec_mft(self) -> Seq<u8> {
        self.mft@
    }

    /// The stride the wrapper iterates at.
    pub closed spec fn spec_record_size(self) -> nat {
        self.record_size as nat
    }

    /// Wraps an MFT buffer for record-by-record decoding.  A stride
    /// smaller than one sector cannot hold a record and is refused.
    pub fn new(mft: Vec<u8>, record_size: usize) -> (r: Result<ParserWrapper, Error>)
        ensures
            match r {
                Ok(p) => {
                    &&& record_size >= 512
                    &&& p.spec_mft() == mft@
                    &&& p.spec_record_size() == record_size
                    &&& p.wf()
                },
                Err(Error::InvalidRecord) => record_size < 512,
                Err(_) => false,
            },
    {
        if record_size < 512 {
            return Err(Error::InvalidRecord);
        }
        Ok(ParserWrapper { mft, record_size })
    }

    /// How many whole records the buffer holds.
    pub fn record_count(&self) -> (r: usize)
        requires
            self.wf(),
        ensures
            r == spec_record_count(self.spec_mft().len(), self.spec_record_size()),
    {
        self.mft.len() / self.record_size
    }

    /// Copies record `n`'s window out of the buffer.
    fn record_window(&self, n: usize) -> (r: Vec<u8>)
        requires
            self.wf(),
            n < spec_record_count(self.spec_mft().len(), self.spec_record_size()),
        ensures
            r@ == window(self.spec_mft(), self.spec_record_size(), n as int),
            r@.len() == self.spec_record_size(),
    {
        let mlen: usize = self.mft.len();
        proof {
            lemma_window_in_bounds(self.spec_mft().len(), self.spec_record_size(), n as int);
            assert(n * self.record_size + self.record_size <= mlen);
        }
        let start: usize = n * self.record_size;
        let mut out: Vec<u8> = Vec::new();
        let mut i: usize = start;
        let end: usize = start + self.record_size;
        while i < end
            invariant
                start <= i <= end <= self.mft@.len(),
                out@ == self.mft@.subrange(start as int, i as int),
            decreases end - i,
        {
            out.push(self.mft[i]);
            proof {
                assert(out@ =~= self.mft@.subrange(start as int, i + 1));
            }
            i = i + 1;
        }
        out
    }

    /// Decodes record `n` of the MFT.
    ///
    /// `IoError` reports an index beyond the buffer; decode failures
    /// come back as they are.
    pub fn decode_entry(&self, n: u64) -> (r: Result<MftRecord, Error>)
        requires
            self.wf(),
        ensures
            match r {
                Ok(rec) => {
                    &&& n < spec_record_count(self.spec_mft().len(), self.spec_record_size())
                    &&& record_matches(
                        rec,
                        window(self.spec_mft(), self.spec_record_size(), n as int),
                        n,
                    )
                },
                Err(Error::IoError(_)) => n >= spec_record_count(
                    self.spec_mft().len(),
                    self.spec_record_size(),
                ),
                Err(_) => n < spec_record_count(self.spec_mft().len(), self.spec_record_size()),
            },
    {
        let count: usize = self.mft.len() / self.record_size;
        if n >= count as u64 {
            return Err(Error::IoError("record number beyond the MFT".to_owned()));
        }
        let w = self.record_window(n as usize);
        decode_record(&w, n)
    }
}

/// Copies a buffer of code units.
fn copy_units(v: &Vec<u16>) -> (r: Vec<u16>)
    ensures
        r@ == v@,
{
    let mut out: Vec<u16> = Vec::new();
    let mut i: usize = 0;
    while i < v.len()
        invariant
            i <= v@.len(),
            out@ == v@.subrange(0, i as int),
        decreases v@.len() - i,
    {
        out.push(v[i]);
        proof {
            assert(out@ =~= v@.subrange(0, i + 1));
        }
        i = i + 1;
    }
    proof {
        assert(out@ =~= v@);
    }
    out
}

/// Whether the buffer holds the value.
fn contains_u64(v: &Vec<u64>, x: u64) -> (r: bool)
    ensures
        r == v@.contains(x),
{
    let mut i: usize = 0;
    while i < v.len()
        invariant
            i <= v@.len(),
            forall|j: int| 0 <= j < i ==> v@[j] != x,
        decreases v@.len() - i,
    {
        if v[i] == x {
            return true;
        }
        i = i + 1;
    }
    proof {
        assert(!v@.contains(x));
    }
    false
}

/// Picks the display FILE_NAME of a cleanly decoded record: its name and
/// its parent reference; `None` when the record has no FILE_NAME at all.
fn best_file_name(rec: &MftRecord, Ghost(w): Ghost<Seq<u8>>, Ghost(ordinal): Ghost<u64>) -> (r:
    Option<(Vec<u16>, u64)>)
    requires
        record_matches(*rec, w, ordinal),
        !rec.corrupt,
    ensures
        (best_fn(w) >= 0) == (r is Some),
        match r {
            Some(p) => p.0@ == w_best_name(w) && p.1 == w_best_parent(w),
            None => true,
        },
{
    let n: usize = rec.attributes.len();
    proof {
        assert(!crate::record::is_baad_magic(w));
        assert(n == w_n_attrs(w));
    }
    let mut nd_idx: Option<usize> = None;
    let mut fn_idx: Option<usize> = None;
    let mut j: usize = 0;
    while j < n
        invariant
            j <= n == rec.attributes@.len(),
            record_matches(*rec, w, ordinal),
            !crate::record::is_baad_magic(w),
            n == w_n_attrs(w),
            first_non_dos_fn_from(w, 0) == (match nd_idx {
                Some(k) => k as int,
                None => first_non_dos_fn_from(w, j as int),
            }),
            first_fn_from(w, 0) == (match fn_idx {
                Some(k) => k as int,
                None => first_fn_from(w, j as int),
            }),
            nd_idx matches Some(k) ==> k < j && w_attr_is_fn(w, k as int) && w_fn_ns(w, k as int)
                != 2,
            fn_idx matches Some(k) ==> k < j && w_attr_is_fn(w, k as int),
        decreases n - j,
    {
        proof {
            assert(attr_matches(rec.attributes@[j as int], spec_fixed(w), w_attr_off(w, j as int)));
        }
        let a = &rec.attributes[j];
        if a.type_code == 0x30 && a.resident {
            assert(w_attr_is_fn(w, j as int));
            let ns: u8 = match &a.content {
                AttributeContent::FileName(fa) => fa.namespace,
                _ => {
                    proof {
                        assert(false);
                    }
                    0
                },
            };
            assert(ns == w_fn_ns(w, j as int));
            if fn_idx.is_none() {
                fn_idx = Some(j);
            }
            if ns != 2 && nd_idx.is_none() {
                nd_idx = Some(j);
            }
        } else {
            assert(!w_attr_is_fn(w, j as int));
        }
        j = j + 1;
    }
    let best: usize = match nd_idx {
        Some(k) => k,
        None => match fn_idx {
            Some(k) => k,
            None => {
                return None;
            },
        },
    };
    proof {
        assert(best_fn(w) == best);
        assert(attr_matches(rec.attributes@[best as int], spec_fixed(w), w_attr_off(w, best as int)));
        assert(w_attr_is_fn(w, best as int));
    }
    let a = &rec.attributes[best];
    match &a.content {
        AttributeContent::FileName(fa) => Some((copy_units(&fa.name), fa.parent_record)),
        _ => {
            proof {
                assert(false);
            }
            None
        },
    }
}

impl ParserWrapper {
    /// The ancestors' part of a full path: the names of the chain of
    /// parents from `parent` up to the root record, oldest first, each
    /// followed by a separator; `None` when the walk hits a cycle, runs
    /// out of records, or meets an ancestor that is unallocated or
    /// nameless — the caller then falls back to the bare name.
    fn path_prefix(&self, parent: u64, visited: Vec<u64>, fuel: usize) -> (r: Option<Vec<u16>>)
        requires
            self.wf(),
        ensures
            match r {
                Some(p) => spec_path_prefix(
                    self.spec_mft(),
                    self.spec_record_size(),
                    parent,
                    visited@,
                    fuel as nat,
                ) == Some(p@),
                None => spec_path_prefix(
                    self.spec_mft(),
                    self.spec_record_size(),
                    parent,
                    visited@,
                    fuel as nat,
                ) is None,
            },
        decreases fuel,
    {
        if parent == 5 {
            return Some(Vec::new());
        }
        if fuel == 0 {
            return None;
        }
        if contains_u64(&visited, parent) {
            return None;
        }
        let count: usize = self.record_count();
        if parent >= count as u64 {
            return None;
        }
        let w = self.record_window(parent as usize);
        let rec: MftRecord = match decode_record(&w, parent) {
            Ok(rec) => rec,
            Err(_) => {
                return None;
            },
        };
        if rec.corrupt {
            proof {
                assert(!rec_ok(window(self.spec_mft(), self.spec_record_size(), parent as int)));
            }
            return None;
        }
        if !rec.is_allocated() {
            return None;
        }
        let best = best_file_name(&rec, Ghost(w@), Ghost(parent));
        let pair: (Vec<u16>, u64) = match best {
            Some(p) => p,
            None => {
                return None;
            },
        };
        let (name, next_parent) = pair;
        if name.len() == 0 {
            return None;
        }
        let mut visited2 = visited;
        visited2.push(parent);
        match self.path_prefix(next_parent, visited2, fuel - 1) {
            Some(mut p) => {
                let ghost ancestors = p@;
                let mut k: usize = 0;
                while k < name.len()
                    invariant
                        k <= name@.len(),
                        p@ == ancestors + name@.subrange(0, k as int),
                    decreases name@.len() - k,
                {
                    p.push(name[k]);
                    proof {
                        assert(p@ =~= ancestors + name@.subrange(0, k + 1));
                    }
                    k = k + 1;
                }
                p.push(0x2F);
                proof {
                    assert(name@.subrange(0, name@.len() as int) =~= name@);
                    assert(p@ =~= ancestors + name@ + seq![0x2Fu16]);
                }
                Some(p)
            },
            None => None,
        }
    }
}

/// The ancestors' part of a full path, walked through the MFT bytes: for
/// the chain of parents from `parent` up to the root record 5, each
/// ancestor's display name followed by a separator, oldest first.  `None`
/// when the walk would cycle, leave the MFT, or meet an ancestor that is
/// undecodable, unallocated or nameless.
pub open spec fn spec_path_prefix(
    mft: Seq<u8>,
    rs: nat,
    parent: u64,
    visited: Seq<u64>,
    fuel: nat,
) -> Option<Seq<u16>>
    decreases fuel,
{
    if parent == 5 {
        Some(Seq::empty())
    } else if fuel == 0 {
        None
    } else if visited.contains(parent) {
        None
    } else if parent >= spec_record_count(mft.len(), rs) {
        None
    } else {
        let w = window(mft, rs, parent as int);
        if !rec_ok(w) || !w_in_use(w) || w_best_name(w).len() == 0 {
            None
        } else {
            match spec_path_prefix(
                mft,
                rs,
                w_best_parent(w),
                visited.push(parent),
                (fuel - 1) as nat,
            ) {
                Some(p) => Some(p + w_best_name(w) + seq![0x2Fu16]),
                None => None,
            }
        }
    }
}

/// The catalog name of record `n`: its full path when every ancestor up
/// to the root is reachable, allocated and named, else the bare name.
pub open spec fn spec_entry_name(mft: Seq<u8>, rs: nat, n: int) -> Seq<u16> {
    let w = window(mft, rs, n);
    let cnt = spec_record_count(mft.len(), rs);
    match spec_path_prefix(
        mft,
        rs,
        w_best_parent(w),
        seq![w_recno(w, n as u64)],
        cnt as nat,
    ) {
        Some(p) => p + w_best_name(w),
        None => w_best_name(w),
    }
}

/// The plain name listing, from record `n` on: one entry per cleanly
/// decoded record with a non-empty name, in MFT order, carrying the bare
/// display name.
pub open spec fn spec_names(mft: Seq<u8>, rs: nat, n: int) -> Seq<EntryModel>
    decreases spec_record_count(mft.len(), rs) - n,
{
    if n < 0 || n >= spec_record_count(mft.len(), rs) {
        Seq::empty()
    } else {
        let w = window(mft, rs, n);
        (if named(w) {
            seq![
                EntryModel {
                    name: w_best_name(w),
                    record_number: w_recno(w, n as u64),
                    is_allocated: w_in_use(w),
                },
            ]
        } else {
            Seq::empty()
        }) + spec_names(mft, rs, n + 1)
    }
}

/// The undelete catalog, from record `n` on: one entry per retained
/// record, in MFT order, carrying the resolved path.
pub open spec fn spec_catalog(mft: Seq<u8>, rs: nat, n: int) -> Seq<EntryModel>
    decreases spec_record_count(mft.len(), rs) - n,
{
    if n < 0 || n >= spec_record_count(mft.len(), rs) {
        Seq::empty()
    } else {
        let w = window(mft, rs, n);
        (if retained(w) {
            seq![
                EntryModel {
                    name: spec_entry_name(mft, rs, n),
                    record_number: w_recno(w, n as u64),
                    is_allocated: w_in_use(w),
                },
            ]
        } else {
            Seq::empty()
        }) + spec_catalog(mft, rs, n + 1)
    }
}

/// The entries carry exactly the data of the models, in the same order.
pub open spec fn models_match(entries: Seq<UndeleteEntry>, models: Seq<EntryModel>) -> bool {
    &&& entries.len() == models.len()
    &&& forall|k: int|
        0 <= k < entries.len() ==> (#[trigger] entries[k]).filename@ == models[k].name
            && entries[k].record_number == models[k].record_number && entries[k].is_allocated
            == models[k].is_allocated
}

/// The models of a sequence of entries.
pub open spec fn models_of(entries: Seq<UndeleteEntry>) -> Seq<EntryModel> {
    Seq::new(
        entries.len(),
        |k: int|
            EntryModel {
                name: entries[k].filename@,
                record_number: entries[k].record_number,
                is_allocated: entries[k].is_allocated,
            },
    )
}

impl ParserWrapper {
    /// Lists every cleanly decoded record that still bears a file name,
    /// whatever its flags, under its bare display name.
    pub fn get_all_entry_names(&self) -> (r: Vec<UndeleteEntry>)
        requires
            self.wf(),
        ensures
            models_match(r@, spec_names(self.spec_mft(), self.spec_record_size(), 0)),
    {
        let ghost mft = self.spec_mft();
        let ghost rs = self.spec_record_size();
        let count: usize = self.record_count();
        let mut out: Vec<UndeleteEntry> = Vec::new();
        let mut n: usize = 0;
        while n < count
            invariant
                n <= count == spec_record_count(mft.len(), rs),
                mft == self.spec_mft(),
                rs == self.spec_record_size(),
                self.wf(),
                spec_names(mft, rs, 0) =~= models_of(out@) + spec_names(mft, rs, n as int),
            decreases count - n,
        {
            let ghost w = window(mft, rs, n as int);
            let ghost prev = out@;
            let wv = self.record_window(n);
            match decode_record(&wv, n as u64) {
                Ok(rec) => {
                    if !rec.corrupt {
                        let best = best_file_name(&rec, Ghost(wv@), Ghost(n as u64));
                        match best {
                            Some(pair) => {
                                let (name, _parent) = pair;
                                if name.len() > 0 {
                                    assert(named(w));
                                    out.push(
                                        UndeleteEntry {
                                            filename: name,
                                            record_number: rec.record_number,
                                            is_allocated: rec.is_allocated(),
                                        },
                                    );
                                    proof {
                                        assert(models_of(out@) =~= models_of(prev) + seq![
                                            EntryModel {
                                                name: w_best_name(w),
                                                record_number: w_recno(w, n as u64),
                                                is_allocated: w_in_use(w),
                                            },
                                        ]);
                                    }
                                } else {
                                    assert(!named(w));
                                }
                            },
                            None => {
                                assert(!named(w));
                            },
                        }
                    } else {
                        assert(!rec_ok(w));
                    }
                },
                Err(_) => {
                    assert(!rec_ok(w));
                },
            }
            proof {
                assert(spec_names(mft, rs, 0) =~= models_of(out@) + spec_names(
                    mft,
                    rs,
                    n + 1,
                ));
            }
            n = n + 1;
        }
        proof {
            assert(spec_names(mft, rs, count as int) =~= Seq::<EntryModel>::empty());
            assert(spec_names(mft, rs, 0) =~= models_of(out@));
        }
        out
    }

    /// Builds the undelete catalog: every unallocated, non-directory
    /// record bearing a file name, in MFT order, under its resolved path.
    pub fn build_catalog(&self) -> (r: Vec<UndeleteEntry>)
        requires
            self.wf(),
        ensures
            models_match(r@, spec_catalog(self.spec_mft(), self.spec_record_size(), 0)),
    {
        let ghost mft = self.spec_mft();
        let ghost rs = self.spec_record_size();
        let count: usize = self.record_count();
        let mut out: Vec<UndeleteEntry> = Vec::new();
        let mut n: usize = 0;
        while n < count
            invariant
                n <= count == spec_record_count(mft.len(), rs),
                mft == self.spec_mft(),
                rs == self.spec_record_size(),
                self.wf(),
                spec_catalog(mft, rs, 0) =~= models_of(out@) + spec_catalog(mft, rs, n as int),
            decreases count - n,
        {
            let ghost w = window(mft, rs, n as int);
            let ghost prev = out@;
            let wv = self.record_window(n);
            match decode_record(&wv, n as u64) {
                Ok(rec) => {
                    if !rec.corrupt && !rec.is_allocated() && !rec.is_dir() {
                        let best = best_file_name(&rec, Ghost(wv@), Ghost(n as u64));
                        match best {
                            Some(pair) => {
                                let (name, parent) = pair;
                                if name.len() > 0 {
                                    assert(retained(w));
                                    let mut visited: Vec<u64> = Vec::new();
                                    visited.push(rec.record_number);
                                    proof {
                                        assert(visited@ =~= seq![w_recno(w, n as u64)]);
                                    }
                                    let full: Vec<u16> = match self.path_prefix(
                                        parent,
                                        visited,
                                        count,
                                    ) {
                                        Some(mut p) => {
                                            let ghost ancestors = p@;
                                            let mut k: usize = 0;
                                            while k < name.len()
                                                invariant
                                                    k <= name@.len(),
                                                    p@ == ancestors + name@.subrange(0, k as int),
                                                decreases name@.len() - k,
                                            {
                                                p.push(name[k]);
                                                proof {
                                                    assert(p@ =~= ancestors + name@.subrange(
                                                        0,
                                                        k + 1,
                                                    ));
                                                }
                                                k = k + 1;
                                            }
                                            proof {
                                                assert(name@.subrange(0, name@.len() as int)
                                                    =~= name@);
                                                assert(p@ == ancestors + name@);
                                            }
                                            p
                                        },
                                        None => name,
                                    };
                                    assert(full@ == spec_entry_name(mft, rs, n as int));
                                    out.push(
                                        UndeleteEntry {
                                            filename: full,
                                            record_number: rec.record_number,
                                            is_allocated: rec.is_allocated(),
                                        },
                                    );
                                    proof {
                                        assert(models_of(out@) =~= models_of(prev) + seq![
                                            EntryModel {
                                                name: spec_entry_name(mft, rs, n as int),
                                                record_number: w_recno(w, n as u64),
                                                is_allocated: w_in_use(w),
                                            },
                                        ]);
                                    }
                                } else {
                                    assert(!retained(w));
                                }
                            },
                            None => {
                                assert(!retained(w));
                            },
                        }
                    } else {
                        assert(!retained(w));
                    }
                },
                Err(_) => {
                    assert(!rec_ok(w));
                },
            }
            proof {
                assert(spec_catalog(mft, rs, 0) =~= models_of(out@) + spec_catalog(
                    mft,
                    rs,
                    n + 1,
                ));
            }
            n = n + 1;
        }
        proof {
            assert(spec_catalog(mft, rs, count as int) =~= Seq::<EntryModel>::empty());
            assert(spec_catalog(mft, rs, 0) =~= models_of(out@));
        }
        out
    }
}

/// Idempotence of the dry run: two catalog builds over the same MFT
/// bytes, at the same record size, present the same candidates in the
/// same order.
pub proof fn lemma_dry_run_idempotent(
    mft: Seq<u8>,
    rs: nat,
    r1: Seq<UndeleteEntry>,
    r2: Seq<UndeleteEntry>,
)
    requires
        models_match(r1, spec_catalog(mft, rs, 0)),
        models_match(r2, spec_catalog(mft, rs, 0)),
    ensures
        r1.len() == r2.len(),
        forall|k: int|
            0 <= k < r1.len() ==> (#[trigger] r1[k]).filename@ == r2[k].filename@ && r1[
                k
            ].record_number == r2[k].record_number && r1[k].is_allocated == r2[k].is_allocated,
{
}

/// Every retained record's catalog path ends in its best-namespace
/// FILE_NAME's name.
pub proof fn lemma_path_ends_in_best_name(mft: Seq<u8>, rs: nat, n: int)
    requires
        retained(window(mft, rs, n)),
    ensures
        ({
            let name = w_best_name(window(mft, rs, n));
            let path = spec_entry_name(mft, rs, n);
            &&& path.len() >= name.len()
            &&& path.subrange(path.len() - name.len(), path.len() as int) == name
        }),
{
    let w = window(mft, rs, n);
    let name = w_best_name(w);
    let path = spec_entry_name(mft, rs, n);
    let cnt = spec_record_count(mft.len(), rs);
    match spec_path_prefix(mft, rs, w_best_parent(w), seq![w_recno(w, n as u64)], cnt as nat) {
        Some(p) => {
            assert(path == p + name);
            assert(path.subrange(path.len() - name.len(), path.len() as int) =~= name);
        },
        None => {
            assert(path == name);
            assert(path.subrange(0, path.len() as int) =~= name);
        },
    }
}

} // verus!
