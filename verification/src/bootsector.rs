//! Boot-sector decoding and file-system classification.
//!
//! The first 512 bytes of a medium identify the file system; for NTFS they
//! also carry the volume geometry that every later stage depends on.

use vstd::prelude::*;
use vstd::arithmetic::power2::{
    pow2,
    lemma2_to64,
    lemma2_to64_rest,
    lemma_pow2_strictly_increases,
    lemma_pow2_unfold,
};
use crate::bytes::{le_nat, le_int, read_u16, read_u32, read_u64, read_le_signed};
use crate::bytes::{lemma_pow256_values, lemma_le_nat_bound};

verus! {

/// The geometry fields of an NTFS boot sector, decoded little-endian.
#[derive(Debug, Clone, PartialEq)]
pub struct NtfsBootSector {
    pub oem_id: Vec<u8>,
    pub bytes_per_sector: u16,
    pub sectors_per_cluster: u8,
    pub reserved_sectors: u16,
    pub media_descriptor: u8,
    pub sectors_per_track: u16,
    pub num_heads: u16,
    pub hidden_sectors: u32,
    pub total_sectors: u64,
    pub logical_cluster_mft: u64,
    pub logical_cluster_mft_mirror: u64,
    pub clusters_per_file_record_segment: i32,
    pub clusters_per_index_buffer: u8,
    pub volume_serial_number: u64,
    pub checksum: u32,
}

impl NtfsBootSector {
    /// Each field equals the little-endian value of its window of `b`.
    pub open spec fn is_decode_of(self, b: Seq<u8>) -> bool {
        &&& self.oem_id@ == b.subrange(3, 11)
        &&& self.bytes_per_sector == le_nat(b, 0x0B, 2)
        &&& self.sectors_per_cluster == b[0x0D]
        &&& self.reserved_sectors == le_nat(b, 0x0E, 2)
        &&& self.media_descriptor == b[0x15]
        &&& self.sectors_per_track == le_nat(b, 0x18, 2)
        &&& self.num_heads == le_nat(b, 0x1A, 2)
        &&& self.hidden_sectors == le_nat(b, 0x1C, 4)
        &&& self.total_sectors == le_nat(b, 0x28, 8)
        &&& self.logical_cluster_mft == le_nat(b, 0x30, 8)
        &&& self.logical_cluster_mft_mirror == le_nat(b, 0x38, 8)
        &&& self.clusters_per_file_record_segment == le_int(b, 0x40, 4)
        &&& self.clusters_per_index_buffer == b[0x44]
        &&& self.volume_serial_number == le_nat(b, 0x48, 8)
        &&& self.checksum == le_nat(b, 0x50, 4)
    }

    /// Decodes the boot sector's fields from its first 512 bytes.
    pub fn from_bytes(b: &[u8]) -> (r: Self)
        requires
            b@.len() >= 512,
        ensures
            r.is_decode_of(b@),
    {
        proof {
            lemma_pow256_values();
            lemma_le_nat_bound(b@, 0x0B, 2);
            lemma_le_nat_bound(b@, 0x0E, 2);
            lemma_le_nat_bound(b@, 0x18, 2);
            lemma_le_nat_bound(b@, 0x1A, 2);
            lemma_le_nat_bound(b@, 0x1C, 4);
            lemma_le_nat_bound(b@, 0x50, 4);
        }
        let mut oem_id: Vec<u8> = Vec::new();
        let mut i: usize = 3;
        while i < 11
            invariant
                3 <= i <= 11,
                b@.len() >= 512,
                oem_id@ == b@.subrange(3, i as int),
            decreases 11 - i,
        {
            oem_id.push(b[i]);
            proof {
                assert(oem_id@ =~= b@.subrange(3, i + 1));
            }
            i = i + 1;
        }
        let cfrs = read_le_signed(b, 0x40, 4);
        proof {
            lemma_pow256_values();
        }
        NtfsBootSector {
            oem_id,
            bytes_per_sector: read_u16(b, 0x0B),
            sectors_per_cluster: b[0x0D],
            reserved_sectors: read_u16(b, 0x0E),
            media_descriptor: b[0x15],
            sectors_per_track: read_u16(b, 0x18),
            num_heads: read_u16(b, 0x1A),
            hidden_sectors: read_u32(b, 0x1C),
            total_sectors: read_u64(b, 0x28),
            logical_cluster_mft: read_u64(b, 0x30),
            logical_cluster_mft_mirror: read_u64(b, 0x38),
            clusters_per_file_record_segment: cfrs as i32,
            clusters_per_index_buffer: b[0x44],
            volume_serial_number: read_u64(b, 0x48),
            checksum: read_u32(b, 0x50),
        }
    }

    /// Bytes per cluster: bytes per sector times sectors per cluster.
    pub open spec fn spec_cluster_size(self) -> nat {
        (self.bytes_per_sector * self.sectors_per_cluster) as nat
    }

    /// Computes the cluster size in bytes.
    pub fn cluster_size(&self) -> (r: u64)
        ensures
            r == self.spec_cluster_size(),
            r <= 0xFEFF01,
    {
        assert(self.bytes_per_sector * self.sectors_per_cluster <= 65535 * 255)
            by (nonlinear_arith)
            requires
                self.bytes_per_sector <= 65535,
                self.sectors_per_cluster <= 255,
        ;
        (self.bytes_per_sector as u64) * (self.sectors_per_cluster as u64)
    }

    /// Bytes per MFT file record segment.  A positive count is in clusters;
    /// a negative count encodes a power-of-two byte size; zero means the
    /// field is absent and the size defaults to 1024 bytes.
    pub open spec fn spec_record_size(self) -> nat {
        let v = self.clusters_per_file_record_segment;
        if v > 0 {
            (v * self.spec_cluster_size()) as nat
        } else if v == 0 {
            1024
        } else {
            pow2((-v) as nat)
        }
    }

    /// The geometry invariants the rest of the pipeline relies on.
    pub open spec fn wf(self) -> bool {
        &&& (self.bytes_per_sector == 512 || self.bytes_per_sector == 1024
            || self.bytes_per_sector == 2048 || self.bytes_per_sector == 4096)
        &&& (self.sectors_per_cluster == 1 || self.sectors_per_cluster == 2
            || self.sectors_per_cluster == 4 || self.sectors_per_cluster == 8
            || self.sectors_per_cluster == 16 || self.sectors_per_cluster == 32
            || self.sectors_per_cluster == 64 || self.sectors_per_cluster == 128)
        &&& self.clusters_per_file_record_segment >= -63
    }

    /// Decides whether the decoded geometry is well formed.
    pub fn is_well_formed(&self) -> (r: bool)
        ensures
            r == self.wf(),
    {
        let bps = self.bytes_per_sector;
        let spc = self.sectors_per_cluster;
        (bps == 512 || bps == 1024 || bps == 2048 || bps == 4096) && (spc == 1 || spc == 2 || spc
            == 4 || spc == 8 || spc == 16 || spc == 32 || spc == 64 || spc == 128)
            && self.clusters_per_file_record_segment >= -63
    }

    /// Computes the record size in bytes.
    pub fn record_size(&self) -> (r: u64)
        requires
            self.wf(),
        ensures
            r == self.spec_record_size(),
    {
        let v = self.clusters_per_file_record_segment;
        if v > 0 {
            let cs = self.cluster_size();
            assert((v as u64) * cs <= 0x8000_0000 * 0x100_0000) by (nonlinear_arith)
                requires
                    0 < v <= 0x8000_0000,
                    cs <= 0x100_0000,
            ;
            (v as u64) * cs
        } else if v == 0 {
            1024
        } else {
            pow2_u64((-v) as u64)
        }
    }

    /// The absolute byte offset of the MFT on the medium, or `None` when
    /// the product of MFT cluster number and cluster size cannot be
    /// represented in 64 bits.
    pub fn mft_offset(&self) -> (r: Option<u64>)
        ensures
            match r {
                Some(o) => o == self.logical_cluster_mft * self.spec_cluster_size(),
                None => self.logical_cluster_mft * self.spec_cluster_size() > u64::MAX,
            },
    {
        let cs = self.cluster_size();
        let lcn = self.logical_cluster_mft;
        assert(lcn * cs <= 0xFFFF_FFFF_FFFF_FFFF * 0xFF_FFFF) by (nonlinear_arith)
            requires
                lcn <= 0xFFFF_FFFF_FFFF_FFFF,
                cs <= 0xFF_FFFF,
        ;
        let wide: u128 = (lcn as u128) * (cs as u128);
        if wide > u64::MAX as u128 {
            None
        } else {
            Some(wide as u64)
        }
    }
}

/// Computes 2 to the power `e`.
pub fn pow2_u64(e: u64) -> (r: u64)
    requires
        e <= 63,
    ensures
        r == pow2(e as nat),
{
    proof {
        lemma2_to64();
        lemma2_to64_rest();
    }
    let mut acc: u64 = 1;
    let mut i: u64 = 0;
    while i < e
        invariant
            i <= e <= 63,
            acc == pow2(i as nat),
            pow2(64) == 0x1_0000_0000_0000_0000,
        decreases e - i,
    {
        proof {
            lemma_pow2_unfold((i + 1) as nat);
            lemma_pow2_strictly_increases((i + 1) as nat, 64);
        }
        acc = acc * 2;
        i = i + 1;
    }
    acc
}

/// The file systems the classifier can tell apart.
#[derive(Debug, Clone, PartialEq)]
pub enum FileSystems {
    NTFS(NtfsBootSector),
    FAT,
    EXT,
    ISO9660,
    HFS,
    UNKNOWN,
}

/// "NTFS" stands at offset 3 of the boot sector.
pub open spec fn is_ntfs_sig(b: Seq<u8>) -> bool {
    b[3] == 0x4E && b[4] == 0x54 && b[5] == 0x46 && b[6] == 0x53
}

/// "CD001" stands at absolute offset 32769 of the medium; `iso` holds the
/// bytes read there, empty when the medium is too short.
pub open spec fn is_iso_sig(iso: Seq<u8>) -> bool {
    iso.len() >= 5 && iso[0] == 0x43 && iso[1] == 0x44 && iso[2] == 0x30 && iso[3] == 0x30
        && iso[4] == 0x31
}

/// "FAT" stands at offset 36 of the boot sector.
pub open spec fn is_fat_sig(b: Seq<u8>) -> bool {
    b[36] == 0x46 && b[37] == 0x41 && b[38] == 0x54
}

/// "H+", "HFSJ" or "HFS+" stands at offset 0 of the boot sector.
pub open spec fn is_hfs_sig(b: Seq<u8>) -> bool {
    (b[0] == 0x48 && b[1] == 0x2B) || (b[0] == 0x48 && b[1] == 0x46 && b[2] == 0x53 && (b[3]
        == 0x4A || b[3] == 0x2B))
}

/// The ext superblock magic 0x53 0xEF stands at offset 56.
pub open spec fn is_ext_sig(b: Seq<u8>) -> bool {
    b[56] == 0x53 && b[57] == 0xEF
}

impl FileSystems {
    /// The classifier's verdict for a boot sector `b` and the window `iso`
    /// read at absolute offset 32769, in signature precedence.
    pub open spec fn classifies(self, b: Seq<u8>, iso: Seq<u8>) -> bool {
        if is_ntfs_sig(b) {
            self matches FileSystems::NTFS(bs) && bs.is_decode_of(b)
        } else if is_iso_sig(iso) {
            self == FileSystems::ISO9660
        } else if is_fat_sig(b) {
            self == FileSystems::FAT
        } else if is_hfs_sig(b) {
            self == FileSystems::HFS
        } else if is_ext_sig(b) {
            self == FileSystems::EXT
        } else {
            self == FileSystems::UNKNOWN
        }
    }

    /// The file system's name.
    pub open spec fn spec_name(self) -> Seq<char> {
        match self {
            FileSystems::NTFS(_) => "NTFS"@,
            FileSystems::FAT => "FAT"@,
            FileSystems::EXT => "EXT"@,
            FileSystems::ISO9660 => "ISO9660"@,
            FileSystems::HFS => "HFS"@,
            FileSystems::UNKNOWN => "UNKNOWN"@,
        }
    }

    /// Returns the file system's name.
    pub fn name(&self) -> (r: String)
        ensures
            r@ == self.spec_name(),
    {
        match self {
            FileSystems::NTFS(_) => "NTFS".to_owned(),
            FileSystems::FAT => "FAT".to_owned(),
            FileSystems::EXT => "EXT".to_owned(),
            FileSystems::ISO9660 => "ISO9660".to_owned(),
            FileSystems::HFS => "HFS".to_owned(),
            FileSystems::UNKNOWN => "UNKNOWN".to_owned(),
        }
    }
}

/// The name of whatever file system the two windows classify as.
pub open spec fn spec_classified_name(b: Seq<u8>, iso: Seq<u8>) -> Seq<char> {
    if is_ntfs_sig(b) {
        "NTFS"@
    } else if is_iso_sig(iso) {
        "ISO9660"@
    } else if is_fat_sig(b) {
        "FAT"@
    } else if is_hfs_sig(b) {
        "HFS"@
    } else if is_ext_sig(b) {
        "EXT"@
    } else {
        "UNKNOWN"@
    }
}

/// Classifies the file system from the boot sector `boot` and the window
/// `iso` read at absolute offset 32769 (empty when the medium is shorter).
pub fn detect_file_system(boot: &[u8], iso: &[u8]) -> (r: FileSystems)
    requires
        boot@.len() >= 512,
    ensures
        r.classifies(boot@, iso@),
{
    if boot[3] == 0x4E && boot[4] == 0x54 && boot[5] == 0x46 && boot[6] == 0x53 {
        FileSystems::NTFS(NtfsBootSector::from_bytes(boot))
    } else if iso.len() >= 5 && iso[0] == 0x43 && iso[1] == 0x44 && iso[2] == 0x30 && iso[3]
        == 0x30 && iso[4] == 0x31 {
        FileSystems::ISO9660
    } else if boot[36] == 0x46 && boot[37] == 0x41 && boot[38] == 0x54 {
        FileSystems::FAT
    } else if (boot[0] == 0x48 && boot[1] == 0x2B) || (boot[0] == 0x48 && boot[1] == 0x46
        && boot[2] == 0x53 && (boot[3] == 0x4A || boot[3] == 0x2B)) {
        FileSystems::HFS
    } else if boot[56] == 0x53 && boot[57] == 0xEF {
        FileSystems::EXT
    } else {
        FileSystems::UNKNOWN
    }
}

} // verus!
