use ntfs_undelete::bootsector::{detect_file_system, FileSystems, NtfsBootSector};
use ntfs_undelete::errors::Error;
use ntfs_undelete::reader::Reader;

fn ntfs_boot_sector() -> Vec<u8> {
    let mut b = vec![0u8; 512];
    b[3..11].copy_from_slice(b"NTFS    ");
    b[0x0B] = 0x00; // bytes per sector = 512
    b[0x0C] = 0x02;
    b[0x0D] = 8; // sectors per cluster
    b[0x0E] = 0x01; // reserved sectors = 1
    b[0x15] = 0xF8; // media descriptor
    b[0x18] = 0x3F; // sectors per track = 63
    b[0x1A] = 0xFF; // heads = 255
    b[0x28] = 0x00;
    b[0x29] = 0x08; // total sectors = 0x0800
    b[0x30] = 0x04; // MFT at LCN 4
    b[0x38] = 0x02; // MFT mirror at LCN 2
    b[0x40..0x44].copy_from_slice(&(-10i32).to_le_bytes()); // record size 1 << 10 = 1024
    b[0x44] = 0x01;
    b[0x48] = 0xEF;
    b[0x49] = 0xBE; // volume serial
    b
}

#[test]
fn ntfs_signature_classifies_and_decodes_geometry() {
    let boot = ntfs_boot_sector();
    let fs = detect_file_system(&boot, &[]);
    match fs {
        FileSystems::NTFS(bs) => {
            assert_eq!(bs.bytes_per_sector, 512);
            assert_eq!(bs.sectors_per_cluster, 8);
            assert_eq!(bs.cluster_size(), 4096);
            assert_eq!(bs.reserved_sectors, 1);
            assert_eq!(bs.media_descriptor, 0xF8);
            assert_eq!(bs.sectors_per_track, 63);
            assert_eq!(bs.num_heads, 255);
            assert_eq!(bs.total_sectors, 0x0800);
            assert_eq!(bs.logical_cluster_mft, 4);
            assert_eq!(bs.logical_cluster_mft_mirror, 2);
            assert_eq!(bs.clusters_per_file_record_segment, -10);
            assert_eq!(bs.volume_serial_number, 0xBEEF);
            assert!(bs.is_well_formed());
            assert_eq!(bs.record_size(), 1024);
        }
        other => panic!("expected NTFS, got {}", other.name()),
    }
}

#[test]
fn mft_locator_multiplies_lcn_by_cluster_size() {
    let boot = ntfs_boot_sector();
    let reader = Reader::from_path(b"disk.img".to_vec(), &boot, &Vec::new()).unwrap();
    assert_eq!(reader.locate_mft(), Some(4 * 4096));
}

#[test]
fn fat_signature_is_refused_by_name() {
    let mut boot = vec![0u8; 512];
    boot[36..39].copy_from_slice(b"FAT");
    let fs = detect_file_system(&boot, &[]);
    assert_eq!(fs, FileSystems::FAT);
    match Reader::from_path(b"disk.img".to_vec(), &boot, &Vec::new()) {
        Err(Error::UnsupportedFileSystem(name)) => assert_eq!(name, "FAT"),
        other => panic!("expected UnsupportedFileSystem, got {:?}", other),
    }
}

#[test]
fn remaining_signatures_classify_in_precedence() {
    let mut iso = vec![0u8; 512];
    let window = b"CD001".to_vec();
    assert_eq!(detect_file_system(&iso, &window), FileSystems::ISO9660);
    // NTFS wins over the ISO window.
    iso = ntfs_boot_sector();
    assert!(matches!(
        detect_file_system(&iso, &window),
        FileSystems::NTFS(_)
    ));

    let mut hfs = vec![0u8; 512];
    hfs[0] = b'H';
    hfs[1] = b'+';
    assert_eq!(detect_file_system(&hfs, &[]), FileSystems::HFS);
    let mut hfsj = vec![0u8; 512];
    hfsj[0..4].copy_from_slice(b"HFSJ");
    assert_eq!(detect_file_system(&hfsj, &[]), FileSystems::HFS);

    let mut ext = vec![0u8; 512];
    ext[56] = 0x53;
    ext[57] = 0xEF;
    assert_eq!(detect_file_system(&ext, &[]), FileSystems::EXT);

    let blank = vec![0u8; 512];
    assert_eq!(detect_file_system(&blank, &[]), FileSystems::UNKNOWN);
    assert_eq!(FileSystems::UNKNOWN.name(), "UNKNOWN");
}

#[test]
fn boot_sector_decode_is_little_endian() {
    let mut b = vec![0u8; 512];
    b[0x0B] = 0x34;
    b[0x0C] = 0x12; // 0x1234
    b[0x30] = 0x78;
    b[0x31] = 0x56; // 0x5678
    let bs = NtfsBootSector::from_bytes(&b);
    assert_eq!(bs.bytes_per_sector, 0x1234);
    assert_eq!(bs.logical_cluster_mft, 0x5678);
    assert_eq!(bs.oem_id, vec![0u8; 8]);
}

#[test]
fn record_size_honors_positive_cluster_counts() {
    let mut b = ntfs_boot_sector();
    b[0x40..0x44].copy_from_slice(&2i32.to_le_bytes()); // 2 clusters per record segment
    let bs = NtfsBootSector::from_bytes(&b);
    assert!(bs.is_well_formed());
    assert_eq!(bs.record_size(), 2 * 4096);
}
