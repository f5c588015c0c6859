use ntfs_undelete::catalog::{sanitize_units, ParserWrapper};
use ntfs_undelete::datarun::{parse_runs, sum_clusters, DataRunEntry};
use ntfs_undelete::reader::{
    find_block_device, find_signature_in_window, path_kind, resolve_device_path, PathKind, Reader,
};
use ntfs_undelete::reconstruct::{
    assemble_stream, extent_read_plan, resolve_runs, runs_match_allocation, DataPlan,
};
use ntfs_undelete::errors::Error;

fn put16(b: &mut [u8], off: usize, v: u16) {
    b[off..off + 2].copy_from_slice(&v.to_le_bytes());
}

fn put32(b: &mut [u8], off: usize, v: u32) {
    b[off..off + 4].copy_from_slice(&v.to_le_bytes());
}

fn put64(b: &mut [u8], off: usize, v: u64) {
    b[off..off + 8].copy_from_slice(&v.to_le_bytes());
}

fn utf16(s: &str) -> Vec<u16> {
    s.encode_utf16().collect()
}

fn file_name_attr(parent: u64, name: &str) -> Vec<u8> {
    let units = utf16(name);
    let content_len = 0x42 + 2 * units.len();
    let attr_len = 24 + content_len;
    let mut a = vec![0u8; attr_len];
    put32(&mut a, 0, 0x30);
    put32(&mut a, 4, attr_len as u32);
    put32(&mut a, 16, content_len as u32);
    put16(&mut a, 20, 24);
    let c = 24;
    put64(&mut a, c, parent);
    a[c + 0x40] = units.len() as u8;
    a[c + 0x41] = 1;
    for (i, u) in units.iter().enumerate() {
        put16(&mut a, c + 0x42 + 2 * i, *u);
    }
    a
}

fn resident_data_attr(data: &[u8]) -> Vec<u8> {
    let attr_len = 24 + data.len();
    let mut a = vec![0u8; attr_len];
    put32(&mut a, 0, 0x80);
    put32(&mut a, 4, attr_len as u32);
    put32(&mut a, 16, data.len() as u32);
    put16(&mut a, 20, 24);
    a[24..].copy_from_slice(data);
    a
}

fn non_resident_data_attr(runs: &[u8], alloc: u64, real: u64) -> Vec<u8> {
    let attr_len = 64 + runs.len();
    let mut a = vec![0u8; attr_len];
    put32(&mut a, 0, 0x80);
    put32(&mut a, 4, attr_len as u32);
    a[8] = 1;
    put64(&mut a, 24, alloc / 4096 - 1);
    put16(&mut a, 32, 64);
    put64(&mut a, 40, alloc);
    put64(&mut a, 48, real);
    put64(&mut a, 56, real);
    a[64..].copy_from_slice(runs);
    a
}

fn build_record(record_number: u32, flags: u16, attrs: &[Vec<u8>]) -> Vec<u8> {
    let mut b = vec![0u8; 1024];
    b[0..4].copy_from_slice(b"FILE");
    put16(&mut b, 4, 0x30);
    put16(&mut b, 6, 3);
    put16(&mut b, 0x10, 1);
    put16(&mut b, 0x12, 1);
    put16(&mut b, 0x14, 0x38);
    put16(&mut b, 0x16, flags);
    put32(&mut b, 0x2C, record_number);
    let mut off = 0x38;
    for a in attrs {
        b[off..off + a.len()].copy_from_slice(a);
        off += a.len();
    }
    put32(&mut b, off, 0xFFFF_FFFF);
    put16(&mut b, 0x30, 0x0001);
    for k in 1..3usize {
        let tail = 512 * k - 2;
        b[0x30 + 2 * k] = b[tail];
        b[0x30 + 2 * k + 1] = b[tail + 1];
        put16(&mut b, tail, 0x0001);
    }
    b
}

fn ntfs_boot_sector(mft_lcn: u64) -> Vec<u8> {
    let mut b = vec![0u8; 512];
    b[3..11].copy_from_slice(b"NTFS    ");
    b[0x0B] = 0x00;
    b[0x0C] = 0x02; // 512 bytes per sector
    b[0x0D] = 8; // 8 sectors per cluster => 4096-byte clusters
    put64(&mut b, 0x30, mft_lcn);
    b[0x40..0x44].copy_from_slice(&(-10i32).to_le_bytes()); // record size 1024
    b
}

fn test_reader() -> Reader {
    Reader::from_path(b"disk.img".to_vec(), &ntfs_boot_sector(4), &Vec::new()).unwrap()
}

#[test]
fn run_list_decodes_lengths_and_signed_deltas() {
    // length 2 at delta +10, then length 3 at delta +20.
    let runs = vec![0x11u8, 0x02, 0x0A, 0x11, 0x03, 0x14, 0x00];
    let parsed = parse_runs(&runs, 0, runs.len()).unwrap();
    assert_eq!(
        parsed,
        vec![
            DataRunEntry { cluster_count: 2, lcn_delta: Some(10) },
            DataRunEntry { cluster_count: 3, lcn_delta: Some(20) },
        ]
    );
    assert_eq!(sum_clusters(&parsed), Some(5));
}

#[test]
fn negative_deltas_walk_backwards() {
    // length 1 at delta +100, then length 1 at delta -30 (0xE2 = -30).
    let runs = vec![0x11u8, 0x01, 0x64, 0x11, 0x01, 0xE2, 0x00];
    let parsed = parse_runs(&runs, 0, runs.len()).unwrap();
    assert_eq!(parsed[1].lcn_delta, Some(-30));
    let extents = resolve_runs(&parsed).unwrap();
    assert_eq!(extents[0].lcn, 100);
    assert_eq!(extents[1].lcn, 70);
}

#[test]
fn run_walking_below_zero_is_invalid() {
    let runs = vec![DataRunEntry { cluster_count: 1, lcn_delta: Some(-1) }];
    match resolve_runs(&runs) {
        Err(Error::InvalidRecord) => {}
        other => panic!("expected InvalidRecord, got {:?}", other),
    }
}

#[test]
fn run_totals_are_checked_against_allocated_size() {
    let runs = vec![
        DataRunEntry { cluster_count: 2, lcn_delta: Some(10) },
        DataRunEntry { cluster_count: 3, lcn_delta: Some(20) },
    ];
    assert!(runs_match_allocation(&runs, 4096, 5 * 4096));
    assert!(!runs_match_allocation(&runs, 4096, 4 * 4096));
}

#[test]
fn fragmented_stream_reads_both_extents_and_truncates() {
    let runs = vec![0x11u8, 0x02, 0x0A, 0x11, 0x03, 0x14, 0x00];
    let attrs = vec![
        file_name_attr(5, "frag.bin"),
        non_resident_data_attr(&runs, 5 * 4096, 18000),
    ];
    let record = build_record(0, 0, &attrs);
    let reader = test_reader();
    let rec = ntfs_undelete::record::decode_record(&record, 0).unwrap();
    let plan = reader.read_data_from_entry(&rec).unwrap();
    let (extents, real_size) = match plan {
        DataPlan::NonResident { extents, real_size } => (extents, real_size),
        other => panic!("expected a non-resident plan, got {:?}", other),
    };
    assert_eq!(real_size, 18000);
    let ranges = extent_read_plan(&extents, 4096).unwrap();
    assert_eq!(ranges.len(), 2);
    assert_eq!(ranges[0].offset, 40960);
    assert_eq!(ranges[0].length, 8192);
    assert_eq!(ranges[1].offset, 122880);
    assert_eq!(ranges[1].length, 12288);
    let chunks = vec![vec![0xABu8; 8192], vec![0xCDu8; 12288]];
    let out = assemble_stream(&extents, &chunks, 4096, real_size);
    assert_eq!(out.len(), 18000);
    assert!(out[..8192].iter().all(|&b| b == 0xAB));
    assert!(out[8192..].iter().all(|&b| b == 0xCD));
}

#[test]
fn sparse_middle_run_reads_as_zeros_in_place() {
    // length 2 at +10, a sparse run of 1 cluster, length 3 at +20.
    let runs = vec![0x11u8, 0x02, 0x0A, 0x01, 0x01, 0x11, 0x03, 0x14, 0x00];
    let parsed = parse_runs(&runs, 0, runs.len()).unwrap();
    assert_eq!(parsed[1], DataRunEntry { cluster_count: 1, lcn_delta: None });
    let extents = resolve_runs(&parsed).unwrap();
    assert!(extents[1].sparse);
    // The run after the sparse one still walks from the pre-sparse LCN.
    assert_eq!(extents[2].lcn, 30);
    let chunks = vec![vec![0x11u8; 8192], Vec::new(), vec![0x22u8; 12288]];
    let out = assemble_stream(&extents, &chunks, 4096, 6 * 4096);
    assert_eq!(out.len(), 6 * 4096);
    assert!(out[..8192].iter().all(|&b| b == 0x11));
    assert!(out[8192..12288].iter().all(|&b| b == 0));
    assert!(out[12288..].iter().all(|&b| b == 0x22));
}

#[test]
fn resident_stream_is_returned_verbatim() {
    let payload: &[u8] = b"hello world\n1234\n";
    let attrs = vec![file_name_attr(5, "doc.txt"), resident_data_attr(payload)];
    let record = build_record(0, 0, &attrs);
    let reader = test_reader();
    let rec = ntfs_undelete::record::decode_record(&record, 0).unwrap();
    match reader.read_data_from_entry(&rec).unwrap() {
        DataPlan::Resident(d) => assert_eq!(d.as_slice(), payload),
        other => panic!("expected a resident plan, got {:?}", other),
    }
}

#[test]
fn record_without_data_reports_empty() {
    let attrs = vec![file_name_attr(5, "gone.txt")];
    let record = build_record(0, 0, &attrs);
    let reader = test_reader();
    let rec = ntfs_undelete::record::decode_record(&record, 0).unwrap();
    match reader.read_data_from_entry(&rec) {
        Err(Error::EmptyData) => {}
        other => panic!("expected EmptyData, got {:?}", other),
    }
}

#[test]
fn synthetic_image_round_trip() {
    // A 16-cluster image: boot sector in cluster 0, the MFT in cluster 1,
    // and the deleted file's content in clusters 4 and 5.
    let cluster = 4096usize;
    let mut image = vec![0u8; 16 * cluster];
    let boot = ntfs_boot_sector(1);
    image[..512].copy_from_slice(&boot);

    let mut content = Vec::new();
    while content.len() < 5000 {
        content.extend_from_slice(b"The quick brown fox jumps over the lazy dog. ");
    }
    content.truncate(5000);
    image[4 * cluster..4 * cluster + 5000].copy_from_slice(&content);

    // Record 0 describes the MFT itself: one cluster at LCN 1.
    let mft_runs = vec![0x11u8, 0x01, 0x01, 0x00];
    let record0 = build_record(
        0,
        1,
        &vec![
            file_name_attr(5, "$MFT"),
            non_resident_data_attr(&mft_runs, 4096, 2048),
        ],
    );
    // Record 1 is the deleted file: two clusters at LCN 4.
    let file_runs = vec![0x11u8, 0x02, 0x04, 0x00];
    let record1 = build_record(
        1,
        0,
        &vec![
            file_name_attr(5, "fox.txt"),
            non_resident_data_attr(&file_runs, 2 * 4096, 5000),
        ],
    );
    image[cluster..cluster + 1024].copy_from_slice(&record0);
    image[cluster + 1024..cluster + 2048].copy_from_slice(&record1);

    // Discovery: classify, locate the MFT, extract it through its own
    // data attribute.
    let reader = Reader::from_path(b"synthetic.img".to_vec(), &image[..512].to_vec(), &Vec::new())
        .unwrap();
    let mft_offset = reader.locate_mft().unwrap() as usize;
    assert_eq!(mft_offset, cluster);
    let record0_bytes = image[mft_offset..mft_offset + 1024].to_vec();
    let plan = reader.read_mft(&record0_bytes).unwrap();
    let mft = match plan {
        DataPlan::NonResident { extents, real_size } => {
            let ranges = extent_read_plan(&extents, 4096).unwrap();
            let chunks: Vec<Vec<u8>> = ranges
                .iter()
                .map(|r| {
                    if r.sparse {
                        Vec::new()
                    } else {
                        image[r.offset as usize..(r.offset + r.length) as usize].to_vec()
                    }
                })
                .collect();
            assemble_stream(&extents, &chunks, 4096, real_size)
        }
        DataPlan::Resident(d) => d,
    };
    assert_eq!(mft.len(), 2048);

    // The catalog lists the deleted file.
    let parser = ParserWrapper::new(mft, 1024).unwrap();
    let catalog = parser.build_catalog();
    assert_eq!(catalog.len(), 1);
    assert_eq!(catalog[0].display_name(), "fox.txt");
    assert_eq!(catalog[0].record_number, 1);

    // Reconstruction returns the original bytes verbatim.
    let rec = parser.decode_entry(catalog[0].record_number).unwrap();
    let out = match reader.read_data_from_entry(&rec).unwrap() {
        DataPlan::NonResident { extents, real_size } => {
            assert_eq!(real_size, 5000);
            let ranges = extent_read_plan(&extents, 4096).unwrap();
            assert_eq!(ranges[0].offset, 4 * 4096);
            assert_eq!(ranges[0].length, 2 * 4096);
            let chunks: Vec<Vec<u8>> = ranges
                .iter()
                .map(|r| image[r.offset as usize..(r.offset + r.length) as usize].to_vec())
                .collect();
            assemble_stream(&extents, &chunks, 4096, real_size)
        }
        DataPlan::Resident(d) => d,
    };
    assert_eq!(out, content);
}

#[test]
fn signature_scan_finds_aligned_magic() {
    let mut w = vec![0xEEu8; 64];
    w[8..12].copy_from_slice(b"FILE");
    assert_eq!(find_signature_in_window(&w), Some(8));
    let mut w2 = vec![0xEEu8; 64];
    w2[12..16].copy_from_slice(b"BAAD");
    assert_eq!(find_signature_in_window(&w2), Some(12));
    let mut w3 = vec![0xEEu8; 64];
    w3[20..24].copy_from_slice(b"0000");
    assert_eq!(find_signature_in_window(&w3), Some(20));
    assert_eq!(find_signature_in_window(&vec![0u8; 64]), None);
    // An unaligned magic is not a record boundary.
    let mut w4 = vec![0xEEu8; 64];
    w4[6..10].copy_from_slice(b"FILE");
    assert_eq!(find_signature_in_window(&w4), None);
}

#[test]
fn mount_table_maps_directory_to_device() {
    let mounts = b"/dev/sda1 / ext4 rw 0 0\n/dev/sdb2 /mnt/ntfs ntfs ro 0 0\n".to_vec();
    assert_eq!(
        find_block_device(&mounts, &b"/mnt/ntfs".to_vec()),
        Some(b"/dev/sdb2".to_vec())
    );
    assert_eq!(find_block_device(&mounts, &b"/mnt/other".to_vec()), None);
}

#[test]
fn source_paths_resolve_by_kind() {
    let mounts = b"/dev/sdb2 /mnt/ntfs ntfs ro 0 0\n".to_vec();
    assert_eq!(path_kind(&b"/mnt/ntfs".to_vec(), true, false), PathKind::Directory);
    assert_eq!(path_kind(&b"disk.img".to_vec(), false, true), PathKind::RegularFile);
    assert_eq!(path_kind(&b"/dev/sdb2".to_vec(), false, false), PathKind::BlockDevice);
    assert_eq!(path_kind(&b"nothing".to_vec(), false, false), PathKind::Missing);

    assert_eq!(
        resolve_device_path(b"/mnt/ntfs".to_vec(), PathKind::Directory, &mounts).unwrap(),
        b"/dev/sdb2".to_vec()
    );
    assert_eq!(
        resolve_device_path(b"disk.img".to_vec(), PathKind::RegularFile, &mounts).unwrap(),
        b"disk.img".to_vec()
    );
    match resolve_device_path(b"/mnt/other".to_vec(), PathKind::Directory, &mounts) {
        Err(Error::MountNotFound(p)) => assert_eq!(p, b"/mnt/other".to_vec()),
        other => panic!("expected MountNotFound, got {:?}", other),
    }
    match resolve_device_path(b"nothing".to_vec(), PathKind::Missing, &mounts) {
        Err(Error::NotFound(p)) => assert_eq!(p, b"nothing".to_vec()),
        other => panic!("expected NotFound, got {:?}", other),
    }
}

#[test]
fn sanitization_strips_brackets_only() {
    let name = utf16("[recovered] doc.txt");
    let clean = sanitize_units(&name);
    assert_eq!(clean, utf16("recovered doc.txt"));
    let untouched = utf16("plain/path.txt");
    assert_eq!(sanitize_units(&untouched), untouched);
}
