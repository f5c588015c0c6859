use ntfs_undelete::catalog::ParserWrapper;
use ntfs_undelete::errors::Error;
use ntfs_undelete::fixup::apply_fixup;
use ntfs_undelete::record::{decode_record, AttributeContent};

fn put16(b: &mut [u8], off: usize, v: u16) {
    b[off..off + 2].copy_from_slice(&v.to_le_bytes());
}

fn put32(b: &mut [u8], off: usize, v: u32) {
    b[off..off + 4].copy_from_slice(&v.to_le_bytes());
}

fn put64(b: &mut [u8], off: usize, v: u64) {
    b[off..off + 8].copy_from_slice(&v.to_le_bytes());
}

fn utf16(s: &str) -> Vec<u16> {
    s.encode_utf16().collect()
}

fn file_name_attr(parent: u64, name: &str, namespace: u8) -> Vec<u8> {
    let units = utf16(name);
    let content_len = 0x42 + 2 * units.len();
    let attr_len = 24 + content_len;
    let mut a = vec![0u8; attr_len];
    put32(&mut a, 0, 0x30);
    put32(&mut a, 4, attr_len as u32);
    a[8] = 0; // resident
    a[9] = 0; // no attribute name
    put16(&mut a, 10, 0);
    put32(&mut a, 16, content_len as u32);
    put16(&mut a, 20, 24);
    let c = 24;
    put64(&mut a, c, parent);
    put64(&mut a, c + 0x28, 8192); // allocated size of the file
    put64(&mut a, c + 0x30, 5000); // real size of the file
    a[c + 0x40] = units.len() as u8;
    a[c + 0x41] = namespace;
    for (i, u) in units.iter().enumerate() {
        put16(&mut a, c + 0x42 + 2 * i, *u);
    }
    a
}

fn resident_data_attr(data: &[u8]) -> Vec<u8> {
    let attr_len = 24 + data.len();
    let mut a = vec![0u8; attr_len];
    put32(&mut a, 0, 0x80);
    put32(&mut a, 4, attr_len as u32);
    a[8] = 0;
    put32(&mut a, 16, data.len() as u32);
    put16(&mut a, 20, 24);
    a[24..].copy_from_slice(data);
    a
}

fn non_resident_data_attr(runs: &[u8], alloc: u64, real: u64) -> Vec<u8> {
    let attr_len = 64 + runs.len();
    let mut a = vec![0u8; attr_len];
    put32(&mut a, 0, 0x80);
    put32(&mut a, 4, attr_len as u32);
    a[8] = 1; // non-resident
    put64(&mut a, 16, 0); // first VCN
    put64(&mut a, 24, alloc / 4096 - 1); // last VCN
    put16(&mut a, 32, 64); // run list offset
    put64(&mut a, 40, alloc);
    put64(&mut a, 48, real);
    put64(&mut a, 56, real);
    a[64..].copy_from_slice(runs);
    a
}

/// Lays out a 1024-byte record and then applies the tear protection:
/// the trailing byte pair of each 512-byte sector moves into the
/// update-sequence array and the check value takes its place.
fn build_record(record_number: u32, flags: u16, attrs: &[Vec<u8>]) -> Vec<u8> {
    let mut b = vec![0u8; 1024];
    b[0..4].copy_from_slice(b"FILE");
    put16(&mut b, 4, 0x30); // USA offset
    put16(&mut b, 6, 3); // USA count: check value + two sectors
    put16(&mut b, 0x10, 1); // sequence
    put16(&mut b, 0x12, 1); // hard links
    put16(&mut b, 0x14, 0x38); // first attribute
    put16(&mut b, 0x16, flags);
    put32(&mut b, 0x2C, record_number);
    let mut off = 0x38;
    for a in attrs {
        b[off..off + a.len()].copy_from_slice(a);
        off += a.len();
    }
    put32(&mut b, off, 0xFFFF_FFFF);
    // Tear protection.
    put16(&mut b, 0x30, 0x0001); // check value
    for k in 1..3usize {
        let tail = 512 * k - 2;
        b[0x30 + 2 * k] = b[tail];
        b[0x30 + 2 * k + 1] = b[tail + 1];
        put16(&mut b, tail, 0x0001);
    }
    b
}

/// The same layout without the protection step, for round-trip checks.
fn build_record_unprotected(record_number: u32, flags: u16, attrs: &[Vec<u8>]) -> Vec<u8> {
    let mut b = vec![0u8; 1024];
    b[0..4].copy_from_slice(b"FILE");
    put16(&mut b, 4, 0x30);
    put16(&mut b, 6, 3);
    put16(&mut b, 0x10, 1);
    put16(&mut b, 0x12, 1);
    put16(&mut b, 0x14, 0x38);
    put16(&mut b, 0x16, flags);
    put32(&mut b, 0x2C, record_number);
    let mut off = 0x38;
    for a in attrs {
        b[off..off + a.len()].copy_from_slice(a);
        off += a.len();
    }
    put32(&mut b, off, 0xFFFF_FFFF);
    put16(&mut b, 0x30, 0x0001);
    b
}

#[test]
fn fixup_restores_each_sector_tail() {
    let attrs = vec![file_name_attr(5, "doc.txt", 1)];
    let b = build_record(1, 0, &attrs);
    let clean = build_record_unprotected(1, 0, &attrs);
    let fixed = apply_fixup(&b).unwrap();
    // The USA entries hold the bytes that belong at the sector tails;
    // after the fixup the buffer reads as it was laid out.
    assert_eq!(fixed, clean);
    // Writing the check value back over the sector tails recovers the
    // on-disk buffer byte for byte.
    let mut unfixed = fixed.clone();
    for k in 1..3usize {
        let tail = 512 * k - 2;
        unfixed[tail] = b[0x30];
        unfixed[tail + 1] = b[0x31];
    }
    assert_eq!(unfixed, b);
}

#[test]
fn fixup_mismatch_is_detected() {
    let attrs = vec![file_name_attr(5, "doc.txt", 1)];
    let mut b = build_record(1, 0, &attrs);
    b[510] ^= 0xFF;
    match apply_fixup(&b) {
        Err(Error::FixupMismatch) => {}
        other => panic!("expected FixupMismatch, got {:?}", other),
    }
    match decode_record(&b, 1) {
        Err(Error::FixupMismatch) => {}
        other => panic!("expected FixupMismatch, got {:?}", other),
    }
}

#[test]
fn record_decodes_header_and_attributes() {
    let payload: &[u8] = b"hello world\n1234\n";
    assert_eq!(payload.len(), 17);
    let attrs = vec![
        file_name_attr(5, "doc.txt", 1),
        resident_data_attr(payload),
    ];
    let b = build_record(7, 0, &attrs);
    let rec = decode_record(&b, 7).unwrap();
    assert_eq!(rec.record_number, 7);
    assert_eq!(rec.sequence, 1);
    assert_eq!(rec.hard_link_count, 1);
    assert!(!rec.corrupt);
    assert!(!rec.is_allocated());
    assert!(!rec.is_dir());
    assert_eq!(rec.attributes.len(), 2);
    match &rec.attributes[0].content {
        AttributeContent::FileName(fa) => {
            assert_eq!(fa.parent_record, 5);
            assert_eq!(fa.namespace, 1);
            assert_eq!(fa.name, utf16("doc.txt"));
            assert_eq!(fa.physical_size, 8192);
            assert_eq!(fa.logical_size, 5000);
        }
        other => panic!("expected a FILE_NAME, got {:?}", other),
    }
    match &rec.attributes[1].content {
        AttributeContent::ResidentData(d) => assert_eq!(d.as_slice(), payload),
        other => panic!("expected resident data, got {:?}", other),
    }
}

#[test]
fn flags_mark_allocation_and_directories() {
    let attrs = vec![file_name_attr(5, "dir", 3)];
    let rec = decode_record(&build_record(2, 0b11, &attrs), 2).unwrap();
    assert!(rec.is_allocated());
    assert!(rec.is_dir());
}

#[test]
fn baad_record_decodes_as_corrupt_stub() {
    let attrs = vec![file_name_attr(5, "doc.txt", 1)];
    let mut b = build_record(1, 0, &attrs);
    b[0..4].copy_from_slice(b"BAAD");
    let rec = decode_record(&b, 1).unwrap();
    assert!(rec.corrupt);
    assert!(rec.attributes.is_empty());
    assert_eq!(rec.record_number, 1);
}

#[test]
fn unknown_magic_is_invalid() {
    let b = vec![0u8; 1024];
    match decode_record(&b, 0) {
        Err(Error::InvalidRecord) => {}
        other => panic!("expected InvalidRecord, got {:?}", other),
    }
}

#[test]
fn catalog_omits_corrupt_records() {
    let attrs = vec![file_name_attr(5, "doc.txt", 1)];
    let mut mft = build_record(0, 0, &attrs);
    mft[0..4].copy_from_slice(b"BAAD");
    mft.extend_from_slice(&build_record(1, 0, &attrs));
    let parser = ParserWrapper::new(mft, 1024).unwrap();
    let catalog = parser.build_catalog();
    assert_eq!(catalog.len(), 1);
    assert_eq!(catalog[0].record_number, 1);
}

#[test]
fn catalog_lists_deleted_file_by_name() {
    let payload: &[u8] = b"hello world\n1234\n";
    let attrs = vec![
        file_name_attr(5, "doc.txt", 1),
        resident_data_attr(payload),
    ];
    let mft = build_record(0, 0, &attrs);
    let parser = ParserWrapper::new(mft, 1024).unwrap();
    let catalog = parser.build_catalog();
    assert_eq!(catalog.len(), 1);
    assert_eq!(catalog[0].display_name(), "doc.txt");
    assert!(!catalog[0].is_allocated);
}

#[test]
fn catalog_skips_in_use_and_directory_records() {
    let attrs = vec![file_name_attr(5, "a", 1)];
    let mut mft = build_record(0, 1, &attrs); // in use
    mft.extend_from_slice(&build_record(1, 2, &attrs)); // directory
    mft.extend_from_slice(&build_record(2, 0, &attrs)); // deleted file
    let parser = ParserWrapper::new(mft, 1024).unwrap();
    let catalog = parser.build_catalog();
    assert_eq!(catalog.len(), 1);
    assert_eq!(catalog[0].record_number, 2);
}

#[test]
fn win32_namespace_is_preferred_over_dos() {
    let attrs = vec![
        file_name_attr(5, "DOC~1.TXT", 2),
        file_name_attr(5, "document.txt", 1),
    ];
    let mft = build_record(0, 0, &attrs);
    let parser = ParserWrapper::new(mft, 1024).unwrap();
    let catalog = parser.build_catalog();
    assert_eq!(catalog.len(), 1);
    assert_eq!(catalog[0].display_name(), "document.txt");
}

#[test]
fn dry_run_listing_is_idempotent() {
    let attrs = vec![file_name_attr(5, "doc.txt", 1)];
    let mut mft = build_record(0, 0, &attrs);
    mft.extend_from_slice(&build_record(1, 1, &attrs));
    mft.extend_from_slice(&build_record(2, 0, &vec![file_name_attr(5, "other.txt", 1)]));
    let parser = ParserWrapper::new(mft, 1024).unwrap();
    let first = parser.build_catalog();
    let second = parser.build_catalog();
    assert_eq!(first, second);
}

#[test]
fn full_path_walks_parent_directories() {
    // Record 0: deleted file "a.txt" under directory record 1.
    // Record 1: live directory "docs" under the root record 5.
    let mut mft = build_record(0, 0, &vec![file_name_attr(1, "a.txt", 1)]);
    mft.extend_from_slice(&build_record(1, 0b11, &vec![file_name_attr(5, "docs", 1)]));
    let parser = ParserWrapper::new(mft, 1024).unwrap();
    let catalog = parser.build_catalog();
    assert_eq!(catalog.len(), 1);
    assert_eq!(catalog[0].display_name(), "docs/a.txt");
}

#[test]
fn unallocated_ancestor_falls_back_to_bare_name() {
    let mut mft = build_record(0, 0, &vec![file_name_attr(1, "a.txt", 1)]);
    // The parent is itself deleted.
    mft.extend_from_slice(&build_record(1, 0, &vec![file_name_attr(5, "docs", 1)]));
    let parser = ParserWrapper::new(mft, 1024).unwrap();
    let catalog = parser.build_catalog();
    assert_eq!(catalog.len(), 2);
    assert_eq!(catalog[0].display_name(), "a.txt");
    assert_eq!(catalog[1].display_name(), "docs");
}

#[test]
fn parent_cycle_falls_back_to_bare_name() {
    // Records 0 and 1 point at each other.
    let mut mft = build_record(0, 0, &vec![file_name_attr(1, "a.txt", 1)]);
    mft.extend_from_slice(&build_record(1, 0b11, &vec![file_name_attr(0, "b", 1)]));
    let parser = ParserWrapper::new(mft, 1024).unwrap();
    let catalog = parser.build_catalog();
    assert_eq!(catalog.len(), 1);
    assert_eq!(catalog[0].display_name(), "a.txt");
}

#[test]
fn get_all_entry_names_keeps_allocated_records_too() {
    let attrs = vec![file_name_attr(5, "doc.txt", 1)];
    let mut mft = build_record(0, 1, &attrs);
    mft.extend_from_slice(&build_record(1, 0, &vec![file_name_attr(5, "gone.txt", 1)]));
    let parser = ParserWrapper::new(mft, 1024).unwrap();
    let names = parser.get_all_entry_names();
    assert_eq!(names.len(), 2);
    assert_eq!(names[0].display_name(), "doc.txt");
    assert!(names[0].is_allocated);
    assert_eq!(names[1].display_name(), "gone.txt");
    assert!(!names[1].is_allocated);
}

#[test]
fn names_outside_ascii_decode_from_utf16() {
    // One accented character and one code point beyond the basic plane,
    // which UTF-16 carries as a surrogate pair.
    let name = "r\u{e9}sum\u{e9}-\u{1D11E}.txt";
    let attrs = vec![file_name_attr(5, name, 1)];
    let mft = build_record(0, 0, &attrs);
    let parser = ParserWrapper::new(mft, 1024).unwrap();
    let catalog = parser.build_catalog();
    assert_eq!(catalog.len(), 1);
    assert_eq!(catalog[0].display_name(), name);
}

#[test]
fn record_number_beyond_the_mft_is_an_io_error() {
    let mft = build_record(0, 0, &vec![file_name_attr(5, "doc.txt", 1)]);
    let parser = ParserWrapper::new(mft, 1024).unwrap();
    match parser.decode_entry(7) {
        Err(Error::IoError(_)) => {}
        other => panic!("expected IoError, got {:?}", other),
    }
}

#[test]
fn broken_update_sequence_fields_are_invalid() {
    let mut b = build_record(0, 0, &vec![file_name_attr(5, "doc.txt", 1)]);
    // A USA that claims more sectors than the buffer holds.
    b[6] = 0xFF;
    match apply_fixup(&b) {
        Err(Error::InvalidRecord) => {}
        other => panic!("expected InvalidRecord, got {:?}", other),
    }
}

#[test]
fn parser_created_correctly() {
    let mft = build_record(0, 0, &vec![file_name_attr(5, "doc.txt", 1)]);
    ParserWrapper::new(mft, 1024).unwrap();
}

#[test]
fn parser_refuses_undersized_record_stride() {
    match ParserWrapper::new(vec![0u8; 1024], 256) {
        Err(Error::InvalidRecord) => {}
        other => panic!("expected InvalidRecord, got {:?}", other),
    }
}

#[test]
fn parser_get_entry_names() {
    let mft = build_record(0, 0, &vec![file_name_attr(5, "doc.txt", 1)]);
    let entries = ParserWrapper::new(mft, 1024).unwrap().get_all_entry_names();
    assert!(!entries.is_empty());
}
