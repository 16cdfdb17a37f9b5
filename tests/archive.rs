use dend_tools::kcap::{KCAPPackReader, PackError};
use dend_tools::writer::KCAPPackWriter;

fn payload(len: usize, salt: u8) -> Vec<u8> {
    (0..len).map(|i| (i as u8).wrapping_mul(31).wrapping_add(salt)).collect()
}

#[test]
fn round_trip_with_password() {
    let mut w = KCAPPackWriter::new(Some("PackPass".to_string()));
    w.add_entry(payload(300, 1), "a/first.bin");
    w.add_entry(payload(10, 2), "b.txt");
    w.add_entry(payload(5000, 3), "c/d/e.dat");
    let bytes = w.write_to().unwrap();
    let r = KCAPPackReader::new(bytes, "PackPass").unwrap();
    let names: Vec<&str> = r.entries.iter().map(|e| e.name.as_str()).collect();
    assert_eq!(names, vec!["b.txt", "a/first.bin", "c/d/e.dat"]);
    assert!(r.entries.iter().all(|e| e.encrypted));
    assert_eq!(r.read_to(0).unwrap(), payload(10, 2));
    assert_eq!(r.read_to(1).unwrap(), payload(300, 1));
    assert_eq!(r.read_to(2).unwrap(), payload(5000, 3));
}

#[test]
fn wrong_password_gives_other_bytes() {
    let mut w = KCAPPackWriter::new(Some("PackPass".to_string()));
    w.add_entry(payload(64, 9), "x");
    let bytes = w.write_to().unwrap();
    let r = KCAPPackReader::new(bytes, "OtherPassword").unwrap();
    assert_ne!(r.read_to(0).unwrap(), payload(64, 9));
}

#[test]
fn round_trip_without_password() {
    let mut w = KCAPPackWriter::new(None);
    w.add_entry(payload(20, 4), "plain");
    let bytes = w.write_to().unwrap();
    assert_eq!(&bytes[8 + 84..], &payload(20, 4)[..]);
    let r = KCAPPackReader::new(bytes, "anything").unwrap();
    assert!(!r.entries[0].encrypted);
    assert_eq!(r.read_to(0).unwrap(), payload(20, 4));
}

#[test]
fn shift_jis_names_round_trip() {
    let mut w = KCAPPackWriter::new(Some("PackPass".to_string()));
    w.add_entry(payload(5, 0), "テスト.txt");
    let bytes = w.write_to().unwrap();
    assert_eq!(&bytes[8..18], &[131, 101, 131, 88, 131, 103, 46, 116, 120, 116]);
    assert_eq!(bytes[18], 0);
    let r = KCAPPackReader::new(bytes, "PackPass").unwrap();
    assert_eq!(r.entries[0].name, "テスト.txt");
}

#[test]
fn layout_orders_by_size_and_packs_offsets() {
    let mut w = KCAPPackWriter::new(None);
    w.add_entry(payload(300, 0), "a");
    w.add_entry(payload(10, 0), "b");
    w.add_entry(payload(5000, 0), "c");
    w.calc_offset();
    let sizes: Vec<u64> = w.entries.iter().map(|e| e.size).collect();
    assert_eq!(sizes, vec![10, 300, 5000]);
    let offsets: Vec<u64> = w.entries.iter().map(|e| e.offset).collect();
    assert_eq!(offsets, vec![8 + 3 * 84, 8 + 3 * 84 + 10, 8 + 3 * 84 + 310]);
}

#[test]
fn layout_is_stable_for_equal_sizes() {
    let mut w = KCAPPackWriter::new(None);
    w.add_entry(payload(4, 0), "first");
    w.add_entry(payload(2, 0), "small");
    w.add_entry(payload(4, 0), "second");
    w.calc_offset();
    let names: Vec<&str> = w.entries.iter().map(|e| e.name.as_str()).collect();
    assert_eq!(names, vec!["small", "first", "second"]);
}

#[test]
fn directory_record_fields() {
    let mut w = KCAPPackWriter::new(Some("PackPass".to_string()));
    w.add_entry(payload(7, 0), "ab");
    let bytes = w.write_to().unwrap();
    assert_eq!(&bytes[0..4], b"KCAP");
    assert_eq!(&bytes[4..8], &[1, 0, 0, 0]);
    let mut field = [0u8; 64];
    field[0] = b'a';
    field[1] = b'b';
    let crc = dend_tools::crc32::compute(&field, 0, 64);
    assert_eq!(&bytes[72..76], &crc.to_le_bytes());
    assert_eq!(&bytes[76..80], &[0, 0, 0, 0]);
    assert_eq!(&bytes[80..84], &92u32.to_le_bytes());
    assert_eq!(&bytes[84..88], &7u32.to_le_bytes());
    assert_eq!(&bytes[88..92], &1u32.to_le_bytes());
    assert_eq!(bytes.len(), 92 + 7);
}

#[test]
fn empty_archive() {
    let mut w = KCAPPackWriter::new(None);
    let bytes = w.write_to().unwrap();
    assert_eq!(bytes, b"KCAP\0\0\0\0".to_vec());
    let r = KCAPPackReader::new(bytes, "").unwrap();
    assert_eq!(r.entries.len(), 0);
}

#[test]
fn name_too_long_is_rejected() {
    let mut w = KCAPPackWriter::new(None);
    w.add_entry(payload(1, 0), &"n".repeat(64));
    w.add_entry(payload(2, 0), &"m".repeat(65));
    assert_eq!(w.write_to(), Err(PackError::NameTooLong(1)));
}

#[test]
fn bad_magic_is_a_format_error() {
    let r = KCAPPackReader::new(b"KCAX\0\0\0\0".to_vec(), "PackPass");
    let e = r.err().unwrap();
    assert_eq!(e, PackError::BadMagic);
    assert!(e.is_format_error());
}

#[test]
fn short_file_is_truncated() {
    assert_eq!(KCAPPackReader::new(b"KC".to_vec(), "").err(), Some(PackError::Truncated));
    assert_eq!(KCAPPackReader::new(b"KCAP\x01\0".to_vec(), "").err(), Some(PackError::Truncated));
    assert_eq!(
        KCAPPackReader::new(b"KCAP\x01\0\0\0".to_vec(), "").err(),
        Some(PackError::Truncated)
    );
}

#[test]
fn negative_count_is_rejected() {
    let r = KCAPPackReader::new(b"KCAP\xff\xff\xff\xff".to_vec(), "");
    let e = r.err().unwrap();
    assert_eq!(e, PackError::NegativeCount);
    assert!(e.is_format_error());
}

#[test]
fn out_of_range_index() {
    let mut w = KCAPPackWriter::new(None);
    w.add_entry(payload(3, 0), "a");
    w.add_entry(payload(4, 0), "b");
    let r = KCAPPackReader::new(w.write_to().unwrap(), "").unwrap();
    assert_eq!(r.read_to(2), Err(PackError::OutOfRange(2)));
    assert!(!PackError::OutOfRange(2).is_format_error());
}

#[test]
fn payload_past_end_is_truncated() {
    let mut w = KCAPPackWriter::new(None);
    w.add_entry(payload(10, 0), "a");
    let mut bytes = w.write_to().unwrap();
    bytes.truncate(bytes.len() - 1);
    let r = KCAPPackReader::new(bytes, "").unwrap();
    assert_eq!(r.read_to(0), Err(PackError::Truncated));
}

#[test]
fn garbage_checksum_is_accepted() {
    let mut w = KCAPPackWriter::new(None);
    w.add_entry(payload(3, 5), "a");
    let mut bytes = w.write_to().unwrap();
    bytes[72] ^= 0xFF;
    bytes[76] = 0xAB;
    let r = KCAPPackReader::new(bytes, "").unwrap();
    assert_eq!(r.read_to(0).unwrap(), payload(3, 5));
}
