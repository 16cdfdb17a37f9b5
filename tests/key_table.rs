use dend_tools::crc32::compute;
use dend_tools::key_table::{create_key_table, passkey_hash, xor_with_table, KEY_TABLE_LEN};
use dend_tools::keygen::KeyTableGenerator;

#[test]
fn test_key_table() {
    assert_eq!(
        &create_key_table("")[0..16],
        &[43, 153, 246, 46, 115, 3, 156, 205, 107, 241, 77, 219, 216, 177, 13, 71]
    );
}

#[test]
fn crc_of_empty_is_zero() {
    assert_eq!(compute(&[], 0, 0), 0);
}

#[test]
fn crc_known_vector() {
    assert_eq!(compute(b"123456789", 0, 9), 0xCBF43926);
}

#[test]
fn crc_of_a_window() {
    assert_eq!(compute(b"xx123456789yy", 2, 9), 0xCBF43926);
}

#[test]
fn crc_is_deterministic() {
    let data = b"compute_table_seed_bytes";
    assert_eq!(compute(data, 0, data.len()), compute(data, 0, data.len()));
}

#[test]
fn generator_first_words_for_seed_zero() {
    let mut g = KeyTableGenerator::new(0);
    assert_eq!(g.rand(), 503881347);
    assert_eq!(g.rand(), 1420691967);
    assert_eq!(g.rand(), 1095544862);
}

#[test]
fn generator_reseed_restarts_stream() {
    let mut g = KeyTableGenerator::new(0);
    let first = g.rand();
    g.rand();
    g.s_rand(0);
    assert_eq!(g.rand(), first);
}

#[test]
fn passkey_hash_of_ascii_password() {
    assert_eq!(passkey_hash("PackPass"), 0x3241F450);
}

#[test]
fn passkey_hash_uses_shift_jis_bytes() {
    assert_eq!(passkey_hash("テスト"), 0x260F6646);
}

#[test]
fn key_table_of_pack_pass() {
    let t = create_key_table("PackPass");
    assert_eq!(t.len(), KEY_TABLE_LEN);
    assert_eq!(&t[0..8], &[31, 53, 87, 241, 209, 166, 84, 117]);
    assert_eq!(t[65535], 151);
}

#[test]
fn key_table_is_deterministic() {
    assert_eq!(create_key_table("PackPass"), create_key_table("PackPass"));
}

#[test]
fn short_passwords_use_the_fallback() {
    let fallback = create_key_table("Selene.Default.Password");
    assert_eq!(create_key_table(""), fallback);
    assert_eq!(create_key_table("abc"), fallback);
    assert_eq!(create_key_table("1234567"), fallback);
    assert_ne!(create_key_table("12345678"), fallback);
}

#[test]
fn xor_is_an_involution_across_the_wrap() {
    let table = create_key_table("PackPass");
    for len in [0usize, 1, 65535, 65536, 65537] {
        let data: Vec<u8> = (0..len).map(|i| (i * 7 + 3) as u8).collect();
        let enc = xor_with_table(&data, &table);
        assert_eq!(enc.len(), len);
        assert_eq!(xor_with_table(&enc, &table), data);
    }
}

#[test]
fn xor_wraps_the_table_index() {
    let table = create_key_table("PackPass");
    let data = vec![0u8; 65537];
    let enc = xor_with_table(&data, &table);
    assert_eq!(enc[65536], table[0]);
    assert_eq!(enc[65535], table[65535]);
}
