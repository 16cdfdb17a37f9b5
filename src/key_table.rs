//! Derivation of the 65536-byte key table from a password, and the XOR
//! transform that applies it to payloads.

use vstd::prelude::*;

use crate::crc32::{compute, crc32_spec};
use crate::keygen::{gen_output, gen_after, KeyTableGenerator};
use crate::legacy::{encode_legacy, sjis_encoded};

verus! {

pub const KEY_TABLE_LEN: usize = 0x10000;

/// Passwords with fewer characters than this are replaced by the fallback.
pub const MIN_PASSWORD_CHARS: usize = 8;

/// A 65536-byte key stream, a pure function of a password.
pub type KeyTable = Vec<u8>;

/// The fallback password, used for every password that is too short.
pub open spec fn fallback_password() -> Seq<char> {
    seq!['S', 'e', 'l', 'e', 'n', 'e', '.', 'D', 'e', 'f', 'a', 'u', 'l', 't', '.', 'P', 'a', 's', 's', 'w', 'o', 'r', 'd']
}

/// The password that the table is actually derived from.
pub open spec fn effective_password(p: Seq<char>) -> Seq<char> {
    if p.len() < MIN_PASSWORD_CHARS {
        fallback_password()
    } else {
        p
    }
}

/// The mask byte of a generator word: bits 16..23.
pub open spec fn mask_byte(w: i32) -> u8 {
    (w >> 16u32) as u8
}

/// The key table derived from the encoded password bytes `pw`.
pub open spec fn key_table_from_bytes(pw: Seq<u8>) -> Seq<u8> {
    Seq::new(
        KEY_TABLE_LEN as nat,
        |i: int| pw[i % (pw.len() as int)] ^ mask_byte(gen_output(crc32_spec(pw) as i32, i as nat)),
    )
}

/// The key table of a password.
pub open spec fn key_table_of(p: Seq<char>) -> Seq<u8> {
    key_table_from_bytes(sjis_encoded(effective_password(p)))
}

/// `data` with byte `i` XORed with `table[i mod 65536]`.
pub open spec fn xor_spec(data: Seq<u8>, table: Seq<u8>) -> Seq<u8> {
    Seq::new(data.len(), |i: int| data[i] ^ table[i % (KEY_TABLE_LEN as int)])
}

/// The checksum of the legacy-encoded password, which seeds the generator.
pub fn passkey_hash(pass: &str) -> (r: u32)
    ensures
        r == crc32_spec(sjis_encoded(pass@)),
{
    let bytes = encode_legacy(pass);
    assert(bytes@.subrange(0, bytes@.len() as int) =~= bytes@);
    compute(bytes.as_slice(), 0, bytes.len())
}

fn fallback_str() -> (s: &'static str)
    ensures
        s@ == fallback_password(),
{
    let s = "Selene.Default.Password";
    proof {
        reveal_strlit("Selene.Default.Password");
        assert(s@ =~= fallback_password());
    }
    s
}

/// Builds the key table of `pass`; passwords shorter than eight characters
/// are replaced by the fallback password.
pub fn create_key_table(pass: &str) -> (t: KeyTable)
    ensures
        t@ == key_table_of(pass@),
{
    let n_chars: usize = pass.unicode_len();
    let pass: &str = if n_chars < MIN_PASSWORD_CHARS {
        fallback_str()
    } else {
        pass
    };
    let bytes = encode_legacy(pass);
    let pass_len: usize = bytes.len();
    let seed: u32 = passkey_hash(pass);
    let mut rng = KeyTableGenerator::new(seed as i32);
    let mut table: Vec<u8> = Vec::with_capacity(KEY_TABLE_LEN);
    let mut i: usize = 0;
    while i < KEY_TABLE_LEN
        invariant
            i <= KEY_TABLE_LEN,
            pass_len == bytes@.len(),
            pass_len > 0,
            rng.wf(),
            rng@ == gen_after(seed as i32, i as nat),
            table@.len() == i,
            forall|j: int|
                0 <= j < i ==> table@[j] == #[trigger] key_table_from_bytes(bytes@)[j],
            seed == crc32_spec(bytes@),
        decreases KEY_TABLE_LEN - i,
    {
        let key: i32 = rng.rand();
        let pos: usize = i % pass_len;
        let m: u8 = (key >> 16u32) as u8;
        table.push(bytes[pos] ^ m);
        i = i + 1;
    }
    assert(table@ =~= key_table_from_bytes(bytes@));
    table
}

/// XORs each byte of `data` with the key table, position `i` with
/// `table[i mod 65536]`; the same call decrypts and encrypts.
pub fn xor_with_table(data: &[u8], table: &KeyTable) -> (r: Vec<u8>)
    requires
        table@.len() == KEY_TABLE_LEN,
    ensures
        r@ == xor_spec(data@, table@),
{
    let n: usize = data.len();
    let mut out: Vec<u8> = Vec::with_capacity(n);
    let mut i: usize = 0;
    while i < n
        invariant
            i <= n,
            n == data@.len(),
            table@.len() == KEY_TABLE_LEN,
            out@.len() == i,
            forall|j: int| 0 <= j < i ==> out@[j] == #[trigger] xor_spec(data@, table@)[j],
        decreases n - i,
    {
        out.push(data[i] ^ table[i % KEY_TABLE_LEN]);
        i = i + 1;
    }
    assert(out@ =~= xor_spec(data@, table@));
    out
}

/// Applying the key table twice gives back the original bytes, for any
/// payload length.
pub proof fn lemma_xor_involution(data: Seq<u8>, table: Seq<u8>)
    requires
        table.len() == KEY_TABLE_LEN,
    ensures
        xor_spec(xor_spec(data, table), table) == data,
{
    let once = xor_spec(data, table);
    let twice = xor_spec(once, table);
    assert forall|i: int| 0 <= i < data.len() implies twice[i] == data[i] by {
        let a = data[i];
        let k = table[i % (KEY_TABLE_LEN as int)];
        assert((a ^ k) ^ k == a) by (bit_vector);
    }
    assert(twice =~= data);
}

/// Two builds from the same password give the same 65536-byte table.
pub proof fn lemma_key_table_deterministic(p: Seq<char>, q: Seq<char>)
    requires
        p == q,
    ensures
        key_table_of(p) == key_table_of(q),
        key_table_of(p).len() == KEY_TABLE_LEN,
{
}

/// Every password shorter than eight characters has the table of the
/// fallback password; a longer one has the table of its own encoded bytes.
pub proof fn lemma_password_length_rule(p: Seq<char>)
    ensures
        p.len() < MIN_PASSWORD_CHARS ==> key_table_of(p) == key_table_of(fallback_password()),
        p.len() >= MIN_PASSWORD_CHARS ==> key_table_of(p) == key_table_from_bytes(sjis_encoded(p)),
{
}

} // verus!
