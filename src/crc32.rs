//! Table-driven CRC-32 (reflected polynomial 0xEDB88320).

use vstd::prelude::*;

verus! {

pub const CRC_POLY: u32 = 0xEDB88320;

/// One shift of the bitwise CRC register.
pub open spec fn crc_bit_step(c: u32) -> u32 {
    if c & 1 != 0 {
        CRC_POLY ^ (c >> 1)
    } else {
        c >> 1
    }
}

pub open spec fn crc_bit_steps(c: u32, k: nat) -> u32
    decreases k,
{
    if k == 0 {
        c
    } else {
        crc_bit_step(crc_bit_steps(c, (k - 1) as nat))
    }
}

/// Entry `n` of the 256-entry lookup table.
pub open spec fn crc_table_entry(n: u32) -> u32 {
    crc_bit_steps(n, 8)
}

/// The CRC register after feeding `bytes` to a register holding `c`.
pub open spec fn crc_update_spec(c: u32, bytes: Seq<u8>) -> u32
    decreases bytes.len(),
{
    if bytes.len() == 0 {
        c
    } else {
        let prev = crc_update_spec(c, bytes.drop_last());
        crc_table_entry((prev ^ (bytes.last() as u32)) & 0xFF) ^ (prev >> 8)
    }
}

/// The CRC-32 checksum of `bytes`.
pub open spec fn crc32_spec(bytes: Seq<u8>) -> u32 {
    crc_update_spec(0xFFFFFFFF, bytes) ^ 0xFFFFFFFF
}

/// Builds the 256-entry lookup table.
fn crc_table() -> (table: Vec<u32>)
    ensures
        table@.len() == 256,
        forall|i: int| 0 <= i < 256 ==> table@[i] == crc_table_entry(i as u32),
{
    let mut table: Vec<u32> = Vec::with_capacity(256);
    let mut n: u32 = 0;
    while n < 256
        invariant
            n <= 256,
            table@.len() == n,
            forall|i: int| 0 <= i < n ==> table@[i] == crc_table_entry(i as u32),
        decreases 256 - n,
    {
        let mut c: u32 = n;
        let mut k: u32 = 0;
        while k < 8
            invariant
                k <= 8,
                c == crc_bit_steps(n, k as nat),
            decreases 8 - k,
        {
            if c & 1 != 0 {
                c = CRC_POLY ^ (c >> 1);
            } else {
                c = c >> 1;
            }
            k = k + 1;
        }
        table.push(c);
        n = n + 1;
    }
    table
}

/// Feeds `len` bytes of `buf`, starting at `pos`, to a CRC register holding `crc`.
pub fn update_crc(crc: u32, buf: &[u8], pos: usize, len: usize) -> (r: u32)
    requires
        pos + len <= buf@.len(),
    ensures
        r == crc_update_spec(crc, buf@.subrange(pos as int, pos + len)),
{
    let table = crc_table();
    let buf_len: usize = buf.len();
    let mut c: u32 = crc;
    let mut n: usize = 0;
    while n < len
        invariant
            n <= len,
            pos + len <= buf@.len(),
            buf_len == buf@.len(),
            table@.len() == 256,
            forall|i: int| 0 <= i < 256 ==> table@[i] == crc_table_entry(i as u32),
            c == crc_update_spec(crc, buf@.subrange(pos as int, pos + n)),
        decreases len - n,
    {
        let b: u8 = buf[pos + n];
        let idx: u32 = (c ^ (b as u32)) & 0xFF;
        assert(idx < 256) by (bit_vector)
            requires
                idx == (c ^ (b as u32)) & 0xFF,
        ;
        proof {
            let s = buf@.subrange(pos as int, pos + n + 1);
            assert(s.drop_last() =~= buf@.subrange(pos as int, pos + n));
            assert(s.last() == b);
        }
        c = table[idx as usize] ^ (c >> 8);
        n = n + 1;
    }
    c
}

/// The CRC-32 checksum of `len` bytes of `buf` starting at `pos`.
pub fn compute(buf: &[u8], pos: usize, len: usize) -> (r: u32)
    requires
        pos + len <= buf@.len(),
    ensures
        r == crc32_spec(buf@.subrange(pos as int, pos + len)),
{
    update_crc(0xFFFFFFFF, buf, pos, len) ^ 0xFFFFFFFF
}

/// The checksum of the empty sequence is zero: the initial register and the
/// final mask cancel.
pub proof fn lemma_crc32_empty()
    ensures
        crc32_spec(Seq::<u8>::empty()) == 0,
{
    assert(0xFFFFFFFFu32 ^ 0xFFFFFFFFu32 == 0) by (bit_vector);
}

} // verus!
