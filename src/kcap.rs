//! The KCAP archive: a header, a directory of 84-byte records, and the
//! payloads, little-endian throughout.

use vstd::prelude::*;
use vstd::slice::{slice_subrange, slice_to_vec};

use crate::bytes::{le_u32, read_u32_le};
use crate::key_table::{create_key_table, key_table_of, xor_spec, xor_with_table, KeyTable, KEY_TABLE_LEN};
use crate::legacy::{decode_legacy, sjis_decoded};

verus! {

/// Size of the header: the marker and the entry count.
pub const HEADER_LEN: usize = 8;

/// Size of one directory record.
pub const RECORD_LEN: usize = 84;

/// Size of the null-padded name field of a record.
pub const NAME_LEN: usize = 64;

/// Why an archive could not be read or written.
#[derive(Debug, Clone, Copy, PartialEq, Eq)]
pub enum PackError {
    /// The file does not start with the `KCAP` marker.
    BadMagic,
    /// The entry count is negative.
    NegativeCount,
    /// The file ends before a field or payload that it announces.
    Truncated,
    /// The requested entry index is not in the directory.
    OutOfRange(usize),
    /// The encoded name of the entry at this position (in archive order) does
    /// not fit its 64-byte field.
    NameTooLong(usize),
    /// The archive would not fit the 32-bit offsets of the format.
    TooLarge,
}

impl PackError {
    pub open spec fn spec_is_format_error(&self) -> bool {
        match self {
            PackError::BadMagic | PackError::NegativeCount | PackError::Truncated => true,
            _ => false,
        }
    }

    /// True for errors that come from malformed archive bytes.
    pub fn is_format_error(&self) -> (r: bool)
        ensures
            r == self.spec_is_format_error(),
    {
        match self {
            PackError::BadMagic | PackError::NegativeCount | PackError::Truncated => true,
            _ => false,
        }
    }
}

/// The marker that opens every archive.
pub open spec fn magic() -> Seq<u8> {
    seq![0x4Bu8, 0x43u8, 0x41u8, 0x50u8]
}

/// `b` without its trailing zero bytes.
pub open spec fn trim_nul(b: Seq<u8>) -> Seq<u8>
    decreases b.len(),
{
    if b.len() > 0 && b.last() == 0 {
        trim_nul(b.drop_last())
    } else {
        b
    }
}

/// The entry count stored in the header.
pub open spec fn entry_count(d: Seq<u8>) -> i32 {
    le_u32(d, 4) as i32
}

/// The error that opening the archive bytes `d` gives, if any.
pub open spec fn header_error(d: Seq<u8>) -> Option<PackError> {
    if d.len() < 4 {
        Some(PackError::Truncated)
    } else if d.subrange(0, 4) != magic() {
        Some(PackError::BadMagic)
    } else if d.len() < HEADER_LEN {
        Some(PackError::Truncated)
    } else if entry_count(d) < 0 {
        Some(PackError::NegativeCount)
    } else if HEADER_LEN + entry_count(d) * RECORD_LEN > d.len() {
        Some(PackError::Truncated)
    } else {
        None
    }
}

/// Start of directory record `k`.
pub open spec fn record_start(k: int) -> int {
    HEADER_LEN + k * RECORD_LEN
}

/// One directory record as read from an archive.
#[derive(Debug)]
pub struct KCAPEntry {
    pub name: String,
    pub offset: u32,
    pub size: u32,
    pub encrypted: bool,
}

impl KCAPEntry {
    /// `self` is the record stored at `at` in `d`; its checksum and reserved
    /// words are not looked at.
    pub open spec fn read_from(&self, d: Seq<u8>, at: int) -> bool {
        &&& self.name@ == sjis_decoded(trim_nul(d.subrange(at, at + NAME_LEN)))
        &&& self.offset == le_u32(d, at + 72)
        &&& self.size == le_u32(d, at + 76)
        &&& self.encrypted == (le_u32(d, at + 80) != 0)
    }

    /// Reads the directory record that starts at `at` in `data`.
    pub fn from_read(data: &[u8], at: usize) -> (r: Result<KCAPEntry, PackError>)
        ensures
            match r {
                Ok(e) => at + RECORD_LEN <= data@.len() && e.read_from(data@, at as int),
                Err(err) => at + RECORD_LEN > data@.len() && err == PackError::Truncated,
            },
    {
        let len: usize = data.len();
        if at > len || len - at < RECORD_LEN {
            return Err(PackError::Truncated);
        }
        let field = slice_subrange(data, at, at + NAME_LEN);
        let mut end: usize = NAME_LEN;
        assert(field@.subrange(0, NAME_LEN as int) =~= field@);
        while end > 0 && field[end - 1] == 0
            invariant
                end <= NAME_LEN,
                field@.len() == NAME_LEN,
                trim_nul(field@) == trim_nul(field@.subrange(0, end as int)),
            decreases end,
        {
            assert(field@.subrange(0, end as int).drop_last() =~= field@.subrange(0, end - 1));
            end = end - 1;
        }
        assert(trim_nul(field@) == field@.subrange(0, end as int)) by {
            if end == 0 {
                assert(field@.subrange(0, 0).len() == 0);
            }
        }
        let name = decode_legacy(slice_subrange(field, 0, end));
        let offset: u32 = read_u32_le(data, at + 72);
        let size: u32 = read_u32_le(data, at + 76);
        let flag: u32 = read_u32_le(data, at + 80);
        Ok(KCAPEntry { name, offset, size, encrypted: flag != 0 })
    }
}

/// What extracting entry `e` from the archive bytes `d` yields.
pub open spec fn extract_spec(d: Seq<u8>, e: KCAPEntry, table: Seq<u8>) -> Seq<u8> {
    let raw = d.subrange(e.offset as int, e.offset + e.size);
    if e.encrypted {
        xor_spec(raw, table)
    } else {
        raw
    }
}

/// An opened archive: its bytes, its directory and the key table of the
/// password it was opened with.
pub struct KCAPPackReader {
    pub data: Vec<u8>,
    pub entries: Vec<KCAPEntry>,
    pub key_table: KeyTable,
}

impl KCAPPackReader {
    /// Parses the header and directory of the archive bytes `data`.
    pub fn new(data: Vec<u8>, pass: &str) -> (r: Result<KCAPPackReader, PackError>)
        ensures
            match r {
                Ok(rd) => {
                    &&& header_error(data@) is None
                    &&& rd.data@ == data@
                    &&& rd.entries@.len() == entry_count(data@)
                    &&& forall|k: int|
                        0 <= k < rd.entries@.len() ==> #[trigger] rd.entries@[k].read_from(
                            data@,
                            record_start(k),
                        )
                    &&& rd.key_table@ == key_table_of(pass@)
                },
                Err(e) => header_error(data@) == Some(e),
            },
    {
        let len: usize = data.len();
        if len < 4 {
            return Err(PackError::Truncated);
        }
        if !(data[0] == 0x4B && data[1] == 0x43 && data[2] == 0x41 && data[3] == 0x50) {
            assert(data@.subrange(0, 4) != magic()) by {
                if data@.subrange(0, 4) == magic() {
                    assert(data@.subrange(0, 4)[0] == data@[0]);
                    assert(data@.subrange(0, 4)[1] == data@[1]);
                    assert(data@.subrange(0, 4)[2] == data@[2]);
                    assert(data@.subrange(0, 4)[3] == data@[3]);
                }
            }
            return Err(PackError::BadMagic);
        }
        assert(data@.subrange(0, 4) =~= magic());
        if len < HEADER_LEN {
            return Err(PackError::Truncated);
        }
        let count: i32 = #[verifier::truncate] (read_u32_le(data.as_slice(), 4) as i32);
        if count < 0 {
            return Err(PackError::NegativeCount);
        }
        if (count as u64) * (RECORD_LEN as u64) + (HEADER_LEN as u64) > len as u64 {
            return Err(PackError::Truncated);
        }
        let n: usize = count as usize;
        let mut entries: Vec<KCAPEntry> = Vec::new();
        let mut k: usize = 0;
        while k < n
            invariant
                k <= n,
                n == entry_count(data@),
                len == data@.len(),
                HEADER_LEN + n * RECORD_LEN <= data@.len(),
                entries@.len() == k,
                forall|j: int|
                    0 <= j < k ==> #[trigger] entries@[j].read_from(data@, record_start(j)),
            decreases n - k,
        {
            assert(HEADER_LEN + k * RECORD_LEN + RECORD_LEN <= HEADER_LEN + n * RECORD_LEN)
                by (nonlinear_arith)
                requires
                    k < n,
            ;
            let at: usize = HEADER_LEN + k * RECORD_LEN;
            let e = match KCAPEntry::from_read(data.as_slice(), at) {
                Ok(e) => e,
                Err(err) => {
                    return Err(err);
                },
            };
            entries.push(e);
            k = k + 1;
        }
        let key_table = create_key_table(pass);
        Ok(KCAPPackReader { data, entries, key_table })
    }

    /// The payload of entry `index`, decrypted when the entry is marked
    /// encrypted (byte `i` of the payload XORed with `key_table[i mod 65536]`).
    pub fn read_to(&self, index: usize) -> (r: Result<Vec<u8>, PackError>)
        requires
            self.key_table@.len() == KEY_TABLE_LEN,
        ensures
            match r {
                Ok(out) => {
                    &&& index < self.entries@.len()
                    &&& self.entries@[index as int].offset + self.entries@[index as int].size
                        <= self.data@.len()
                    &&& out@ == extract_spec(
                        self.data@,
                        self.entries@[index as int],
                        self.key_table@,
                    )
                },
                Err(e) => if index >= self.entries@.len() {
                    e == PackError::OutOfRange(index)
                } else {
                    &&& e == PackError::Truncated
                    &&& self.entries@[index as int].offset + self.entries@[index as int].size
                        > self.data@.len()
                },
            },
    {
        if index >= self.entries.len() {
            return Err(PackError::OutOfRange(index));
        }
        let e = &self.entries[index];
        if (e.offset as u64) + (e.size as u64) > self.data.len() as u64 {
            return Err(PackError::Truncated);
        }
        let start: usize = e.offset as usize;
        let end: usize = start + e.size as usize;
        let raw = slice_subrange(self.data.as_slice(), start, end);
        if e.encrypted {
            Ok(xor_with_table(raw, &self.key_table))
        } else {
            Ok(slice_to_vec(raw))
        }
    }
}

} // verus!
