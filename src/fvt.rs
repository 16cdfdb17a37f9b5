//! The FVT subtitle record: a tag whose second byte selects one of three
//! layouts, little-endian integers kept verbatim, and a Shift_JIS text with a
//! one-byte length.

use vstd::prelude::*;
use vstd::slice::slice_subrange;
use vstd::string::StringSliceAdditionalSpecFns;

use crate::bytes::{le_u32, lemma_le_round_trip, push_u32_le, read_u32_le, u32_le_bytes};
use crate::legacy::{decode_legacy, encode_legacy, sjis_decoded, sjis_encoded};

verus! {

/// The three record layouts.
#[derive(Debug, Clone, Copy, PartialEq, Eq)]
pub enum FvtKind {
    /// Tag `DEND_FVT`: one 32-bit field.
    DenD,
    /// Tag `D2_FVT`: three 32-bit fields.
    D2,
    /// Tag `D3_FVT`: three 32-bit fields.
    D3,
}

/// A decoded record; the integer fields have no known meaning and are kept
/// as they are.
#[derive(Debug)]
pub struct FvtRecord {
    pub kind: FvtKind,
    pub u32_unknown0: u32,
    pub u32_unknown1: u32,
    pub u32_unknown2: u32,
    pub u8_unknown0: u8,
    pub u8_unknown1: u8,
    pub text: String,
}

#[derive(Debug, Clone, Copy, PartialEq, Eq)]
pub enum FvtError {
    /// The selector byte names no known layout.
    UnknownKind,
    /// The input ends before a field that the layout requires.
    Truncated,
    /// The encoded text is longer than its one-byte length allows.
    TextTooLong,
}

/// The tag that opens a record of kind `k`.
pub open spec fn tag_bytes(k: FvtKind) -> Seq<u8> {
    match k {
        FvtKind::DenD => seq![0x44u8, 0x45, 0x4E, 0x44, 0x5F, 0x46, 0x56, 0x54],
        FvtKind::D2 => seq![0x44u8, 0x32, 0x5F, 0x46, 0x56, 0x54],
        FvtKind::D3 => seq![0x44u8, 0x33, 0x5F, 0x46, 0x56, 0x54],
    }
}

/// The layout that the second byte of a record selects.
pub open spec fn kind_of_selector(b: u8) -> Option<FvtKind> {
    if b == 0x45 {
        Some(FvtKind::DenD)
    } else if b == 0x32 {
        Some(FvtKind::D2)
    } else if b == 0x33 {
        Some(FvtKind::D3)
    } else {
        None
    }
}

/// Where the integer fields start.
pub open spec fn fields_start(k: FvtKind) -> int {
    tag_bytes(k).len() as int
}

/// Where the text length byte sits: after the 32-bit fields and one byte.
pub open spec fn length_at(k: FvtKind) -> int {
    match k {
        FvtKind::DenD => fields_start(k) + 5,
        _ => fields_start(k) + 13,
    }
}

/// `r` as read from `b`, a record of kind `k` whose text length byte is in range.
pub open spec fn decoded_from(r: FvtRecord, b: Seq<u8>, k: FvtKind) -> bool {
    let f = fields_start(k);
    let l = length_at(k);
    let n = b[l] as int;
    &&& r.kind == k
    &&& r.u32_unknown0 == le_u32(b, f)
    &&& r.u32_unknown1 == (if k == FvtKind::DenD {
        0
    } else {
        le_u32(b, f + 4)
    })
    &&& r.u32_unknown2 == (if k == FvtKind::DenD {
        0
    } else {
        le_u32(b, f + 8)
    })
    &&& r.u8_unknown0 == b[l - 1]
    &&& r.u8_unknown1 == b[l + 1]
    &&& r.text@ == sjis_decoded(b.subrange(l + 2, l + 2 + n))
}

/// The bytes of record `r` whose encoded text is `text`.
pub open spec fn encoded_record(r: FvtRecord, text: Seq<u8>) -> Seq<u8> {
    let ints = if r.kind == FvtKind::DenD {
        u32_le_bytes(r.u32_unknown0)
    } else {
        u32_le_bytes(r.u32_unknown0) + u32_le_bytes(r.u32_unknown1) + u32_le_bytes(r.u32_unknown2)
    };
    tag_bytes(r.kind) + ints + seq![r.u8_unknown0, text.len() as u8, r.u8_unknown1] + text
}

fn push_tag(out: &mut Vec<u8>, k: FvtKind)
    ensures
        final(out)@ == old(out)@ + tag_bytes(k),
{
    out.push(0x44);
    match k {
        FvtKind::DenD => {
            out.push(0x45);
            out.push(0x4E);
            out.push(0x44);
        },
        FvtKind::D2 => {
            out.push(0x32);
        },
        FvtKind::D3 => {
            out.push(0x33);
        },
    }
    out.push(0x5F);
    out.push(0x46);
    out.push(0x56);
    out.push(0x54);
    assert(final(out)@ =~= old(out)@ + tag_bytes(k));
}

fn tag_of(k: FvtKind) -> (v: Vec<u8>)
    ensures
        v@ == tag_bytes(k),
{
    let mut v: Vec<u8> = Vec::new();
    push_tag(&mut v, k);
    assert(v@ =~= tag_bytes(k));
    v
}

fn same_bytes(a: &[u8], b: &[u8]) -> (r: bool)
    ensures
        r == (a@ == b@),
{
    if a.len() != b.len() {
        return false;
    }
    let mut i: usize = 0;
    while i < a.len()
        invariant
            i <= a@.len(),
            a@.len() == b@.len(),
            forall|j: int| 0 <= j < i ==> a@[j] == b@[j],
        decreases a@.len() - i,
    {
        if a[i] != b[i] {
            return false;
        }
        i = i + 1;
    }
    assert(a@ =~= b@);
    true
}

impl FvtKind {
    /// The kind whose tag is exactly the bytes of `tag`.
    pub fn from_tag(tag: &str) -> (r: Option<FvtKind>)
        ensures
            r matches Some(k) ==> tag_bytes(k) == tag.spec_bytes(),
            r is None ==> forall|k: FvtKind| tag_bytes(k) != tag.spec_bytes(),
    {
        let b = tag.as_bytes();
        if same_bytes(b, tag_of(FvtKind::DenD).as_slice()) {
            return Some(FvtKind::DenD);
        }
        if same_bytes(b, tag_of(FvtKind::D2).as_slice()) {
            return Some(FvtKind::D2);
        }
        if same_bytes(b, tag_of(FvtKind::D3).as_slice()) {
            return Some(FvtKind::D3);
        }
        assert forall|k: FvtKind| tag_bytes(k) != tag.spec_bytes() by {
            match k {
                FvtKind::DenD => {},
                FvtKind::D2 => {},
                FvtKind::D3 => {},
            }
        }
        None
    }
}

/// Reads one record from the start of `input`; bytes after it are ignored.
pub fn decode(input: &[u8]) -> (r: Result<FvtRecord, FvtError>)
    ensures
        input@.len() < 2 ==> r == Err::<FvtRecord, FvtError>(FvtError::Truncated),
        input@.len() >= 2 && kind_of_selector(input@[1]) is None ==> r == Err::<
            FvtRecord,
            FvtError,
        >(FvtError::UnknownKind),
        input@.len() >= 2 ==> (kind_of_selector(input@[1]) matches Some(k) ==> {
            let l = length_at(k);
            let fits = l + 2 <= input@.len() && l + 2 + input@[l] as int <= input@.len();
            &&& fits ==> (r matches Ok(rec) && decoded_from(rec, input@, k))
            &&& !fits ==> r == Err::<FvtRecord, FvtError>(FvtError::Truncated)
        }),
{
    let len: usize = input.len();
    if len < 2 {
        return Err(FvtError::Truncated);
    }
    let sel: u8 = input[1];
    let kind: FvtKind = if sel == 0x45 {
        FvtKind::DenD
    } else if sel == 0x32 {
        FvtKind::D2
    } else if sel == 0x33 {
        FvtKind::D3
    } else {
        return Err(FvtError::UnknownKind);
    };
    let f: usize = match kind {
        FvtKind::DenD => 8,
        _ => 6,
    };
    let l: usize = match kind {
        FvtKind::DenD => f + 5,
        _ => f + 13,
    };
    if len < l + 2 {
        return Err(FvtError::Truncated);
    }
    let n: usize = input[l] as usize;
    if len - (l + 2) < n {
        return Err(FvtError::Truncated);
    }
    let u32_unknown0: u32 = read_u32_le(input, f);
    let (u32_unknown1, u32_unknown2) = match kind {
        FvtKind::DenD => (0u32, 0u32),
        _ => (read_u32_le(input, f + 4), read_u32_le(input, f + 8)),
    };
    let text = decode_legacy(slice_subrange(input, l + 2, l + 2 + n));
    Ok(
        FvtRecord {
            kind,
            u32_unknown0,
            u32_unknown1,
            u32_unknown2,
            u8_unknown0: input[l - 1],
            u8_unknown1: input[l + 1],
            text,
        },
    )
}

/// Writes `rec` in the layout of its kind; fails when the Shift_JIS text is
/// longer than 255 bytes.
pub fn encode(rec: &FvtRecord) -> (r: Result<Vec<u8>, FvtError>)
    ensures
        sjis_encoded(rec.text@).len() > 255 ==> r == Err::<Vec<u8>, FvtError>(
            FvtError::TextTooLong,
        ),
        sjis_encoded(rec.text@).len() <= 255 ==> (r matches Ok(out) && out@ == encoded_record(
            *rec,
            sjis_encoded(rec.text@),
        )),
{
    let mut text = encode_legacy(rec.text.as_str());
    if text.len() > 255 {
        return Err(FvtError::TextTooLong);
    }
    let mut out: Vec<u8> = Vec::new();
    push_tag(&mut out, rec.kind);
    push_u32_le(&mut out, rec.u32_unknown0);
    match rec.kind {
        FvtKind::DenD => {},
        _ => {
            push_u32_le(&mut out, rec.u32_unknown1);
            push_u32_le(&mut out, rec.u32_unknown2);
        },
    }
    out.push(rec.u8_unknown0);
    out.push(text.len() as u8);
    out.push(rec.u8_unknown1);
    let ghost t = text@;
    out.append(&mut text);
    assert(out@ =~= encoded_record(*rec, t));
    Ok(out)
}

/// Decoding the bytes of an encoded record gives the record back: its kind,
/// its integer fields (the two that the `DEND_FVT` layout lacks read as zero)
/// and the decoding of its encoded text.
pub proof fn lemma_fvt_round_trip(r: FvtRecord, back: FvtRecord)
    requires
        sjis_encoded(r.text@).len() <= 255,
        decoded_from(back, encoded_record(r, sjis_encoded(r.text@)), r.kind),
    ensures
        ({
            let b = encoded_record(r, sjis_encoded(r.text@));
            let l = length_at(r.kind);
            &&& b.len() >= 2 && kind_of_selector(b[1]) == Some(r.kind)
            &&& l + 2 <= b.len() && l + 2 + b[l] as int <= b.len()
        }),
        back.kind == r.kind,
        back.u32_unknown0 == r.u32_unknown0,
        r.kind != FvtKind::DenD ==> back.u32_unknown1 == r.u32_unknown1 && back.u32_unknown2
            == r.u32_unknown2,
        back.u8_unknown0 == r.u8_unknown0,
        back.u8_unknown1 == r.u8_unknown1,
        back.text@ == sjis_decoded(sjis_encoded(r.text@)),
{
    let t = sjis_encoded(r.text@);
    let b = encoded_record(r, t);
    let f = fields_start(r.kind);
    let l = length_at(r.kind);
    let tag = tag_bytes(r.kind);
    assert(b[1] == tag[1]);
    assert((t.len() as u8) as int == t.len());
    assert(b.subrange(f, f + 4) =~= u32_le_bytes(r.u32_unknown0));
    lemma_le_round_trip(r.u32_unknown0, b, f);
    if r.kind != FvtKind::DenD {
        assert(b.subrange(f + 4, f + 8) =~= u32_le_bytes(r.u32_unknown1));
        assert(b.subrange(f + 8, f + 12) =~= u32_le_bytes(r.u32_unknown2));
        lemma_le_round_trip(r.u32_unknown1, b, f + 4);
        lemma_le_round_trip(r.u32_unknown2, b, f + 8);
    }
    assert(b[l - 1] == r.u8_unknown0);
    assert(b[l] == t.len() as u8);
    assert(b[l + 1] == r.u8_unknown1);
    assert(b.subrange(l + 2, l + 2 + t.len()) =~= t);
}

} // verus!
