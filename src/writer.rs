//! Building a KCAP archive from named payloads.

use vstd::prelude::*;

use crate::bytes::{push_u32_le, u32_le_bytes};
use crate::crc32::{compute, crc32_spec};
use crate::kcap::{magic, PackError, HEADER_LEN, NAME_LEN, RECORD_LEN};
use crate::key_table::{create_key_table, key_table_of, xor_spec, xor_with_table, KeyTable, KEY_TABLE_LEN};
use crate::legacy::{encode_legacy, sjis_encoded};

verus! {

/// A payload waiting to be written, with the offset that layout gives it.
#[derive(Debug)]
pub struct KCAPEntryWrite {
    pub name: String,
    pub data: Vec<u8>,
    pub offset: u64,
    pub size: u64,
}

/// `sorted` with `e` inserted after every entry whose size is at most its own.
pub open spec fn insert_by_size(sorted: Seq<KCAPEntryWrite>, e: KCAPEntryWrite) -> Seq<
    KCAPEntryWrite,
>
    decreases sorted.len(),
{
    if sorted.len() == 0 {
        seq![e]
    } else if sorted.last().size <= e.size {
        sorted.push(e)
    } else {
        insert_by_size(sorted.drop_last(), e).push(sorted.last())
    }
}

/// `s` sorted by ascending size; entries of equal size keep their order.
pub open spec fn sort_by_size(s: Seq<KCAPEntryWrite>) -> Seq<KCAPEntryWrite>
    decreases s.len(),
{
    if s.len() == 0 {
        s
    } else {
        insert_by_size(sort_by_size(s.drop_last()), s.last())
    }
}

/// The total size of the first `k` entries.
pub open spec fn size_prefix(s: Seq<KCAPEntryWrite>, k: int) -> int
    decreases k,
{
    if k <= 0 {
        0
    } else {
        size_prefix(s, k - 1) + s[k - 1].size
    }
}

/// Where the payloads begin: after the header and the directory.
pub open spec fn payload_base(n: int) -> int {
    HEADER_LEN + n * RECORD_LEN
}

/// `s` with each entry's offset set: the payloads follow the directory,
/// back to back, in the order of `s`.
pub open spec fn laid_out(s: Seq<KCAPEntryWrite>) -> Seq<KCAPEntryWrite> {
    Seq::new(
        s.len(),
        |k: int|
            KCAPEntryWrite {
                name: s[k].name,
                data: s[k].data,
                offset: (payload_base(s.len() as int) + size_prefix(s, k)) as u64,
                size: s[k].size,
            },
    )
}

/// The length of the archive that holds `s`.
pub open spec fn archive_len(s: Seq<KCAPEntryWrite>) -> int {
    payload_base(s.len() as int) + size_prefix(s, s.len() as int)
}

/// The 64-byte name field: the encoded name padded with zero bytes.
pub open spec fn name_field(enc: Seq<u8>) -> Seq<u8> {
    enc + Seq::new((NAME_LEN - enc.len()) as nat, |i: int| 0u8)
}

pub open spec fn encoded_name(e: KCAPEntryWrite) -> Seq<u8> {
    sjis_encoded(e.name@)
}

/// The directory record of `e`.
pub open spec fn dir_record(e: KCAPEntryWrite, flag: u32) -> Seq<u8> {
    let field = name_field(encoded_name(e));
    field + u32_le_bytes(crc32_spec(field)) + u32_le_bytes(0) + u32_le_bytes(e.offset as u32)
        + u32_le_bytes(e.size as u32) + u32_le_bytes(flag)
}

pub open spec fn directory(s: Seq<KCAPEntryWrite>, flag: u32) -> Seq<u8>
    decreases s.len(),
{
    if s.len() == 0 {
        Seq::empty()
    } else {
        directory(s.drop_last(), flag) + dir_record(s.last(), flag)
    }
}

/// The stored payload of `e`: XORed with the key table when there is one.
pub open spec fn stored_payload(e: KCAPEntryWrite, table: Option<Seq<u8>>) -> Seq<u8> {
    match table {
        Some(t) => xor_spec(e.data@, t),
        None => e.data@,
    }
}

pub open spec fn payloads(s: Seq<KCAPEntryWrite>, table: Option<Seq<u8>>) -> Seq<u8>
    decreases s.len(),
{
    if s.len() == 0 {
        Seq::empty()
    } else {
        payloads(s.drop_last(), table) + stored_payload(s.last(), table)
    }
}

/// The archive-wide encrypted flag.
pub open spec fn flag_of(table: Option<Seq<u8>>) -> u32 {
    if table is Some {
        1
    } else {
        0
    }
}

/// The bytes of an archive holding the laid-out entries `s`.
pub open spec fn archive_bytes(s: Seq<KCAPEntryWrite>, table: Option<Seq<u8>>) -> Seq<u8> {
    magic() + u32_le_bytes(s.len() as u32) + directory(s, flag_of(table)) + payloads(s, table)
}

pub open spec fn table_view(t: Option<KeyTable>) -> Option<Seq<u8>> {
    match t {
        Some(v) => Some(v@),
        None => None,
    }
}

/// Every name of `s` encodes to at most 64 bytes.
pub open spec fn names_fit(s: Seq<KCAPEntryWrite>) -> bool {
    forall|k: int| 0 <= k < s.len() ==> (#[trigger] encoded_name(s[k])).len() <= NAME_LEN
}

/// Sizes ascend along `s`.
pub open spec fn sorted_by_size(s: Seq<KCAPEntryWrite>) -> bool {
    forall|i: int, j: int| 0 <= i <= j < s.len() ==> s[i].size <= s[j].size
}

/// Each entry's size is the length of its payload.
pub open spec fn sizes_match(s: Seq<KCAPEntryWrite>) -> bool {
    forall|k: int| 0 <= k < s.len() ==> (#[trigger] s[k]).size == s[k].data@.len()
}

proof fn lemma_insert_facts(d: Seq<KCAPEntryWrite>, e: KCAPEntryWrite)
    ensures
        insert_by_size(d, e).len() == d.len() + 1,
        insert_by_size(d, e).last() == e || (d.len() > 0 && insert_by_size(d, e).last()
            == d.last()),
        size_prefix(insert_by_size(d, e), d.len() + 1int) == size_prefix(d, d.len() as int)
            + e.size,
        sizes_match(d) && e.size == e.data@.len() ==> sizes_match(insert_by_size(d, e)),
        sorted_by_size(d) ==> sorted_by_size(insert_by_size(d, e)),
        insert_by_size(d, e).to_multiset() == d.to_multiset().insert(e),
    decreases d.len(),
{
    broadcast use vstd::seq_lib::to_multiset_build, vstd::multiset::group_multiset_axioms;

    let r = insert_by_size(d, e);
    if d.len() == 0 {
        assert(size_prefix(r, 0) == 0);
        assert(r =~= Seq::<KCAPEntryWrite>::empty().push(e));
        assert(d =~= Seq::<KCAPEntryWrite>::empty());
    } else if d.last().size <= e.size {
        lemma_size_prefix_push(d, e, d.len() as int);
    } else {
        let dd = d.drop_last();
        lemma_insert_facts(dd, e);
        let r0 = insert_by_size(dd, e);
        assert(dd.push(d.last()) =~= d);
        assert(r.to_multiset() =~= d.to_multiset().insert(e));
        lemma_size_prefix_push(r0, d.last(), r0.len() as int);
        lemma_size_prefix_push(dd, d.last(), dd.len() as int);
        assert(dd.push(d.last()) =~= d);
        if sizes_match(d) && e.size == e.data@.len() {
            assert forall|k: int| 0 <= k < dd.len() implies (#[trigger] dd[k]).size
                == dd[k].data@.len() by {
                assert(dd[k] == d[k]);
            }
            assert forall|k: int| 0 <= k < r.len() implies (#[trigger] r[k]).size
                == r[k].data@.len() by {
                if k < r0.len() {
                    assert(r[k] == r0[k]);
                }
            }
        }
        if sorted_by_size(d) {
            assert(sorted_by_size(dd));
            assert forall|i: int, j: int| 0 <= i <= j < r.len() implies r[i].size
                <= r[j].size by {
                if j == r.len() - 1 {
                    if i < j {
                        assert(r[i] == r0[i]);
                        assert(r0[r0.len() - 1].size <= d.last().size);
                        if i < r0.len() - 1 {
                            assert(r0[i].size <= r0[r0.len() - 1].size);
                        }
                    }
                } else {
                    assert(r[i] == r0[i] && r[j] == r0[j]);
                }
            }
        }
    }
}

pub proof fn lemma_size_prefix_push(s: Seq<KCAPEntryWrite>, x: KCAPEntryWrite, k: int)
    requires
        0 <= k <= s.len(),
    ensures
        size_prefix(s.push(x), k) == size_prefix(s, k),
        k == s.len() ==> size_prefix(s.push(x), k + 1) == size_prefix(s, k) + x.size,
    decreases k,
{
    if k > 0 {
        lemma_size_prefix_push(s, x, k - 1);
        assert(s.push(x)[k - 1] == s[k - 1]);
    }
}

pub proof fn lemma_size_prefix_monotone(s: Seq<KCAPEntryWrite>, j: int, k: int)
    requires
        0 <= j <= k,
    ensures
        size_prefix(s, j) <= size_prefix(s, k),
    decreases k,
{
    if j < k {
        lemma_size_prefix_monotone(s, j, k - 1);
    }
}

/// Sorting rearranges the entries (the same multiset), so it keeps their
/// number, their total size and the size/payload agreement; and it yields
/// ascending sizes.
pub proof fn lemma_sort_by_size(s: Seq<KCAPEntryWrite>)
    ensures
        sort_by_size(s).len() == s.len(),
        size_prefix(sort_by_size(s), s.len() as int) == size_prefix(s, s.len() as int),
        sorted_by_size(sort_by_size(s)),
        sizes_match(s) ==> sizes_match(sort_by_size(s)),
        sort_by_size(s).to_multiset() == s.to_multiset(),
    decreases s.len(),
{
    broadcast use vstd::seq_lib::to_multiset_build;

    if s.len() > 0 {
        let d = s.drop_last();
        lemma_sort_by_size(d);
        lemma_insert_facts(sort_by_size(d), s.last());
        lemma_size_prefix_push(d, s.last(), d.len() as int);
        assert(d.push(s.last()) =~= s);
        if sizes_match(s) {
            assert forall|k: int| 0 <= k < d.len() implies (#[trigger] d[k]).size
                == d[k].data@.len() by {
                assert(d[k] == s[k]);
            }
        }
    }
}

/// After layout the entries come in ascending size order; the first payload
/// starts right after the directory and each one starts where the one
/// before it ends.
pub proof fn lemma_layout_contiguous(s: Seq<KCAPEntryWrite>)
    requires
        archive_len(s) <= u64::MAX,
    ensures
        laid_out(sort_by_size(s)).len() == s.len(),
        sorted_by_size(laid_out(sort_by_size(s))),
        s.len() > 0 ==> laid_out(sort_by_size(s))[0].offset == payload_base(s.len() as int),
        forall|k: int|
            0 <= k < s.len() - 1 ==> #[trigger] laid_out(sort_by_size(s))[k + 1].offset
                == laid_out(sort_by_size(s))[k].offset + laid_out(sort_by_size(s))[k].size,
{
    let t = sort_by_size(s);
    lemma_sort_by_size(s);
    let l = laid_out(t);
    let n = s.len() as int;
    assert forall|k: int| 0 <= k < n implies #[trigger] l[k].offset == payload_base(n)
        + size_prefix(t, k) && l[k].size == t[k].size by {
        lemma_size_prefix_monotone(t, k, n);
        lemma_size_prefix_monotone(t, 0, k);
        assert(0 <= payload_base(n) + size_prefix(t, k) <= u64::MAX);
    }
    if n > 0 {
        assert(size_prefix(t, 0) == 0);
        assert(l[0].offset == payload_base(n) + size_prefix(t, 0));
    }
    assert forall|k: int| 0 <= k < n - 1 implies #[trigger] l[k + 1].offset == l[k].offset
        + l[k].size by {
        assert(l[k + 1].offset == payload_base(n) + size_prefix(t, k + 1));
        assert(l[k].offset == payload_base(n) + size_prefix(t, k));
    }
    assert forall|i: int, j: int| 0 <= i <= j < l.len() implies l[i].size <= l[j].size by {
        assert(l[i].size == t[i].size && l[j].size == t[j].size);
    }
}

/// Collects entries and writes them out as one archive.
pub struct KCAPPackWriter {
    pub pass: Option<String>,
    pub key_table: Option<KeyTable>,
    pub entries: Vec<KCAPEntryWrite>,
}

impl KCAPPackWriter {
    /// Each entry's size is its payload length, and the key table is the
    /// one of the password.
    pub open spec fn wf(&self) -> bool {
        &&& forall|k: int|
            0 <= k < self.entries@.len() ==> (#[trigger] self.entries@[k]).size
                == self.entries@[k].data@.len()
        &&& match self.pass {
            Some(p) => self.key_table matches Some(t) && t@ == key_table_of(p@),
            None => self.key_table is None,
        }
    }

    /// An empty writer; with a password, payloads are encrypted.
    pub fn new(pass: Option<String>) -> (w: Self)
        ensures
            w.wf(),
            w.pass == pass,
            w.entries@.len() == 0,
    {
        let key_table = match &pass {
            Some(p) => Some(create_key_table(p.as_str())),
            None => None,
        };
        KCAPPackWriter { pass, key_table, entries: Vec::new() }
    }

    /// Adds a payload under `name`.
    pub fn add_entry(&mut self, data: Vec<u8>, name: &str)
        requires
            old(self).wf(),
        ensures
            final(self).wf(),
            final(self).pass == old(self).pass,
            final(self).key_table == old(self).key_table,
            final(self).entries@.len() == old(self).entries@.len() + 1,
            final(self).entries@.drop_last() == old(self).entries@,
            final(self).entries@.last().name@ == name@,
            final(self).entries@.last().data@ == data@,
            final(self).entries@.last().offset == 0,
    {
        let size: u64 = data.len() as u64;
        let e = KCAPEntryWrite { name: name.to_string(), data, offset: 0, size };
        self.entries.push(e);
        assert(self.entries@.drop_last() =~= old(self).entries@);
    }

    /// Sorts the entries by ascending size (entries of equal size keep their
    /// order) and gives each its offset: payloads follow the directory back
    /// to back.
    pub fn calc_offset(&mut self)
        requires
            archive_len(old(self).entries@) <= u64::MAX,
        ensures
            final(self).entries@ == laid_out(sort_by_size(old(self).entries@)),
            final(self).pass == old(self).pass,
            final(self).key_table == old(self).key_table,
            old(self).wf() ==> final(self).wf(),
    {
        let mut rest: Vec<KCAPEntryWrite> = Vec::new();
        std::mem::swap(&mut rest, &mut self.entries);
        let sorted = sort_entries(rest);
        proof {
            lemma_sort_by_size(old(self).entries@);
        }
        self.entries = lay_out(sorted);
        proof {
            let t = sort_by_size(old(self).entries@);
            if old(self).wf() {
                assert(sizes_match(old(self).entries@));
                assert forall|k: int| 0 <= k < self.entries@.len() implies (#[trigger] self.entries@[k]).size
                    == self.entries@[k].data@.len() by {
                    assert(t[k].size == t[k].data@.len());
                }
            }
        }
    }
    /// Lays the entries out (see `calc_offset`) and serializes the archive:
    /// the marker, the count, one record per entry, then the payloads, XORed
    /// with the key table when the writer has a password. Fails with
    /// `TooLarge` when the archive would exceed the 32-bit offsets (nothing
    /// is changed then), and with `NameTooLong(k)` for the first entry, in
    /// archive order, whose encoded name exceeds 64 bytes.
    pub fn write_to(&mut self) -> (r: Result<Vec<u8>, PackError>)
        requires
            old(self).wf(),
        ensures
            final(self).pass == old(self).pass,
            final(self).key_table == old(self).key_table,
            final(self).wf(),
            archive_len(old(self).entries@) > u32::MAX ==> r == Err::<Vec<u8>, PackError>(
                PackError::TooLarge,
            ) && final(self).entries@ == old(self).entries@,
            archive_len(old(self).entries@) <= u32::MAX ==> {
                let l = laid_out(sort_by_size(old(self).entries@));
                &&& final(self).entries@ == l
                &&& (r is Ok <==> names_fit(l))
                &&& match r {
                    Ok(out) => out@ == archive_bytes(l, table_view(old(self).key_table)),
                    Err(e) => exists|k: int|
                        #![trigger encoded_name(l[k])]
                        0 <= k < l.len() && e == PackError::NameTooLong(k as usize)
                            && encoded_name(l[k]).len() > NAME_LEN && forall|j: int|
                            0 <= j < k ==> (#[trigger] encoded_name(l[j])).len() <= NAME_LEN,
                }
            },
    {
        if !fits_offsets(&self.entries) {
            return Err(PackError::TooLarge);
        }
        self.calc_offset();
        proof {
            lemma_sort_by_size(old(self).entries@);
        }
        let ghost l = self.entries@;
        let flag: u32 = match &self.key_table {
            Some(_) => 1,
            None => 0,
        };
        let mut out: Vec<u8> = Vec::new();
        out.push(0x4B);
        out.push(0x43);
        out.push(0x41);
        out.push(0x50);
        push_u32_le(&mut out, #[verifier::truncate] (self.entries.len() as u32));
        let ghost head = out@;
        assert(head =~= magic() + u32_le_bytes(l.len() as u32));
        match write_directory(&self.entries, flag, &mut out) {
            Ok(()) => {},
            Err(e) => {
                return Err(e);
            },
        }
        write_payloads(&self.entries, &self.key_table, &mut out);
        assert(out@ =~= archive_bytes(l, table_view(self.key_table)));
        Ok(out)
    }
}

/// Whether the archive holding `entries` fits the 32-bit offsets.
fn fits_offsets(entries: &Vec<KCAPEntryWrite>) -> (ok: bool)
    ensures
        ok == (archive_len(entries@) <= u32::MAX),
{
    let n: usize = entries.len();
    proof {
        lemma_size_prefix_monotone(entries@, 0, n as int);
    }
    if n as u64 > 0xFFFF_FFFFu64 {
        return false;
    }
    assert((n as u64) * (RECORD_LEN as u64) <= 0xFFFF_FFFFu64 * 84) by (nonlinear_arith)
        requires
            n <= 0xFFFF_FFFFu64,
    ;
    let mut total: u64 = (HEADER_LEN as u64) + (n as u64) * (RECORD_LEN as u64);
    if total > 0xFFFF_FFFFu64 {
        return false;
    }
    let mut k: usize = 0;
    while k < n
        invariant
            k <= n,
            n == entries@.len(),
            total == payload_base(n as int) + size_prefix(entries@, k as int),
            total <= u32::MAX,
        decreases n - k,
    {
        let size: u64 = entries[k].size;
        if size > 0xFFFF_FFFFu64 - total {
            proof {
                lemma_size_prefix_monotone(entries@, k + 1, n as int);
            }
            return false;
        }
        total = total + size;
        k = k + 1;
    }
    true
}

/// Appends the directory records of `entries`; fails at the first name that
/// does not fit its field, leaving `out` partly written.
fn write_directory(entries: &Vec<KCAPEntryWrite>, flag: u32, out: &mut Vec<u8>) -> (r: Result<
    (),
    PackError,
>)
    ensures
        r is Ok <==> names_fit(entries@),
        match r {
            Ok(()) => final(out)@ == old(out)@ + directory(entries@, flag),
            Err(e) => exists|k: int|
                #![trigger encoded_name(entries@[k])]
                0 <= k < entries@.len() && e == PackError::NameTooLong(k as usize)
                    && encoded_name(entries@[k]).len() > NAME_LEN && forall|j: int|
                    0 <= j < k ==> (#[trigger] encoded_name(entries@[j])).len() <= NAME_LEN,
        },
{
    let ghost l = entries@;
    let ghost head = out@;
    let n: usize = entries.len();
    assert(l.subrange(0, 0) =~= Seq::<KCAPEntryWrite>::empty());
    assert(head + directory(l.subrange(0, 0), flag) =~= head);
    let mut k: usize = 0;
    while k < n
        invariant
            k <= n,
            n == l.len(),
            l == entries@,
            out@ == head + directory(l.subrange(0, k as int), flag),
            forall|j: int| 0 <= j < k ==> (#[trigger] encoded_name(l[j])).len() <= NAME_LEN,
        decreases n - k,
    {
        let mut field = encode_legacy(entries[k].name.as_str());
        if field.len() > NAME_LEN {
            assert(!names_fit(l)) by {
                assert(encoded_name(l[k as int]).len() > NAME_LEN);
            }
            return Err(PackError::NameTooLong(k));
        }
        let ghost enc = field@;
        while field.len() < NAME_LEN
            invariant
                field@.len() <= NAME_LEN,
                enc.len() <= field@.len(),
                field@ == enc + Seq::new((field@.len() - enc.len()) as nat, |i: int| 0u8),
            decreases NAME_LEN - field@.len(),
        {
            field.push(0);
            assert(field@ =~= enc + Seq::new((field@.len() - enc.len()) as nat, |i: int| 0u8));
        }
        assert(field@ == name_field(enc));
        let crc: u32 = compute(field.as_slice(), 0, NAME_LEN);
        assert(field@.subrange(0, NAME_LEN as int) =~= field@);
        out.append(&mut field);
        push_u32_le(out, crc);
        push_u32_le(out, 0);
        push_u32_le(out, #[verifier::truncate] (entries[k].offset as u32));
        push_u32_le(out, #[verifier::truncate] (entries[k].size as u32));
        push_u32_le(out, flag);
        proof {
            let d = l.subrange(0, k + 1);
            assert(d.drop_last() =~= l.subrange(0, k as int));
            assert(d.last() == l[k as int]);
            assert(out@ =~= head + directory(d, flag));
        }
        k = k + 1;
    }
    assert(l.subrange(0, n as int) =~= l);
    Ok(())
}

/// Appends the payloads of `entries`, XORed with the key table if there is one.
fn write_payloads(entries: &Vec<KCAPEntryWrite>, table: &Option<KeyTable>, out: &mut Vec<u8>)
    requires
        table matches Some(t) ==> t@.len() == KEY_TABLE_LEN,
    ensures
        final(out)@ == old(out)@ + payloads(entries@, table_view(*table)),
{
    let ghost l = entries@;
    let ghost tv = table_view(*table);
    let ghost head = out@;
    let n: usize = entries.len();
    assert(l.subrange(0, 0) =~= Seq::<KCAPEntryWrite>::empty());
    assert(head + payloads(l.subrange(0, 0), tv) =~= head);
    let mut k: usize = 0;
    while k < n
        invariant
            k <= n,
            n == l.len(),
            l == entries@,
            tv == table_view(*table),
            table matches Some(t) ==> t@.len() == KEY_TABLE_LEN,
            out@ == head + payloads(l.subrange(0, k as int), tv),
        decreases n - k,
    {
        let data = entries[k].data.as_slice();
        let mut stored = match table {
            Some(t) => xor_with_table(data, t),
            None => vstd::slice::slice_to_vec(data),
        };
        out.append(&mut stored);
        proof {
            let d = l.subrange(0, k + 1);
            assert(d.drop_last() =~= l.subrange(0, k as int));
            assert(d.last() == l[k as int]);
            assert(out@ =~= head + payloads(d, tv));
        }
        k = k + 1;
    }
    assert(l.subrange(0, n as int) =~= l);
}


/// Inserts `e` into the size-sorted `v` after every entry of no greater size.
fn insert_sorted(v: &mut Vec<KCAPEntryWrite>, e: KCAPEntryWrite)
    ensures
        final(v)@ == insert_by_size(old(v)@, e),
{
    let ghost s = v@;
    let mut j: usize = v.len();
    assert(s.subrange(0, j as int) =~= s);
    assert(s.subrange(j as int, s.len() as int) =~= Seq::<KCAPEntryWrite>::empty());
    while j > 0 && v[j - 1].size > e.size
        invariant
            v@ == s,
            j <= s.len(),
            insert_by_size(s, e) =~= insert_by_size(s.subrange(0, j as int), e) + s.subrange(
                j as int,
                s.len() as int,
            ),
        decreases j,
    {
        let ghost d = s.subrange(0, j as int);
        assert(d.drop_last() =~= s.subrange(0, j - 1));
        assert(d.last() == s[j - 1]);
        assert(s.subrange(j - 1, s.len() as int) =~= seq![s[j - 1]] + s.subrange(
            j as int,
            s.len() as int,
        ));
        j = j - 1;
    }
    v.insert(j, e);
    assert(v@ =~= insert_by_size(s, e));
}

fn sort_entries(v: Vec<KCAPEntryWrite>) -> (r: Vec<KCAPEntryWrite>)
    ensures
        r@ == sort_by_size(v@),
{
    let ghost s = v@;
    let mut rest = v;
    let mut sorted: Vec<KCAPEntryWrite> = Vec::new();
    let mut k: usize = 0;
    let n: usize = rest.len();
    while k < n
        invariant
            k <= n,
            n == s.len(),
            rest@ == s.subrange(k as int, n as int),
            sorted@ == sort_by_size(s.subrange(0, k as int)),
        decreases n - k,
    {
        let e = rest.remove(0);
        assert(s.subrange(0, k + 1).drop_last() =~= s.subrange(0, k as int));
        insert_sorted(&mut sorted, e);
        assert(rest@ =~= s.subrange(k + 1, n as int));
        k = k + 1;
    }
    assert(s.subrange(0, n as int) =~= s);
    sorted
}

/// Gives each entry of `s` its offset, in order.
fn lay_out(s: Vec<KCAPEntryWrite>) -> (r: Vec<KCAPEntryWrite>)
    requires
        archive_len(s@) <= u64::MAX,
    ensures
        r@ == laid_out(s@),
{
    let ghost g = s@;
    let n: usize = s.len();
    let mut rest = s;
    let mut out: Vec<KCAPEntryWrite> = Vec::new();
    proof {
        assert(payload_base(n as int) <= archive_len(g)) by {
            lemma_size_prefix_monotone(g, 0, n as int);
        }
    }
    let mut off: u64 = (HEADER_LEN as u64) + (n as u64) * (RECORD_LEN as u64);
    let mut k: usize = 0;
    while k < n
        invariant
            k <= n,
            n == g.len(),
            archive_len(g) <= u64::MAX,
            rest@ == g.subrange(k as int, n as int),
            off == payload_base(n as int) + size_prefix(g, k as int),
            out@ =~= laid_out(g).subrange(0, k as int),
        decreases n - k,
    {
        let mut e = rest.remove(0);
        assert(e == g[k as int]);
        proof {
            lemma_size_prefix_monotone(g, k + 1, n as int);
        }
        e.offset = off;
        off = off + e.size;
        out.push(e);
        k = k + 1;
    }
    out
}

} // verus!
