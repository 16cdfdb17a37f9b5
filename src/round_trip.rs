//! What opening a freshly written archive gives back.

use vstd::prelude::*;

use crate::bytes::{le_u32, lemma_le_round_trip, u32_le_bytes};
use crate::kcap::{entry_count, extract_spec, header_error, magic, record_start, trim_nul, KCAPEntry, HEADER_LEN, NAME_LEN, RECORD_LEN};
use crate::key_table::{lemma_xor_involution, xor_spec, KEY_TABLE_LEN};
use crate::writer::{
    archive_bytes, archive_len, dir_record, directory, encoded_name, lemma_size_prefix_monotone,
    lemma_size_prefix_push, lemma_sort_by_size, laid_out, name_field, names_fit, payload_base,
    payloads, size_prefix, sizes_match, sort_by_size, stored_payload, KCAPEntryWrite,
};

verus! {

proof fn lemma_directory(s: Seq<KCAPEntryWrite>, flag: u32)
    requires
        names_fit(s),
    ensures
        directory(s, flag).len() == RECORD_LEN * s.len(),
        forall|k: int|
            0 <= k < s.len() ==> directory(s, flag).subrange(
                RECORD_LEN * k,
                RECORD_LEN * k + RECORD_LEN,
            ) == #[trigger] dir_record(s[k], flag),
    decreases s.len(),
{
    if s.len() > 0 {
        let p = s.drop_last();
        assert forall|k: int| 0 <= k < p.len() implies (#[trigger] encoded_name(p[k])).len()
            <= NAME_LEN by {
            assert(p[k] == s[k]);
            assert(encoded_name(s[k]).len() <= NAME_LEN);
        }
        lemma_directory(p, flag);
        let last = s.last();
        assert(encoded_name(s[s.len() - 1]).len() <= NAME_LEN);
        let r = dir_record(last, flag);
        assert(name_field(encoded_name(last)).len() == NAME_LEN);
        assert(r.len() == RECORD_LEN);
        let d = directory(s, flag);
        let dp = directory(p, flag);
        assert(d == dp + r);
        assert forall|k: int| 0 <= k < s.len() implies d.subrange(
            RECORD_LEN * k,
            RECORD_LEN * k + RECORD_LEN,
        ) == #[trigger] dir_record(s[k], flag) by {
            if k < p.len() {
                assert(RECORD_LEN * k + RECORD_LEN <= RECORD_LEN * p.len()) by (nonlinear_arith)
                    requires
                        k < p.len(),
                ;
                assert(d.subrange(RECORD_LEN * k, RECORD_LEN * k + RECORD_LEN) =~= dp.subrange(
                    RECORD_LEN * k,
                    RECORD_LEN * k + RECORD_LEN,
                ));
                assert(p[k] == s[k]);
            } else {
                assert(d.subrange(RECORD_LEN * k, RECORD_LEN * k + RECORD_LEN) =~= r);
            }
        }
    }
}

proof fn lemma_payloads(s: Seq<KCAPEntryWrite>, table: Option<Seq<u8>>)
    requires
        sizes_match(s),
    ensures
        payloads(s, table).len() == size_prefix(s, s.len() as int),
        forall|k: int|
            0 <= k < s.len() ==> payloads(s, table).subrange(
                size_prefix(s, k),
                size_prefix(s, k + 1),
            ) == #[trigger] stored_payload(s[k], table),
    decreases s.len(),
{
    if s.len() > 0 {
        let p = s.drop_last();
        let last = s.last();
        assert(p.push(last) =~= s);
        assert forall|k: int| 0 <= k < p.len() implies (#[trigger] p[k]).size
            == p[k].data@.len() by {
            assert(p[k] == s[k]);
        }
        lemma_payloads(p, table);
        lemma_size_prefix_push(p, last, p.len() as int);
        assert(s[s.len() - 1].size == s[s.len() - 1].data@.len());
        let r = stored_payload(last, table);
        assert(r.len() == last.size);
        let d = payloads(s, table);
        let dp = payloads(p, table);
        assert forall|k: int| 0 <= k < s.len() implies d.subrange(
            size_prefix(s, k),
            size_prefix(s, k + 1),
        ) == #[trigger] stored_payload(s[k], table) by {
            if k < p.len() {
                lemma_size_prefix_push(p, last, k);
                lemma_size_prefix_push(p, last, k + 1);
                lemma_size_prefix_monotone(p, k + 1, p.len() as int);
                lemma_size_prefix_monotone(p, k, k + 1);
                lemma_size_prefix_monotone(p, 0, k);
                assert(d == dp + r);
                assert(d.subrange(size_prefix(s, k), size_prefix(s, k + 1)) =~= dp.subrange(
                    size_prefix(p, k),
                    size_prefix(p, k + 1),
                ));
                assert(p[k] == s[k]);
            } else {
                assert(d.subrange(size_prefix(s, k), size_prefix(s, k + 1)) =~= r);
            }
        }
    }
}

proof fn lemma_record_fields(d: Seq<u8>, rs: int, x: KCAPEntryWrite, flag: u32)
    requires
        0 <= rs,
        rs + RECORD_LEN <= d.len(),
        encoded_name(x).len() <= NAME_LEN,
        d.subrange(rs, rs + RECORD_LEN) == dir_record(x, flag),
    ensures
        d.subrange(rs, rs + NAME_LEN) == name_field(encoded_name(x)),
        le_u32(d, rs + 72) == x.offset as u32,
        le_u32(d, rs + 76) == x.size as u32,
        le_u32(d, rs + 80) == flag,
{
    let rec = dir_record(x, flag);
    let field = name_field(encoded_name(x));
    assert(field.len() == NAME_LEN);
    assert(d.subrange(rs, rs + NAME_LEN) =~= rec.subrange(0, NAME_LEN as int));
    assert(rec.subrange(0, NAME_LEN as int) =~= field);
    assert(d.subrange(rs + 72, rs + 76) =~= rec.subrange(72, 76));
    assert(rec.subrange(72, 76) =~= u32_le_bytes(x.offset as u32));
    assert(d.subrange(rs + 76, rs + 80) =~= rec.subrange(76, 80));
    assert(rec.subrange(76, 80) =~= u32_le_bytes(x.size as u32));
    assert(d.subrange(rs + 80, rs + 84) =~= rec.subrange(80, 84));
    assert(rec.subrange(80, 84) =~= u32_le_bytes(flag));
    lemma_le_round_trip(x.offset as u32, d, rs + 72);
    lemma_le_round_trip(x.size as u32, d, rs + 76);
    lemma_le_round_trip(flag, d, rs + 80);
}

/// Trailing padding of the name field is what trimming removes.
pub proof fn lemma_trim_name_field(enc: Seq<u8>)
    requires
        enc.len() <= NAME_LEN,
        enc.len() == 0 || enc.last() != 0,
    ensures
        trim_nul(name_field(enc)) == enc,
    decreases NAME_LEN - enc.len(),
{
    let f = name_field(enc);
    if enc.len() < NAME_LEN {
        assert(f.last() == 0);
        assert(f.drop_last() =~= enc + Seq::new((NAME_LEN - enc.len() - 1) as nat, |i: int| 0u8));
        lemma_trim_prefix_zeros(enc, (NAME_LEN - enc.len() - 1) as nat);
    } else {
        assert(f =~= enc);
    }
}

proof fn lemma_trim_prefix_zeros(enc: Seq<u8>, z: nat)
    requires
        enc.len() == 0 || enc.last() != 0,
    ensures
        trim_nul(enc + Seq::new(z, |i: int| 0u8)) == enc,
    decreases z,
{
    let f = enc + Seq::new(z, |i: int| 0u8);
    if z == 0 {
        assert(f =~= enc);
        if enc.len() > 0 {
            assert(f.last() != 0);
        }
    } else {
        assert(f.last() == 0);
        assert(f.drop_last() =~= enc + Seq::new((z - 1) as nat, |i: int| 0u8));
        lemma_trim_prefix_zeros(enc, (z - 1) as nat);
    }
}

/// Writing entries with a key table and opening the result: the header is
/// accepted, the directory has one record per entry, and record `k` reads
/// back as entry `k` of the size-sorted layout: its offset, size, encrypted
/// flag, its name field, and a payload that decrypts to the original bytes.
#[verifier::rlimit(40)]
pub proof fn lemma_pack_then_open(s: Seq<KCAPEntryWrite>, table: Seq<u8>, k: int, e: KCAPEntry)
    requires
        sizes_match(s),
        table.len() == KEY_TABLE_LEN,
        archive_len(s) <= u32::MAX,
        names_fit(laid_out(sort_by_size(s))),
        0 <= k < s.len(),
        e.read_from(archive_bytes(laid_out(sort_by_size(s)), Some(table)), record_start(k)),
    ensures
        ({
            let l = laid_out(sort_by_size(s));
            let d = archive_bytes(l, Some(table));
            &&& header_error(d) is None
            &&& entry_count(d) == s.len()
            &&& e.name@ == crate::legacy::sjis_decoded(trim_nul(name_field(encoded_name(l[k]))))
            &&& e.offset == l[k].offset
            &&& e.size == l[k].size
            &&& e.encrypted
            &&& e.offset + e.size <= d.len()
            &&& extract_spec(d, e, table) == l[k].data@
            &&& l[k].name == sort_by_size(s)[k].name
            &&& l[k].data == sort_by_size(s)[k].data
            &&& sort_by_size(s).to_multiset() == s.to_multiset()
            &&& (encoded_name(l[k]).len() == 0 || encoded_name(l[k]).last() != 0)
                ==> e.name@ == crate::legacy::sjis_decoded(encoded_name(l[k]))
        }),
{
    let t = sort_by_size(s);
    lemma_sort_by_size(s);
    let l = laid_out(t);
    let n = s.len() as int;
    let tv = Some(table);
    let d = archive_bytes(l, tv);
    assert(sizes_match(l)) by {
        assert forall|j: int| 0 <= j < l.len() implies (#[trigger] l[j]).size == l[j].data@.len() by {
            assert(t[j].size == t[j].data@.len());
        }
    }
    // the layout keeps sizes, so payload positions follow the sorted order
    assert forall|j: int| 0 <= j <= n implies #[trigger] size_prefix(l, j) == size_prefix(t, j) by {
        lemma_size_prefix_eq(l, t, j);
    }
    lemma_directory(l, 1);
    lemma_payloads(l, tv);
    let head = magic() + u32_le_bytes(n as u32);
    let dir = directory(l, 1);
    let pay = payloads(l, tv);
    assert(d == head + dir + pay);
    assert(head.len() == HEADER_LEN);
    lemma_size_prefix_monotone(t, k, n);
    lemma_size_prefix_monotone(t, k + 1, n);
    lemma_size_prefix_monotone(t, 0, k);
    assert(n * RECORD_LEN <= u32::MAX) by {
        assert(archive_len(s) == payload_base(n) + size_prefix(s, n));
        lemma_size_prefix_monotone(s, 0, n);
    }
    // header
    assert(d.subrange(0, 4) =~= magic());
    assert(d.subrange(4, 8) =~= u32_le_bytes(n as u32));
    lemma_le_round_trip(n as u32, d, 4);
    assert(entry_count(d) == n);
    assert(d.len() == HEADER_LEN + RECORD_LEN * n + size_prefix(t, n));
    assert(HEADER_LEN + entry_count(d) * RECORD_LEN <= d.len());
    assert(header_error(d) is None);
    // the record
    let rs = record_start(k);
    assert(rs == HEADER_LEN + RECORD_LEN * k);
    assert(RECORD_LEN * k + RECORD_LEN <= RECORD_LEN * n) by (nonlinear_arith)
        requires
            k < n,
    ;
    let rec = dir_record(l[k], 1);
    assert(d.subrange(rs, rs + RECORD_LEN) =~= dir.subrange(RECORD_LEN * k, RECORD_LEN * k + RECORD_LEN));
    assert(d.subrange(rs, rs + RECORD_LEN) == rec);
    assert(encoded_name(l[k]).len() <= NAME_LEN);
    lemma_record_fields(d, rs, l[k], 1);
    let off = payload_base(n) + size_prefix(t, k);
    assert(l[k].offset == off);
    assert(l[k].size == t[k].size);
    assert(size_prefix(t, k + 1) == size_prefix(t, k) + t[k].size);
    // the payload
    assert(d.subrange(off, off + l[k].size) =~= pay.subrange(size_prefix(l, k), size_prefix(l, k + 1)));
    assert(stored_payload(l[k], tv) == xor_spec(l[k].data@, table));
    lemma_xor_involution(l[k].data@, table);
    if encoded_name(l[k]).len() == 0 || encoded_name(l[k]).last() != 0 {
        lemma_trim_name_field(encoded_name(l[k]));
    }
}

proof fn lemma_size_prefix_eq(a: Seq<KCAPEntryWrite>, b: Seq<KCAPEntryWrite>, j: int)
    requires
        a.len() == b.len(),
        0 <= j <= a.len(),
        forall|i: int| 0 <= i < a.len() ==> (#[trigger] a[i]).size == b[i].size,
    ensures
        size_prefix(a, j) == size_prefix(b, j),
    decreases j,
{
    if j > 0 {
        lemma_size_prefix_eq(a, b, j - 1);
        assert(a[j - 1].size == b[j - 1].size);
    }
}

} // verus!
