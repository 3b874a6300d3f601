//! The run-file format. A run is a sequence of framed records:
//! 20 key bytes, the position as a little-endian 64-bit value, a 32-bit
//! little-endian payload length, then the payload. The payload repeats
//! the key and position and then carries the row: a 32-bit column count
//! and, per column, a 32-bit byte length and the column's bytes.
//! The intermediate sorted file uses the same framing, so a write-read
//! round trip is proved once for both.

use vstd::prelude::*;

use crate::errors::SortError;
use crate::record::{RecModel, SortRecord};
use crate::sortvec::models;
use crate::wire::{
    le32, le64, lemma_le32_inverse, lemma_le64_inverse, push_le32, push_le64, read_le32,
    read_le64, u32_of_le, u64_of_le,
};

verus! {

/// A column that fits the 32-bit length field.
pub open spec fn col_fits(c: Seq<u8>) -> bool {
    c.len() < 0x100000000
}

/// A record whose framing fits the format's length fields.
pub open spec fn rec_fits(r: RecModel) -> bool {
    &&& r.key.len() == 20
    &&& r.row.len() < 0x100000000
    &&& (forall|i: int| 0 <= i < r.row.len() ==> col_fits(#[trigger] r.row[i]))
    &&& enc_payload(r).len() < 0x100000000
}

/// The encoding of a row's columns: per column a 32-bit little-endian
/// length and the column bytes.
pub open spec fn enc_cols(cols: Seq<Seq<u8>>) -> Seq<u8>
    decreases cols.len(),
{
    if cols.len() == 0 {
        Seq::empty()
    } else {
        le32(cols[0].len() as u32) + cols[0] + enc_cols(cols.drop_first())
    }
}

/// A record's payload: key, position, column count, encoded columns.
pub open spec fn enc_payload(r: RecModel) -> Seq<u8> {
    r.key + le64(r.position) + le32(r.row.len() as u32) + enc_cols(r.row)
}

/// A framed record: key, position, payload length, payload.
pub open spec fn enc_record(r: RecModel) -> Seq<u8> {
    r.key + le64(r.position) + le32(enc_payload(r).len() as u32) + enc_payload(r)
}

/// A whole run: the framed records in order.
pub open spec fn enc_records(s: Seq<RecModel>) -> Seq<u8>
    decreases s.len(),
{
    if s.len() == 0 {
        Seq::empty()
    } else {
        enc_record(s[0]) + enc_records(s.drop_first())
    }
}

/// Decodes `n` columns that must consume `b` exactly.
pub open spec fn dec_cols(b: Seq<u8>, n: nat) -> Option<Seq<Seq<u8>>>
    decreases n,
{
    if n == 0 {
        if b.len() == 0 {
            Some(Seq::empty())
        } else {
            None
        }
    } else if b.len() < 4 {
        None
    } else {
        let l = u32_of_le(b.subrange(0, 4)) as int;
        if 4 + l > b.len() {
            None
        } else {
            let c = b.subrange(4, 4 + l);
            match dec_cols(b.subrange(4 + l, b.len() as int), (n - 1) as nat) {
                Some(rest) => Some(seq![c] + rest),
                None => None,
            }
        }
    }
}

/// Decodes the row carried by a payload.
pub open spec fn dec_payload_row(p: Seq<u8>) -> Option<Seq<Seq<u8>>> {
    if p.len() < 32 {
        None
    } else {
        let n = u32_of_le(p.subrange(28, 32));
        dec_cols(p.subrange(32, p.len() as int), n as nat)
    }
}

/// Decodes one framed record from the front of `b`, returning it and the
/// number of bytes consumed.
pub open spec fn dec_record(b: Seq<u8>) -> Option<(RecModel, int)> {
    if b.len() < 32 {
        None
    } else {
        let key = b.subrange(0, 20);
        let pos = u64_of_le(b.subrange(20, 28));
        let plen = u32_of_le(b.subrange(28, 32)) as int;
        if 32 + plen > b.len() {
            None
        } else {
            match dec_payload_row(b.subrange(32, 32 + plen)) {
                Some(row) => Some((RecModel { key, position: pos, row }, 32 + plen)),
                None => None,
            }
        }
    }
}

/// Decodes a whole run, which must consist of framed records exactly.
pub open spec fn dec_records(b: Seq<u8>) -> Option<Seq<RecModel>>
    decreases b.len(),
{
    if b.len() == 0 {
        Some(Seq::empty())
    } else {
        match dec_record(b) {
            None => None,
            Some((r, used)) => if 0 < used <= b.len() {
                match dec_records(b.subrange(used, b.len() as int)) {
                    Some(rest) => Some(seq![r] + rest),
                    None => None,
                }
            } else {
                None
            },
        }
    }
}

/// Reading back an encoded row yields the row.
proof fn lemma_dec_cols_round(cols: Seq<Seq<u8>>)
    requires
        forall|i: int| 0 <= i < cols.len() ==> col_fits(#[trigger] cols[i]),
    ensures
        dec_cols(enc_cols(cols), cols.len()) == Some(cols),
    decreases cols.len(),
{
    if cols.len() == 0 {
        assert(dec_cols(enc_cols(cols), 0) == Some(Seq::<Seq<u8>>::empty()));
        assert(cols =~= Seq::<Seq<u8>>::empty());
    } else {
        let c0 = cols[0];
        let rest = cols.drop_first();
        let b = enc_cols(cols);
        let l = c0.len() as int;
        lemma_le32_inverse(c0.len() as u32);
        assert(b.subrange(0, 4) =~= le32(c0.len() as u32));
        assert(u32_of_le(b.subrange(0, 4)) as int == l);
        assert(b.len() == 4 + c0.len() + enc_cols(rest).len());
        assert(b.subrange(4, 4 + l) =~= c0);
        assert(b.subrange(4 + l, b.len() as int) =~= enc_cols(rest));
        assert(forall|i: int| 0 <= i < rest.len() ==> col_fits(#[trigger] rest[i]));
        lemma_dec_cols_round(rest);
        assert(seq![c0] + rest =~= cols);
    }
}

/// Reading back one encoded record, with anything after it, yields the
/// record and consumes exactly its encoding.
proof fn lemma_dec_record_prefix(r: RecModel, tail: Seq<u8>)
    requires
        rec_fits(r),
    ensures
        dec_record(enc_record(r) + tail) == Some((r, enc_record(r).len() as int)),
        enc_record(r).len() >= 64,
{
    let p = enc_payload(r);
    let e = enc_record(r);
    let b = e + tail;
    let plen = p.len() as int;
    assert(e.len() == 32 + plen);
    assert(b.len() >= 32 + plen);
    // frame fields
    assert(b.subrange(0, 20) =~= r.key);
    assert(b.subrange(20, 28) =~= le64(r.position));
    lemma_le64_inverse(r.position);
    assert(u64_of_le(b.subrange(20, 28)) == r.position);
    assert(b.subrange(28, 32) =~= le32(p.len() as u32));
    lemma_le32_inverse(p.len() as u32);
    assert(u32_of_le(b.subrange(28, 32)) as int == plen);
    assert(b.subrange(32, 32 + plen) =~= p);
    // payload fields
    assert(p.len() >= 32);
    assert(p.subrange(28, 32) =~= le32(r.row.len() as u32));
    lemma_le32_inverse(r.row.len() as u32);
    assert(u32_of_le(p.subrange(28, 32)) as nat == r.row.len());
    assert(p.subrange(32, p.len() as int) =~= enc_cols(r.row));
    lemma_dec_cols_round(r.row);
    assert(dec_payload_row(p) == Some(r.row));
    let d = RecModel { key: b.subrange(0, 20), position: u64_of_le(b.subrange(20, 28)), row: r.row };
    assert(d.key == r.key);
    assert(d == r);
}

/// Write-then-read of a run yields the original record sequence: the
/// round-trip law for run files and the intermediate sorted file.
pub proof fn lemma_run_round_trip(s: Seq<RecModel>)
    requires
        forall|i: int| 0 <= i < s.len() ==> rec_fits(#[trigger] s[i]),
    ensures
        dec_records(enc_records(s)) == Some(s),
    decreases s.len(),
{
    if s.len() == 0 {
        assert(dec_records(enc_records(s)) == Some(Seq::<RecModel>::empty()));
        assert(s =~= Seq::<RecModel>::empty());
    } else {
        let r0 = s[0];
        let rest = s.drop_first();
        let b = enc_records(s);
        lemma_dec_record_prefix(r0, enc_records(rest));
        let used = enc_record(r0).len() as int;
        assert(b.len() == used + enc_records(rest).len());
        assert(b.subrange(used, b.len() as int) =~= enc_records(rest));
        lemma_run_round_trip(rest);
        assert(seq![r0] + rest =~= s);
    }
}

/// Appending one record to a run appends its encoding.
pub proof fn lemma_enc_records_snoc(s: Seq<RecModel>, r: RecModel)
    ensures
        enc_records(s + seq![r]) == enc_records(s) + enc_record(r),
    decreases s.len(),
{
    let t = s + seq![r];
    if s.len() == 0 {
        assert(t.len() == 1);
        assert(t[0] == r);
        assert(t.drop_first().len() == 0);
        assert(enc_records(t.drop_first()) == Seq::<u8>::empty());
        assert(enc_records(t) == enc_record(t[0]) + enc_records(t.drop_first()));
        assert(enc_record(r) + Seq::<u8>::empty() =~= enc_record(r));
        assert(enc_records(s).len() == 0);
        assert(enc_records(s) + enc_record(r) =~= enc_record(r));
    } else {
        assert(t.len() > 0);
        assert(t[0] == s[0]);
        assert(t.drop_first() =~= s.drop_first() + seq![r]);
        lemma_enc_records_snoc(s.drop_first(), r);
        assert(enc_records(t) == enc_record(t[0]) + enc_records(t.drop_first()));
        assert(enc_records(t.drop_first()) == enc_records(s.drop_first()) + enc_record(r));
        assert(enc_records(s) == enc_record(s[0]) + enc_records(s.drop_first()));
        assert(enc_record(s[0]) + (enc_records(s.drop_first()) + enc_record(r)) =~= (enc_record(
            s[0],
        ) + enc_records(s.drop_first())) + enc_record(r));
    }
}

/// Appends `src[start..end]` to `out`.
pub fn push_range(out: &mut Vec<u8>, src: &Vec<u8>, start: usize, end: usize)
    requires
        start <= end,
        end <= src@.len(),
    ensures
        final(out)@ =~= old(out)@ + src@.subrange(start as int, end as int),
{
    let mut i: usize = start;
    while i < end
        invariant
            start <= i <= end,
            end <= src@.len(),
            out@ =~= old(out)@ + src@.subrange(start as int, i as int),
        decreases end - i,
    {
        out.push(src[i]);
        proof {
            assert(src@.subrange(start as int, i + 1) =~= src@.subrange(start as int, i as int)
                + seq![src@[i as int]]);
        }
        i += 1;
    }
}

/// Appends the 20 key bytes.
fn push_key(out: &mut Vec<u8>, key: &[u8; 20])
    ensures
        final(out)@ =~= old(out)@ + key@,
{
    let mut i: usize = 0;
    while i < 20
        invariant
            i <= 20,
            out@ =~= old(out)@ + key@.subrange(0, i as int),
        decreases 20 - i,
    {
        out.push(key[i]);
        proof {
            assert(key@.subrange(0, i + 1) =~= key@.subrange(0, i as int) + seq![key@[i as int]]);
        }
        i += 1;
    }
    proof {
        assert(key@.subrange(0, 20) =~= key@);
    }
}

/// Encodes one record's payload, or reports which length field overflows.
fn encode_payload(rec: &SortRecord) -> (out: Result<Vec<u8>, SortError>)
    ensures
        match out {
            Ok(p) => p@ == enc_payload(rec@) && rec@.row.len() < 0x100000000 && (forall|i: int|
                0 <= i < rec@.row.len() ==> col_fits(#[trigger] rec@.row[i])),
            Err(e) => e == SortError::RecordTooLarge && !(rec@.row.len() < 0x100000000 && (forall|
                i: int,
            | 0 <= i < rec@.row.len() ==> col_fits(#[trigger] rec@.row[i]))),
        },
{
    let mut p: Vec<u8> = Vec::new();
    push_key(&mut p, &rec.key);
    push_le64(&mut p, rec.position);
    if (rec.row.len() as u64) >= 0x100000000u64 {
        return Err(SortError::RecordTooLarge);
    }
    push_le32(&mut p, rec.row.len() as u32);
    let ghost rowv = rec@.row;
    let mut i: usize = 0;
    while i < rec.row.len()
        invariant
            i <= rowv.len(),
            rowv == rec@.row,
            rowv.len() < 0x100000000,
            rec@.key.len() == 20,
            forall|j: int| 0 <= j < i ==> col_fits(#[trigger] rowv[j]),
            p@ =~= rec@.key + le64(rec@.position) + le32(rowv.len() as u32) + enc_cols(
                rowv.subrange(0, i as int),
            ),
        decreases rowv.len() - i,
    {
        let col = &rec.row[i];
        if (col.len() as u64) >= 0x100000000u64 {
            return Err(SortError::RecordTooLarge);
        }
        push_le32(&mut p, col.len() as u32);
        push_range(&mut p, col, 0, col.len());
        proof {
            assert(col@ == rowv[i as int]);
            assert(col@.subrange(0, col@.len() as int) =~= col@);
            lemma_enc_cols_snoc(rowv.subrange(0, i as int), rowv[i as int]);
            assert(rowv.subrange(0, i + 1) =~= rowv.subrange(0, i as int) + seq![rowv[i as int]]);
        }
        i += 1;
    }
    proof {
        assert(rowv.subrange(0, rowv.len() as int) =~= rowv);
    }
    Ok(p)
}

/// Appending one column to a row appends its encoding.
proof fn lemma_enc_cols_snoc(cols: Seq<Seq<u8>>, c: Seq<u8>)
    ensures
        enc_cols(cols + seq![c]) == enc_cols(cols) + le32(c.len() as u32) + c,
    decreases cols.len(),
{
    let t = cols + seq![c];
    if cols.len() == 0 {
        assert(t.len() == 1);
        assert(t[0] == c);
        assert(t.drop_first().len() == 0);
        assert(enc_cols(t.drop_first()) == Seq::<u8>::empty());
        assert(enc_cols(t) == le32(t[0].len() as u32) + t[0] + enc_cols(t.drop_first()));
        assert(le32(c.len() as u32) + c + Seq::<u8>::empty() =~= le32(c.len() as u32) + c);
        assert(enc_cols(cols).len() == 0);
        assert(enc_cols(cols) + le32(c.len() as u32) + c =~= le32(c.len() as u32) + c);
    } else {
        assert(t.len() > 0);
        assert(t[0] == cols[0]);
        assert(t.drop_first() =~= cols.drop_first() + seq![c]);
        lemma_enc_cols_snoc(cols.drop_first(), c);
        assert(enc_cols(t) == le32(t[0].len() as u32) + t[0] + enc_cols(t.drop_first()));
        assert(enc_cols(t.drop_first()) == enc_cols(cols.drop_first()) + le32(c.len() as u32) + c);
        assert(enc_cols(cols) == le32(cols[0].len() as u32) + cols[0] + enc_cols(
            cols.drop_first(),
        ));
        assert(le32(cols[0].len() as u32) + cols[0] + (enc_cols(cols.drop_first()) + le32(
            c.len() as u32,
        ) + c) =~= (le32(cols[0].len() as u32) + cols[0] + enc_cols(cols.drop_first())) + le32(
            c.len() as u32,
        ) + c);
    }
}

/// Encodes a batch of records as a run. Succeeds exactly when every
/// record fits the format's 32-bit length fields.
pub fn encode_records(records: &Vec<SortRecord>) -> (out: Result<Vec<u8>, SortError>)
    ensures
        match out {
            Ok(bytes) => bytes@ == enc_records(models(records@)) && (forall|i: int|
                0 <= i < records@.len() ==> rec_fits(#[trigger] models(records@)[i])),
            Err(e) => e == SortError::RecordTooLarge && !(forall|i: int|
                0 <= i < records@.len() ==> rec_fits(#[trigger] models(records@)[i])),
        },
{
    let mut out: Vec<u8> = Vec::new();
    let ghost ms = models(records@);
    let mut i: usize = 0;
    while i < records.len()
        invariant
            i <= ms.len(),
            ms == models(records@),
            forall|j: int| 0 <= j < i ==> rec_fits(#[trigger] ms[j]),
            out@ =~= enc_records(ms.subrange(0, i as int)),
        decreases ms.len() - i,
    {
        let rec = &records[i];
        let p = match encode_payload(rec) {
            Ok(p) => p,
            Err(e) => {
                proof {
                    assert(!rec_fits(ms[i as int]));
                }
                return Err(e);
            },
        };
        if (p.len() as u64) >= 0x100000000u64 {
            proof {
                assert(!rec_fits(ms[i as int]));
            }
            return Err(SortError::RecordTooLarge);
        }
        proof {
            assert(rec@.key.len() == 20);
            assert(rec_fits(ms[i as int]));
        }
        push_key(&mut out, &rec.key);
        push_le64(&mut out, rec.position);
        push_le32(&mut out, p.len() as u32);
        push_range(&mut out, &p, 0, p.len());
        proof {
            assert(p@.subrange(0, p@.len() as int) =~= p@);
            lemma_enc_records_snoc(ms.subrange(0, i as int), ms[i as int]);
            assert(ms.subrange(0, i + 1) =~= ms.subrange(0, i as int) + seq![ms[i as int]]);
            assert(enc_record(ms[i as int]) =~= rec@.key + le64(rec@.position) + le32(
                enc_payload(rec@).len() as u32,
            ) + enc_payload(rec@));
        }
        i += 1;
    }
    proof {
        assert(ms.subrange(0, ms.len() as int) =~= ms);
    }
    Ok(out)
}

/// A decoded prefix joined with the outcome for the remaining columns.
pub open spec fn cols_prepend(prefix: Seq<Seq<u8>>, rest: Option<Seq<Seq<u8>>>) -> Option<
    Seq<Seq<u8>>,
> {
    match rest {
        Some(r) => Some(prefix + r),
        None => None,
    }
}

/// A decoded prefix joined with the outcome for the remaining records.
pub open spec fn recs_prepend(prefix: Seq<RecModel>, rest: Option<Seq<RecModel>>) -> Option<
    Seq<RecModel>,
> {
    match rest {
        Some(r) => Some(prefix + r),
        None => None,
    }
}

/// Copies `bytes[start..end]` into a fresh column.
fn copy_range(bytes: &Vec<u8>, start: usize, end: usize) -> (r: Vec<u8>)
    requires
        start <= end,
        end <= bytes@.len(),
    ensures
        r@ =~= bytes@.subrange(start as int, end as int),
{
    let mut out: Vec<u8> = Vec::new();
    let mut i: usize = start;
    while i < end
        invariant
            start <= i <= end,
            end <= bytes@.len(),
            out@ =~= bytes@.subrange(start as int, i as int),
        decreases end - i,
    {
        out.push(bytes[i]);
        proof {
            assert(bytes@.subrange(start as int, i + 1) =~= bytes@.subrange(start as int, i as int)
                + seq![bytes@[i as int]]);
        }
        i += 1;
    }
    out
}

/// Decodes one framed record at `off`, returning it and the bytes used.
#[verifier::loop_isolation(false)]
fn decode_one(bytes: &Vec<u8>, off: usize) -> (out: Result<(SortRecord, usize), SortError>)
    requires
        off < bytes@.len(),
    ensures
        match out {
            Ok(p) => dec_record(bytes@.subrange(off as int, bytes@.len() as int)) == Some(
                (p.0@, p.1 as int),
            ) && off + p.1 <= bytes@.len() && p.1 >= 64,
            Err(e) => e == SortError::CorruptRun && dec_record(
                bytes@.subrange(off as int, bytes@.len() as int),
            ) is None,
        },
{
    broadcast use vstd::array::group_array_axioms;

    let n = bytes.len();
    let ghost b = bytes@.subrange(off as int, n as int);
    if n - off < 32 {
        return Err(SortError::CorruptRun);
    }
    let mut key = [0u8; 20];
    let mut i: usize = 0;
    while i < 20
        invariant
            i <= 20,
            off + 32 <= n,
            n == bytes@.len(),
            forall|j: int| 0 <= j < i ==> key@[j] == bytes@[off + j],
        decreases 20 - i,
    {
        key[i] = bytes[off + i];
        i += 1;
    }
    proof {
        assert(key@ =~= b.subrange(0, 20));
    }
    let pos = read_le64(bytes, off + 20);
    proof {
        assert(bytes@.subrange(off + 20, off + 28) =~= b.subrange(20, 28));
    }
    let plen = read_le32(bytes, off + 28) as usize;
    proof {
        assert(bytes@.subrange(off + 28, off + 32) =~= b.subrange(28, 32));
    }
    if plen > n - off - 32 {
        return Err(SortError::CorruptRun);
    }
    let poff = off + 32;
    let ghost payload = b.subrange(32, 32 + plen as int);
    if plen < 32 {
        proof {
            assert(payload.len() < 32);
            assert(u32_of_le(b.subrange(28, 32)) as int == plen as int);
            assert(32 + plen as int <= b.len());
            assert(dec_payload_row(payload) is None);
            assert(dec_record(b) is None);
        }
        return Err(SortError::CorruptRun);
    }
    let ncols = read_le32(bytes, poff + 28) as usize;
    proof {
        assert(bytes@.subrange(poff + 28, poff + 32) =~= payload.subrange(28, 32));
    }
    let end = poff + plen;
    let ghost colsb = payload.subrange(32, plen as int);
    proof {
        assert(colsb =~= bytes@.subrange(poff + 32, end as int));
        assert(dec_payload_row(payload) == dec_cols(colsb, ncols as nat));
    }
    let mut row: Vec<Vec<u8>> = Vec::new();
    let mut cur = poff + 32;
    let mut k: usize = 0;
    while k < ncols
        invariant
            k <= ncols,
            poff + 32 <= cur <= end,
            end <= n,
            n == bytes@.len(),
            row@.len() == k,
            colsb == bytes@.subrange(poff + 32, end as int),
            poff + 32 <= end,
            dec_cols(colsb, ncols as nat) == cols_prepend(
                row.deep_view(),
                dec_cols(bytes@.subrange(cur as int, end as int), (ncols - k) as nat),
            ),
        decreases ncols - k,
    {
        let ghost rem = bytes@.subrange(cur as int, end as int);
        if end - cur < 4 {
            proof {
                assert(dec_cols(rem, (ncols - k) as nat) is None);
                assert(dec_cols(colsb, ncols as nat) is None);
                assert(u32_of_le(b.subrange(28, 32)) as int == plen as int);
                assert(32 + plen as int <= b.len());
                assert(dec_payload_row(payload) is None);
                assert(dec_record(b) is None);
            }
            return Err(SortError::CorruptRun);
        }
        let l = read_le32(bytes, cur) as usize;
        proof {
            assert(bytes@.subrange(cur as int, cur + 4) =~= rem.subrange(0, 4));
        }
        if l > end - cur - 4 {
            proof {
                assert(u32_of_le(rem.subrange(0, 4)) as int == l as int);
                assert(dec_cols(rem, (ncols - k) as nat) is None);
                assert(dec_cols(colsb, ncols as nat) is None);
                assert(u32_of_le(b.subrange(28, 32)) as int == plen as int);
                assert(32 + plen as int <= b.len());
                assert(dec_payload_row(payload) is None);
                assert(dec_record(b) is None);
            }
            return Err(SortError::CorruptRun);
        }
        let col = copy_range(bytes, cur + 4, cur + 4 + l);
        let ghost colv = col@;
        proof {
            assert(colv =~= rem.subrange(4, 4 + l as int));
        }
        let ghost dvpre = row.deep_view();
        row.push(col);
        proof {
            assert(row.deep_view() =~= dvpre.push(colv)) by {
                assert forall|j: int| 0 <= j < dvpre.len() implies row.deep_view()[j]
                    == dvpre[j] by {
                    assert(row.deep_view()[j] == row@[j].deep_view());
                }
                assert(row.deep_view()[k as int] == row@[k as int].deep_view());
                assert(row@[k as int].deep_view() =~= colv);
            }
            let rem2 = bytes@.subrange(cur + 4 + l as int, end as int);
            assert(rem.subrange(4 + l as int, rem.len() as int) =~= rem2);
            assert(dec_cols(rem, (ncols - k) as nat) == cols_prepend(
                seq![colv],
                dec_cols(rem2, (ncols - k - 1) as nat),
            ));
            assert(cols_prepend(dvpre, dec_cols(rem, (ncols - k) as nat)) == cols_prepend(
                dvpre.push(colv),
                dec_cols(rem2, (ncols - k - 1) as nat),
            )) by {
                match dec_cols(rem2, (ncols - k - 1) as nat) {
                    Some(rest) => {
                        assert(dvpre + (seq![colv] + rest) =~= dvpre.push(colv) + rest);
                    },
                    None => {},
                }
            }
        }
        cur = cur + 4 + l;
        k += 1;
    }
    if cur != end {
        proof {
            let rem = bytes@.subrange(cur as int, end as int);
            assert(rem.len() > 0);
            assert(dec_cols(rem, 0) is None);
            assert(dec_cols(colsb, ncols as nat) is None);
            assert(u32_of_le(b.subrange(28, 32)) as int == plen as int);
            assert(32 + plen as int <= b.len());
            assert(dec_payload_row(payload) is None);
            assert(dec_record(b) is None);
        }
        return Err(SortError::CorruptRun);
    }
    proof {
        let rem = bytes@.subrange(cur as int, end as int);
        assert(rem.len() == 0);
        assert(dec_cols(rem, 0) == Some(Seq::<Seq<u8>>::empty()));
        assert(row.deep_view() + Seq::<Seq<u8>>::empty() =~= row.deep_view());
        assert(dec_cols(colsb, ncols as nat) == Some(row.deep_view()));
    }
    let rec = SortRecord { key, position: pos, row };
    let used = 32 + plen;
    proof {
        assert(b.len() >= 32);
        assert(u64_of_le(b.subrange(20, 28)) == pos);
        assert(u32_of_le(b.subrange(28, 32)) as int == plen as int);
        assert(32 + plen <= b.len());
        assert(dec_payload_row(b.subrange(32, 32 + plen as int)) == Some(row.deep_view()));
        let d = RecModel {
            key: b.subrange(0, 20),
            position: u64_of_le(b.subrange(20, 28)),
            row: row.deep_view(),
        };
        assert(d.key == key@);
        assert(d == rec@);
        assert(dec_record(b) == Some((rec@, used as int)));
    }
    Ok((rec, used))
}

/// Decodes a whole run or intermediate file. Succeeds exactly when the
/// bytes parse as a sequence of framed records.
pub fn decode_records(bytes: &Vec<u8>) -> (out: Result<Vec<SortRecord>, SortError>)
    ensures
        match out {
            Ok(recs) => dec_records(bytes@) == Some(models(recs@)),
            Err(e) => e == SortError::CorruptRun && dec_records(bytes@) is None,
        },
{
    let n = bytes.len();
    let mut out: Vec<SortRecord> = Vec::new();
    let mut off: usize = 0;
    proof {
        assert(bytes@.subrange(0, n as int) =~= bytes@);
        assert(models(out@) =~= Seq::<RecModel>::empty());
        match dec_records(bytes@) {
            Some(r) => {
                assert(Seq::<RecModel>::empty() + r =~= r);
            },
            None => {},
        }
    }
    while off < n
        invariant
            off <= n,
            n == bytes@.len(),
            dec_records(bytes@) == recs_prepend(
                models(out@),
                dec_records(bytes@.subrange(off as int, n as int)),
            ),
        decreases n - off,
    {
        let ghost rem = bytes@.subrange(off as int, n as int);
        match decode_one(bytes, off) {
            Ok((rec, used)) => {
                let ghost dvpre = models(out@);
                let ghost recv = rec@;
                proof {
                    assert(rem.len() > 0);
                    assert(dec_record(rem) == Some((recv, used as int)));
                    assert(0 < used <= rem.len());
                    let rem2 = bytes@.subrange(off + used, n as int);
                    assert(rem.subrange(used as int, rem.len() as int) =~= rem2);
                    assert(dec_records(rem) == recs_prepend(
                        seq![recv],
                        dec_records(rem2),
                    ));
                }
                out.push(rec);
                proof {
                    assert(models(out@) =~= dvpre.push(recv));
                    let rem2 = bytes@.subrange(off + used, n as int);
                    assert(recs_prepend(dvpre, dec_records(rem)) == recs_prepend(
                        models(out@),
                        dec_records(rem2),
                    )) by {
                        match dec_records(rem2) {
                            Some(rest) => {
                                assert(dvpre + (seq![recv] + rest) =~= dvpre.push(recv) + rest);
                            },
                            None => {},
                        }
                    }
                }
                off = off + used;
            },
            Err(e) => {
                proof {
                    assert(dec_records(rem) is None);
                }
                return Err(e);
            },
        }
    }
    proof {
        let rem = bytes@.subrange(off as int, n as int);
        assert(rem.len() == 0);
        assert(dec_records(rem) == Some(Seq::<RecModel>::empty()));
        assert(models(out@) + Seq::<RecModel>::empty() =~= models(out@));
    }
    Ok(out)
}

} // verus!
