//! The PostgreSQL binary-COPY encoder. The fixed six-column schema is
//! source key, hexadecimal targeting key, geometry, the raw row as a
//! text array, and two timestamps. All framing integers are big-endian;
//! a column length of -1 denotes NULL.

use vstd::prelude::*;

use crate::errors::SortError;
use crate::ewkb::{encode_ewkb_point, ewkb_point, geo_wf, GeoPoint};
use crate::record::{key_to_vec, RecModel, SortRecord};
use crate::runfile::push_range;
use crate::sortvec::models;
use crate::wire::{be16, be32, be64, push_be16, push_be32, push_be64};

verus! {

/// The SRID the geometry column is encoded with.
pub const GEO_SRID: u32 = 4326;

/// The PostgreSQL element oid for VARCHAR, used in the text-array header.
pub const VARCHAR_OID: u32 = 1043;

/// The lowercase hexadecimal digit byte for a value below 16.
pub open spec fn hex_digit_byte(n: u8) -> u8
    recommends
        n < 16,
{
    if n < 10 {
        (48 + n) as u8
    } else {
        (87 + n) as u8
    }
}

/// The lowercase hexadecimal bytes of a byte sequence: two digits per
/// byte, high nibble first.
pub open spec fn hex_bytes_of(b: Seq<u8>) -> Seq<u8> {
    Seq::new(
        b.len() * 2,
        |i: int|
            if i % 2 == 0 {
                hex_digit_byte(b[i / 2] / 16)
            } else {
                hex_digit_byte(b[i / 2] % 16)
            },
    )
}

/// Relies on `faster_hex::hex_encode`: writes two lowercase hexadecimal
/// digits per input byte, high nibble first, into a buffer of exactly
/// twice the input length.
#[verifier::external_body]
fn hex_bytes(b: &Vec<u8>) -> (r: Vec<u8>)
    requires
        b@.len() < 0x1000000,
    ensures
        r@ == hex_bytes_of(b@),
{
    let mut dst = vec![0u8; b.len() * 2];
    let _ = faster_hex::hex_encode(b.as_slice(), &mut dst);
    dst
}

/// The 11-byte binary-COPY signature.
pub open spec fn copy_signature() -> Seq<u8> {
    seq![80u8, 71u8, 67u8, 79u8, 80u8, 89u8, 10u8, 255u8, 13u8, 10u8, 0u8]
}

/// The 19-byte header: signature, zero flags, zero extension length.
pub open spec fn copy_header() -> Seq<u8> {
    copy_signature() + be32(0) + be32(0)
}

/// The 2-byte trailer: a 16-bit -1.
pub open spec fn copy_trailer() -> Seq<u8> {
    seq![255u8, 255u8]
}

/// A non-null column: a 32-bit big-endian length, then the payload.
pub open spec fn field(p: Seq<u8>) -> Seq<u8> {
    be32(p.len() as u32) + p
}

/// A NULL column: length -1, no payload.
pub open spec fn null_field() -> Seq<u8> {
    seq![255u8, 255u8, 255u8, 255u8]
}

/// A TIMESTAMP payload: microseconds since the PostgreSQL epoch as a
/// big-endian 64-bit signed value.
pub open spec fn ts_payload(micros: i64) -> Seq<u8> {
    be64(micros as u64)
}

/// The elements of a text array: per element a 32-bit length and the
/// bytes.
pub open spec fn arr_elems(cols: Seq<Seq<u8>>) -> Seq<u8>
    decreases cols.len(),
{
    if cols.len() == 0 {
        Seq::empty()
    } else {
        arr_elems(cols.drop_last()) + be32(cols.last().len() as u32) + cols.last()
    }
}

/// A one-dimensional VARCHAR array payload: dims, has-nulls, element
/// oid, length, lower bound, then the elements.
pub open spec fn arr_payload(cols: Seq<Seq<u8>>) -> Seq<u8> {
    be32(1) + be32(0) + be32(VARCHAR_OID) + be32(cols.len() as u32) + be32(1) + arr_elems(cols)
}

/// The geometry column: NULL for a missing or unparseable point, else
/// the EWKB point with the configured SRID.
pub open spec fn geo_field(g: Option<(Seq<u8>, Seq<u8>)>) -> Seq<u8> {
    match g {
        None => null_field(),
        Some(p) => field(ewkb_point(p.0, p.1, GEO_SRID)),
    }
}

/// One encoded row: the column count, then the six columns.
pub open spec fn copy_row(
    source_key: Seq<u8>,
    r: RecModel,
    g: Option<(Seq<u8>, Seq<u8>)>,
    now: i64,
) -> Seq<u8> {
    be16(6) + field(source_key) + field(hex_bytes_of(r.key)) + geo_field(g) + field(
        arr_payload(r.row),
    ) + field(ts_payload(now)) + field(ts_payload(now))
}

/// The encoded rows, in order.
pub open spec fn copy_rows(
    source_key: Seq<u8>,
    rs: Seq<RecModel>,
    gs: Seq<Option<(Seq<u8>, Seq<u8>)>>,
    now: i64,
) -> Seq<u8>
    recommends
        rs.len() == gs.len(),
    decreases rs.len(),
{
    if rs.len() == 0 {
        Seq::empty()
    } else {
        copy_rows(source_key, rs.drop_last(), gs.drop_last(), now) + copy_row(
            source_key,
            rs.last(),
            gs.last(),
            now,
        )
    }
}

/// A whole binary-COPY file: header, rows, trailer.
pub open spec fn copy_file(
    source_key: Seq<u8>,
    rs: Seq<RecModel>,
    gs: Seq<Option<(Seq<u8>, Seq<u8>)>>,
    now: i64,
) -> Seq<u8> {
    copy_header() + copy_rows(source_key, rs, gs, now) + copy_trailer()
}

/// A record whose columns fit the 32-bit length fields of the format.
pub open spec fn copy_fits(r: RecModel) -> bool {
    &&& r.row.len() < 0x80000000
    &&& (forall|i: int| 0 <= i < r.row.len() ==> (#[trigger] r.row[i]).len() < 0x80000000)
    &&& arr_payload(r.row).len() < 0x80000000
}

/// The models of the per-record geometry inputs.
pub open spec fn geo_models(gs: Seq<Option<GeoPoint>>) -> Seq<Option<(Seq<u8>, Seq<u8>)>> {
    gs.map_values(
        |o: Option<GeoPoint>|
            match o {
                None => None,
                Some(g) => Some((g.x_le@, g.y_le@)),
            },
    )
}

/// COPY framing: every encoded file begins with the 11-byte signature
/// and two zero 32-bit words, and ends with a 16-bit -1; with no rows it
/// is exactly 21 bytes.
pub proof fn lemma_copy_framing(
    source_key: Seq<u8>,
    rs: Seq<RecModel>,
    gs: Seq<Option<(Seq<u8>, Seq<u8>)>>,
    now: i64,
)
    ensures
        copy_file(source_key, rs, gs, now).len() >= 21,
        copy_file(source_key, rs, gs, now).subrange(0, 11) =~= copy_signature(),
        forall|i: int| 11 <= i < 19 ==> copy_file(source_key, rs, gs, now)[i] == 0,
        copy_file(source_key, rs, gs, now).subrange(
            copy_file(source_key, rs, gs, now).len() - 2,
            copy_file(source_key, rs, gs, now).len() as int,
        ) =~= seq![255u8, 255u8],
        rs.len() == 0 ==> copy_file(source_key, rs, gs, now).len() == 21,
{
    let f = copy_file(source_key, rs, gs, now);
    assert(copy_header().len() == 19);
    assert(f.subrange(0, 11) =~= copy_signature());
    assert(be32(0) =~= seq![0u8, 0u8, 0u8, 0u8]);
    assert(forall|i: int| 11 <= i < 19 ==> f[i] == 0);
    assert(f.subrange(f.len() - 2, f.len() as int) =~= copy_trailer());
}

/// Appends one non-null field.
fn push_field(out: &mut Vec<u8>, payload: &Vec<u8>) -> (ok: bool)
    ensures
        ok == (payload@.len() < 0x80000000),
        ok ==> final(out)@ =~= old(out)@ + field(payload@),
        !ok ==> final(out)@ == old(out)@,
{
    if (payload.len() as u64) >= 0x80000000u64 {
        return false;
    }
    push_be32(out, payload.len() as u32);
    push_range(out, payload, 0, payload.len());
    proof {
        assert(payload@.subrange(0, payload@.len() as int) =~= payload@);
    }
    true
}

/// Appends the text-array payload of a row, or reports the column that
/// does not fit.
fn build_arr_payload(row: &Vec<Vec<u8>>) -> (out: Result<Vec<u8>, SortError>)
    ensures
        match out {
            Ok(p) => p@ == arr_payload(row.deep_view()) && row.deep_view().len() < 0x80000000 && (
            forall|i: int|
                0 <= i < row.deep_view().len() ==> (#[trigger] row.deep_view()[i]).len()
                    < 0x80000000),
            Err(e) => e == SortError::FieldTooLarge && !(row.deep_view().len() < 0x80000000 && (
            forall|i: int|
                0 <= i < row.deep_view().len() ==> (#[trigger] row.deep_view()[i]).len()
                    < 0x80000000)),
        },
{
    let ghost rowv = row.deep_view();
    if (row.len() as u64) >= 0x80000000u64 {
        return Err(SortError::FieldTooLarge);
    }
    let mut p: Vec<u8> = Vec::new();
    push_be32(&mut p, 1);
    push_be32(&mut p, 0);
    push_be32(&mut p, VARCHAR_OID);
    push_be32(&mut p, row.len() as u32);
    push_be32(&mut p, 1);
    let mut i: usize = 0;
    while i < row.len()
        invariant
            i <= rowv.len(),
            rowv == row.deep_view(),
            rowv.len() < 0x80000000,
            forall|j: int| 0 <= j < i ==> (#[trigger] rowv[j]).len() < 0x80000000,
            p@ =~= be32(1) + be32(0) + be32(VARCHAR_OID) + be32(rowv.len() as u32) + be32(1)
                + arr_elems(rowv.subrange(0, i as int)),
        decreases rowv.len() - i,
    {
        let col = &row[i];
        proof {
            assert(col@ == rowv[i as int]);
        }
        if (col.len() as u64) >= 0x80000000u64 {
            return Err(SortError::FieldTooLarge);
        }
        push_be32(&mut p, col.len() as u32);
        push_range(&mut p, col, 0, col.len());
        proof {
            assert(col@.subrange(0, col@.len() as int) =~= col@);
            let pre = rowv.subrange(0, i as int);
            let pre1 = rowv.subrange(0, i + 1);
            assert(pre1.drop_last() =~= pre);
            assert(pre1.last() == rowv[i as int]);
        }
        i += 1;
    }
    proof {
        assert(rowv.subrange(0, rowv.len() as int) =~= rowv);
    }
    Ok(p)
}

/// Encodes the sorted records as a binary-COPY file. Succeeds exactly
/// when the source key and every record fit the format's 32-bit length
/// fields.
#[verifier::rlimit(60)]
pub fn encode_copy(
    source_key: &Vec<u8>,
    records: &Vec<SortRecord>,
    geo: &Vec<Option<GeoPoint>>,
    now_micros: i64,
) -> (out: Result<Vec<u8>, SortError>)
    requires
        geo@.len() == records@.len(),
        forall|i: int|
            0 <= i < geo@.len() ==> (#[trigger] geo@[i] matches Some(g) ==> geo_wf(g)),
    ensures
        match out {
            Ok(bytes) => bytes@ == copy_file(
                source_key@,
                models(records@),
                geo_models(geo@),
                now_micros,
            ) && source_key@.len() < 0x80000000 && (forall|i: int|
                0 <= i < records@.len() ==> copy_fits(#[trigger] models(records@)[i])),
            Err(e) => e == SortError::FieldTooLarge && !(source_key@.len() < 0x80000000 && (forall|
                i: int,
            | 0 <= i < records@.len() ==> copy_fits(#[trigger] models(records@)[i]))),
        },
{
    broadcast use vstd::array::group_array_axioms;

    let ghost ms = models(records@);
    let ghost gm = geo_models(geo@);
    if (source_key.len() as u64) >= 0x80000000u64 {
        return Err(SortError::FieldTooLarge);
    }
    let mut out: Vec<u8> = Vec::new();
    // header
    out.push(80u8);
    out.push(71u8);
    out.push(67u8);
    out.push(79u8);
    out.push(80u8);
    out.push(89u8);
    out.push(10u8);
    out.push(255u8);
    out.push(13u8);
    out.push(10u8);
    out.push(0u8);
    push_be32(&mut out, 0);
    push_be32(&mut out, 0);
    proof {
        assert(out@ =~= copy_header());
        assert(copy_rows(source_key@, ms.subrange(0, 0), gm.subrange(0, 0), now_micros)
            =~= Seq::<u8>::empty());
    }
    let mut i: usize = 0;
    while i < records.len()
        invariant
            i <= ms.len(),
            ms == models(records@),
            gm == geo_models(geo@),
            gm.len() == ms.len(),
            ms.len() == records@.len(),
            geo@.len() == records@.len(),
            source_key@.len() < 0x80000000,
            forall|i2: int|
                0 <= i2 < geo@.len() ==> (#[trigger] geo@[i2] matches Some(g) ==> geo_wf(g)),
            forall|j: int| 0 <= j < i ==> copy_fits(#[trigger] ms[j]),
            out@ =~= copy_header() + copy_rows(
                source_key@,
                ms.subrange(0, i as int),
                gm.subrange(0, i as int),
                now_micros,
            ),
        decreases ms.len() - i,
    {
        let rec = &records[i];
        proof {
            assert(rec@ == ms[i as int]);
        }
        push_be16(&mut out, 6);
        let ok1 = push_field(&mut out, source_key);
        proof {
            assert(ok1);
        }
        let kv = key_to_vec(&rec.key);
        let hx = hex_bytes(&kv);
        let ok2 = push_field(&mut out, &hx);
        proof {
            assert(hx@.len() == 40);
            assert(ok2);
            assert(hx@ == hex_bytes_of(ms[i as int].key));
        }
        match &geo[i] {
            Some(g) => {
                let e = encode_ewkb_point(g, GEO_SRID);
                let ok3 = push_field(&mut out, &e);
                proof {
                    assert(e@.len() == 25);
                    assert(ok3);
                    assert(gm[i as int] == Some((g.x_le@, g.y_le@)));
                    assert(field(e@) =~= geo_field(gm[i as int]));
                }
            },
            None => {
                out.push(255u8);
                out.push(255u8);
                out.push(255u8);
                out.push(255u8);
                proof {
                    assert(gm[i as int] is None);
                    assert(geo_field(gm[i as int]) =~= null_field());
                }
            },
        }
        let arr = match build_arr_payload(&rec.row) {
            Ok(p) => p,
            Err(e) => {
                proof {
                    assert(!copy_fits(ms[i as int]));
                }
                return Err(e);
            },
        };
        let ok4 = push_field(&mut out, &arr);
        if !ok4 {
            proof {
                assert(!copy_fits(ms[i as int]));
            }
            return Err(SortError::FieldTooLarge);
        }
        let mut ts: Vec<u8> = Vec::new();
        push_be64(&mut ts, now_micros as u64);
        proof {
            assert(ts@ =~= ts_payload(now_micros));
            assert(ts@.len() == 8);
        }
        let ok5 = push_field(&mut out, &ts);
        let ok6 = push_field(&mut out, &ts);
        proof {
            assert(ok5 && ok6);
            assert(copy_fits(ms[i as int]));
            let pre = ms.subrange(0, i as int);
            let pre1 = ms.subrange(0, i + 1);
            let gpre = gm.subrange(0, i as int);
            let gpre1 = gm.subrange(0, i + 1);
            assert(pre1.drop_last() =~= pre);
            assert(gpre1.drop_last() =~= gpre);
            assert(pre1.last() == ms[i as int]);
            assert(gpre1.last() == gm[i as int]);
            assert(out@ =~= copy_header() + copy_rows(source_key@, pre1, gpre1, now_micros));
        }
        i += 1;
    }
    // trailer
    out.push(255u8);
    out.push(255u8);
    proof {
        assert(ms.subrange(0, ms.len() as int) =~= ms);
        assert(gm.subrange(0, gm.len() as int) =~= gm);
        assert(out@ =~= copy_file(source_key@, ms, gm, now_micros));
    }
    Ok(out)
}

} // verus!
