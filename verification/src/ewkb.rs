//! EWKB encoding of a two-dimensional point with an SRID. The engine
//! never computes with the coordinates themselves: they arrive as the
//! eight little-endian bytes of their binary floating-point form, and the
//! encoder frames them bit-exactly.

use vstd::prelude::*;

use crate::wire::le32;

verus! {

/// A point prepared for EWKB encoding: the little-endian bytes of the
/// x (longitude) and y (latitude) coordinates.
pub struct GeoPoint {
    pub x_le: Vec<u8>,
    pub y_le: Vec<u8>,
}

/// A well-formed point holds exactly eight bytes per coordinate.
pub open spec fn geo_wf(g: GeoPoint) -> bool {
    g.x_le@.len() == 8 && g.y_le@.len() == 8
}

/// The EWKB type word for a two-dimensional point with an SRID: the base
/// point type with the SRID flag set.
pub const EWKB_POINT_SRID: u32 = 0x20000001;

/// The EWKB bytes of a point with an SRID: the little-endian byte-order
/// marker, the type word, the SRID, then x and y.
pub open spec fn ewkb_point(x_le: Seq<u8>, y_le: Seq<u8>, srid: u32) -> Seq<u8> {
    seq![1u8] + le32(EWKB_POINT_SRID) + le32(srid) + x_le + y_le
}

/// EWKB framing: an encoded point with an SRID begins with the five
/// bytes 01 01 00 00 20, then the SRID in little-endian.
pub proof fn lemma_ewkb_framing(x_le: Seq<u8>, y_le: Seq<u8>, srid: u32)
    ensures
        ewkb_point(x_le, y_le, srid).len() == 9 + x_le.len() + y_le.len(),
        ewkb_point(x_le, y_le, srid).subrange(0, 5) =~= seq![1u8, 1u8, 0u8, 0u8, 0x20u8],
        ewkb_point(x_le, y_le, srid).subrange(5, 9) =~= le32(srid),
{
    let e = ewkb_point(x_le, y_le, srid);
    assert(le32(EWKB_POINT_SRID) =~= seq![1u8, 0u8, 0u8, 0x20u8]);
    assert(e.subrange(0, 5) =~= seq![1u8] + le32(EWKB_POINT_SRID));
}

/// Encodes a point as EWKB.
pub fn encode_ewkb_point(g: &GeoPoint, srid: u32) -> (out: Vec<u8>)
    requires
        geo_wf(*g),
    ensures
        out@ =~= ewkb_point(g.x_le@, g.y_le@, srid),
{
    let mut out: Vec<u8> = Vec::new();
    out.push(1u8);
    crate::wire::push_le32(&mut out, EWKB_POINT_SRID);
    crate::wire::push_le32(&mut out, srid);
    crate::runfile::push_range(&mut out, &g.x_le, 0, g.x_le.len());
    crate::runfile::push_range(&mut out, &g.y_le, 0, g.y_le.len());
    proof {
        assert(g.x_le@.subrange(0, g.x_le@.len() as int) =~= g.x_le@);
        assert(g.y_le@.subrange(0, g.y_le@.len() as int) =~= g.y_le@);
    }
    out
}

} // verus!
