//! The boundary between caller-facing strings and the byte columns the
//! engine works on.

use vstd::prelude::*;

verus! {

/// The UTF-8 byte encoding of a character sequence. Determined by the
/// characters alone, so it is left named but uninterpreted.
pub uninterp spec fn utf8_of(s: Seq<char>) -> Seq<u8>;

/// Relies on `String::into_bytes`: the UTF-8 encoding of the string's
/// characters, with an empty string encoding to no bytes.
#[verifier::external_body]
pub(crate) fn string_bytes(s: String) -> (r: Vec<u8>)
    ensures
        r@ == utf8_of(s@),
        s@.len() == 0 ==> r@.len() == 0,
{
    s.into_bytes()
}

/// The UTF-8 encodings of a sequence of strings, in order.
pub open spec fn utf8_row(row: Seq<Seq<char>>) -> Seq<Seq<u8>> {
    row.map_values(|s: Seq<char>| utf8_of(s))
}

/// Converts a row of strings to the byte columns the engine stores.
pub fn row_bytes(row: &Vec<String>) -> (r: Vec<Vec<u8>>)
    ensures
        r.deep_view() == utf8_row(row.deep_view()),
{
    let ghost rowv = row.deep_view();
    let mut out: Vec<Vec<u8>> = Vec::new();
    let mut i: usize = 0;
    while i < row.len()
        invariant
            i <= rowv.len(),
            rowv == row.deep_view(),
            out@.len() == i,
            forall|j: int| 0 <= j < i ==> out.deep_view()[j] == utf8_of(rowv[j]),
        decreases rowv.len() - i,
    {
        let s = row[i].clone();
        proof {
            assert(s@ == rowv[i as int]);
        }
        let b = string_bytes(s);
        let ghost bv = b@;
        let ghost dvpre = out.deep_view();
        out.push(b);
        proof {
            assert(out.deep_view() =~= dvpre.push(bv)) by {
                assert forall|j: int| 0 <= j < dvpre.len() implies out.deep_view()[j]
                    == dvpre[j] by {
                    assert(out.deep_view()[j] == out@[j].deep_view());
                }
                assert(out.deep_view()[i as int] == out@[i as int].deep_view());
                assert(out@[i as int].deep_view() =~= bv);
            }
        }
        i += 1;
    }
    proof {
        assert(out.deep_view() =~= utf8_row(rowv));
    }
    out
}

} // verus!
