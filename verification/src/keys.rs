//! Targeting-key derivation: the SHA-1 digest of the source identifier
//! followed, for each configured in-range key column, by a comma byte and
//! that column's bytes. The key is a pure function of those inputs, which
//! is what makes the sort order and the per-key cap deterministic.

use sha1::Digest;
use vstd::prelude::*;

verus! {

/// The 20-byte SHA-1 digest of a byte sequence. SHA-1 depends on the
/// input bytes alone, so the digest is left named but uninterpreted.
pub uninterp spec fn sha1_of(bytes: Seq<u8>) -> Seq<u8>;

/// Relies on `sha1::Sha1` through `digest::Digest::digest`: one-shot
/// SHA-1, always returning a 20-byte digest determined by the input.
#[verifier::external_body]
fn sha1_digest(data: &Vec<u8>) -> (r: [u8; 20])
    ensures
        r@ == sha1_of(data@),
        r@.len() == 20,
{
    sha1::Sha1::digest(data.as_slice()).into()
}

/// The bytes hashed for a row's targeting key: the source identifier,
/// then for each configured column index that is in range, a comma byte
/// followed by that column's bytes. Out-of-range indices contribute
/// nothing.
pub open spec fn key_preimage(source_id: Seq<u8>, key_cols: Seq<usize>, row: Seq<Seq<u8>>) -> Seq<
    u8,
>
    decreases key_cols.len(),
{
    if key_cols.len() == 0 {
        source_id
    } else {
        let rest = key_preimage(source_id, key_cols.drop_last(), row);
        let c = key_cols.last();
        if c < row.len() {
            rest + seq![44u8] + row[c as int]
        } else {
            rest
        }
    }
}

/// The targeting key of a row under a source identifier and key columns.
pub open spec fn key_of(source_id: Seq<u8>, key_cols: Seq<usize>, row: Seq<Seq<u8>>) -> Seq<u8> {
    sha1_of(key_preimage(source_id, key_cols, row))
}

/// Derives the 20-byte targeting key. The key is a function of the source
/// identifier, the configured key columns and the row alone.
pub fn targeting_key(source_id: &Vec<u8>, key_columns: &Vec<usize>, row: &Vec<Vec<u8>>) -> (r: [u8;
    20])
    ensures
        r@ == key_of(source_id@, key_columns@, row.deep_view()),
        r@.len() == 20,
{
    let mut buf: Vec<u8> = crate::record::clone_bytes(source_id);
    let ghost rowv = row.deep_view();
    let mut i: usize = 0;
    while i < key_columns.len()
        invariant
            i <= key_columns@.len(),
            rowv == row.deep_view(),
            buf@ == key_preimage(source_id@, key_columns@.subrange(0, i as int), rowv),
        decreases key_columns@.len() - i,
    {
        let c = key_columns[i];
        if c < row.len() {
            buf.push(44u8);
            let col = &row[c];
            let mut k: usize = 0;
            while k < col.len()
                invariant
                    k <= col@.len(),
                    col@ == rowv[c as int],
                    c < rowv.len(),
                    buf@ == key_preimage(source_id@, key_columns@.subrange(0, i as int), rowv)
                        + seq![44u8] + col@.subrange(0, k as int),
                decreases col@.len() - k,
            {
                buf.push(col[k]);
                proof {
                    assert(col@.subrange(0, k + 1) =~= col@.subrange(0, k as int).push(
                        col@[k as int],
                    ));
                }
                k += 1;
            }
            proof {
                assert(col@.subrange(0, col@.len() as int) =~= col@);
            }
        }
        proof {
            let pre = key_columns@.subrange(0, i as int);
            let pre1 = key_columns@.subrange(0, i + 1);
            assert(pre1.drop_last() =~= pre);
            assert(pre1.last() == key_columns@[i as int]);
        }
        i += 1;
    }
    proof {
        assert(key_columns@.subrange(0, key_columns@.len() as int) =~= key_columns@);
    }
    sha1_digest(&buf)
}

} // verus!
