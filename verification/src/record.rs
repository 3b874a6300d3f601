//! Sort records and the order they are sorted by: targeting key ascending
//! (lexicographic over the 20 key bytes), position descending.

use vstd::prelude::*;

verus! {

/// One row together with its sort key: the 20-byte targeting key and the
/// admission position.
pub struct SortRecord {
    pub key: [u8; 20],
    pub position: u64,
    pub row: Vec<Vec<u8>>,
}

/// The mathematical image of a [`SortRecord`].
pub struct RecModel {
    pub key: Seq<u8>,
    pub position: u64,
    pub row: Seq<Seq<u8>>,
}

impl View for SortRecord {
    type V = RecModel;

    open spec fn view(&self) -> RecModel {
        RecModel { key: self.key@, position: self.position, row: self.row.deep_view() }
    }
}

/// Strict lexicographic order on equal-length byte sequences.
pub open spec fn lex_lt(a: Seq<u8>, b: Seq<u8>) -> bool
    decreases a.len(),
{
    a.len() > 0 && b.len() > 0 && (a[0] < b[0] || (a[0] == b[0] && lex_lt(
        a.subrange(1, a.len() as int),
        b.subrange(1, b.len() as int),
    )))
}

/// The sort order on (targeting key, position): key ascending, and within
/// one key position descending, so that later-admitted rows sort first.
pub open spec fn sk_le(ka: Seq<u8>, pa: u64, kb: Seq<u8>, pb: u64) -> bool {
    if ka == kb {
        pa >= pb
    } else {
        lex_lt(ka, kb)
    }
}

/// The sort order lifted to record models.
pub open spec fn rec_le(a: RecModel, b: RecModel) -> bool {
    sk_le(a.key, a.position, b.key, b.position)
}

/// A sequence of record models in non-decreasing sort-key order.
pub open spec fn sorted(s: Seq<RecModel>) -> bool {
    forall|i: int, j: int| 0 <= i <= j < s.len() ==> rec_le(s[i], s[j])
}

/// Lexicographic order is irreflexive.
pub proof fn lemma_lex_irrefl(a: Seq<u8>)
    ensures
        !lex_lt(a, a),
    decreases a.len(),
{
    if a.len() > 0 {
        lemma_lex_irrefl(a.subrange(1, a.len() as int));
    }
}

/// Two equal-length byte sequences are lexicographically comparable.
pub proof fn lemma_lex_total(a: Seq<u8>, b: Seq<u8>)
    requires
        a.len() == b.len(),
    ensures
        lex_lt(a, b) || lex_lt(b, a) || a =~= b,
    decreases a.len(),
{
    if a.len() > 0 && !(a[0] < b[0]) && !(b[0] < a[0]) {
        lemma_lex_total(a.subrange(1, a.len() as int), b.subrange(1, b.len() as int));
        if a.subrange(1, a.len() as int) =~= b.subrange(1, b.len() as int) {
            assert forall|i: int| 0 <= i < a.len() implies a[i] == b[i] by {
                if i > 0 {
                    assert(a.subrange(1, a.len() as int)[i - 1] == a[i]);
                    assert(b.subrange(1, b.len() as int)[i - 1] == b[i]);
                }
            }
        }
    }
}

/// Lexicographic order is transitive.
pub proof fn lemma_lex_trans(a: Seq<u8>, b: Seq<u8>, c: Seq<u8>)
    requires
        a.len() == b.len(),
        b.len() == c.len(),
        lex_lt(a, b),
        lex_lt(b, c),
    ensures
        lex_lt(a, c),
    decreases a.len(),
{
    if a[0] == b[0] && b[0] == c[0] {
        lemma_lex_trans(
            a.subrange(1, a.len() as int),
            b.subrange(1, b.len() as int),
            c.subrange(1, c.len() as int),
        );
    }
}

/// Lexicographic order is asymmetric.
pub proof fn lemma_lex_asym(a: Seq<u8>, b: Seq<u8>)
    requires
        a.len() == b.len(),
        lex_lt(a, b),
    ensures
        !lex_lt(b, a),
        !(a =~= b),
    decreases a.len(),
{
    if a[0] == b[0] {
        lemma_lex_asym(a.subrange(1, a.len() as int), b.subrange(1, b.len() as int));
        assert(!(a.subrange(1, a.len() as int) =~= b.subrange(1, b.len() as int)));
        if a =~= b {
            assert(a.subrange(1, a.len() as int) =~= b.subrange(1, b.len() as int));
        }
    } else {
        if a =~= b {
            assert(a[0] == b[0]);
        }
    }
}

/// The record order is total on records with 20-byte keys.
pub proof fn lemma_rec_le_total(a: RecModel, b: RecModel)
    requires
        a.key.len() == b.key.len(),
    ensures
        rec_le(a, b) || rec_le(b, a),
{
    lemma_lex_total(a.key, b.key);
}

/// The record order is transitive on records with 20-byte keys.
pub proof fn lemma_rec_le_trans(a: RecModel, b: RecModel, c: RecModel)
    requires
        a.key.len() == b.key.len(),
        b.key.len() == c.key.len(),
        rec_le(a, b),
        rec_le(b, c),
    ensures
        rec_le(a, c),
{
    if a.key == b.key && b.key == c.key {
    } else if a.key == b.key {
    } else if b.key == c.key {
    } else {
        lemma_lex_trans(a.key, b.key, c.key);
        lemma_lex_asym(a.key, b.key);
        lemma_lex_asym(b.key, c.key);
        if a.key == c.key {
            lemma_lex_asym(a.key, b.key);
            assert(lex_lt(c.key, b.key) == lex_lt(a.key, b.key));
        }
    }
}

/// Compares two 20-byte keys; returns a negative sign as `true` in `lt`,
/// equality in `eq`.
fn key_cmp(a: &[u8; 20], b: &[u8; 20]) -> (r: (bool, bool))
    ensures
        r.1 == (a@ =~= b@),
        r.0 == (!r.1 && lex_lt(a@, b@)),
{
    let mut i: usize = 0;
    while i < 20
        invariant
            i <= 20,
            forall|j: int| 0 <= j < i ==> a@[j] == b@[j],
        decreases 20 - i,
    {
        let x = a[i];
        let y = b[i];
        if x < y {
            proof {
                lemma_lex_from_diff(a@, b@, i as int);
            }
            return (true, false);
        }
        if x > y {
            proof {
                lemma_lex_from_diff(b@, a@, i as int);
                lemma_lex_asym(b@, a@);
            }
            return (false, false);
        }
        i += 1;
    }
    proof {
        assert(a@ =~= b@);
        lemma_lex_irrefl(a@);
    }
    (false, true)
}

/// If two equal-length sequences agree before `i` and differ at `i` with
/// `a[i] < b[i]`, then `a` precedes `b` lexicographically.
pub proof fn lemma_lex_from_diff(a: Seq<u8>, b: Seq<u8>, i: int)
    requires
        a.len() == b.len(),
        0 <= i < a.len(),
        forall|j: int| 0 <= j < i ==> a[j] == b[j],
        a[i] < b[i],
    ensures
        lex_lt(a, b),
    decreases i,
{
    if i > 0 {
        lemma_lex_from_diff(a.subrange(1, a.len() as int), b.subrange(1, b.len() as int), i - 1);
    }
}

/// Decides equality of two targeting keys.
pub fn keys_equal(a: &[u8; 20], b: &[u8; 20]) -> (r: bool)
    ensures
        r == (a@ =~= b@),
{
    let (_, eq) = key_cmp(a, b);
    eq
}

/// Copies a targeting key into a byte vector.
pub fn key_to_vec(key: &[u8; 20]) -> (r: Vec<u8>)
    ensures
        r@ =~= key@,
{
    let mut out: Vec<u8> = Vec::new();
    let mut i: usize = 0;
    while i < 20
        invariant
            i <= 20,
            out@ =~= key@.subrange(0, i as int),
        decreases 20 - i,
    {
        out.push(key[i]);
        proof {
            assert(key@.subrange(0, i + 1) =~= key@.subrange(0, i as int) + seq![key@[i as int]]);
        }
        i += 1;
    }
    proof {
        assert(key@.subrange(0, 20) =~= key@);
    }
    out
}

/// Decides the record sort order between two records.
pub fn record_le(a: &SortRecord, b: &SortRecord) -> (r: bool)
    ensures
        r == rec_le(a@, b@),
{
    let (lt, eq) = key_cmp(&a.key, &b.key);
    if eq {
        a.position >= b.position
    } else {
        lt
    }
}

/// Copies a byte column.
pub fn clone_bytes(v: &Vec<u8>) -> (r: Vec<u8>)
    ensures
        r@ =~= v@,
{
    let mut out: Vec<u8> = Vec::new();
    let mut i: usize = 0;
    while i < v.len()
        invariant
            i <= v.len(),
            out@ =~= v@.subrange(0, i as int),
        decreases v.len() - i,
    {
        out.push(v[i]);
        i += 1;
    }
    out
}

/// Copies a row of byte columns.
pub fn clone_row(v: &Vec<Vec<u8>>) -> (r: Vec<Vec<u8>>)
    ensures
        r.deep_view() =~= v.deep_view(),
        r@.len() == v@.len(),
{
    let mut out: Vec<Vec<u8>> = Vec::new();
    let mut i: usize = 0;
    while i < v.len()
        invariant
            i <= v.len(),
            out@.len() == i,
            forall|j: int| 0 <= j < i ==> out.deep_view()[j] =~= v.deep_view()[j],
        decreases v.len() - i,
    {
        out.push(clone_bytes(&v[i]));
        i += 1;
    }
    assert(out.deep_view() =~= v.deep_view());
    out
}

/// Copies a sort record.
pub fn clone_record(r: &SortRecord) -> (out: SortRecord)
    ensures
        out@ =~= r@,
{
    SortRecord { key: r.key, position: r.position, row: clone_row(&r.row) }
}

} // verus!
