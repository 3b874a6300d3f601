//! In-place sort of a batch of records by (key ascending, position
//! descending), used by the run writer and the in-memory fast path.

use vstd::prelude::*;

use crate::record::{
    lemma_rec_le_total, lemma_rec_le_trans, rec_le, record_le, sorted, RecModel, SortRecord,
};

verus! {

/// The models of a sequence of records.
pub open spec fn models(s: Seq<SortRecord>) -> Seq<RecModel> {
    s.map_values(|r: SortRecord| r@)
}

/// Sorts the batch by the record order. The result is a permutation of the
/// input holding exactly the same records.
pub fn sort_records(v: &mut Vec<SortRecord>)
    ensures
        sorted(models(final(v)@)),
        models(final(v)@).to_multiset() == models(old(v)@).to_multiset(),
        final(v)@.len() == old(v)@.len(),
{
    broadcast use vstd::seq_lib::group_to_multiset_ensures;
    broadcast use vstd::multiset::group_multiset_axioms;

    let ghost ms0 = models(v@).to_multiset();
    if v.len() <= 1 {
        proof {
            assert(models(v@).subrange(0, v@.len() as int) =~= models(v@));
        }
        return ;
    }
    let mut i: usize = 1;
    while i < v.len()
        invariant
            1 <= i,
            i <= v.len(),
            sorted(models(v@).subrange(0, i as int)),
            models(v@).to_multiset() == ms0,
            v@.len() == old(v)@.len(),
        decreases v.len() - i,
    {
        let mut j: usize = 0;
        while j < i && record_le(&v[j], &v[i])
            invariant
                j <= i,
                i < v.len(),
                forall|k: int| 0 <= k < j ==> rec_le(models(v@)[k], models(v@)[i as int]),
            decreases i - j,
        {
            j += 1;
        }
        if j < i {
            let ghost s = models(v@);
            let ghost x = s[i as int];
            proof {
                lemma_rec_le_total(s[j as int], x);
            }
            let rec = v.remove(i);
            v.insert(j, rec);
            proof {
                let s2 = models(v@);
                assert(v@ =~= old(v)@.subrange(0, 0).add(v@));
                assert(s2 =~= s.remove(i as int).insert(j as int, x)) by {
                    assert(v@ =~= v@);
                    assert forall|k: int| 0 <= k < s2.len() implies s2[k] == s.remove(
                        i as int,
                    ).insert(j as int, x)[k] by {}
                }
                // every element of the new prefix is ordered
                assert forall|p: int, q: int| 0 <= p <= q < i + 1 implies rec_le(s2[p], s2[q]) by {
                    let sp = s.subrange(0, i as int);
                    assert(forall|k: int| 0 <= k < i ==> s2[if k < j { k } else { k + 1 }] == s[k]);
                    assert(s2[j as int] == x);
                    let pp = if p < j { p } else { p - 1 };
                    let qq = if q < j { q } else { q - 1 };
                    if p == j && q == j {
                    } else if p == j {
                        // x vs s[qq] with j <= qq < i: !rec_le(s[j], x) so rec_le(x, s[j])
                        assert(!rec_le(s[j as int], x));
                        assert(rec_le(x, s[j as int]));
                        if qq > j {
                            assert(rec_le(s[j as int], s[qq]));
                            lemma_rec_le_trans(x, s[j as int], s[qq]);
                        }
                    } else if q == j {
                        // s[pp] vs x with pp < j: scan gives rec_le
                        assert(rec_le(s[pp], x));
                    } else {
                        assert(rec_le(s[pp], s[qq]));
                    }
                }
                assert(sorted(s2.subrange(0, i + 1)));
                // multiset preserved
                assert(s[i as int] == x);
                assert(s.contains(x));
                s.to_multiset_ensures();
                assert(s.to_multiset().count(x) > 0);
                vstd::seq_lib::to_multiset_remove(s, i as int);
                vstd::seq_lib::to_multiset_insert(s.remove(i as int), j as int, x);
                assert(s2.to_multiset() == s.remove(i as int).to_multiset().insert(x));
                assert(s.to_multiset().remove(x).insert(x) =~= s.to_multiset());
            }
        }
        i += 1;
    }
    proof {
        if v.len() == 0 {
            assert(models(v@).subrange(0, v@.len() as int) =~= models(v@));
        } else {
            assert(models(v@).subrange(0, v@.len() as int) =~= models(v@));
        }
    }
}

} // verus!
