//! K-way merge of sorted runs into the single sorted stream that becomes
//! the intermediate sorted file. Reader state is an index per run; each
//! step emits the least head among the runs, so ties on equal sort keys
//! are impossible to observe in the ordering (the order is total) and the
//! output is a permutation of the runs' contents.

use vstd::prelude::*;

use crate::record::{
    lemma_rec_le_total, lemma_rec_le_trans, rec_le, record_le, sorted, RecModel, SortRecord,
};
use crate::sortvec::models;
use vstd::multiset::Multiset;
use vstd::pervasive::VecAdditionalExecFns;

verus! {

/// The models of each run.
pub open spec fn runs_models(rs: Seq<Vec<SortRecord>>) -> Seq<Seq<RecModel>> {
    rs.map_values(|v: Vec<SortRecord>| models(v@))
}

/// Everything the runs hold, as one multiset.
pub open spec fn runs_multiset(rs: Seq<Seq<RecModel>>) -> Multiset<RecModel>
    decreases rs.len(),
{
    if rs.len() == 0 {
        Multiset::empty()
    } else {
        rs[0].to_multiset().add(runs_multiset(rs.drop_first()))
    }
}

/// What the merge has consumed so far: the first `idxs[r]` records of
/// each run `r`.
pub open spec fn consumed(rs: Seq<Seq<RecModel>>, idxs: Seq<usize>) -> Multiset<RecModel>
    recommends
        idxs.len() == rs.len(),
    decreases rs.len(),
{
    if rs.len() == 0 {
        Multiset::empty()
    } else {
        rs[0].subrange(0, idxs[0] as int).to_multiset().add(
            consumed(rs.drop_first(), idxs.drop_first()),
        )
    }
}

/// How many records the merge has not consumed yet.
pub open spec fn remaining(rs: Seq<Seq<RecModel>>, idxs: Seq<usize>) -> int
    recommends
        idxs.len() == rs.len(),
    decreases rs.len(),
{
    if rs.len() == 0 {
        0
    } else {
        rs[0].len() - idxs[0] + remaining(rs.drop_first(), idxs.drop_first())
    }
}

proof fn lemma_remaining_nonneg(rs: Seq<Seq<RecModel>>, idxs: Seq<usize>)
    requires
        idxs.len() == rs.len(),
        forall|r: int| 0 <= r < rs.len() ==> idxs[r] <= rs[r].len(),
    ensures
        remaining(rs, idxs) >= 0,
    decreases rs.len(),
{
    if rs.len() > 0 {
        lemma_remaining_nonneg(rs.drop_first(), idxs.drop_first());
    }
}

proof fn lemma_consumed_zero(rs: Seq<Seq<RecModel>>, idxs: Seq<usize>)
    requires
        idxs.len() == rs.len(),
        forall|r: int| 0 <= r < idxs.len() ==> idxs[r] == 0,
    ensures
        consumed(rs, idxs) =~= Multiset::empty(),
    decreases rs.len(),
{
    broadcast use vstd::multiset::group_multiset_axioms;

    if rs.len() > 0 {
        assert(rs[0].subrange(0, 0) =~= Seq::<RecModel>::empty());
        Seq::<RecModel>::empty().to_multiset_ensures();
        vstd::multiset::lemma_multiset_empty_len(Seq::<RecModel>::empty().to_multiset());
        lemma_consumed_zero(rs.drop_first(), idxs.drop_first());
    }
}

proof fn lemma_consumed_full(rs: Seq<Seq<RecModel>>, idxs: Seq<usize>)
    requires
        idxs.len() == rs.len(),
        forall|r: int| 0 <= r < rs.len() ==> idxs[r] == rs[r].len(),
    ensures
        consumed(rs, idxs) =~= runs_multiset(rs),
    decreases rs.len(),
{
    if rs.len() > 0 {
        assert(rs[0].subrange(0, idxs[0] as int) =~= rs[0]);
        lemma_consumed_full(rs.drop_first(), idxs.drop_first());
    }
}

/// Consuming one more record from run `r` adds that record to the
/// consumed multiset and lowers the remaining count by one.
proof fn lemma_consumed_bump(rs: Seq<Seq<RecModel>>, idxs: Seq<usize>, r: int)
    requires
        idxs.len() == rs.len(),
        0 <= r < rs.len(),
        idxs[r] < rs[r].len(),
        idxs[r] < usize::MAX,
    ensures
        consumed(rs, idxs.update(r, (idxs[r] + 1) as usize)) =~= consumed(rs, idxs).insert(
            rs[r][idxs[r] as int],
        ),
        remaining(rs, idxs.update(r, (idxs[r] + 1) as usize)) == remaining(rs, idxs) - 1,
    decreases rs.len(),
{
    broadcast use vstd::multiset::group_multiset_axioms;
    broadcast use vstd::seq_lib::group_to_multiset_ensures;

    let idxs2 = idxs.update(r, (idxs[r] + 1) as usize);
    if r == 0 {
        assert(idxs2.drop_first() =~= idxs.drop_first());
        assert(rs[0].subrange(0, idxs[0] + 1) =~= rs[0].subrange(0, idxs[0] as int).push(
            rs[0][idxs[0] as int],
        ));
        assert(rs[0].subrange(0, idxs[0] + 1).to_multiset() =~= rs[0].subrange(
            0,
            idxs[0] as int,
        ).to_multiset().insert(rs[0][idxs[0] as int]));
    } else {
        assert(idxs2.drop_first() =~= idxs.drop_first().update(r - 1, (idxs[r] + 1) as usize));
        assert(idxs2[0] == idxs[0]);
        lemma_consumed_bump(rs.drop_first(), idxs.drop_first(), r - 1);
    }
}

/// Adding one run adds exactly its contents to the runs' multiset.
pub proof fn lemma_runs_multiset_snoc(rs: Seq<Seq<RecModel>>, q: Seq<RecModel>)
    ensures
        runs_multiset(rs.push(q)) =~= runs_multiset(rs).add(q.to_multiset()),
    decreases rs.len(),
{
    broadcast use vstd::multiset::group_multiset_axioms;

    if rs.len() == 0 {
        assert(rs.push(q)[0] == q);
        assert(rs.push(q).drop_first() =~= Seq::<Seq<RecModel>>::empty());
        assert(runs_multiset(rs.push(q).drop_first()) =~= Multiset::empty());
        assert(runs_multiset(rs.push(q)) == q.to_multiset().add(
            runs_multiset(rs.push(q).drop_first()),
        ));
        assert(runs_multiset(rs) =~= Multiset::empty());
        assert(runs_multiset(rs.push(q)) =~= q.to_multiset().add(Multiset::empty()));
    } else {
        assert(rs.push(q)[0] == rs[0]);
        assert(rs.push(q).drop_first() =~= rs.drop_first().push(q));
        lemma_runs_multiset_snoc(rs.drop_first(), q);
    }
}

/// Anything counted by the runs' multiset stands in one of the runs.
pub proof fn lemma_runs_multiset_member(rs: Seq<Seq<RecModel>>, x: RecModel)
    requires
        runs_multiset(rs).count(x) > 0,
    ensures
        exists|r: int, j: int|
            0 <= r < rs.len() && 0 <= j < rs[r].len() && #[trigger] rs[r][j] == x,
    decreases rs.len(),
{
    broadcast use vstd::multiset::group_multiset_axioms;
    broadcast use vstd::seq_lib::group_to_multiset_ensures;

    if rs.len() == 0 {
        assert(runs_multiset(rs).count(x) == 0);
    } else {
        if rs[0].to_multiset().count(x) > 0 {
            rs[0].to_multiset_ensures();
            assert(rs[0].contains(x));
            let j = choose|j: int| 0 <= j < rs[0].len() && rs[0][j] == x;
            assert(rs[0int][j] == x);
        } else {
            assert(runs_multiset(rs.drop_first()).count(x) > 0);
            lemma_runs_multiset_member(rs.drop_first(), x);
            let (r, j) = choose|r: int, j: int|
                0 <= r < rs.drop_first().len() && 0 <= j < rs.drop_first()[r].len()
                    && rs.drop_first()[r][j] == x;
            assert(rs[r + 1][j] == x);
        }
    }
}

/// Merges sorted runs into one sorted sequence holding exactly the
/// records of all the runs.
#[verifier::loop_isolation(false)]
pub fn merge_runs(runs: &Vec<Vec<SortRecord>>) -> (out: Vec<SortRecord>)
    requires
        forall|r: int| 0 <= r < runs@.len() ==> sorted(#[trigger] runs_models(runs@)[r]),
    ensures
        sorted(models(out@)),
        models(out@).to_multiset() == runs_multiset(runs_models(runs@)),
{
    broadcast use vstd::seq_lib::group_to_multiset_ensures;
    broadcast use vstd::multiset::group_multiset_axioms;
    broadcast use vstd::array::group_array_axioms;

    let ghost rm = runs_models(runs@);
    let nruns = runs.len();
    let mut idxs: Vec<usize> = Vec::new();
    let mut r0: usize = 0;
    while r0 < nruns
        invariant
            idxs@.len() == r0,
            r0 <= nruns,
            forall|r: int| 0 <= r < r0 ==> idxs@[r] == 0,
        decreases nruns - r0,
    {
        idxs.push(0);
        r0 += 1;
    }
    let mut out: Vec<SortRecord> = Vec::new();
    proof {
        lemma_consumed_zero(rm, idxs@);
        assert(models(out@) =~= Seq::<RecModel>::empty());
        Seq::<RecModel>::empty().to_multiset_ensures();
        vstd::multiset::lemma_multiset_empty_len(Seq::<RecModel>::empty().to_multiset());
        lemma_remaining_nonneg(rm, idxs@);
    }
    let mut done = false;
    while !done
        invariant
            idxs@.len() == nruns,
            nruns == runs@.len(),
            rm == runs_models(runs@),
            forall|r: int| 0 <= r < nruns ==> idxs@[r] <= rm[r].len(),
            sorted(models(out@)),
            forall|i: int, r: int, j: int|
                #![trigger models(out@)[i], rm[r][j]]
                0 <= i < models(out@).len() && 0 <= r < nruns && idxs@[r] <= j < rm[r].len()
                    ==> rec_le(models(out@)[i], rm[r][j]),
            models(out@).to_multiset() == consumed(rm, idxs@),
            done ==> forall|r: int| 0 <= r < nruns ==> idxs@[r] == rm[r].len(),
        decreases remaining(rm, idxs@), (if done {
            0int
        } else {
            1int
        }),
    {
        // find the run with the least head
        let mut best: usize = nruns;
        let mut r: usize = 0;
        while r < nruns
            invariant
                r <= nruns,
                best == nruns || (best < nruns && idxs@[best as int] < rm[best as int].len()),
                best == nruns ==> forall|q: int| 0 <= q < r ==> idxs@[q] == rm[q].len(),
                best < nruns ==> forall|q: int|
                    0 <= q < r && idxs@[q] < rm[q].len() ==> rec_le(
                        rm[best as int][idxs@[best as int] as int],
                        #[trigger] rm[q][idxs@[q] as int],
                    ),
            decreases nruns - r,
        {
            if idxs[r] < runs[r].len() {
                if best == nruns {
                    best = r;
                } else {
                    let cand = &runs[r][idxs[r]];
                    let cur = &runs[best][idxs[best]];
                    if record_le(cand, cur) {
                        proof {
                            assert(cand@ == rm[r as int][idxs@[r as int] as int]);
                            assert forall|q: int|
                                0 <= q < r + 1 && idxs@[q] < rm[q].len() implies rec_le(
                                rm[r as int][idxs@[r as int] as int],
                                #[trigger] rm[q][idxs@[q] as int],
                            ) by {
                                if q < r {
                                    lemma_rec_le_trans(
                                        rm[r as int][idxs@[r as int] as int],
                                        rm[best as int][idxs@[best as int] as int],
                                        rm[q][idxs@[q] as int],
                                    );
                                }
                            }
                        }
                        best = r;
                    } else {
                        proof {
                            lemma_rec_le_total(
                                rm[r as int][idxs@[r as int] as int],
                                rm[best as int][idxs@[best as int] as int],
                            );
                        }
                    }
                }
            }
            r += 1;
        }
        if best == nruns {
            // all runs exhausted
            proof {
                assert(forall|q: int| 0 <= q < nruns ==> idxs@[q] == rm[q].len());
            }
            done = true;
            continue ;
        }
        let i = idxs[best];
        let rlen = runs[best].len();
        assert(i < rlen);
        let rec = crate::record::clone_record(&runs[best][i]);
        let ghost recv = rec@;
        proof {
            assert(recv == rm[best as int][i as int]);
        }
        let ghost outpre = models(out@);
        let ghost idxpre = idxs@;
        out.push(rec);
        idxs.set(best, i + 1);
        proof {
            assert(idxs@ == idxpre.update(best as int, (i + 1) as usize));
            assert(models(out@) =~= outpre.push(recv));
            // order: the new element is above everything emitted and below
            // everything remaining
            assert forall|p: int, q: int|
                0 <= p <= q < models(out@).len() implies rec_le(
                models(out@)[p],
                models(out@)[q],
            ) by {
                if q == models(out@).len() - 1 && p < q {
                    assert(rec_le(outpre[p], recv));
                }
            }
            assert forall|ii: int, rr: int, jj: int|
                #![trigger models(out@)[ii], rm[rr][jj]]
                0 <= ii < models(out@).len() && 0 <= rr < nruns && idxs@[rr] <= jj
                    < rm[rr].len() implies rec_le(models(out@)[ii], rm[rr][jj]) by {
                let x = models(out@)[ii];
                if ii < models(out@).len() - 1 {
                    // an element emitted earlier
                    if rr == best {
                        assert(rec_le(x, rm[rr][jj]));
                    } else {
                        assert(rec_le(x, rm[rr][jj]));
                    }
                } else {
                    // the element just emitted
                    if rr == best {
                        assert(sorted(rm[best as int]));
                        assert(rec_le(rm[best as int][i as int], rm[best as int][jj]));
                    } else {
                        assert(idxs@[rr] < rm[rr].len());
                        assert(rec_le(recv, rm[rr][idxs@[rr] as int]));
                        assert(sorted(rm[rr]));
                        assert(rec_le(rm[rr][idxs@[rr] as int], rm[rr][jj]));
                        lemma_rec_le_trans(recv, rm[rr][idxs@[rr] as int], rm[rr][jj]);
                    }
                }
            }
            lemma_consumed_bump(rm, idxpre, best as int);
            lemma_remaining_nonneg(rm, idxs@);
        }
    }
    proof {
        lemma_consumed_full(rm, idxs@);
    }
    out
}

} // verus!
