//! The sort session. Rows are admitted with a position, keyed, and
//! buffered; when the byte budget would be exceeded the batch is sorted
//! and spilled as an encoded run; `sort` merges the runs (or sorts the
//! batch in memory when nothing spilled) into the intermediate sorted
//! file, whose records every emission path reads back.

use vstd::prelude::*;

use crate::errors::SortError;
use crate::keys::{key_of, targeting_key};
use crate::merge::{
    lemma_runs_multiset_member, lemma_runs_multiset_snoc, merge_runs, runs_models, runs_multiset,
};
use crate::record::{RecModel, SortRecord};
use crate::runfile::{dec_records, decode_records, encode_records, rec_fits};
use crate::sortvec::{models, sort_records};
use crate::textenc::{row_bytes, utf8_row};
use crate::validator::{validate_step, ValidationRule, Validator};
use vstd::multiset::Multiset;

verus! {

/// The estimated in-memory size of a sort key, charged per buffered row.
pub const SORT_KEY_EST: usize = 28;

/// Clamps a mathematical size to `usize`.
pub open spec fn clip_usize(x: int) -> usize {
    if x > usize::MAX {
        usize::MAX
    } else {
        x as usize
    }
}

/// Saturating addition on sizes.
pub open spec fn sat_addu(a: usize, b: usize) -> usize {
    clip_usize(a + b)
}

/// The estimated footprint of a buffered row: the sort key estimate plus
/// the bytes of its columns.
pub open spec fn row_est(row: Seq<Seq<u8>>) -> int
    decreases row.len(),
{
    if row.len() == 0 {
        SORT_KEY_EST as int
    } else {
        row_est(row.drop_last()) + row.last().len()
    }
}

/// Whether every record of a sequence fits the run-file format.
pub open spec fn all_fit(s: Seq<RecModel>) -> bool {
    forall|j: int| 0 <= j < s.len() ==> rec_fits(#[trigger] s[j])
}

/// Fitting the format is a property of the records alone, so it carries
/// across any permutation.
proof fn lemma_all_fit_multiset(a: Seq<RecModel>, b: Seq<RecModel>)
    requires
        a.to_multiset() == b.to_multiset(),
        all_fit(a),
    ensures
        all_fit(b),
{
    broadcast use vstd::multiset::group_multiset_axioms;

    assert forall|j: int| 0 <= j < b.len() implies rec_fits(#[trigger] b[j]) by {
        b.to_multiset_ensures();
        a.to_multiset_ensures();
        assert(b.contains(b[j]));
        assert(b.to_multiset().count(b[j]) > 0);
        assert(a.to_multiset().count(b[j]) > 0);
        assert(a.contains(b[j]));
        let i = choose|i: int| 0 <= i < a.len() && a[i] == b[j];
        assert(rec_fits(a[i]));
    }
}

/// Spilling the batch as one more run moves exactly the batch's records
/// from the batch to the runs.
proof fn lemma_spill_runs(runspre: Seq<Vec<u8>>, runsnew: Seq<Vec<u8>>, bytes: Vec<u8>, q: Seq<
    RecModel,
>)
    requires
        runsnew == runspre.push(bytes),
        dec_records(bytes@) == Some(q),
    ensures
        run_models_of(runsnew) =~= run_models_of(runspre).push(q),
        runs_multiset(run_models_of(runsnew)) =~= runs_multiset(run_models_of(runspre)).add(
            q.to_multiset(),
        ),
{
    assert(run_models_of(runsnew) =~= run_models_of(runspre).push(q));
    lemma_runs_multiset_snoc(run_models_of(runspre), q);
}

proof fn lemma_row_est_nonneg(row: Seq<Seq<u8>>)
    ensures
        row_est(row) >= SORT_KEY_EST,
    decreases row.len(),
{
    if row.len() > 0 {
        lemma_row_est_nonneg(row.drop_last());
    }
}

fn sat_add(a: usize, b: usize) -> (r: usize)
    ensures
        r == sat_addu(a, b),
{
    if a > usize::MAX - b {
        usize::MAX
    } else {
        a + b
    }
}

/// Estimates a row's footprint, saturating at `usize::MAX`.
fn est_row_size(row: &Vec<Vec<u8>>) -> (r: usize)
    ensures
        r == clip_usize(row_est(row.deep_view())),
{
    let ghost rowv = row.deep_view();
    let mut r: usize = SORT_KEY_EST;
    let mut i: usize = 0;
    while i < row.len()
        invariant
            i <= rowv.len(),
            rowv == row.deep_view(),
            r == clip_usize(row_est(rowv.subrange(0, i as int))),
        decreases rowv.len() - i,
    {
        let ghost rpre = r;
        r = sat_add(r, row[i].len());
        proof {
            let pre = rowv.subrange(0, i as int);
            let pre1 = rowv.subrange(0, i + 1);
            assert(pre1.drop_last() =~= pre);
            assert(pre1.last() == rowv[i as int]);
            assert(row@[i as int].deep_view() == rowv[i as int]);
            assert(row@[i as int]@.len() == rowv[i as int].len());
            let x = row_est(pre);
            let l = rowv[i as int].len() as int;
            lemma_row_est_nonneg(pre);
            assert(row_est(pre1) == x + l);
            assert(rpre == clip_usize(x));
            if x > usize::MAX {
                assert(rpre == usize::MAX);
                assert(r == usize::MAX);
                assert(clip_usize(x + l) == usize::MAX);
            } else {
                assert(rpre as int == x);
                assert(r == clip_usize(x + l));
            }
        }
        i += 1;
    }
    proof {
        assert(rowv.subrange(0, rowv.len() as int) =~= rowv);
    }
    r
}

/// A run image that parses as a sorted sequence of records, each fitting
/// the format.
pub open spec fn run_ok(bytes: Seq<u8>) -> bool {
    &&& dec_records(bytes) is Some
    &&& crate::record::sorted(dec_records(bytes).unwrap())
    &&& forall|j: int|
        0 <= j < dec_records(bytes).unwrap().len() ==> rec_fits(
            #[trigger] dec_records(bytes).unwrap()[j],
        )
}

/// The record sequences held by a set of encoded runs.
pub open spec fn run_models_of(runs: Seq<Vec<u8>>) -> Seq<Seq<RecModel>> {
    runs.map_values(|b: Vec<u8>| dec_records(b@).unwrap())
}

/// What `sort` reports.
#[derive(Clone, Copy, Debug, PartialEq, Eq, Structural)]
pub struct SortSummary {
    pub total_rows: usize,
    pub file_count: usize,
    pub max_row_memory_usage: usize,
    pub total_rows_processed: usize,
    pub failed_url_error_count: usize,
    pub failed_protocol_error_count: usize,
    pub parse_error_count: usize,
    pub error_count: usize,
}

/// A sort session.
pub struct Sorter {
    pub source_id: Vec<u8>,
    pub source_key: Vec<u8>,
    pub key_columns: Vec<usize>,
    pub geo_columns: Option<(usize, usize)>,
    pub current_batch: Vec<SortRecord>,
    pub budget_bytes: usize,
    pub runs: Vec<Vec<u8>>,
    pub current_buffer_size: usize,
    pub output: Vec<u8>,
    pub total_rows: usize,
    pub observed_max_row_size: usize,
    pub max_per_key: usize,
    pub validation_enabled: bool,
    pub validator: Validator,
}

impl Sorter {
    /// The session's structural invariant: every run image and the
    /// intermediate file parse as sorted, fitting record sequences.
    pub open spec fn wf(self) -> bool {
        &&& (forall|r: int| 0 <= r < self.runs@.len() ==> run_ok(#[trigger] self.runs@[r]@))
        &&& run_ok(self.output@)
    }

    /// Everything admitted and not yet merged: the runs' records and the
    /// current batch.
    pub open spec fn pending(self) -> Multiset<RecModel> {
        runs_multiset(run_models_of(self.runs@)).add(models(self.current_batch@).to_multiset())
    }

    /// The records of the intermediate sorted file.
    pub open spec fn output_models(self) -> Seq<RecModel> {
        dec_records(self.output@).unwrap()
    }

    /// Whether admitting a row of this size forces a spill first.
    pub open spec fn spill_due(self, rsz: usize) -> bool {
        sat_addu(self.current_buffer_size, rsz) > self.budget_bytes && self.current_batch@.len()
            > 0
    }

    /// Whether every buffered record fits the run-file format.
    pub open spec fn batch_fits(self) -> bool {
        forall|j: int|
            0 <= j < self.current_batch@.len() ==> rec_fits(
                #[trigger] models(self.current_batch@)[j],
            )
    }

    /// Opens a session. The memory budget is given in mebibytes.
    pub fn new(
        source_id: String,
        source_key: String,
        key_columns: Vec<usize>,
        geo_columns: Option<(usize, usize)>,
        buffer_size_mb: usize,
    ) -> (s: Sorter)
        ensures
            s.wf(),
            s.source_id@ == crate::textenc::utf8_of(source_id@),
            s.source_key@ == crate::textenc::utf8_of(source_key@),
            s.key_columns == key_columns,
            s.geo_columns == geo_columns,
            s.budget_bytes == clip_usize(buffer_size_mb * 1048576),
            s.pending() =~= Multiset::<RecModel>::empty(),
            s.current_batch@.len() == 0,
            s.runs@.len() == 0,
            s.output@.len() == 0,
            s.current_buffer_size == 0,
            s.total_rows == 0,
            s.observed_max_row_size == 0,
            s.max_per_key == 200,
            !s.validation_enabled,
    {
        let budget: usize = if buffer_size_mb > usize::MAX / 1048576 {
            usize::MAX
        } else {
            buffer_size_mb * 1048576
        };
        let s = Sorter {
            source_id: crate::textenc::string_bytes(source_id),
            source_key: crate::textenc::string_bytes(source_key),
            key_columns,
            geo_columns,
            current_batch: Vec::new(),
            budget_bytes: budget,
            runs: Vec::new(),
            current_buffer_size: 0,
            output: Vec::new(),
            total_rows: 0,
            observed_max_row_size: 0,
            max_per_key: 200,
            validation_enabled: false,
            validator: Validator::new(Vec::new()),
        };
        proof {
            assert(dec_records(s.output@) == Some(Seq::<RecModel>::empty()));
            assert(run_models_of(s.runs@) =~= Seq::<Seq<RecModel>>::empty());
            assert(models(s.current_batch@) =~= Seq::<RecModel>::empty());
            Seq::<RecModel>::empty().to_multiset_ensures();
            vstd::multiset::lemma_multiset_empty_len(Seq::<RecModel>::empty().to_multiset());
            broadcast use vstd::multiset::group_multiset_axioms;

        }
        s
    }

    /// Opens a session with the budget given in bytes.
    pub fn new_with_budget(
        source_id: String,
        source_key: String,
        key_columns: Vec<usize>,
        geo_columns: Option<(usize, usize)>,
        budget_bytes: usize,
    ) -> (s: Sorter)
        ensures
            s.wf(),
            s.source_id@ == crate::textenc::utf8_of(source_id@),
            s.source_key@ == crate::textenc::utf8_of(source_key@),
            s.key_columns == key_columns,
            s.geo_columns == geo_columns,
            s.budget_bytes == budget_bytes,
            s.pending() =~= Multiset::<RecModel>::empty(),
            s.current_batch@.len() == 0,
            s.runs@.len() == 0,
            s.output@.len() == 0,
            s.current_buffer_size == 0,
            s.total_rows == 0,
            s.observed_max_row_size == 0,
            s.max_per_key == 200,
            !s.validation_enabled,
    {
        let mut s = Sorter::new(source_id, source_key, key_columns, geo_columns, 0);
        s.budget_bytes = budget_bytes;
        s
    }

    /// Sets the per-key emission cap.
    pub fn set_max_per_key(&mut self, max_per_key: usize)
        requires
            old(self).wf(),
        ensures
            final(self).wf(),
            *final(self) == (Sorter { max_per_key, ..*old(self) }),
    {
        self.max_per_key = max_per_key;
    }

    /// Turns validation on with the given rules. The error-log image
    /// starts over from its prelude.
    pub fn enable_validation(&mut self, rules: Vec<ValidationRule>)
        requires
            old(self).wf(),
        ensures
            final(self).wf(),
            final(self).validation_enabled,
            final(self).validator.rules == rules,
            final(self).validator.error_log@ == crate::validator::log_prelude(),
            final(self).validator.total_rows == 0,
            final(self).validator.failed_url_error_count == 0,
            final(self).validator.failed_protocol_error_count == 0,
            final(self).validator.parse_error_count == 0,
            final(self).validator.first_error is None,
            final(self).pending() == old(self).pending(),
            final(self).runs == old(self).runs,
            final(self).current_batch == old(self).current_batch,
            final(self).output == old(self).output,
            final(self).source_id == old(self).source_id,
            final(self).source_key == old(self).source_key,
            final(self).key_columns == old(self).key_columns,
            final(self).geo_columns == old(self).geo_columns,
            final(self).max_per_key == old(self).max_per_key,
    {
        self.validator = Validator::new(rules);
        self.validation_enabled = true;
    }

    /// Counts a parse event from the input reader.
    pub fn record_parse_error(&mut self, row_number: usize)
        requires
            old(self).wf(),
        ensures
            final(self).wf(),
            final(self).pending() == old(self).pending(),
            final(self).validator.parse_error_count == crate::validator::sat_inc(
                old(self).validator.parse_error_count,
            ),
            final(self).runs == old(self).runs,
            final(self).current_batch == old(self).current_batch,
            final(self).output == old(self).output,
    {
        self.validator.record_parse_error(row_number);
    }

    /// Sorts the buffered batch and spills it as an encoded run. A batch
    /// holding a record too large for the run format stays buffered.
    #[verifier::rlimit(100)]
    fn spill_batch(&mut self)
        requires
            old(self).wf(),
        ensures
            final(self).wf(),
            final(self).pending() == old(self).pending(),
            final(self).source_id == old(self).source_id,
            final(self).source_key == old(self).source_key,
            final(self).key_columns == old(self).key_columns,
            final(self).geo_columns == old(self).geo_columns,
            final(self).budget_bytes == old(self).budget_bytes,
            final(self).max_per_key == old(self).max_per_key,
            final(self).validation_enabled == old(self).validation_enabled,
            final(self).validator == old(self).validator,
            final(self).output == old(self).output,
            final(self).total_rows == old(self).total_rows,
            final(self).observed_max_row_size == old(self).observed_max_row_size,
            final(self).runs@.len() == old(self).runs@.len() + (if old(self).batch_fits()
                && old(self).current_batch@.len() > 0 {
                1int
            } else {
                0int
            }),
            old(self).batch_fits() && old(self).current_batch@.len() > 0 ==> (final(
                self).current_batch@.len() == 0 && final(self).current_buffer_size == 0),
            !(old(self).batch_fits() && old(self).current_batch@.len() > 0) ==> (models(
                final(self).current_batch@,
            ).to_multiset() == models(old(self).current_batch@).to_multiset() && final(
                self).current_buffer_size == old(self).current_buffer_size && final(self).runs
                == old(self).runs),
    {
        broadcast use vstd::multiset::group_multiset_axioms;
        broadcast use vstd::seq_lib::group_to_multiset_ensures;

        if self.current_batch.len() == 0 {
            return ;
        }
        let ghost batch0 = models(old(self).current_batch@);
        sort_records(&mut self.current_batch);
        match encode_records(&self.current_batch) {
            Ok(bytes) => {
                proof {
                    crate::runfile::lemma_run_round_trip(models(self.current_batch@));
                    assert(run_ok(bytes@));
                    assert(all_fit(models(self.current_batch@)));
                    lemma_all_fit_multiset(models(self.current_batch@), batch0);
                    assert(old(self).batch_fits());
                }
                self.push_run(bytes);
            },
            Err(_) => {
                // the batch cannot be framed as a run; keep it buffered
                proof {
                    assert(!all_fit(models(self.current_batch@)));
                    if old(self).batch_fits() {
                        assert(all_fit(batch0));
                        lemma_all_fit_multiset(batch0, models(self.current_batch@));
                        assert(false);
                    }
                    assert(self.pending() =~= old(self).pending());
                }
            },
        }
    }

    /// Stores an encoded run holding exactly the buffered records, and
    /// resets the buffer.
    fn push_run(&mut self, bytes: Vec<u8>)
        requires
            old(self).wf(),
            run_ok(bytes@),
            dec_records(bytes@) matches Some(q) && q.to_multiset() == models(
                old(self).current_batch@,
            ).to_multiset(),
        ensures
            final(self).wf(),
            final(self).pending() == old(self).pending(),
            final(self).runs@.len() == old(self).runs@.len() + 1,
            final(self).current_batch@.len() == 0,
            final(self).current_buffer_size == 0,
            final(self).source_id == old(self).source_id,
            final(self).source_key == old(self).source_key,
            final(self).key_columns == old(self).key_columns,
            final(self).geo_columns == old(self).geo_columns,
            final(self).budget_bytes == old(self).budget_bytes,
            final(self).max_per_key == old(self).max_per_key,
            final(self).validation_enabled == old(self).validation_enabled,
            final(self).validator == old(self).validator,
            final(self).output == old(self).output,
            final(self).total_rows == old(self).total_rows,
            final(self).observed_max_row_size == old(self).observed_max_row_size,
    {
        broadcast use vstd::multiset::group_multiset_axioms;

        let ghost runspre = self.runs@;
        let ghost batchpre = models(self.current_batch@).to_multiset();
        let ghost q = dec_records(bytes@).unwrap();
        let ghost bs = bytes@;
        self.runs.push(bytes);
        self.current_batch = Vec::new();
        self.current_buffer_size = 0;
        proof {
            let b2 = self.runs@.last();
            lemma_spill_runs(runspre, self.runs@, b2, q);
            assert(models(self.current_batch@) =~= Seq::<RecModel>::empty());
            Seq::<RecModel>::empty().to_multiset_ensures();
            vstd::multiset::lemma_multiset_empty_len(Seq::<RecModel>::empty().to_multiset());
            assert(self.pending() =~= old(self).pending()) by {
                assert(runs_multiset(run_models_of(self.runs@)) =~= runs_multiset(
                    run_models_of(runspre),
                ).add(batchpre));
            }
            assert forall|r: int| 0 <= r < self.runs@.len() implies run_ok(
                #[trigger] self.runs@[r]@,
            ) by {
                if r < runspre.len() {
                    assert(self.runs@[r] == runspre[r]);
                } else {
                    assert(self.runs@[r]@ == bs);
                }
            }
        }
    }

    /// Admits one row of byte columns at a position. Returns whether the
    /// row was accepted; a row failing validation is rejected, though a
    /// due spill still happens first.
    #[verifier::rlimit(100)]
    pub fn add_row_bytes(&mut self, row: Vec<Vec<u8>>, position: u64) -> (ok: bool)
        requires
            old(self).wf(),
        ensures
            final(self).wf(),
            final(self).source_id == old(self).source_id,
            final(self).source_key == old(self).source_key,
            final(self).key_columns == old(self).key_columns,
            final(self).geo_columns == old(self).geo_columns,
            final(self).budget_bytes == old(self).budget_bytes,
            final(self).max_per_key == old(self).max_per_key,
            final(self).validation_enabled == old(self).validation_enabled,
            final(self).output == old(self).output,
            final(self).total_rows == old(self).total_rows,
            ok == !(old(self).validation_enabled && !(!crate::validator::fails_url(
                old(self).validator.rules@,
                row.deep_view(),
            ) && !crate::validator::fails_protocol(old(self).validator.rules@, row.deep_view()))),
            old(self).validation_enabled ==> validate_step(
                old(self).validator,
                final(self).validator,
                row.deep_view(),
            ),
            !old(self).validation_enabled ==> final(self).validator == old(self).validator,
            ({
                let rec = RecModel {
                    key: key_of(old(self).source_id@, old(self).key_columns@, row.deep_view()),
                    position,
                    row: row.deep_view(),
                };
                let rsz = clip_usize(row_est(row.deep_view()));
                let spilled = old(self).spill_due(rsz) && old(self).batch_fits();
                &&& (ok ==> final(self).pending() =~= old(self).pending().insert(rec))
                &&& (!ok ==> final(self).pending() =~= old(self).pending())
                &&& final(self).runs@.len() == old(self).runs@.len() + (if spilled {
                    1int
                } else {
                    0int
                })
                &&& final(self).observed_max_row_size == (if old(self).spill_due(rsz) {
                    if old(self).current_buffer_size > old(self).observed_max_row_size {
                        old(self).current_buffer_size
                    } else {
                        old(self).observed_max_row_size
                    }
                } else {
                    old(self).observed_max_row_size
                })
                &&& final(self).current_buffer_size == (if spilled {
                    if ok {
                        rsz
                    } else {
                        0
                    }
                } else if ok {
                    sat_addu(old(self).current_buffer_size, rsz)
                } else {
                    old(self).current_buffer_size
                })
            }),
    {
        broadcast use vstd::multiset::group_multiset_axioms;
        broadcast use vstd::seq_lib::group_to_multiset_ensures;

        let rsz = est_row_size(&row);
        let due = sat_add(self.current_buffer_size, rsz) > self.budget_bytes
            && self.current_batch.len() > 0;
        if due {
            if self.current_buffer_size > self.observed_max_row_size {
                self.observed_max_row_size = self.current_buffer_size;
            }
            self.spill_batch();
        }
        let ghost midpending = self.pending();
        proof {
            assert(midpending =~= old(self).pending());
        }
        if self.validation_enabled {
            let passed = self.validator.validate_row(&row);
            if !passed {
                return false;
            }
        }
        let key = targeting_key(&self.source_id, &self.key_columns, &row);
        let rec = SortRecord { key, position, row };
        let ghost batchpre2 = models(self.current_batch@);
        self.current_batch.push(rec);
        self.current_buffer_size = sat_add(self.current_buffer_size, rsz);
        proof {
            assert(models(self.current_batch@) =~= batchpre2.push(rec@));
            assert(models(self.current_batch@).to_multiset() =~= batchpre2.to_multiset().insert(
                rec@,
            ));
            assert(self.pending() =~= midpending.insert(rec@));
        }
        true
    }

    /// Admits one row of strings at a position.
    pub fn add_row(&mut self, row: Vec<String>, position: u64) -> (ok: bool)
        requires
            old(self).wf(),
        ensures
            final(self).wf(),
            ok == !(old(self).validation_enabled && !(!crate::validator::fails_url(
                old(self).validator.rules@,
                utf8_row(row.deep_view()),
            ) && !crate::validator::fails_protocol(
                old(self).validator.rules@,
                utf8_row(row.deep_view()),
            ))),
            ({
                let rec = RecModel {
                    key: key_of(
                        old(self).source_id@,
                        old(self).key_columns@,
                        utf8_row(row.deep_view()),
                    ),
                    position,
                    row: utf8_row(row.deep_view()),
                };
                &&& (ok ==> final(self).pending() =~= old(self).pending().insert(rec))
                &&& (!ok ==> final(self).pending() =~= old(self).pending())
            }),
            final(self).source_id == old(self).source_id,
            final(self).source_key == old(self).source_key,
            final(self).key_columns == old(self).key_columns,
            final(self).geo_columns == old(self).geo_columns,
            final(self).max_per_key == old(self).max_per_key,
            final(self).validation_enabled == old(self).validation_enabled,
            final(self).output == old(self).output,
            old(self).validation_enabled ==> validate_step(
                old(self).validator,
                final(self).validator,
                utf8_row(row.deep_view()),
            ),
            !old(self).validation_enabled ==> final(self).validator == old(self).validator,
    {
        let rowb = row_bytes(&row);
        self.add_row_bytes(rowb, position)
    }

    /// Sorts the buffered batch in memory and writes it as the
    /// intermediate sorted file, bypassing the merger.
    #[verifier::rlimit(100)]
    fn sort_in_memory_to_output(&mut self) -> (out: Result<usize, SortError>)
        requires
            old(self).wf(),
            old(self).runs@.len() == 0,
        ensures
            final(self).wf(),
            final(self).source_id == old(self).source_id,
            final(self).source_key == old(self).source_key,
            final(self).key_columns == old(self).key_columns,
            final(self).geo_columns == old(self).geo_columns,
            final(self).max_per_key == old(self).max_per_key,
            final(self).validation_enabled == old(self).validation_enabled,
            final(self).validator == old(self).validator,
            final(self).observed_max_row_size == old(self).observed_max_row_size,
            final(self).total_rows == old(self).total_rows,
            match out {
                Ok(n) => {
                    &&& crate::record::sorted(final(self).output_models())
                    &&& final(self).output_models().to_multiset() == old(self).pending()
                    &&& n == final(self).output_models().len()
                    &&& final(self).runs@.len() == 0
                    &&& final(self).current_batch@.len() == 0
                },
                Err(e) => e == SortError::RecordTooLarge && !old(self).batch_fits() && final(
                    self).pending() == old(self).pending() && final(self).output == old(
                    self).output,
            },
    {
        broadcast use vstd::multiset::group_multiset_axioms;

        let ghost batch0 = models(self.current_batch@);
        sort_records(&mut self.current_batch);
        match encode_records(&self.current_batch) {
            Ok(bytes) => {
                let ghost q = models(self.current_batch@);
                proof {
                    crate::runfile::lemma_run_round_trip(q);
                    assert(run_ok(bytes@));
                    lemma_all_fit_multiset(q, batch0);
                }
                let n = self.current_batch.len();
                self.output = bytes;
                self.current_batch = Vec::new();
                self.current_buffer_size = 0;
                proof {
                    assert(self.output_models() == q);
                    assert(run_models_of(self.runs@) =~= Seq::<Seq<RecModel>>::empty());
                    Seq::<RecModel>::empty().to_multiset_ensures();
                    vstd::multiset::lemma_multiset_empty_len(
                        Seq::<RecModel>::empty().to_multiset(),
                    );
                    assert(old(self).pending() =~= batch0.to_multiset());
                    assert(q.to_multiset() == batch0.to_multiset());
                    assert(models(self.current_batch@) =~= Seq::<RecModel>::empty());
                }
                Ok(n)
            },
            Err(e) => {
                proof {
                    assert(!all_fit(models(self.current_batch@)));
                    if old(self).batch_fits() {
                        assert(all_fit(batch0));
                        lemma_all_fit_multiset(batch0, models(self.current_batch@));
                        assert(false);
                    }
                    assert(self.pending() =~= old(self).pending());
                }
                Err(e)
            },
        }
    }

    /// Merges every run into the intermediate sorted file.
    #[verifier::loop_isolation(false)]
    #[verifier::rlimit(100)]
    fn merge_to_output(&mut self) -> (n: usize)
        requires
            old(self).wf(),
            old(self).current_batch@.len() == 0,
        ensures
            final(self).wf(),
            final(self).source_id == old(self).source_id,
            final(self).source_key == old(self).source_key,
            final(self).key_columns == old(self).key_columns,
            final(self).geo_columns == old(self).geo_columns,
            final(self).max_per_key == old(self).max_per_key,
            final(self).validation_enabled == old(self).validation_enabled,
            final(self).validator == old(self).validator,
            final(self).observed_max_row_size == old(self).observed_max_row_size,
            final(self).total_rows == old(self).total_rows,
            crate::record::sorted(final(self).output_models()),
            final(self).output_models().to_multiset() == old(self).pending(),
            n == final(self).output_models().len(),
            final(self).runs@.len() == 0,
            final(self).current_batch@.len() == 0,
    {
        broadcast use vstd::multiset::group_multiset_axioms;

        proof {
            assert(models(self.current_batch@) =~= Seq::<RecModel>::empty());
            Seq::<RecModel>::empty().to_multiset_ensures();
            vstd::multiset::lemma_multiset_empty_len(Seq::<RecModel>::empty().to_multiset());
            assert(self.pending() =~= runs_multiset(run_models_of(self.runs@)));
        }
        let mut decoded: Vec<Vec<SortRecord>> = Vec::new();
        let mut r: usize = 0;
        while r < self.runs.len()
            invariant
                r <= self.runs@.len(),
                decoded@.len() == r,
                forall|q: int|
                    0 <= q < r ==> models(#[trigger] decoded@[q]@) == run_models_of(
                        self.runs@,
                    )[q],
            decreases self.runs@.len() - r,
        {
            proof {
                assert(run_ok(self.runs@[r as int]@));
            }
            match decode_records(&self.runs[r]) {
                Ok(v) => {
                    proof {
                        assert(dec_records(self.runs@[r as int]@) == Some(models(v@)));
                    }
                    decoded.push(v);
                },
                Err(_) => {
                    proof {
                        assert(false);
                    }
                },
            }
            r += 1;
        }
        proof {
            assert(runs_models(decoded@) =~= run_models_of(self.runs@));
            assert forall|q: int|
                0 <= q < decoded@.len() implies crate::record::sorted(
                #[trigger] runs_models(decoded@)[q],
            ) by {
                assert(run_ok(self.runs@[q]@));
            }
        }
        let merged = merge_runs(&decoded);
        proof {
            let mm = models(merged@);
            assert(mm.to_multiset() == runs_multiset(run_models_of(self.runs@)));
            assert forall|i: int| 0 <= i < mm.len() implies rec_fits(#[trigger] mm[i]) by {
                mm.to_multiset_ensures();
                assert(mm.contains(mm[i]));
                assert(mm.to_multiset().count(mm[i]) > 0);
                lemma_runs_multiset_member(run_models_of(self.runs@), mm[i]);
                let (a, b) = choose|a: int, b: int|
                    0 <= a < run_models_of(self.runs@).len() && 0 <= b < run_models_of(
                        self.runs@,
                    )[a].len() && #[trigger] run_models_of(self.runs@)[a][b] == mm[i];
                assert(run_ok(self.runs@[a]@));
            }
            assert(all_fit(models(merged@)));
        }
        match encode_records(&merged) {
            Ok(bytes) => {
                let ghost q = models(merged@);
                proof {
                    crate::runfile::lemma_run_round_trip(q);
                    assert(run_ok(bytes@));
                }
                let n = merged.len();
                self.output = bytes;
                self.runs = Vec::new();
                proof {
                    assert(self.output_models() == q);
                    assert(run_models_of(self.runs@) =~= Seq::<Seq<RecModel>>::empty());
                    assert(models(self.current_batch@) =~= Seq::<RecModel>::empty());
                    assert(q.to_multiset() == old(self).pending());
                }
                n
            },
            Err(_) => {
                proof {
                    assert(false);
                }
                0
            },
        }
    }

    /// Sorts everything admitted into the intermediate sorted file and
    /// reports the totals. Succeeds exactly when every buffered record
    /// fits the run format; the merged stream is sorted and holds
    /// exactly the admitted records.
    #[verifier::rlimit(100)]
    pub fn sort(&mut self) -> (out: Result<SortSummary, SortError>)
        requires
            old(self).wf(),
        ensures
            final(self).wf(),
            final(self).source_id == old(self).source_id,
            final(self).source_key == old(self).source_key,
            final(self).key_columns == old(self).key_columns,
            final(self).geo_columns == old(self).geo_columns,
            final(self).max_per_key == old(self).max_per_key,
            final(self).validation_enabled == old(self).validation_enabled,
            final(self).validator == old(self).validator,
            match out {
                Ok(sum) => {
                    &&& crate::record::sorted(final(self).output_models())
                    &&& final(self).output_models().to_multiset() == old(self).pending()
                    &&& sum.total_rows == final(self).output_models().len()
                    &&& final(self).total_rows == sum.total_rows
                    &&& final(self).runs@.len() == 0
                    &&& final(self).current_batch@.len() == 0
                    &&& sum.file_count == (if old(self).runs@.len() == 0
                        && old(self).current_batch@.len() > 0 {
                        0int
                    } else {
                        old(self).runs@.len() + (if old(self).current_batch@.len() > 0 {
                            1int
                        } else {
                            0int
                        })
                    })
                    &&& sum.max_row_memory_usage == final(self).observed_max_row_size
                    &&& sum.total_rows_processed == (if old(self).validation_enabled {
                        old(self).validator.total_rows
                    } else {
                        0
                    })
                    &&& sum.failed_url_error_count == (if old(self).validation_enabled {
                        old(self).validator.failed_url_error_count
                    } else {
                        0
                    })
                    &&& sum.failed_protocol_error_count == (if old(self).validation_enabled {
                        old(self).validator.failed_protocol_error_count
                    } else {
                        0
                    })
                    &&& sum.parse_error_count == (if old(self).validation_enabled {
                        old(self).validator.parse_error_count
                    } else {
                        0
                    })
                    &&& sum.error_count == (if old(self).validation_enabled {
                        sat_addu(
                            sat_addu(
                                old(self).validator.failed_url_error_count,
                                old(self).validator.failed_protocol_error_count,
                            ),
                            old(self).validator.parse_error_count,
                        )
                    } else {
                        0
                    })
                },
                Err(e) => e == SortError::RecordTooLarge && !old(self).batch_fits() && final(
                    self).pending() == old(self).pending() && final(self).output == old(
                    self).output,
            },
    {
        if self.current_buffer_size > self.observed_max_row_size {
            self.observed_max_row_size = self.current_buffer_size;
        }
        let total: usize;
        let fcount: usize;
        if self.runs.len() == 0 && self.current_batch.len() > 0 {
            // everything fits in memory: sort the batch and write it out
            match self.sort_in_memory_to_output() {
                Ok(n) => {
                    total = n;
                    fcount = 0;
                },
                Err(e) => {
                    return Err(e);
                },
            }
        } else {
            // spill the residue and merge every run
            if self.current_batch.len() > 0 {
                let ghost batchpre = models(old(self).current_batch@);
                self.spill_batch();
                proof {
                    broadcast use vstd::seq_lib::group_to_multiset_ensures;

                    if !old(self).batch_fits() {
                        assert(models(self.current_batch@).to_multiset()
                            == batchpre.to_multiset());
                        models(self.current_batch@).to_multiset_ensures();
                        batchpre.to_multiset_ensures();
                        assert(models(self.current_batch@).len() == batchpre.len());
                    }
                }
                if self.current_batch.len() > 0 {
                    return Err(SortError::RecordTooLarge);
                }
            }
            fcount = self.runs.len();
            total = self.merge_to_output();
        }
        self.total_rows = total;
        let sum = SortSummary {
            total_rows: total,
            file_count: fcount,
            max_row_memory_usage: self.observed_max_row_size,
            total_rows_processed: if self.validation_enabled {
                self.validator.total_rows
            } else {
                0
            },
            failed_url_error_count: if self.validation_enabled {
                self.validator.failed_url_error_count
            } else {
                0
            },
            failed_protocol_error_count: if self.validation_enabled {
                self.validator.failed_protocol_error_count
            } else {
                0
            },
            parse_error_count: if self.validation_enabled {
                self.validator.parse_error_count
            } else {
                0
            },
            error_count: if self.validation_enabled {
                sat_add(
                    sat_add(
                        self.validator.failed_url_error_count,
                        self.validator.failed_protocol_error_count,
                    ),
                    self.validator.parse_error_count,
                )
            } else {
                0
            },
        };
        Ok(sum)
    }

    /// The intermediate file's records read back, in sorted order.
    pub fn sorted_records(&self) -> (out: Vec<SortRecord>)
        requires
            self.wf(),
        ensures
            models(out@) == self.output_models(),
            crate::record::sorted(models(out@)),
    {
        match decode_records(&self.output) {
            Ok(v) => v,
            Err(_) => {
                proof {
                    assert(false);
                }
                Vec::new()
            },
        }
    }

    /// The emission stream: the sorted records after the per-key cap.
    pub fn capped_records(&self) -> (out: Vec<SortRecord>)
        requires
            self.wf(),
        ensures
            models(out@) == crate::cap::cap_filter(
                self.output_models(),
                self.max_per_key as int,
            ),
    {
        let recs = self.sorted_records();
        crate::cap::apply_cap(&recs, self.max_per_key)
    }

    /// Splits the emission stream into batches of at least `batch_size`
    /// items, never ending a batch inside a key group.
    pub fn each_batch(&self, batch_size: usize) -> (out: Vec<Vec<crate::cap::BatchItem>>)
        requires
            self.wf(),
        ensures
            crate::cap::flat_items(out@) == crate::cap::cap_filter(
                self.output_models(),
                self.max_per_key as int,
            ).map_values(|r: RecModel| crate::cap::item_of(r)),
            forall|b: int| 0 <= b < out@.len() ==> #[trigger] out@[b]@.len() > 0,
            forall|b: int| 0 <= b < out@.len() - 1 ==> #[trigger] out@[b]@.len() >= batch_size,
            forall|b: int|
                #![trigger out@[b]]
                0 <= b < out@.len() - 1 ==> {
                    let cs = crate::cap::cap_filter(
                        self.output_models(),
                        self.max_per_key as int,
                    );
                    let cut = crate::cap::cut_of(out@, b + 1);
                    0 < cut < cs.len() && cs[cut - 1].key != cs[cut].key
                },
    {
        let recs = self.sorted_records();
        crate::cap::capped_batches(&recs, batch_size, self.max_per_key)
    }

    /// The geometry source columns of each emitted record: the bytes of
    /// the latitude and longitude columns where configured and present.
    pub fn geo_inputs(&self) -> (out: Vec<(Option<Vec<u8>>, Option<Vec<u8>>)>)
        requires
            self.wf(),
        ensures
            out@.len() == crate::cap::cap_filter(
                self.output_models(),
                self.max_per_key as int,
            ).len(),
            forall|i: int|
                #![trigger out@[i]]
                0 <= i < out@.len() ==> {
                    let r = crate::cap::cap_filter(
                        self.output_models(),
                        self.max_per_key as int,
                    )[i];
                    match self.geo_columns {
                        Some(g) => ((if g.0 < r.row.len() {
                            out@[i].0 matches Some(v) && v@ == r.row[g.0 as int]
                        } else {
                            out@[i].0 is None
                        }) && (if g.1 < r.row.len() {
                            out@[i].1 matches Some(v) && v@ == r.row[g.1 as int]
                        } else {
                            out@[i].1 is None
                        })),
                        None => out@[i].0 is None && out@[i].1 is None,
                    }
                },
    {
        let ghost cs = crate::cap::cap_filter(self.output_models(), self.max_per_key as int);
        let capped = self.capped_records();
        let mut out: Vec<(Option<Vec<u8>>, Option<Vec<u8>>)> = Vec::new();
        let mut i: usize = 0;
        while i < capped.len()
            invariant
                i <= capped@.len(),
                models(capped@) == cs,
                out@.len() == i,
                forall|j: int|
                    #![trigger out@[j]]
                    0 <= j < i ==> {
                        let r = cs[j];
                        match self.geo_columns {
                            Some(g) => ((if g.0 < r.row.len() {
                                out@[j].0 matches Some(v) && v@ == r.row[g.0 as int]
                            } else {
                                out@[j].0 is None
                            }) && (if g.1 < r.row.len() {
                                out@[j].1 matches Some(v) && v@ == r.row[g.1 as int]
                            } else {
                                out@[j].1 is None
                            })),
                            None => out@[j].0 is None && out@[j].1 is None,
                        }
                    },
            decreases capped@.len() - i,
        {
            let rec = &capped[i];
            proof {
                assert(rec@ == cs[i as int]);
            }
            let item: (Option<Vec<u8>>, Option<Vec<u8>>) = match self.geo_columns {
                Some((la, lo)) => {
                    let lat = if la < rec.row.len() {
                        Some(crate::record::clone_bytes(&rec.row[la]))
                    } else {
                        None
                    };
                    let lon = if lo < rec.row.len() {
                        Some(crate::record::clone_bytes(&rec.row[lo]))
                    } else {
                        None
                    };
                    (lat, lon)
                },
                None => (None, None),
            };
            out.push(item);
            i += 1;
        }
        out
    }

    /// Encodes the emission stream as a binary-COPY file. The geometry
    /// inputs parallel the emitted records; `now_micros` is the
    /// PostgreSQL timestamp written to both timestamp columns.
    pub fn binary_copy_bytes(
        &self,
        geo: &Vec<Option<crate::ewkb::GeoPoint>>,
        now_micros: i64,
    ) -> (out: Result<Vec<u8>, SortError>)
        requires
            self.wf(),
            geo@.len() == crate::cap::cap_filter(
                self.output_models(),
                self.max_per_key as int,
            ).len(),
            forall|i: int|
                0 <= i < geo@.len() ==> (#[trigger] geo@[i] matches Some(g)
                    ==> crate::ewkb::geo_wf(g)),
        ensures
            ({
                let cs = crate::cap::cap_filter(self.output_models(), self.max_per_key as int);
                match out {
                    Ok(b) => b@ == crate::copy_out::copy_file(
                        self.source_key@,
                        cs,
                        crate::copy_out::geo_models(geo@),
                        now_micros,
                    ) && self.source_key@.len() < 0x80000000 && (forall|i: int|
                        0 <= i < cs.len() ==> crate::copy_out::copy_fits(#[trigger] cs[i])),
                    Err(e) => e == SortError::FieldTooLarge && !(self.source_key@.len()
                        < 0x80000000 && (forall|i: int|
                        0 <= i < cs.len() ==> crate::copy_out::copy_fits(#[trigger] cs[i]))),
                }
            }),
    {
        let capped = self.capped_records();
        crate::copy_out::encode_copy(&self.source_key, &capped, geo, now_micros)
    }

    /// A copy of the error-log image.
    pub fn error_log(&self) -> (r: Vec<u8>)
        ensures
            r@ == self.validator.error_log@,
    {
        crate::record::clone_bytes(&self.validator.error_log)
    }

    /// The message for the first recorded validation or parse error.
    pub fn first_error_message(&self) -> (r: Option<Vec<u8>>)
        ensures
            r is Some <==> self.validator.first_error is Some,
    {
        self.validator.first_error_message()
    }

    /// Recency under cap, at the session level: when the caller kept
    /// positions unique, a sorted record is emitted exactly when fewer
    /// than `max_per_key` records of its key carry a larger position.
    pub proof fn lemma_emission_recency(self, i: int)
        requires
            self.wf(),
            crate::record::sorted(self.output_models()),
            crate::cap::distinct_positions(self.output_models()),
            0 <= i < self.output_models().len(),
        ensures
            crate::cap::retained(self.output_models(), self.max_per_key as int, i)
                <==> crate::cap::count_key_upto(
                self.output_models(),
                self.output_models()[i].key,
                i,
            ) < self.max_per_key as int,
            forall|j: int|
                0 <= j < self.output_models().len() && j != i
                    && self.output_models()[j].key == self.output_models()[i].key ==> (
                self.output_models()[j].position > self.output_models()[i].position <==> j < i),
    {
        let os = self.output_models();
        assert(crate::cap::keys_sized(os)) by {
            assert(forall|i2: int| 0 <= i2 < os.len() ==> rec_fits(#[trigger] os[i2]));
        }
        crate::cap::lemma_cap_recency(os, self.max_per_key as int, i);
    }

    /// Cap invariant at the session level: after `sort`, no targeting
    /// key appears more than `max_per_key` times in the emission stream.
    pub proof fn lemma_emission_cap(self, k: Seq<u8>)
        requires
            self.wf(),
            crate::record::sorted(self.output_models()),
        ensures
            crate::cap::count_key(
                crate::cap::cap_filter(self.output_models(), self.max_per_key as int),
                k,
            ) <= self.max_per_key as int,
    {
        let os = self.output_models();
        assert(crate::cap::keys_sized(os)) by {
            assert(forall|i: int| 0 <= i < os.len() ==> rec_fits(#[trigger] os[i]));
        }
        crate::cap::lemma_cap_count(os, self.max_per_key as int, k);
    }
}

} // verus!
