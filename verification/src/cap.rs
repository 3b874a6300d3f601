//! The per-key emission cap and batch assembly. The sorted stream keeps
//! equal keys contiguous, so the filter tracks the length of the current
//! run of one key and drops records past `max_per_key`. Because a key
//! group is ordered by position descending, the retained records are the
//! most recently admitted ones. Batches never end inside a key group.

use vstd::prelude::*;

use crate::hexenc::{hex_of, hex_string};
use crate::record::{
    clone_row, key_to_vec, keys_equal, lemma_lex_asym, rec_le, sorted, RecModel, SortRecord,
};
use crate::sortvec::models;

verus! {

/// Length of the run of consecutive equal keys ending at `i`.
pub open spec fn run_len_at(s: Seq<RecModel>, i: int) -> int
    recommends
        0 <= i < s.len(),
    decreases i,
{
    if i <= 0 {
        1
    } else if s[i - 1].key == s[i].key {
        1 + run_len_at(s, i - 1)
    } else {
        1
    }
}

/// Whether the record at `i` survives the cap.
pub open spec fn retained(s: Seq<RecModel>, max: int, i: int) -> bool {
    run_len_at(s, i) <= max
}

/// The capped stream drawn from the first `n` records.
pub open spec fn cap_prefix(s: Seq<RecModel>, max: int, n: int) -> Seq<RecModel>
    decreases n,
{
    if n <= 0 {
        Seq::empty()
    } else if retained(s, max, n - 1) {
        cap_prefix(s, max, n - 1).push(s[n - 1])
    } else {
        cap_prefix(s, max, n - 1)
    }
}

/// The capped emission stream.
pub open spec fn cap_filter(s: Seq<RecModel>, max: int) -> Seq<RecModel> {
    cap_prefix(s, max, s.len() as int)
}

/// How many of the first `n` records carry key `k`.
pub open spec fn count_key_upto(s: Seq<RecModel>, k: Seq<u8>, n: int) -> int
    decreases n,
{
    if n <= 0 {
        0
    } else {
        count_key_upto(s, k, n - 1) + if s[n - 1].key == k {
            1int
        } else {
            0int
        }
    }
}

/// How many records of a sequence carry key `k`.
pub open spec fn count_key(t: Seq<RecModel>, k: Seq<u8>) -> int
    decreases t.len(),
{
    if t.len() == 0 {
        0
    } else {
        count_key(t.drop_last(), k) + if t.last().key == k {
            1int
        } else {
            0int
        }
    }
}

/// Positions are unique within a key group.
pub open spec fn distinct_positions(s: Seq<RecModel>) -> bool {
    forall|i: int, j: int|
        0 <= i < j < s.len() && s[i].key == s[j].key ==> s[i].position != s[j].position
}

/// In a sorted stream, records before a key change never carry the key
/// that follows the change.
proof fn lemma_no_earlier_key(s: Seq<RecModel>, i: int, j: int)
    requires
        sorted(s),
        0 <= j < i < s.len(),
        s[i - 1].key != s[i].key,
        s[i].key.len() == s[i - 1].key.len(),
        s[j].key.len() == s[i].key.len(),
    ensures
        s[j].key != s[i].key,
{
    if s[j].key == s[i].key {
        assert(rec_le(s[j], s[i - 1]));
        assert(rec_le(s[i - 1], s[i]));
        assert(crate::record::lex_lt(s[i].key, s[i - 1].key));
        assert(crate::record::lex_lt(s[i - 1].key, s[i].key));
        lemma_lex_asym(s[i].key, s[i - 1].key);
    }
}

/// Keys of records all have the digest length.
pub open spec fn keys_sized(s: Seq<RecModel>) -> bool {
    forall|i: int| 0 <= i < s.len() ==> #[trigger] s[i].key.len() == 20
}

proof fn lemma_count_zero(s: Seq<RecModel>, k: Seq<u8>, n: int)
    requires
        forall|j: int| 0 <= j < n ==> s[j].key != k,
    ensures
        count_key_upto(s, k, n) == 0,
    decreases n,
{
    if n > 0 {
        lemma_count_zero(s, k, n - 1);
    }
}

/// In a sorted stream, the run length at `i` counts exactly the earlier
/// records of the same key, plus the record itself.
proof fn lemma_run_len_count(s: Seq<RecModel>, i: int)
    requires
        sorted(s),
        keys_sized(s),
        0 <= i < s.len(),
    ensures
        run_len_at(s, i) == count_key_upto(s, s[i].key, i) + 1,
    decreases i,
{
    if i == 0 {
    } else if s[i - 1].key == s[i].key {
        lemma_run_len_count(s, i - 1);
    } else {
        assert forall|j: int| 0 <= j < i implies s[j].key != s[i].key by {
            lemma_no_earlier_key(s, i, j);
        }
        lemma_count_zero(s, s[i].key, i);
    }
}

/// Minimum of two integers.
pub open spec fn min_int(a: int, b: int) -> int {
    if a < b {
        a
    } else {
        b
    }
}

/// In a sorted stream the capped prefix holds the first `max` records of
/// each key group and no more.
proof fn lemma_cap_count_prefix(s: Seq<RecModel>, max: int, k: Seq<u8>, n: int)
    requires
        sorted(s),
        keys_sized(s),
        max >= 0,
        0 <= n <= s.len(),
    ensures
        count_key(cap_prefix(s, max, n), k) == min_int(count_key_upto(s, k, n), max),
    decreases n,
{
    if n > 0 {
        lemma_cap_count_prefix(s, max, k, n - 1);
        let prev = cap_prefix(s, max, n - 1);
        if retained(s, max, n - 1) {
            assert(prev.push(s[n - 1]).drop_last() =~= prev);
            assert(prev.push(s[n - 1]).last() == s[n - 1]);
            assert(count_key(prev.push(s[n - 1]), k) == count_key(prev, k) + if s[n - 1].key == k {
                1int
            } else {
                0int
            });
        }
        if s[n - 1].key == k {
            lemma_run_len_count(s, n - 1);
        }
    }
}

/// Cap invariant: in a sorted stream, no key appears more than
/// `max_per_key` times after the cap.
pub proof fn lemma_cap_count(s: Seq<RecModel>, max: int, k: Seq<u8>)
    requires
        sorted(s),
        keys_sized(s),
        max >= 0,
    ensures
        count_key(cap_filter(s, max), k) <= max,
{
    lemma_cap_count_prefix(s, max, k, s.len() as int);
}

/// Recency under cap: in a sorted stream with unique positions per key,
/// a record survives the cap exactly when fewer than `max_per_key`
/// records of its key precede it, and the records of its key that
/// precede it are exactly those with a larger position.
pub proof fn lemma_cap_recency(s: Seq<RecModel>, max: int, i: int)
    requires
        sorted(s),
        keys_sized(s),
        distinct_positions(s),
        0 <= i < s.len(),
    ensures
        retained(s, max, i) <==> count_key_upto(s, s[i].key, i) < max,
        forall|j: int|
            0 <= j < s.len() && j != i && s[j].key == s[i].key ==> (s[j].position
                > s[i].position <==> j < i),
{
    lemma_run_len_count(s, i);
    assert forall|j: int|
        0 <= j < s.len() && j != i && s[j].key == s[i].key implies (s[j].position > s[i].position
        <==> j < i) by {
        if j < i {
            assert(rec_le(s[j], s[i]));
            assert(s[j].position != s[i].position);
        } else {
            assert(rec_le(s[i], s[j]));
            assert(s[j].position != s[i].position);
        }
    }
}

/// One emitted item: the hexadecimal targeting key and the row.
pub struct BatchItem {
    pub key_hex: String,
    pub row: Vec<Vec<u8>>,
}

/// The mathematical image of a [`BatchItem`].
pub struct ItemModel {
    pub key_hex: Seq<char>,
    pub row: Seq<Seq<u8>>,
}

impl View for BatchItem {
    type V = ItemModel;

    open spec fn view(&self) -> ItemModel {
        ItemModel { key_hex: self.key_hex@, row: self.row.deep_view() }
    }
}

/// The item a record is emitted as.
pub open spec fn item_of(r: RecModel) -> ItemModel {
    ItemModel { key_hex: hex_of(r.key), row: r.row }
}

/// The items of one batch.
pub open spec fn batch_items(b: Seq<BatchItem>) -> Seq<ItemModel> {
    b.map_values(|it: BatchItem| it@)
}

/// All items of a sequence of batches, in order.
pub open spec fn flat_items(bs: Seq<Vec<BatchItem>>) -> Seq<ItemModel>
    decreases bs.len(),
{
    if bs.len() == 0 {
        Seq::empty()
    } else {
        flat_items(bs.drop_last()) + batch_items(bs.last()@)
    }
}

/// How many items the first `b` batches hold.
pub open spec fn cut_of(bs: Seq<Vec<BatchItem>>, b: int) -> int {
    flat_items(bs.subrange(0, b)).len() as int
}

proof fn lemma_flat_snoc(bs: Seq<Vec<BatchItem>>, b: Vec<BatchItem>)
    ensures
        flat_items(bs.push(b)) == flat_items(bs) + batch_items(b@),
{
    assert(bs.push(b).drop_last() =~= bs);
    assert(bs.push(b).last() == b);
}

/// The run length never exceeds the index by more than one.
proof fn lemma_run_len_bound(s: Seq<RecModel>, i: int)
    requires
        0 <= i < s.len(),
    ensures
        1 <= run_len_at(s, i) <= i + 1,
    decreases i,
{
    if i > 0 && s[i - 1].key == s[i].key {
        lemma_run_len_bound(s, i - 1);
    }
}

/// The capped prefix is empty when the cap is zero.
proof fn lemma_cap_zero(s: Seq<RecModel>, max: int, n: int)
    requires
        max <= 0,
        n <= s.len(),
    ensures
        cap_prefix(s, max, n).len() == 0,
    decreases n,
{
    if n > 0 {
        lemma_cap_zero(s, max, n - 1);
        if 0 <= n - 1 < s.len() {
            lemma_run_len_bound(s, n - 1);
        }
    }
}

/// Applies the per-key cap to the sorted stream, keeping records in
/// order.
#[verifier::loop_isolation(false)]
pub fn apply_cap(records: &Vec<SortRecord>, max_per_key: usize) -> (out: Vec<SortRecord>)
    ensures
        models(out@) == cap_filter(models(records@), max_per_key as int),
{
    let ghost s = models(records@);
    let ghost maxi = max_per_key as int;
    let mut out: Vec<SortRecord> = Vec::new();
    let mut last_key: [u8; 20] = [0u8; 20];
    let mut run_length: usize = 0;
    let mut i: usize = 0;
    proof {
        assert(models(out@) =~= cap_prefix(s, maxi, 0));
    }
    while i < records.len()
        invariant
            i <= s.len(),
            s == models(records@),
            models(out@) =~= cap_prefix(s, maxi, i as int),
            i > 0 ==> last_key@ == s[i - 1].key && run_length == run_len_at(s, i - 1)
                && run_length <= i,
        decreases s.len() - i,
    {
        let rec = &records[i];
        proof {
            assert(rec@ == s[i as int]);
        }
        let same = if i == 0 {
            false
        } else {
            keys_equal(&rec.key, &last_key)
        };
        if same {
            run_length += 1;
        } else {
            run_length = 1;
        }
        proof {
            lemma_run_len_bound(s, i as int);
            assert(run_length == run_len_at(s, i as int));
        }
        if run_length <= max_per_key {
            let ghost outpre = models(out@);
            out.push(crate::record::clone_record(rec));
            proof {
                assert(models(out@) =~= outpre.push(s[i as int]));
            }
        }
        last_key = rec.key;
        i += 1;
    }
    proof {
        assert(cap_prefix(s, maxi, s.len() as int) == cap_filter(s, maxi));
    }
    out
}

/// Splits the sorted stream into emitted batches after the per-key cap.
/// The batches hold, in order, exactly the capped stream, rendered as
/// (hexadecimal key, row) items; every batch but the last holds at least
/// `batch_size` items; and no batch ends inside a key group.
#[verifier::loop_isolation(false)]
pub fn capped_batches(records: &Vec<SortRecord>, batch_size: usize, max_per_key: usize) -> (out:
    Vec<Vec<BatchItem>>)
    requires
        sorted(models(records@)),
    ensures
        flat_items(out@) == cap_filter(models(records@), max_per_key as int).map_values(
            |r: RecModel| item_of(r),
        ),
        forall|b: int| 0 <= b < out@.len() ==> #[trigger] out@[b]@.len() > 0,
        forall|b: int| 0 <= b < out@.len() - 1 ==> #[trigger] out@[b]@.len() >= batch_size,
        forall|b: int|
            #![trigger out@[b]]
            0 <= b < out@.len() - 1 ==> {
                let cs = cap_filter(models(records@), max_per_key as int);
                let cut = cut_of(out@, b + 1);
                0 < cut < cs.len() && cs[cut - 1].key != cs[cut].key
            },
{
    let ghost s = models(records@);
    let ghost maxi = max_per_key as int;
    let mut out: Vec<Vec<BatchItem>> = Vec::new();
    let mut cur: Vec<BatchItem> = Vec::new();
    let mut last_key: [u8; 20] = [0u8; 20];
    let mut run_length: usize = 0;
    let mut i: usize = 0;
    proof {
        assert(flat_items(out@) + batch_items(cur@) =~= cap_prefix(s, maxi, 0).map_values(
            |r: RecModel| item_of(r),
        ));
    }
    while i < records.len()
        invariant
            i <= s.len(),
            s == models(records@),
            flat_items(out@) + batch_items(cur@) =~= cap_prefix(s, maxi, i as int).map_values(
                |r: RecModel| item_of(r),
            ),
            i > 0 ==> last_key@ == s[i - 1].key && run_length == run_len_at(s, i - 1)
                && run_length <= i,
            cur@.len() > 0 ==> cap_prefix(s, maxi, i as int).len() > 0 && cap_prefix(
                s,
                maxi,
                i as int,
            ).last().key == last_key@ && i > 0,
            out@.len() > 0 ==> cur@.len() > 0,
            forall|b: int| 0 <= b < out@.len() ==> #[trigger] out@[b]@.len() > 0,
            forall|b: int| 0 <= b < out@.len() ==> #[trigger] out@[b]@.len() >= batch_size,
            forall|b: int|
                #![trigger out@[b]]
                0 <= b < out@.len() ==> {
                    let done = cap_prefix(s, maxi, i as int);
                    let cut = cut_of(out@, b + 1);
                    0 < cut < done.len() && done[cut - 1].key != done[cut].key
                },
        decreases s.len() - i,
    {
        let rec = &records[i];
        proof {
            assert(rec@ == s[i as int]);
        }
        let same = if i == 0 {
            false
        } else {
            keys_equal(&rec.key, &last_key)
        };
        if same {
            run_length += 1;
        } else {
            run_length = 1;
        }
        proof {
            lemma_run_len_bound(s, i as int);
            assert(run_length == run_len_at(s, i as int));
        }
        let ghost done = cap_prefix(s, maxi, i as int);
        let ghost done2 = cap_prefix(s, maxi, i + 1);
        let ghost outpre = out@;
        let ghost curpre = cur@;
        if run_length <= max_per_key {
            // the record survives the cap
            proof {
                assert(retained(s, maxi, i as int));
                assert(done2 == done.push(s[i as int]));
            }
            let flush = cur.len() >= batch_size && cur.len() > 0 && !same;
            if flush {
                // close the batch: the next record starts a new key group
                out.push(cur);
                cur = Vec::new();
                proof {
                    lemma_flat_snoc(outpre, out@.last());
                    assert(batch_items(cur@) =~= Seq::<ItemModel>::empty());
                    assert(flat_items(out@) + batch_items(cur@) =~= flat_items(outpre)
                        + batch_items(curpre));
                }
            }
            let kv = key_to_vec(&rec.key);
            let hex = hex_string(&kv);
            let item = BatchItem { key_hex: hex, row: clone_row(&rec.row) };
            let ghost curpre2 = cur@;
            cur.push(item);
            proof {
                assert(item@.key_hex == hex_of(s[i as int].key));
                assert(item@.row =~= s[i as int].row);
                assert(item@ == item_of(s[i as int]));
                assert(batch_items(cur@) =~= batch_items(curpre2).push(item_of(s[i as int])));
                assert(done2.map_values(|r: RecModel| item_of(r)) =~= done.map_values(
                    |r: RecModel| item_of(r),
                ).push(item_of(s[i as int])));
                assert(flat_items(out@) + batch_items(cur@) =~= done2.map_values(
                    |r: RecModel| item_of(r),
                ));
                // batch boundaries
                assert forall|b: int|
                    #![trigger out@[b]]
                    0 <= b < out@.len() implies {
                    let cut = cut_of(out@, b + 1);
                    0 < cut < done2.len() && done2[cut - 1].key != done2[cut].key
                } by {
                    if flush && b == out@.len() - 1 {
                        assert(out@.subrange(0, b + 1) =~= out@);
                        assert(flat_items(out@) =~= done.map_values(|r: RecModel| item_of(r)));
                        assert(cut_of(out@, b + 1) == done.len());
                        assert(curpre.len() > 0);
                        assert(done.len() > 0);
                        assert(done2[done.len() - 1] == done.last());
                        assert(done.last().key == last_key@);
                        assert(done2[done.len() as int] == s[i as int]);
                        assert(s[i as int].key != last_key@);
                    } else {
                        let bold = b;
                        assert(out@[bold] == outpre[bold]);
                        assert(out@.subrange(0, bold + 1) =~= outpre.subrange(0, bold + 1));
                        assert(cut_of(out@, bold + 1) == cut_of(outpre, bold + 1));
                        assert(0 < cut_of(outpre, bold + 1) < done.len());
                        assert(done2[cut_of(outpre, bold + 1) - 1] == done[cut_of(
                            outpre,
                            bold + 1,
                        ) - 1]);
                        assert(done2[cut_of(outpre, bold + 1)] == done[cut_of(outpre, bold + 1)]);
                    }
                }
            }
        } else {
            proof {
                assert(!retained(s, maxi, i as int));
                assert(done2 == done);
                if curpre.len() > 0 {
                    // a dropped record repeats the key of the retained run
                    if maxi <= 0 {
                        lemma_cap_zero(s, maxi, i as int);
                        assert(false);
                    }
                    if !same {
                        assert(run_len_at(s, i as int) == 1);
                        assert(false);
                    }
                    assert(s[i as int].key == last_key@);
                }
            }
        }
        last_key = rec.key;
        i += 1;
    }
    proof {
        assert(cap_prefix(s, maxi, s.len() as int) == cap_filter(s, maxi));
    }
    if cur.len() > 0 {
        let ghost outpre = out@;
        out.push(cur);
        proof {
            lemma_flat_snoc(outpre, out@.last());
            assert forall|b: int| 0 <= b < out@.len() implies #[trigger] out@[b]@.len() > 0 by {
                if b < out@.len() - 1 {
                    assert(out@[b] == outpre[b]);
                }
            }
            assert forall|b: int|
                #![trigger out@[b]]
                0 <= b < out@.len() - 1 implies {
                let cs = cap_filter(s, maxi);
                let cut = cut_of(out@, b + 1);
                0 < cut < cs.len() && cs[cut - 1].key != cs[cut].key
            } by {
                assert(out@[b] == outpre[b]);
                assert(out@.subrange(0, b + 1) =~= outpre.subrange(0, b + 1));
                assert(cut_of(out@, b + 1) == cut_of(outpre, b + 1));
            }
        }
    } else {
        proof {
            assert(batch_items(cur@) =~= Seq::<ItemModel>::empty());
            assert(flat_items(out@) =~= flat_items(out@) + batch_items(cur@));
            assert(out@.len() == 0);
        }
    }
    out
}

} // verus!
