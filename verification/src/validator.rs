//! Row validation. Each rule names a column and a kind of check: URL
//! columns must parse as absolute URLs, protocol columns must contain
//! "://"; empty and missing fields pass. Failures are counted per kind,
//! appended to an in-memory error-log image (a UTF-8 CSV with a byte-order
//! mark), and the first failure is remembered for the sort summary.
//! Detail lines stop once any category's count exceeds the threshold;
//! the counters keep incrementing.

use vstd::prelude::*;

use crate::wire::{dec_bytes, push_decimal};

verus! {

/// The number of errors of one category after which detail lines stop.
pub const LOG_DETAIL_LIMIT: usize = 5000;

/// What a rule checks.
#[derive(Clone, Copy, Debug, PartialEq, Eq, Structural)]
pub enum RuleKind {
    /// The column is not checked.
    Ignore,
    /// The column must parse as an absolute URL when non-empty.
    Url,
    /// The column must contain "://" when non-empty.
    Protocol,
}

/// The category of a recorded failure.
#[derive(Clone, Copy, Debug, PartialEq, Eq, Structural)]
pub enum ErrorKind {
    Url,
    Protocol,
    Parse,
}

/// One validation rule: the column's name (for the error log) and kind.
pub struct ValidationRule {
    pub column_name: Vec<u8>,
    pub kind: RuleKind,
}

/// Whether a byte column parses as an absolute URL. The outcome depends
/// on the bytes alone, so it is left named but uninterpreted.
pub uninterp spec fn url_accepts(bytes: Seq<u8>) -> bool;

/// Relies on `url::Url::parse` (with `str::from_utf8` converting the
/// column to text): whether the bytes are UTF-8 text that parses as an
/// absolute URL is a function of the bytes alone.
#[verifier::external_body]
fn url_ok(b: &Vec<u8>) -> (r: bool)
    ensures
        r == url_accepts(b@),
{
    match core::str::from_utf8(b.as_slice()) {
        Ok(s) => url::Url::parse(s).is_ok(),
        Err(_) => false,
    }
}

/// Whether the bytes contain "://".
pub open spec fn has_protocol(b: Seq<u8>) -> bool {
    exists|i: int|
        0 <= i && i + 3 <= b.len() && #[trigger] b[i] == 58 && b[i + 1] == 47 && b[i + 2] == 47
}

/// Scans for "://".
fn protocol_ok(b: &Vec<u8>) -> (r: bool)
    ensures
        r == has_protocol(b@),
{
    if b.len() < 3 {
        return false;
    }
    let n = b.len();
    let mut i: usize = 0;
    while i <= n - 3
        invariant
            n == b@.len(),
            3 <= n,
            i <= n - 2,
            forall|j: int|
                0 <= j < i ==> !(#[trigger] b@[j] == 58 && b@[j + 1] == 47 && b@[j + 2] == 47),
        decreases n - i,
    {
        if b[i] == 58 && b[i + 1] == 47 && b[i + 2] == 47 {
            proof {
                assert(has_protocol(b@));
            }
            return true;
        }
        i += 1;
    }
    proof {
        assert(forall|j: int|
            0 <= j && j + 3 <= b@.len() ==> !(#[trigger] b@[j] == 58 && b@[j + 1] == 47 && b@[j
                + 2] == 47));
    }
    false
}

/// Whether the rule at column `c` fails on the row with a URL error.
pub open spec fn col_fails_url(rules: Seq<ValidationRule>, row: Seq<Seq<u8>>, c: int) -> bool {
    &&& 0 <= c < rules.len()
    &&& c < row.len()
    &&& row[c].len() > 0
    &&& rules[c].kind == RuleKind::Url
    &&& !url_accepts(row[c])
}

/// Whether the rule at column `c` fails on the row with a protocol error.
pub open spec fn col_fails_protocol(rules: Seq<ValidationRule>, row: Seq<Seq<u8>>, c: int) -> bool {
    &&& 0 <= c < rules.len()
    &&& c < row.len()
    &&& row[c].len() > 0
    &&& rules[c].kind == RuleKind::Protocol
    &&& !has_protocol(row[c])
}

/// Whether any of the first `n` columns fails with a URL error.
pub open spec fn fails_url_upto(rules: Seq<ValidationRule>, row: Seq<Seq<u8>>, n: int) -> bool {
    exists|c: int| 0 <= c < n && col_fails_url(rules, row, c)
}

/// Whether any of the first `n` columns fails with a protocol error.
pub open spec fn fails_protocol_upto(rules: Seq<ValidationRule>, row: Seq<Seq<u8>>, n: int) -> bool {
    exists|c: int| 0 <= c < n && col_fails_protocol(rules, row, c)
}

/// Whether the row fails a URL rule.
pub open spec fn fails_url(rules: Seq<ValidationRule>, row: Seq<Seq<u8>>) -> bool {
    fails_url_upto(rules, row, rules.len() as int)
}

/// Whether the row fails a protocol rule.
pub open spec fn fails_protocol(rules: Seq<ValidationRule>, row: Seq<Seq<u8>>) -> bool {
    fails_protocol_upto(rules, row, rules.len() as int)
}

/// The kind of the first failing column among the first `n`.
pub open spec fn first_fail_upto(rules: Seq<ValidationRule>, row: Seq<Seq<u8>>, n: int) -> Option<
    ErrorKind,
>
    decreases n,
{
    if n <= 0 {
        None
    } else {
        match first_fail_upto(rules, row, n - 1) {
            Some(k) => Some(k),
            None => if col_fails_url(rules, row, n - 1) {
                Some(ErrorKind::Url)
            } else if col_fails_protocol(rules, row, n - 1) {
                Some(ErrorKind::Protocol)
            } else {
                None
            },
        }
    }
}

/// The message tail of a URL error line.
pub open spec fn url_msg() -> Seq<u8> {
    seq![
        32u8, 100u8, 111u8, 101u8, 115u8, 32u8, 110u8, 111u8, 116u8, 32u8, 105u8, 110u8, 99u8,
        108u8, 117u8, 100u8, 101u8, 32u8, 97u8, 32u8, 118u8, 97u8, 108u8, 105u8, 100u8, 32u8,
        100u8, 111u8, 109u8, 97u8, 105u8, 110u8,
    ]
}

/// The message tail of a protocol error line.
pub open spec fn protocol_msg() -> Seq<u8> {
    seq![
        32u8, 100u8, 111u8, 101u8, 115u8, 32u8, 110u8, 111u8, 116u8, 32u8, 105u8, 110u8, 99u8,
        108u8, 117u8, 100u8, 101u8, 32u8, 97u8, 32u8, 118u8, 97u8, 108u8, 105u8, 100u8, 32u8,
        108u8, 105u8, 110u8, 107u8, 32u8, 112u8, 114u8, 111u8, 116u8, 111u8, 99u8, 111u8, 108u8,
    ]
}

/// The error log's opening bytes: the UTF-8 byte-order mark and the
/// header line.
pub open spec fn log_prelude() -> Seq<u8> {
    seq![
        239u8, 187u8, 191u8, 69u8, 114u8, 114u8, 111u8, 114u8, 32u8, 77u8, 101u8, 115u8, 115u8,
        97u8, 103u8, 101u8, 44u8, 82u8, 111u8, 119u8, 44u8, 67u8, 111u8, 108u8, 117u8, 109u8,
        110u8, 10u8,
    ]
}

/// One error-log line: the column name, the message for the kind, then
/// the 1-based row and column numbers, comma separated.
pub open spec fn log_line(name: Seq<u8>, msg: Seq<u8>, row1: u64, col1: u64) -> Seq<u8> {
    name + msg + seq![44u8] + dec_bytes(row1) + seq![44u8] + dec_bytes(col1) + seq![10u8]
}

/// The log lines a row produces, over the first `n` columns.
pub open spec fn lines_upto(
    rules: Seq<ValidationRule>,
    row: Seq<Seq<u8>>,
    row1: u64,
    n: int,
) -> Seq<u8>
    decreases n,
{
    if n <= 0 {
        Seq::empty()
    } else {
        lines_upto(rules, row, row1, n - 1) + if col_fails_url(rules, row, n - 1) {
            log_line(rules[n - 1].column_name@, url_msg(), row1, n as u64)
        } else if col_fails_protocol(rules, row, n - 1) {
            log_line(rules[n - 1].column_name@, protocol_msg(), row1, n as u64)
        } else {
            Seq::empty()
        }
    }
}

/// Saturating increment.
pub open spec fn sat_inc(n: usize) -> usize {
    if n < usize::MAX {
        (n + 1) as usize
    } else {
        n
    }
}

/// Saturating 64-bit increment.
pub open spec fn sat_inc64(n: u64) -> u64 {
    if n < u64::MAX {
        (n + 1) as u64
    } else {
        n
    }
}

fn inc_usize(n: usize) -> (r: usize)
    ensures
        r == sat_inc(n),
{
    if n < usize::MAX {
        n + 1
    } else {
        n
    }
}

/// The row validator and its counters.
pub struct Validator {
    pub rules: Vec<ValidationRule>,
    pub error_log: Vec<u8>,
    pub total_rows: usize,
    pub failed_url_error_count: usize,
    pub failed_protocol_error_count: usize,
    pub parse_error_count: usize,
    pub first_error: Option<(ErrorKind, usize)>,
}

/// Whether detail logging has stopped.
pub open spec fn log_suppressed(v: Validator) -> bool {
    v.failed_url_error_count > LOG_DETAIL_LIMIT || v.failed_protocol_error_count > LOG_DETAIL_LIMIT
        || v.parse_error_count > LOG_DETAIL_LIMIT
}

/// How one call of `validate_row` takes the validator from `pre` to
/// `post` on `row`.
pub open spec fn validate_step(pre: Validator, post: Validator, row: Seq<Seq<u8>>) -> bool {
    &&& post.rules == pre.rules
    &&& post.total_rows == sat_inc(pre.total_rows)
    &&& post.parse_error_count == pre.parse_error_count
    &&& post.failed_url_error_count == if fails_url(pre.rules@, row) {
        sat_inc(pre.failed_url_error_count)
    } else {
        pre.failed_url_error_count
    }
    &&& post.failed_protocol_error_count == if fails_protocol(pre.rules@, row) {
        sat_inc(pre.failed_protocol_error_count)
    } else {
        pre.failed_protocol_error_count
    }
    &&& post.error_log@ == pre.error_log@ + if log_suppressed(pre) {
        Seq::<u8>::empty()
    } else {
        lines_upto(pre.rules@, row, sat_inc64(pre.total_rows as u64), pre.rules@.len() as int)
    }
    &&& post.first_error == if pre.first_error is Some {
        pre.first_error
    } else if log_suppressed(pre) {
        None
    } else {
        match first_fail_upto(pre.rules@, row, pre.rules@.len() as int) {
            None => None,
            Some(k) => Some((k, pre.total_rows)),
        }
    }
}

impl Validator {
    /// Creates a validator whose error-log image starts with the
    /// byte-order mark and header line.
    pub fn new(rules: Vec<ValidationRule>) -> (v: Validator)
        ensures
            v.rules == rules,
            v.error_log@ == log_prelude(),
            v.total_rows == 0,
            v.failed_url_error_count == 0,
            v.failed_protocol_error_count == 0,
            v.parse_error_count == 0,
            v.first_error is None,
    {
        let mut log: Vec<u8> = Vec::new();
        log.push(239u8);
        log.push(187u8);
        log.push(191u8);
        log.push(69u8);
        log.push(114u8);
        log.push(114u8);
        log.push(111u8);
        log.push(114u8);
        log.push(32u8);
        log.push(77u8);
        log.push(101u8);
        log.push(115u8);
        log.push(115u8);
        log.push(97u8);
        log.push(103u8);
        log.push(101u8);
        log.push(44u8);
        log.push(82u8);
        log.push(111u8);
        log.push(119u8);
        log.push(44u8);
        log.push(67u8);
        log.push(111u8);
        log.push(108u8);
        log.push(117u8);
        log.push(109u8);
        log.push(110u8);
        log.push(10u8);
        proof {
            assert(log@ =~= log_prelude());
        }
        Validator {
            rules,
            error_log: log,
            total_rows: 0,
            failed_url_error_count: 0,
            failed_protocol_error_count: 0,
            parse_error_count: 0,
            first_error: None,
        }
    }

    /// Checks one row against the rules. Returns whether the row passes;
    /// a failing row is counted per failing kind, its detail lines are
    /// appended unless logging is suppressed, and the first failure is
    /// remembered with the 0-based row number.
    #[verifier::loop_isolation(false)]
    #[verifier::rlimit(100)]
    pub fn validate_row(&mut self, row: &Vec<Vec<u8>>) -> (ok: bool)
        ensures
            ok == (!fails_url(old(self).rules@, row.deep_view()) && !fails_protocol(
                old(self).rules@,
                row.deep_view(),
            )),
            final(self).rules == old(self).rules,
            final(self).total_rows == sat_inc(old(self).total_rows),
            final(self).parse_error_count == old(self).parse_error_count,
            final(self).failed_url_error_count == if fails_url(old(self).rules@, row.deep_view()) {
                sat_inc(old(self).failed_url_error_count)
            } else {
                old(self).failed_url_error_count
            },
            final(self).failed_protocol_error_count == if fails_protocol(
                old(self).rules@,
                row.deep_view(),
            ) {
                sat_inc(old(self).failed_protocol_error_count)
            } else {
                old(self).failed_protocol_error_count
            },
            final(self).error_log@ == old(self).error_log@ + if log_suppressed(*old(self)) {
                Seq::<u8>::empty()
            } else {
                lines_upto(
                    old(self).rules@,
                    row.deep_view(),
                    sat_inc64(old(self).total_rows as u64),
                    old(self).rules@.len() as int,
                )
            },
            final(self).first_error == if old(self).first_error is Some {
                old(self).first_error
            } else if log_suppressed(*old(self)) {
                None
            } else {
                match first_fail_upto(old(self).rules@, row.deep_view(), old(self).rules@.len() as int) {
                    None => None,
                    Some(k) => Some((k, old(self).total_rows)),
                }
            },
    {
        let ghost rulesm = self.rules@;
        let ghost rowm = row.deep_view();
        let sup = self.failed_url_error_count > LOG_DETAIL_LIMIT || self.failed_protocol_error_count
            > LOG_DETAIL_LIMIT || self.parse_error_count > LOG_DETAIL_LIMIT;
        let row1: u64 = if (self.total_rows as u64) < u64::MAX {
            self.total_rows as u64 + 1
        } else {
            self.total_rows as u64
        };
        let mut failed_url = false;
        let mut failed_proto = false;
        let mut addition: Vec<u8> = Vec::new();
        let mut fe: Option<(ErrorKind, usize)> = self.first_error;
        let nrules = self.rules.len();
        let mut c: usize = 0;
        while c < nrules
            invariant
                c <= nrules,
                failed_url == fails_url_upto(rulesm, rowm, c as int),
                failed_proto == fails_protocol_upto(rulesm, rowm, c as int),
                addition@ =~= if sup {
                    Seq::<u8>::empty()
                } else {
                    lines_upto(rulesm, rowm, row1, c as int)
                },
                fe == if self.first_error is Some {
                    self.first_error
                } else if sup {
                    None::<(ErrorKind, usize)>
                } else {
                    match first_fail_upto(rulesm, rowm, c as int) {
                        None => None::<(ErrorKind, usize)>,
                        Some(k) => Some((k, self.total_rows)),
                    }
                },
            decreases nrules - c,
        {
            let kind = self.rules[c].kind;
            let mut fail_kind: Option<ErrorKind> = None;
            if c < row.len() {
                let field = &row[c];
                proof {
                    assert(field@ == rowm[c as int]);
                }
                if field.len() > 0 {
                    match kind {
                        RuleKind::Ignore => {},
                        RuleKind::Url => {
                            if !url_ok(field) {
                                fail_kind = Some(ErrorKind::Url);
                            }
                        },
                        RuleKind::Protocol => {
                            if !protocol_ok(field) {
                                fail_kind = Some(ErrorKind::Protocol);
                            }
                        },
                    }
                }
            }
            proof {
                match fail_kind {
                    Some(k) => {
                        assert(k == ErrorKind::Url ==> col_fails_url(rulesm, rowm, c as int));
                        assert(k == ErrorKind::Protocol ==> col_fails_protocol(
                            rulesm,
                            rowm,
                            c as int,
                        ));
                    },
                    None => {
                        assert(!col_fails_url(rulesm, rowm, c as int));
                        assert(!col_fails_protocol(rulesm, rowm, c as int));
                    },
                }
            }
            match fail_kind {
                Some(k) => {
                    match k {
                        ErrorKind::Url => {
                            failed_url = true;
                        },
                        _ => {
                            failed_proto = true;
                        },
                    }
                    if !sup {
                        let name = &self.rules[c].column_name;
                        crate::runfile::push_range(&mut addition, name, 0, name.len());
                        proof {
                            assert(name@.subrange(0, name@.len() as int) =~= name@);
                        }
                        match k {
                            ErrorKind::Url => {
                                push_url_msg(&mut addition);
                            },
                            _ => {
                                push_protocol_msg(&mut addition);
                            },
                        }
                        addition.push(44u8);
                        push_decimal(&mut addition, row1);
                        addition.push(44u8);
                        push_decimal(&mut addition, c as u64 + 1);
                        addition.push(10u8);
                        if fe.is_none() {
                            fe = Some((k, self.total_rows));
                        }
                    }
                },
                None => {},
            }
            proof {
                let cc = c as int;
                assert(fails_url_upto(rulesm, rowm, cc + 1) == (fails_url_upto(rulesm, rowm, cc)
                    || col_fails_url(rulesm, rowm, cc))) by {
                    if fails_url_upto(rulesm, rowm, cc + 1) {
                        let w = choose|w: int|
                            0 <= w < cc + 1 && col_fails_url(rulesm, rowm, w);
                        if w < cc {
                            assert(fails_url_upto(rulesm, rowm, cc));
                        }
                    }
                }
                assert(fails_protocol_upto(rulesm, rowm, cc + 1) == (fails_protocol_upto(
                    rulesm,
                    rowm,
                    cc,
                ) || col_fails_protocol(rulesm, rowm, cc))) by {
                    if fails_protocol_upto(rulesm, rowm, cc + 1) {
                        let w = choose|w: int|
                            0 <= w < cc + 1 && col_fails_protocol(rulesm, rowm, w);
                        if w < cc {
                            assert(fails_protocol_upto(rulesm, rowm, cc));
                        }
                    }
                }
            }
            c += 1;
        }
        let ok = !failed_url && !failed_proto;
        if failed_url {
            self.failed_url_error_count = inc_usize(self.failed_url_error_count);
        }
        if failed_proto {
            self.failed_protocol_error_count = inc_usize(self.failed_protocol_error_count);
        }
        self.first_error = fe;
        self.total_rows = inc_usize(self.total_rows);
        let mut add = addition;
        self.error_log.append(&mut add);
        ok
    }

    /// Counts a parse event reported by the caller, remembering it as
    /// the first error when none came before and logging is not
    /// suppressed.
    pub fn record_parse_error(&mut self, row_number: usize)
        ensures
            final(self).parse_error_count == sat_inc(old(self).parse_error_count),
            final(self).first_error == if old(self).first_error is Some {
                old(self).first_error
            } else if log_suppressed(*old(self)) {
                None
            } else {
                Some((ErrorKind::Parse, row_number))
            },
            final(self).rules == old(self).rules,
            final(self).error_log == old(self).error_log,
            final(self).total_rows == old(self).total_rows,
            final(self).failed_url_error_count == old(self).failed_url_error_count,
            final(self).failed_protocol_error_count == old(self).failed_protocol_error_count,
    {
        let sup = self.failed_url_error_count > LOG_DETAIL_LIMIT || self.failed_protocol_error_count
            > LOG_DETAIL_LIMIT || self.parse_error_count > LOG_DETAIL_LIMIT;
        if !sup && self.first_error.is_none() {
            self.first_error = Some((ErrorKind::Parse, row_number));
        }
        self.parse_error_count = inc_usize(self.parse_error_count);
    }

    /// The counters so far. The combined error count saturates.
    pub fn status(&self) -> (r: ValidatorStatus)
        ensures
            r.total_rows_processed == self.total_rows,
            r.failed_url_error_count == self.failed_url_error_count,
            r.failed_protocol_error_count == self.failed_protocol_error_count,
            r.parse_error_count == self.parse_error_count,
            r.error_count as int == vstd::math::min(
                self.failed_url_error_count + self.failed_protocol_error_count
                    + self.parse_error_count,
                usize::MAX as int,
            ),
            r.first_error_row == (match self.first_error {
                Some(e) => Some(e.1),
                None => None,
            }),
    {
        let a = if self.failed_url_error_count > usize::MAX - self.failed_protocol_error_count {
            usize::MAX
        } else {
            self.failed_url_error_count + self.failed_protocol_error_count
        };
        let b = if a > usize::MAX - self.parse_error_count {
            usize::MAX
        } else {
            a + self.parse_error_count
        };
        ValidatorStatus {
            total_rows_processed: self.total_rows,
            failed_url_error_count: self.failed_url_error_count,
            failed_protocol_error_count: self.failed_protocol_error_count,
            parse_error_count: self.parse_error_count,
            error_count: b,
            first_error_row: match &self.first_error {
                Some((_, row)) => Some(*row),
                None => None,
            },
        }
    }

    /// The message for the first recorded error, if any.
    pub fn first_error_message(&self) -> (r: Option<Vec<u8>>)
        ensures
            r is Some <==> self.first_error is Some,
            r matches Some(m) ==> self.first_error matches Some(e) && m@
                == first_message(e.0, e.1),
    {
        match &self.first_error {
            None => None,
            Some((k, row)) => {
                let mut m: Vec<u8> = Vec::new();
                match k {
                    ErrorKind::Url => {
                        push_img_msg(&mut m);
                        push_decimal(&mut m, *row as u64);
                    },
                    ErrorKind::Protocol => {
                        push_link_msg(&mut m);
                        push_decimal(&mut m, *row as u64);
                    },
                    ErrorKind::Parse => {
                        push_parse_msg(&mut m);
                        let r1: u64 = if (*row as u64) < u64::MAX {
                            *row as u64 + 1
                        } else {
                            *row as u64
                        };
                        push_decimal(&mut m, r1);
                    },
                }
                Some(m)
            },
        }
    }
}

/// A snapshot of the validator's counters.
#[derive(Clone, Copy, Debug, PartialEq, Eq, Structural)]
pub struct ValidatorStatus {
    pub total_rows_processed: usize,
    pub failed_url_error_count: usize,
    pub failed_protocol_error_count: usize,
    pub parse_error_count: usize,
    pub error_count: usize,
    pub first_error_row: Option<usize>,
}

/// The user-facing message for the first error of a kind at a row.
pub open spec fn first_message(k: ErrorKind, row: usize) -> Seq<u8> {
    match k {
        ErrorKind::Url => seq![
            73u8, 110u8, 118u8, 97u8, 108u8, 105u8, 100u8, 32u8, 105u8, 109u8, 97u8, 103u8, 101u8,
            32u8, 85u8, 82u8, 76u8, 58u8, 32u8,
        ] + dec_bytes(row as u64),
        ErrorKind::Protocol => seq![
            73u8, 110u8, 118u8, 97u8, 108u8, 105u8, 100u8, 32u8, 108u8, 105u8, 110u8, 107u8, 58u8,
            32u8,
        ] + dec_bytes(row as u64),
        ErrorKind::Parse => seq![
            69u8, 114u8, 114u8, 111u8, 114u8, 32u8, 112u8, 97u8, 114u8, 115u8, 105u8, 110u8,
            103u8, 32u8, 114u8, 111u8, 119u8, 58u8, 32u8,
        ] + dec_bytes(sat_inc64(row as u64)),
    }
}

fn push_url_msg(out: &mut Vec<u8>)
    ensures
        final(out)@ =~= old(out)@ + url_msg(),
{
    out.push(32u8);
    out.push(100u8);
    out.push(111u8);
    out.push(101u8);
    out.push(115u8);
    out.push(32u8);
    out.push(110u8);
    out.push(111u8);
    out.push(116u8);
    out.push(32u8);
    out.push(105u8);
    out.push(110u8);
    out.push(99u8);
    out.push(108u8);
    out.push(117u8);
    out.push(100u8);
    out.push(101u8);
    out.push(32u8);
    out.push(97u8);
    out.push(32u8);
    out.push(118u8);
    out.push(97u8);
    out.push(108u8);
    out.push(105u8);
    out.push(100u8);
    out.push(32u8);
    out.push(100u8);
    out.push(111u8);
    out.push(109u8);
    out.push(97u8);
    out.push(105u8);
    out.push(110u8);
}

fn push_protocol_msg(out: &mut Vec<u8>)
    ensures
        final(out)@ =~= old(out)@ + protocol_msg(),
{
    out.push(32u8);
    out.push(100u8);
    out.push(111u8);
    out.push(101u8);
    out.push(115u8);
    out.push(32u8);
    out.push(110u8);
    out.push(111u8);
    out.push(116u8);
    out.push(32u8);
    out.push(105u8);
    out.push(110u8);
    out.push(99u8);
    out.push(108u8);
    out.push(117u8);
    out.push(100u8);
    out.push(101u8);
    out.push(32u8);
    out.push(97u8);
    out.push(32u8);
    out.push(118u8);
    out.push(97u8);
    out.push(108u8);
    out.push(105u8);
    out.push(100u8);
    out.push(32u8);
    out.push(108u8);
    out.push(105u8);
    out.push(110u8);
    out.push(107u8);
    out.push(32u8);
    out.push(112u8);
    out.push(114u8);
    out.push(111u8);
    out.push(116u8);
    out.push(111u8);
    out.push(99u8);
    out.push(111u8);
    out.push(108u8);
}

fn push_img_msg(out: &mut Vec<u8>)
    ensures
        final(out)@ =~= old(out)@ + seq![
            73u8, 110u8, 118u8, 97u8, 108u8, 105u8, 100u8, 32u8, 105u8, 109u8, 97u8, 103u8, 101u8,
            32u8, 85u8, 82u8, 76u8, 58u8, 32u8,
        ],
{
    out.push(73u8);
    out.push(110u8);
    out.push(118u8);
    out.push(97u8);
    out.push(108u8);
    out.push(105u8);
    out.push(100u8);
    out.push(32u8);
    out.push(105u8);
    out.push(109u8);
    out.push(97u8);
    out.push(103u8);
    out.push(101u8);
    out.push(32u8);
    out.push(85u8);
    out.push(82u8);
    out.push(76u8);
    out.push(58u8);
    out.push(32u8);
}

fn push_link_msg(out: &mut Vec<u8>)
    ensures
        final(out)@ =~= old(out)@ + seq![
            73u8, 110u8, 118u8, 97u8, 108u8, 105u8, 100u8, 32u8, 108u8, 105u8, 110u8, 107u8, 58u8,
            32u8,
        ],
{
    out.push(73u8);
    out.push(110u8);
    out.push(118u8);
    out.push(97u8);
    out.push(108u8);
    out.push(105u8);
    out.push(100u8);
    out.push(32u8);
    out.push(108u8);
    out.push(105u8);
    out.push(110u8);
    out.push(107u8);
    out.push(58u8);
    out.push(32u8);
}

fn push_parse_msg(out: &mut Vec<u8>)
    ensures
        final(out)@ =~= old(out)@ + seq![
            69u8, 114u8, 114u8, 111u8, 114u8, 32u8, 112u8, 97u8, 114u8, 115u8, 105u8, 110u8,
            103u8, 32u8, 114u8, 111u8, 119u8, 58u8, 32u8,
        ],
{
    out.push(69u8);
    out.push(114u8);
    out.push(114u8);
    out.push(111u8);
    out.push(114u8);
    out.push(32u8);
    out.push(112u8);
    out.push(97u8);
    out.push(114u8);
    out.push(115u8);
    out.push(105u8);
    out.push(110u8);
    out.push(103u8);
    out.push(32u8);
    out.push(114u8);
    out.push(111u8);
    out.push(119u8);
    out.push(58u8);
    out.push(32u8);
}

} // verus!
