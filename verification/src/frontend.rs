//! Logic of the administration interface: filtering and summarising the request log and
//! formatting its numbers.
use vstd::prelude::*;

use crate::json::str_eq;
use crate::request_log::{decimal_value, parse_u64_text};
use crate::text::{
    chars_of, contains_chars, contains_seq, csv_item_chars, csv_items, is_digit, is_space,
    nonempty_trimmed, push_char, split_on, string_from, trim, trim_end, trim_start, trimmed,
};

verus! {

/// A row of the request log as the interface receives it; its status is the lower-case name
/// of the backend's status.
#[derive(Debug)]
pub struct ApiRequestLog {
    pub id: u64,
    pub timestamp_ms: i64,
    pub duration_ms: Option<i64>,
    pub provider: String,
    pub api_format: String,
    pub model: String,
    pub stream: bool,
    pub message_count: usize,
    pub tool_count: usize,
    pub cache_control_breakpoints: usize,
    pub estimated_context_tokens: u32,
    pub input_tokens: Option<u64>,
    pub output_tokens: Option<u64>,
    pub cache_creation_input_tokens: Option<u64>,
    pub cache_read_input_tokens: Option<u64>,
    pub status: String,
    pub error_code: Option<String>,
    pub error: Option<String>,
}

/// `pending`
pub open spec fn pending_name() -> Seq<char> {
    seq!['p', 'e', 'n', 'd', 'i', 'n', 'g']
}

/// `success`
pub open spec fn success_name() -> Seq<char> {
    seq!['s', 'u', 'c', 'c', 'e', 's', 's']
}

fn is_pending(status: &str) -> (b: bool)
    ensures
        b == (status@ == pending_name()),
{
    proof {
        reveal_strlit("pending");
        assert("pending"@ =~= pending_name());
    }
    str_eq(status, "pending")
}

fn is_success(status: &str) -> (b: bool)
    ensures
        b == (status@ == success_name()),
{
    proof {
        reveal_strlit("success");
        assert("success"@ =~= success_name());
    }
    str_eq(status, "success")
}

/// The status filter of the log view.
#[derive(Debug, Clone, Copy, PartialEq, Eq)]
pub enum StatusFilter {
    All,
    Pending,
    Success,
    Failed,
}

/// Whether a row of status `status` passes the filter: every row passes `All`; `Pending` and
/// `Success` take rows of that status; `Failed` takes every row that is neither.
pub open spec fn filter_accepts(f: StatusFilter, status: Seq<char>) -> bool {
    match f {
        StatusFilter::All => true,
        StatusFilter::Pending => status == pending_name(),
        StatusFilter::Success => status == success_name(),
        StatusFilter::Failed => status != pending_name() && status != success_name(),
    }
}

impl StatusFilter {
    /// The filter's name, as the interface keys it.
    pub fn key(self) -> (s: &'static str)
        ensures
            s@ == match self {
                StatusFilter::All => "all"@,
                StatusFilter::Pending => "pending"@,
                StatusFilter::Success => "success"@,
                StatusFilter::Failed => "failed"@,
            },
    {
        match self {
            StatusFilter::All => "all",
            StatusFilter::Pending => "pending",
            StatusFilter::Success => "success",
            StatusFilter::Failed => "failed",
        }
    }

    /// Whether a row of status `status` passes the filter (see [`filter_accepts`]).
    pub fn matches(self, status: &str) -> (b: bool)
        ensures
            b == filter_accepts(self, status@),
    {
        match self {
            StatusFilter::All => true,
            StatusFilter::Pending => is_pending(status),
            StatusFilter::Success => is_success(status),
            StatusFilter::Failed => !is_pending(status) && !is_success(status),
        }
    }
}

/// Every row passes exactly one of the filters `Pending`, `Success` and `Failed`, so their
/// counts add up to the count of `All`.
pub proof fn lemma_filters_partition(status: Seq<char>)
    ensures
        filter_accepts(StatusFilter::All, status),
        (filter_accepts(StatusFilter::Pending, status) as int) + (filter_accepts(
            StatusFilter::Success,
            status,
        ) as int) + (filter_accepts(StatusFilter::Failed, status) as int) == 1,
{
    assert(pending_name() != success_name()) by {
        assert(pending_name()[0] != success_name()[0]);
    }
}

/// The kind of a status for display: its own name for the known statuses, `error` for
/// anything else.
pub fn status_kind(status: &str) -> (k: &'static str)
    ensures
        k@ == if status@ == "success"@ {
            "success"@
        } else if status@ == "pending"@ {
            "pending"@
        } else if status@ == "timeout"@ {
            "timeout"@
        } else if status@ == "cancelled"@ {
            "cancelled"@
        } else if status@ == "interrupted"@ {
            "interrupted"@
        } else {
            "error"@
        },
{
    if str_eq(status, "success") {
        "success"
    } else if str_eq(status, "pending") {
        "pending"
    } else if str_eq(status, "timeout") {
        "timeout"
    } else if str_eq(status, "cancelled") {
        "cancelled"
    } else if str_eq(status, "interrupted") {
        "interrupted"
    } else {
        "error"
    }
}

// ---------------------------------------------------------------------------
// Token totals and the summary line
// ---------------------------------------------------------------------------
/// `a + b`, capped at `u64::MAX`.
pub open spec fn cap_add(a: u64, b: u64) -> u64 {
    if a + b > u64::MAX {
        u64::MAX
    } else {
        (a + b) as u64
    }
}

/// All input tokens of a row, plain and cached (the upstream API reports them as disjoint counters),
/// saturating; `None` when the plain input count is not reported.
pub open spec fn input_total(log: ApiRequestLog) -> Option<u64> {
    match log.input_tokens {
        Some(i) => Some(
            cap_add(
                cap_add(
                    i,
                    match log.cache_creation_input_tokens {
                        Some(c) => c,
                        None => 0,
                    },
                ),
                match log.cache_read_input_tokens {
                    Some(c) => c,
                    None => 0,
                },
            ),
        ),
        None => None,
    }
}

/// All input tokens of a row (see [`input_total`]).
pub fn total_input(log: &ApiRequestLog) -> (r: Option<u64>)
    ensures
        r == input_total(*log),
{
    match log.input_tokens {
        Some(i) => {
            let c = match log.cache_creation_input_tokens {
                Some(c) => c,
                None => 0,
            };
            let r = match log.cache_read_input_tokens {
                Some(c) => c,
                None => 0,
            };
            Some(i.saturating_add(c).saturating_add(r))
        },
        None => None,
    }
}

/// Counters over the rows shown.
#[derive(Debug, Clone, Copy, PartialEq, Eq, Default)]
pub struct Summary {
    pub total: usize,
    pub finished: usize,
    pub success: usize,
    pub duration_sum: i64,
    pub duration_count: usize,
    pub input: u64,
    pub output: u64,
    pub cache_read: u64,
}

/// The counters as integers, over a sequence of rows.
pub struct SummaryTotals {
    pub finished: int,
    pub success: int,
    pub duration_sum: int,
    pub duration_count: int,
    pub input: int,
    pub output: int,
    pub cache_read: int,
}

/// The summary counters of `logs`: rows not pending, successful rows, the durations of
/// successful rows (negative ones as 0) and how many there are, the total input of rows that
/// report it with their cache reads, and the output tokens.
pub open spec fn totals(logs: Seq<ApiRequestLog>) -> SummaryTotals
    decreases logs.len(),
{
    if logs.len() == 0 {
        SummaryTotals {
            finished: 0,
            success: 0,
            duration_sum: 0,
            duration_count: 0,
            input: 0,
            output: 0,
            cache_read: 0,
        }
    } else {
        let t = totals(logs.drop_last());
        let l = logs.last();
        let ok = l.status@ == success_name();
        let timed = ok && l.duration_ms is Some;
        SummaryTotals {
            finished: t.finished + if l.status@ != pending_name() { 1int } else { 0int },
            success: t.success + if ok { 1int } else { 0int },
            duration_sum: t.duration_sum + if timed {
                let d = l.duration_ms->0;
                if d < 0 { 0int } else { d as int }
            } else {
                0int
            },
            duration_count: t.duration_count + if timed { 1int } else { 0int },
            input: t.input + match input_total(l) {
                Some(n) => n as int,
                None => 0int,
            },
            cache_read: t.cache_read + if input_total(l) is Some {
                match l.cache_read_input_tokens {
                    Some(c) => c as int,
                    None => 0int,
                }
            } else {
                0int
            },
            output: t.output + match l.output_tokens {
                Some(o) => o as int,
                None => 0int,
            },
        }
    }
}

/// The sums of `logs` fit the summary's counters.
pub open spec fn totals_fit(logs: Seq<ApiRequestLog>) -> bool {
    forall|k: int|
        0 <= k <= logs.len() ==> {
            let t = #[trigger] totals(logs.take(k));
            &&& t.duration_sum <= i64::MAX
            &&& t.input <= u64::MAX
            &&& t.output <= u64::MAX
            &&& t.cache_read <= u64::MAX
        }
}

proof fn lemma_totals_grow(logs: Seq<ApiRequestLog>)
    ensures
        ({
            let t = totals(logs);
            &&& 0 <= t.finished <= logs.len()
            &&& 0 <= t.success <= logs.len()
            &&& 0 <= t.duration_count <= logs.len()
            &&& 0 <= t.duration_sum
            &&& 0 <= t.input
            &&& 0 <= t.output
            &&& 0 <= t.cache_read
        }),
    decreases logs.len(),
{
    if logs.len() > 0 {
        lemma_totals_grow(logs.drop_last());
    }
}

/// The summary's ratios never exceed one: successes are among the finished rows, timed rows
/// among the successes, finished rows among all, and cached input among all input.
pub proof fn lemma_summary_ratios(logs: Seq<ApiRequestLog>)
    ensures
        ({
            let t = totals(logs);
            &&& 0 <= t.duration_count <= t.success <= t.finished <= logs.len()
            &&& 0 <= t.cache_read <= t.input
        }),
    decreases logs.len(),
{
    if logs.len() > 0 {
        lemma_summary_ratios(logs.drop_last());
        assert(pending_name() != success_name()) by {
            assert(pending_name()[0] != success_name()[0]);
        }
    }
}

impl Summary {
    /// Summarises the rows shown (see [`totals`]); the sums must fit their counters.
    pub fn from_logs(logs: &Vec<ApiRequestLog>) -> (s: Self)
        requires
            totals_fit(logs@),
        ensures
            s.total == logs.len(),
            ({
                let t = totals(logs@);
                &&& s.finished == t.finished
                &&& s.success == t.success
                &&& s.duration_sum == t.duration_sum
                &&& s.duration_count == t.duration_count
                &&& s.input == t.input
                &&& s.output == t.output
                &&& s.cache_read == t.cache_read
            }),
    {
        let mut s = Summary {
            total: logs.len(),
            finished: 0,
            success: 0,
            duration_sum: 0,
            duration_count: 0,
            input: 0,
            output: 0,
            cache_read: 0,
        };
        let mut i: usize = 0;
        assert(logs@.take(0) == Seq::<ApiRequestLog>::empty());
        while i < logs.len()
            invariant
                i <= logs.len(),
                s.total == logs.len(),
                totals_fit(logs@),
                ({
                    let t = totals(logs@.take(i as int));
                    &&& s.finished == t.finished
                    &&& s.success == t.success
                    &&& s.duration_sum == t.duration_sum
                    &&& s.duration_count == t.duration_count
                    &&& s.input == t.input
                    &&& s.output == t.output
                    &&& s.cache_read == t.cache_read
                }),
            decreases logs.len() - i,
        {
            let log = &logs[i];
            proof {
                assert(logs@.take(i + 1).drop_last() == logs@.take(i as int));
                assert(logs@.take(i + 1).last() == logs@[i as int]);
                lemma_totals_grow(logs@.take(i + 1));
                lemma_totals_grow(logs@.take(i as int));
                let _ = totals(logs@.take(i + 1));
            }
            if !is_pending(log.status.as_str()) {
                s.finished += 1;
            }
            if is_success(log.status.as_str()) {
                s.success += 1;
                match log.duration_ms {
                    Some(ms) => {
                        let d = if ms < 0 { 0 } else { ms };
                        s.duration_sum += d;
                        s.duration_count += 1;
                    },
                    None => {},
                }
            }
            match total_input(log) {
                Some(input) => {
                    s.input += input;
                    let c = match log.cache_read_input_tokens {
                        Some(c) => c,
                        None => 0,
                    };
                    s.cache_read += c;
                },
                None => {},
            }
            let o = match log.output_tokens {
                Some(o) => o,
                None => 0,
            };
            s.output += o;
            i += 1;
        }
        assert(logs@.take(logs.len() as int) == logs@);
        s
    }
}

// ---------------------------------------------------------------------------
// Numbers
// ---------------------------------------------------------------------------
/// The ASCII digit of a value below 10.
pub open spec fn digit_of(d: nat) -> char {
    (('0' as u32) + d) as char
}

/// The decimal digits of `n`, without leading zeros (`0` for zero).
pub open spec fn decimal(n: nat) -> Seq<char>
    decreases n,
{
    if n < 10 {
        seq![digit_of(n)]
    } else {
        decimal(n / 10).push(digit_of(n % 10))
    }
}

/// Digits grouped by thousands with commas, from the right.
pub open spec fn grouped(d: Seq<char>) -> Seq<char>
    decreases d.len(),
{
    if d.len() <= 3 {
        d
    } else {
        grouped(d.take(d.len() - 3)) + seq![','] + d.skip(d.len() - 3)
    }
}

/// A count as the interface shows it: its decimal digits grouped by thousands.
pub open spec fn thousands(n: u64) -> Seq<char> {
    grouped(decimal(n as nat))
}

proof fn lemma_decimal_digits(n: nat)
    ensures
        decimal(n).len() >= 1,
        forall|i: int| 0 <= i < decimal(n).len() ==> is_digit(#[trigger] decimal(n)[i]),
        decimal_value(decimal(n)) == n,
    decreases n,
{
    if n >= 10 {
        lemma_decimal_digits(n / 10);
        let d = decimal(n);
        assert(d.drop_last() == decimal(n / 10));
        assert(d.last() == digit_of(n % 10));
        assert((digit_of(n % 10) as u32) - ('0' as u32) == n % 10);
        assert(n == (n / 10) * 10 + n % 10) by (nonlinear_arith);
        assert(decimal_value(d) == decimal_value(decimal(n / 10)) * 10 + n % 10);
    } else {
        assert((digit_of(n) as u32) - ('0' as u32) == n);
        assert(decimal(n).drop_last() == Seq::<char>::empty());
        assert(decimal_value(Seq::<char>::empty()) == 0);
    }
}

/// The digits of a number read back as the number: formatting and `str::parse` agree.
pub proof fn lemma_decimal_round_trip(n: u64)
    ensures
        parse_u64_text(decimal(n as nat)) == Some(n),
{
    lemma_decimal_digits(n as nat);
    let d = decimal(n as nat);
    assert(crate::request_log::decimal_digits(d) == d) by {
        if d.len() > 0 && d[0] == '+' {
            assert(is_digit(d[0]));
        }
    }
}

/// The decimal digits of `n` (`u64::to_string`).
pub fn decimal_string(n: u64) -> (r: Vec<char>)
    ensures
        r@ == decimal(n as nat),
{
    let mut rev: Vec<char> = Vec::new();
    let mut m = n;
    // digits are produced from the last one
    loop
        invariant_except_break
            decimal(n as nat) == decimal(m as nat) + rev@.reverse(),
        ensures
            decimal(n as nat) == rev@.reverse(),
        decreases m,
    {
        let d = (m % 10) as u32;
        let c = (('0' as u32) + d) as u8 as char;
        assert(c == digit_of((m % 10) as nat)) by {
            assert(('0' as u32) + d < 128);
        }
        proof {
            if m >= 10 {
                assert(decimal(m as nat) == decimal((m / 10) as nat).push(c));
            }
        }
        rev.push(c);
        assert(rev@.reverse() == seq![c] + rev@.drop_last().reverse()) by {
            assert(rev@.reverse() =~= seq![c] + rev@.drop_last().reverse());
        }
        if m < 10 {
            assert(decimal(m as nat) == seq![c]);
            assert(decimal(n as nat) == seq![c] + rev@.drop_last().reverse());
            break;
        }
        m = m / 10;
        assert(decimal(n as nat) == decimal(m as nat) + rev@.reverse());
    }
    let mut out: Vec<char> = Vec::new();
    let mut i = rev.len();
    while i > 0
        invariant
            i <= rev.len(),
            out@ == rev@.reverse().take(rev.len() - i),
        decreases i,
    {
        i -= 1;
        out.push(rev[i]);
        assert(rev@.reverse().take(rev.len() - i) == rev@.reverse().take(rev.len() - i - 1).push(rev@[i as int]));
    }
    assert(rev@.reverse().take(rev.len() as int) == rev@.reverse());
    out
}


fn group_prefix(d: &Vec<char>, len: usize) -> (r: Vec<char>)
    requires
        len <= d.len(),
    ensures
        r@ == grouped(d@.take(len as int)),
    decreases len,
{
    if len <= 3 {
        let mut out: Vec<char> = Vec::new();
        let mut i: usize = 0;
        while i < len
            invariant
                i <= len <= d.len(),
                out@ == d@.take(i as int),
            decreases len - i,
        {
            out.push(d[i]);
            assert(d@.take(i + 1) == d@.take(i as int).push(d@[i as int]));
            i += 1;
        }
        out
    } else {
        let mut out = group_prefix(d, len - 3);
        out.push(',');
        out.push(d[len - 3]);
        out.push(d[len - 2]);
        out.push(d[len - 1]);
        let ghost t = d@.take(len as int);
        assert(t.take(t.len() - 3) == d@.take(len - 3));
        assert(t.skip(t.len() - 3) == seq![d@[len - 3], d@[len - 2], d@[len - 1]]);
        out
    }
}

/// Formats a count with its digits grouped by thousands (see [`thousands`]).
pub fn fmt_int(value: u64) -> (r: String)
    ensures
        r@ == thousands(value),
{
    let d = decimal_string(value);
    let g = group_prefix(&d, d.len());
    assert(d@.take(d.len() as int) == d@);
    string_from(&g)
}

/// `s` without its commas.
pub open spec fn without_commas(s: Seq<char>) -> Seq<char>
    decreases s.len(),
{
    if s.len() == 0 {
        s
    } else if s.last() == ',' {
        without_commas(s.drop_last())
    } else {
        without_commas(s.drop_last()).push(s.last())
    }
}

proof fn lemma_without_commas_concat(a: Seq<char>, b: Seq<char>)
    ensures
        without_commas(a + b) == without_commas(a) + without_commas(b),
    decreases b.len(),
{
    if b.len() == 0 {
        assert(a + b == a);
    } else {
        lemma_without_commas_concat(a, b.drop_last());
        assert((a + b).drop_last() == a + b.drop_last());
    }
}

proof fn lemma_digits_have_no_commas(d: Seq<char>)
    requires
        forall|i: int| 0 <= i < d.len() ==> is_digit(#[trigger] d[i]),
    ensures
        without_commas(d) == d,
    decreases d.len(),
{
    if d.len() > 0 {
        lemma_digits_have_no_commas(d.drop_last());
        assert(is_digit(d[d.len() - 1]));
        assert(d.drop_last().push(d.last()) == d);
    }
}

proof fn lemma_grouped_strips(d: Seq<char>)
    requires
        forall|i: int| 0 <= i < d.len() ==> is_digit(#[trigger] d[i]),
    ensures
        without_commas(grouped(d)) == d,
    decreases d.len(),
{
    if d.len() <= 3 {
        lemma_digits_have_no_commas(d);
    } else {
        let a = d.take(d.len() - 3);
        let b = d.skip(d.len() - 3);
        assert forall|i: int| 0 <= i < a.len() implies is_digit(#[trigger] a[i]) by {
            assert(a[i] == d[i]);
        }
        assert forall|i: int| 0 <= i < b.len() implies is_digit(#[trigger] b[i]) by {
            assert(b[i] == d[d.len() - 3 + i]);
        }
        lemma_grouped_strips(a);
        lemma_digits_have_no_commas(b);
        lemma_without_commas_concat(grouped(a) + seq![','], b);
        lemma_without_commas_concat(grouped(a), seq![',']);
        assert(without_commas(seq![',']) == Seq::<char>::empty()) by {
            let c = seq![','];
            assert(c.len() == 1 && c.last() == ',');
            assert(c.drop_last() =~= Seq::<char>::empty());
            assert(without_commas(c) == without_commas(c.drop_last()));
            assert(without_commas(Seq::<char>::empty()) == Seq::<char>::empty());
        }
        assert(a + b == d);
    }
}

/// Grouping only adds commas: without them, a formatted count is its decimal digits, and
/// those read back as the count.
pub proof fn lemma_thousands_round_trip(n: u64)
    ensures
        without_commas(thousands(n)) == decimal(n as nat),
        parse_u64_text(without_commas(thousands(n))) == Some(n),
{
    lemma_decimal_digits(n as nat);
    lemma_grouped_strips(decimal(n as nat));
    lemma_decimal_round_trip(n);
}

/// A count that may be missing: grouped by thousands, or `—`.
pub fn fmt_opt(value: Option<u64>) -> (r: String)
    ensures
        r@ == match value {
            Some(n) => thousands(n),
            None => seq!['—'],
        },
{
    match value {
        Some(n) => fmt_int(n),
        None => {
            let mut out = String::new();
            push_char(&mut out, '—');
            out
        },
    }
}

/// How a count is abbreviated in the compact view.
#[derive(Debug, Clone, Copy, PartialEq, Eq)]
pub enum CompactUnit {
    /// In millions, with one decimal (from 1 000 000 on).
    Millions,
    /// In thousands, with one decimal (from 10 000 on).
    Thousands,
    /// In full, grouped by thousands (see [`fmt_int`]).
    Plain,
}

/// Chooses how a count is abbreviated: millions from 1 000 000, thousands from 10 000, else in
/// full.
pub fn compact_unit(value: u64) -> (u: CompactUnit)
    ensures
        u == if value >= 1_000_000 {
            CompactUnit::Millions
        } else if value >= 10_000 {
            CompactUnit::Thousands
        } else {
            CompactUnit::Plain
        },
{
    if value >= 1_000_000 {
        CompactUnit::Millions
    } else if value >= 10_000 {
        CompactUnit::Thousands
    } else {
        CompactUnit::Plain
    }
}

/// How a duration is shown.
#[derive(Debug, Clone, Copy, PartialEq, Eq)]
pub enum DurationDisplay {
    /// Whole milliseconds, under a second.
    Millis(i64),
    /// Seconds with one decimal, under a minute; the duration in milliseconds.
    Seconds(i64),
    /// Whole minutes and the seconds left over.
    MinutesSeconds(i64, i64),
}

/// Chooses how a duration in milliseconds is shown (a negative one as zero): milliseconds
/// under a second, seconds under a minute, else minutes and seconds.
pub fn duration_display(ms: i64) -> (d: DurationDisplay)
    ensures
        ({
            let m: i64 = if ms < 0 { 0 } else { ms };
            d == if m < 1000 {
                DurationDisplay::Millis(m)
            } else if m < 60_000 {
                DurationDisplay::Seconds(m)
            } else {
                DurationDisplay::MinutesSeconds((m / 60_000) as i64, ((m % 60_000) / 1000) as i64)
            }
        }),
{
    let m: i64 = if ms < 0 { 0 } else { ms };
    if m < 1000 {
        DurationDisplay::Millis(m)
    } else if m < 60_000 {
        DurationDisplay::Seconds(m)
    } else {
        DurationDisplay::MinutesSeconds(m / 60_000, (m % 60_000) / 1000)
    }
}

// ---------------------------------------------------------------------------
// Comma-separated lists of the settings form
// ---------------------------------------------------------------------------
/// Reads a comma-separated list (see [`csv_items`]).
pub fn parse_csv_list(value: &str) -> (r: Vec<String>)
    ensures
        r@.len() == csv_items(value@).len(),
        forall|i: int| 0 <= i < r@.len() ==> #[trigger] r@[i]@ == csv_items(value@)[i],
{
    let items = csv_item_chars(value);
    let mut out: Vec<String> = Vec::new();
    let mut i: usize = 0;
    while i < items.len()
        invariant
            i <= items.len(),
            items@.len() == csv_items(value@).len(),
            forall|k: int| 0 <= k < items@.len() ==> #[trigger] items@[k]@ == csv_items(value@)[k],
            out@.len() == i,
            forall|k: int| 0 <= k < i ==> #[trigger] out@[k]@ == csv_items(value@)[k],
        decreases items.len() - i,
    {
        out.push(string_from(&items[i]));
        i += 1;
    }
    out
}

/// The items joined by `, `.
pub open spec fn join_list(items: Seq<Seq<char>>) -> Seq<char>
    decreases items.len(),
{
    if items.len() == 0 {
        Seq::empty()
    } else if items.len() == 1 {
        items[0]
    } else {
        join_list(items.drop_last()) + seq![',', ' '] + items.last()
    }
}

/// Writes a list as the settings form shows it: its items joined by `, `.
pub fn join_csv_list(values: &Vec<String>) -> (r: String)
    ensures
        r@ == join_list(Seq::new(values@.len(), |i: int| values@[i]@)),
{
    let ghost items = Seq::new(values@.len(), |i: int| values@[i]@);
    let mut out = String::new();
    let mut i: usize = 0;
    while i < values.len()
        invariant
            i <= values.len(),
            items == Seq::new(values@.len(), |i: int| values@[i]@),
            out@ == join_list(items.take(i as int)),
        decreases values.len() - i,
    {
        assert(items.take(i + 1).drop_last() == items.take(i as int));
        assert(items.take(i + 1).last() == values@[i as int]@);
        if i > 0 {
            push_char(&mut out, ',');
            push_char(&mut out, ' ');
        } else {
            assert(items.take(1)[0] == values@[0]@);
        }
        let ghost before = out@;
        let cs = chars_of(values[i].as_str());
        let mut j: usize = 0;
        while j < cs.len()
            invariant
                j <= cs.len(),
                out@ == before + cs@.take(j as int),
            decreases cs.len() - j,
        {
            push_char(&mut out, cs[j]);
            assert(cs@.take(j + 1) == cs@.take(j as int).push(cs@[j as int]));
            j += 1;
        }
        assert(cs@.take(cs.len() as int) == cs@);
        i += 1;
    }
    assert(items.take(values.len() as int) == items);
    out
}

/// An item that a comma-separated list carries unchanged: not empty, no comma, and no white
/// space at either end.
pub open spec fn plain_item(x: Seq<char>) -> bool {
    &&& x.len() > 0
    &&& !is_space(x[0])
    &&& !is_space(x.last())
    &&& forall|i: int| 0 <= i < x.len() ==> #[trigger] x[i] != ','
}

proof fn lemma_split_nonempty_len(s: Seq<char>)
    ensures
        split_on(s, ',').len() >= 1,
    decreases s.len(),
{
    if s.len() > 0 {
        lemma_split_nonempty_len(s.drop_last());
    }
}

proof fn lemma_split_concat(a: Seq<char>, b: Seq<char>)
    ensures
        split_on(a + seq![','] + b, ',') == split_on(a, ',') + split_on(b, ','),
    decreases b.len(),
{
    let ab = a + seq![','] + b;
    if b.len() == 0 {
        assert(ab == a + seq![',']);
        assert(ab.drop_last() == a);
        assert(split_on(b, ',') == seq![Seq::<char>::empty()]);
        assert(split_on(a, ',').push(Seq::<char>::empty()) == split_on(a, ',') + seq![Seq::<char>::empty()]);
    } else {
        let b2 = b.drop_last();
        assert(ab.drop_last() == a + seq![','] + b2);
        assert(ab.last() == b.last());
        lemma_split_concat(a, b2);
        lemma_split_nonempty_len(b2);
        let pa = split_on(a, ',');
        let pb = split_on(b2, ',');
        if b.last() == ',' {
            assert((pa + pb).push(Seq::<char>::empty()) == pa + pb.push(Seq::<char>::empty()));
        } else {
            let p = pa + pb;
            assert(p.last() == pb.last());
            assert(p.update(p.len() - 1, p.last().push(b.last())) == pa + pb.update(
                pb.len() - 1,
                pb.last().push(b.last()),
            ));
        }
    }
}

proof fn lemma_split_plain(x: Seq<char>)
    requires
        forall|i: int| 0 <= i < x.len() ==> #[trigger] x[i] != ',',
    ensures
        split_on(x, ',') == seq![x],
    decreases x.len(),
{
    if x.len() > 0 {
        let y = x.drop_last();
        assert forall|i: int| 0 <= i < y.len() implies #[trigger] y[i] != ',' by {
            assert(y[i] == x[i]);
        }
        lemma_split_plain(y);
        assert(x.last() != ',');
        assert(y.push(x.last()) =~= x);
        assert(seq![y].update(0, x) =~= seq![x]);
    } else {
        assert(x =~= Seq::<char>::empty());
    }
}

proof fn lemma_nonempty_trimmed_concat(p: Seq<Seq<char>>, q: Seq<Seq<char>>)
    ensures
        nonempty_trimmed(p + q) == nonempty_trimmed(p) + nonempty_trimmed(q),
    decreases q.len(),
{
    if q.len() == 0 {
        assert(p + q == p);
    } else {
        let q2 = q.drop_last();
        assert((p + q).drop_last() == p + q2);
        assert((p + q).last() == q.last());
        lemma_nonempty_trimmed_concat(p, q2);
    }
}

proof fn lemma_nonempty_trimmed_single(e: Seq<char>)
    ensures
        nonempty_trimmed(seq![e]) == if trim(e).len() > 0 {
            seq![trim(e)]
        } else {
            Seq::<Seq<char>>::empty()
        },
{
    let p = seq![e];
    assert(p.drop_last() =~= Seq::<Seq<char>>::empty());
    assert(p.last() == e);
    assert(nonempty_trimmed(Seq::<Seq<char>>::empty()) == Seq::<Seq<char>>::empty());
    assert(Seq::<Seq<char>>::empty().push(trim(e)) =~= seq![trim(e)]);
}

proof fn lemma_trim_plain(x: Seq<char>)
    requires
        plain_item(x),
    ensures
        trim(x) == x,
        trim(seq![' '] + x) == x,
{
    assert(trim_start(x) == x);
    assert(trim_end(x) == x);
    let y = seq![' '] + x;
    assert(y.drop_first() == x);
    assert(is_space(' '));
    assert(trim_start(y) == trim_start(x));
}

/// A list of plain items written as the settings form shows it reads back as the same list.
pub proof fn lemma_csv_round_trip(items: Seq<Seq<char>>)
    requires
        forall|k: int| 0 <= k < items.len() ==> #[trigger] plain_item(items[k]),
    ensures
        csv_items(join_list(items)) == items,
    decreases items.len(),
{
    if items.len() == 0 {
        assert(split_on(Seq::<char>::empty(), ',') == seq![Seq::<char>::empty()]);
        assert(trim_start(Seq::<char>::empty()) == Seq::<char>::empty());
        assert(trim(Seq::<char>::empty()) == Seq::<char>::empty());
        lemma_nonempty_trimmed_single(Seq::<char>::empty());
        assert(join_list(items) == Seq::<char>::empty());
    } else if items.len() == 1 {
        let x = items[0];
        assert(plain_item(x));
        lemma_split_plain(x);
        lemma_trim_plain(x);
        lemma_nonempty_trimmed_single(x);
        assert(join_list(items) == x);
        assert(items =~= seq![x]);
    } else {
        let init = items.drop_last();
        let x = items.last();
        assert(plain_item(x));
        assert forall|k: int| 0 <= k < init.len() implies #[trigger] plain_item(init[k]) by {
            assert(init[k] == items[k]);
        }
        lemma_csv_round_trip(init);
        let j = join_list(init);
        let tail = seq![' '] + x;
        assert(join_list(items) == j + seq![','] + tail);
        lemma_split_concat(j, tail);
        assert forall|i: int| 0 <= i < tail.len() implies #[trigger] tail[i] != ',' by {
            if i > 0 {
                assert(tail[i] == x[i - 1]);
            }
        }
        lemma_split_plain(tail);
        lemma_nonempty_trimmed_concat(split_on(j, ','), seq![tail]);
        lemma_trim_plain(x);
        lemma_nonempty_trimmed_single(tail);
        assert(init + seq![x] =~= items);
    }
}

// ---------------------------------------------------------------------------
// Searching the log
// ---------------------------------------------------------------------------
/// The lower-case form of a text under Unicode case mapping (`str::to_lowercase`).
pub uninterp spec fn lowercase(s: Seq<char>) -> Seq<char>;

/// Lower-cases a text (`str::to_lowercase`); the contract only names the result, a function
/// of the text alone.
#[verifier::external_body]
pub(crate) fn to_lowercase(s: &str) -> (r: String)
    ensures
        r@ == lowercase(s@),
{
    s.to_lowercase()
}


/// An optional text, empty when absent.
pub open spec fn or_empty(s: Option<String>) -> Seq<char> {
    match s {
        Some(t) => t@,
        None => Seq::empty(),
    }
}

/// The searchable text of a row before lower-casing: `#id`, model, provider, format, status,
/// error code and error, separated by spaces.
pub open spec fn search_text(log: ApiRequestLog) -> Seq<char> {
    seq!['#'] + decimal(log.id as nat) + seq![' '] + log.model@ + seq![' '] + log.provider@ + seq![
        ' ',
    ] + log.api_format@ + seq![' '] + log.status@ + seq![' '] + or_empty(log.error_code) + seq![
        ' ',
    ] + or_empty(log.error)
}

fn append_chars(out: &mut Vec<char>, s: &str)
    ensures
        final(out)@ == old(out)@ + s@,
{
    let cs = chars_of(s);
    let mut i: usize = 0;
    let ghost start = out@;
    while i < cs.len()
        invariant
            i <= cs.len(),
            cs@ == s@,
            out@ == start + cs@.take(i as int),
        decreases cs.len() - i,
    {
        out.push(cs[i]);
        assert(cs@.take(i + 1) == cs@.take(i as int).push(cs@[i as int]));
        i += 1;
    }
    assert(cs@.take(cs.len() as int) == cs@);
}

fn append_opt(out: &mut Vec<char>, s: &Option<String>)
    ensures
        final(out)@ == old(out)@ + or_empty(*s),
{
    match s {
        Some(t) => append_chars(out, t.as_str()),
        None => {
            assert(out@ + Seq::<char>::empty() == out@);
        },
    }
}

/// The text a search looks in: the row's search text, lower-cased.
pub fn haystack(log: &ApiRequestLog) -> (r: String)
    ensures
        r@ == lowercase(search_text(*log)),
{
    let mut v: Vec<char> = Vec::new();
    v.push('#');
    let digits = decimal_string(log.id);
    let mut i: usize = 0;
    while i < digits.len()
        invariant
            i <= digits.len(),
            v@ == seq!['#'] + digits@.take(i as int),
        decreases digits.len() - i,
    {
        v.push(digits[i]);
        assert(digits@.take(i + 1) == digits@.take(i as int).push(digits@[i as int]));
        i += 1;
    }
    assert(digits@.take(digits.len() as int) == digits@);
    v.push(' ');
    append_chars(&mut v, log.model.as_str());
    v.push(' ');
    append_chars(&mut v, log.provider.as_str());
    v.push(' ');
    append_chars(&mut v, log.api_format.as_str());
    v.push(' ');
    append_chars(&mut v, log.status.as_str());
    v.push(' ');
    append_opt(&mut v, &log.error_code);
    v.push(' ');
    append_opt(&mut v, &log.error);
    assert(v@ == search_text(*log));
    let raw = string_from(&v);
    to_lowercase(raw.as_str())
}

/// The search query as typed, trimmed and lower-cased.
pub open spec fn query_of(typed: Seq<char>) -> Seq<char> {
    lowercase(trim(typed))
}

/// Normalises a typed search query (see [`query_of`]).
pub fn normalize_query(typed: &str) -> (r: String)
    ensures
        r@ == query_of(typed@),
{
    let cs = chars_of(typed);
    let t = trimmed(&cs, 0, cs.len());
    assert(cs@.subrange(0, cs.len() as int) == cs@);
    let s = string_from(&t);
    to_lowercase(s.as_str())
}

/// Whether a row is shown: it passes the status filter; under the failed filter it has the
/// chosen failure kind, if one is chosen; it has the chosen model, if one is chosen; and its
/// haystack contains the (normalised) query, unless the query is empty.
pub open spec fn row_shown(
    log: ApiRequestLog,
    filter: StatusFilter,
    kind: Option<Seq<char>>,
    model: Option<Seq<char>>,
    query: Seq<char>,
) -> bool {
    &&& filter_accepts(filter, log.status@)
    &&& (filter != StatusFilter::Failed || kind is None || kind->0 == log.status@)
    &&& (model is None || model->0 == log.model@)
    &&& (query.len() == 0 || contains_seq(lowercase(search_text(log)), query))
}

/// Decides whether a row is shown (see [`row_shown`]).
pub fn row_visible(
    log: &ApiRequestLog,
    filter: StatusFilter,
    kind: Option<&str>,
    model: Option<&str>,
    query: &str,
) -> (b: bool)
    ensures
        b == row_shown(
            *log,
            filter,
            match kind {
                Some(k) => Some(k@),
                None => None,
            },
            match model {
                Some(m) => Some(m@),
                None => None,
            },
            query@,
        ),
{
    if !filter.matches(log.status.as_str()) {
        return false;
    }
    let kind_ok = match filter {
        StatusFilter::Failed => match kind {
            Some(k) => str_eq(k, log.status.as_str()),
            None => true,
        },
        _ => true,
    };
    if !kind_ok {
        return false;
    }
    let model_ok = match model {
        Some(m) => str_eq(m, log.model.as_str()),
        None => true,
    };
    if !model_ok {
        return false;
    }
    let q = chars_of(query);
    if q.len() == 0 {
        return true;
    }
    let hay = haystack(log);
    contains_chars(&chars_of(hay.as_str()), &q)
}


// ---------------------------------------------------------------------------
// Requests to the administration API
// ---------------------------------------------------------------------------
/// `Bearer `
pub open spec fn bearer_prefix() -> Seq<char> {
    seq!['B', 'e', 'a', 'r', 'e', 'r', ' ']
}

/// The `Authorization` header of the interface's requests: `Bearer ` followed by the stored
/// token, or by nothing when no token is stored.
pub fn auth_header(token: Option<&str>) -> (r: String)
    ensures
        r@ == bearer_prefix() + match token {
            Some(t) => t@,
            None => Seq::<char>::empty(),
        },
{
    let mut v: Vec<char> = vec!['B', 'e', 'a', 'r', 'e', 'r', ' '];
    assert(v@ == bearer_prefix());
    match token {
        Some(t) => append_chars(&mut v, t),
        None => {
            assert(v@ == bearer_prefix() + Seq::<char>::empty());
        },
    }
    string_from(&v)
}

/// The message shown for a failed request: the `error` member of a JSON error body when the
/// body is one, else `HTTP ` and the status code when the body is empty, else the body.
pub open spec fn error_message_of(body_error: Option<Seq<char>>, status: u16, body: Seq<char>) -> Seq<char> {
    match body_error {
        Some(e) => e,
        None => if body.len() == 0 {
            seq!['H', 'T', 'T', 'P', ' '] + decimal(status as nat)
        } else {
            body
        },
    }
}

/// Words the failure of a request (see [`error_message_of`]); `body_error` is the `error`
/// member of the body when the body parsed as a JSON error object.
pub fn error_message(body_error: Option<String>, status: u16, body: String) -> (r: String)
    ensures
        r@ == error_message_of(
            match body_error {
                Some(e) => Some(e@),
                None => None,
            },
            status,
            body@,
        ),
{
    match body_error {
        Some(e) => e,
        None => {
            let cs = chars_of(body.as_str());
            if cs.len() == 0 {
                let mut v: Vec<char> = vec!['H', 'T', 'T', 'P', ' '];
                let digits = decimal_string(status as u64);
                let mut i: usize = 0;
                while i < digits.len()
                    invariant
                        i <= digits.len(),
                        v@ == seq!['H', 'T', 'T', 'P', ' '] + digits@.take(i as int),
                    decreases digits.len() - i,
                {
                    v.push(digits[i]);
                    assert(digits@.take(i + 1) == digits@.take(i as int).push(digits@[i as int]));
                    i += 1;
                }
                assert(digits@.take(digits.len() as int) == digits@);
                string_from(&v)
            } else {
                body
            }
        },
    }
}


// ---------------------------------------------------------------------------
// Ages
// ---------------------------------------------------------------------------
/// How long ago a row started, as the interface words it.
#[derive(Debug, Clone, Copy, PartialEq, Eq)]
pub enum RelativeAge {
    JustNow,
    Seconds(i64),
    Minutes(i64),
    Hours(i64),
}

/// Whole seconds from `ts` to `now` (milliseconds), never negative.
pub open spec fn age_seconds(ts: i64, now: i64) -> int {
    let d = crate::request_log::sat_sub_i64(now, ts);
    (if d < 0 { 0int } else { d as int }) / 1000
}

/// The age of a row: under 10 s just now, then seconds under a minute, minutes under an hour,
/// hours under a day; older rows get no relative age.
pub fn relative_age(ts: i64, now: i64) -> (r: Option<RelativeAge>)
    ensures
        ({
            let secs = age_seconds(ts, now);
            r == if secs < 10 {
                Some(RelativeAge::JustNow)
            } else if secs < 60 {
                Some(RelativeAge::Seconds(secs as i64))
            } else if secs < 3600 {
                Some(RelativeAge::Minutes((secs / 60) as i64))
            } else if secs < 86400 {
                Some(RelativeAge::Hours((secs / 3600) as i64))
            } else {
                None
            }
        }),
{
    let d: i64 = crate::request_log::saturating_sub_i64(now, ts);
    let secs: i64 = (if d < 0 { 0 } else { d }) / 1000;
    if secs < 10 {
        Some(RelativeAge::JustNow)
    } else if secs < 60 {
        Some(RelativeAge::Seconds(secs))
    } else if secs < 3600 {
        Some(RelativeAge::Minutes(secs / 60))
    } else if secs < 86400 {
        Some(RelativeAge::Hours(secs / 3600))
    } else {
        None
    }
}

} // verus!
