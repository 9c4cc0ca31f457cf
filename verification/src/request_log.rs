//! The log of API requests: one row per incoming message request, from its start to its
//! terminal status, newest first and bounded in length.
use vstd::prelude::*;

use crate::json::{field, i64_of, u64_of, JsonValue};
use vstd::string::StringExecFns;

use crate::text::{alnum_char, chars_of, digit_char, is_alnum, is_digit, string_of};

verus! {

/// At most this many rows are kept.
pub const MAX_LOGS: usize = 500;

/// Rows listed when the caller names no limit.
pub const DEFAULT_LIST_LIMIT: usize = 100;

/// Lifecycle status of a logged request. `Pending` is the only non-terminal status.
#[derive(Debug, Clone, Copy, PartialEq, Eq)]
pub enum RequestLogStatus {
    Pending,
    Success,
    Error,
    Timeout,
    Cancelled,
    Interrupted,
}

impl Default for RequestLogStatus {
    fn default() -> (r: Self)
        ensures
            r == RequestLogStatus::Pending,
    {
        RequestLogStatus::Pending
    }
}

/// Token usage reported for a request; a counter the upstream API did not report is `None`.
#[derive(Debug, Clone, Copy, PartialEq, Eq)]
pub struct UsageSnapshot {
    pub input_tokens: Option<u64>,
    pub output_tokens: Option<u64>,
    pub cache_creation_input_tokens: Option<u64>,
    pub cache_read_input_tokens: Option<u64>,
}

impl UsageSnapshot {
    /// The snapshot with no counter reported.
    pub open spec fn none() -> Self {
        UsageSnapshot {
            input_tokens: None,
            output_tokens: None,
            cache_creation_input_tokens: None,
            cache_read_input_tokens: None,
        }
    }
}

impl Default for UsageSnapshot {
    fn default() -> (r: Self)
        ensures
            r == UsageSnapshot::none(),
    {
        UsageSnapshot {
            input_tokens: None,
            output_tokens: None,
            cache_creation_input_tokens: None,
            cache_read_input_tokens: None,
        }
    }
}

/// Owner of a pending row: whoever holds it finishes the row, and a guard dropped while the
/// row is still pending marks it cancelled (see [`RequestOutcome::Disconnected`]).
#[derive(Debug)]
pub struct RequestGuard(pub u64);

/// Query of the request-log listing.
#[derive(Debug, Clone, Copy)]
pub struct RequestLogQuery {
    pub limit: Option<usize>,
}

/// One row of the request log.
#[derive(Debug)]
pub struct ApiRequestLog {
    pub id: u64,
    pub timestamp_ms: i64,
    pub duration_ms: Option<i64>,
    pub provider: String,
    pub api_format: String,
    pub model: String,
    pub stream: bool,
    pub message_count: usize,
    pub tool_count: usize,
    pub cache_control_breakpoints: usize,
    pub estimated_context_tokens: u32,
    pub input_tokens: Option<u64>,
    pub output_tokens: Option<u64>,
    pub cache_creation_input_tokens: Option<u64>,
    pub cache_read_input_tokens: Option<u64>,
    pub status: RequestLogStatus,
    pub error_code: Option<String>,
    pub error: Option<String>,
}

pub(crate) fn clone_opt_string(s: &Option<String>) -> (r: Option<String>)
    ensures
        r == *s,
{
    match s {
        Some(t) => Some(t.clone()),
        None => None,
    }
}

impl Clone for ApiRequestLog {
    fn clone(&self) -> (r: Self)
        ensures
            r == *self,
    {
        ApiRequestLog {
            id: self.id,
            timestamp_ms: self.timestamp_ms,
            duration_ms: self.duration_ms,
            provider: self.provider.clone(),
            api_format: self.api_format.clone(),
            model: self.model.clone(),
            stream: self.stream,
            message_count: self.message_count,
            tool_count: self.tool_count,
            cache_control_breakpoints: self.cache_control_breakpoints,
            estimated_context_tokens: self.estimated_context_tokens,
            input_tokens: self.input_tokens,
            output_tokens: self.output_tokens,
            cache_creation_input_tokens: self.cache_creation_input_tokens,
            cache_read_input_tokens: self.cache_read_input_tokens,
            status: self.status,
            error_code: clone_opt_string(&self.error_code),
            error: clone_opt_string(&self.error),
        }
    }
}

// ---------------------------------------------------------------------------
// Error codes
// ---------------------------------------------------------------------------
/// `s[i..i + 3]` is a whole token (a maximal run of ASCII letters and digits) made of three
/// digits, the first of them `4` or `5`: an HTTP error status.
pub open spec fn status_token_at(s: Seq<char>, i: int) -> bool {
    &&& 0 <= i
    &&& i + 3 <= s.len()
    &&& is_digit(s[i]) && is_digit(s[i + 1]) && is_digit(s[i + 2])
    &&& (s[i] == '4' || s[i] == '5')
    &&& (i == 0 || !is_alnum(s[i - 1]))
    &&& (i + 3 == s.len() || !is_alnum(s[i + 3]))
}

/// The first HTTP error status token at or after position `i`.
pub open spec fn status_token_from(s: Seq<char>, i: int) -> Option<Seq<char>>
    decreases s.len() - i,
{
    if i < 0 || i + 3 > s.len() {
        None
    } else if status_token_at(s, i) {
        Some(s.subrange(i, i + 3))
    } else {
        status_token_from(s, i + 1)
    }
}

/// The error code of an error message: its first token that is an HTTP error status
/// (three digits starting with 4 or 5), tokens being the runs of ASCII letters and digits.
pub open spec fn error_code_of(s: Seq<char>) -> Option<Seq<char>> {
    status_token_from(s, 0)
}

/// Finds the error code of an error message (see [`error_code_of`]).
pub fn extract_error_code(error: &str) -> (r: Option<String>)
    ensures
        match r {
            Some(code) => error_code_of(error@) == Some(code@),
            None => error_code_of(error@) is None,
        },
{
    let cs = chars_of(error);
    let n = cs.len();
    if n < 3 {
        return None;
    }
    let mut i: usize = 0;
    while i < n - 2
        invariant
            n == cs.len(),
            cs@ == error@,
            n >= 3,
            i <= n - 2,
            error_code_of(error@) == status_token_from(cs@, i as int),
        decreases n - i,
    {
        let hit = digit_char(cs[i]) && digit_char(cs[i + 1]) && digit_char(cs[i + 2]) && (cs[i]
            == '4' || cs[i] == '5') && (i == 0 || !alnum_char(cs[i - 1])) && (i + 3 == n
            || !alnum_char(cs[i + 3]));
        if hit {
            return Some(string_of(&cs, i, i + 3));
        }
        i += 1;
    }
    None
}

// ---------------------------------------------------------------------------
// Usage read from the upstream JSON answers
// ---------------------------------------------------------------------------
/// A counter of a usage object: an unsigned integer as it is, a negative integer as zero.
pub open spec fn usage_number(usage: JsonValue, key: Seq<char>) -> Option<u64> {
    match field(usage, key) {
        Some(v) => match u64_of(v) {
            Some(n) => Some(n),
            None => match i64_of(v) {
                Some(n) => Some(if n < 0 { 0u64 } else { n as u64 }),
                None => None,
            },
        },
        None => None,
    }
}

/// The usage that an upstream answer reports in its `usage` member; all `None` without one.
pub open spec fn usage_of(value: JsonValue) -> UsageSnapshot {
    match field(value, seq!['u', 's', 'a', 'g', 'e']) {
        Some(u) => UsageSnapshot {
            input_tokens: usage_number(u, seq!['i', 'n', 'p', 'u', 't', '_', 't', 'o', 'k', 'e', 'n', 's']),
            output_tokens: usage_number(u, seq!['o', 'u', 't', 'p', 'u', 't', '_', 't', 'o', 'k', 'e', 'n', 's']),
            cache_creation_input_tokens: usage_number(u, cache_creation_key()),
            cache_read_input_tokens: usage_number(u, cache_read_key()),
        },
        None => UsageSnapshot::none(),
    }
}

/// `cache_creation_input_tokens`
pub open spec fn cache_creation_key() -> Seq<char> {
    seq!['c', 'a', 'c', 'h', 'e', '_', 'c', 'r', 'e', 'a', 't', 'i', 'o', 'n', '_', 'i', 'n', 'p', 'u', 't', '_', 't', 'o', 'k', 'e', 'n', 's']
}

/// `cache_read_input_tokens`
pub open spec fn cache_read_key() -> Seq<char> {
    seq!['c', 'a', 'c', 'h', 'e', '_', 'r', 'e', 'a', 'd', '_', 'i', 'n', 'p', 'u', 't', '_', 't', 'o', 'k', 'e', 'n', 's']
}

fn number(value: &JsonValue, key: &str) -> (r: Option<u64>)
    ensures
        r == usage_number(*value, key@),
{
    match value.get(key) {
        Some(v) => match v.as_u64() {
            Some(n) => Some(n),
            None => match v.as_i64() {
                Some(n) => Some(if n < 0 { 0u64 } else { n as u64 }),
                None => None,
            },
        },
        None => None,
    }
}

/// Reads the usage that an upstream answer reports (see [`usage_of`]).
pub fn usage_from_value(value: &JsonValue) -> (r: UsageSnapshot)
    ensures
        r == usage_of(*value),
{
    proof {
        reveal_strlit("usage");
        reveal_strlit("input_tokens");
        reveal_strlit("output_tokens");
        reveal_strlit("cache_creation_input_tokens");
        reveal_strlit("cache_read_input_tokens");
        assert("usage"@ =~= seq!['u', 's', 'a', 'g', 'e']);
        assert("input_tokens"@ =~= seq!['i', 'n', 'p', 'u', 't', '_', 't', 'o', 'k', 'e', 'n', 's']);
        assert("output_tokens"@ =~= seq!['o', 'u', 't', 'p', 'u', 't', '_', 't', 'o', 'k', 'e', 'n', 's']);
        assert("cache_creation_input_tokens"@ =~= cache_creation_key());
        assert("cache_read_input_tokens"@ =~= cache_read_key());
    }
    match value.get("usage") {
        Some(usage) => UsageSnapshot {
            input_tokens: number(usage, "input_tokens"),
            output_tokens: number(usage, "output_tokens"),
            cache_creation_input_tokens: number(usage, "cache_creation_input_tokens"),
            cache_read_input_tokens: number(usage, "cache_read_input_tokens"),
        },
        None => UsageSnapshot {
            input_tokens: None,
            output_tokens: None,
            cache_creation_input_tokens: None,
            cache_read_input_tokens: None,
        },
    }
}


// ---------------------------------------------------------------------------
// Rows as values
// ---------------------------------------------------------------------------
/// A row of the log as a value: its texts as character sequences.
pub struct LogRow {
    pub id: u64,
    pub timestamp_ms: i64,
    pub duration_ms: Option<i64>,
    pub provider: Seq<char>,
    pub api_format: Seq<char>,
    pub model: Seq<char>,
    pub stream: bool,
    pub message_count: usize,
    pub tool_count: usize,
    pub cache_control_breakpoints: usize,
    pub estimated_context_tokens: u32,
    pub input_tokens: Option<u64>,
    pub output_tokens: Option<u64>,
    pub cache_creation_input_tokens: Option<u64>,
    pub cache_read_input_tokens: Option<u64>,
    pub status: RequestLogStatus,
    pub error_code: Option<Seq<char>>,
    pub error: Option<Seq<char>>,
}

/// The text of an optional string.
pub open spec fn opt_text(s: Option<String>) -> Option<Seq<char>> {
    match s {
        Some(t) => Some(t@),
        None => None,
    }
}

impl View for ApiRequestLog {
    type V = LogRow;

    open spec fn view(&self) -> LogRow {
        LogRow {
            id: self.id,
            timestamp_ms: self.timestamp_ms,
            duration_ms: self.duration_ms,
            provider: self.provider@,
            api_format: self.api_format@,
            model: self.model@,
            stream: self.stream,
            message_count: self.message_count,
            tool_count: self.tool_count,
            cache_control_breakpoints: self.cache_control_breakpoints,
            estimated_context_tokens: self.estimated_context_tokens,
            input_tokens: self.input_tokens,
            output_tokens: self.output_tokens,
            cache_creation_input_tokens: self.cache_creation_input_tokens,
            cache_read_input_tokens: self.cache_read_input_tokens,
            status: self.status,
            error_code: opt_text(self.error_code),
            error: opt_text(self.error),
        }
    }
}

/// The rows of a sequence of log entries, as values.
pub open spec fn rows_of(v: Seq<ApiRequestLog>) -> Seq<LogRow> {
    Seq::new(v.len(), |i: int| v[i]@)
}

/// `a - b` in `i64`, clamped to the range of `i64` (`i64::saturating_sub`).
pub open spec fn sat_sub_i64(a: i64, b: i64) -> i64 {
    if a - b > i64::MAX {
        i64::MAX
    } else if a - b < i64::MIN {
        i64::MIN
    } else {
        (a - b) as i64
    }
}

/// Executable form of [`sat_sub_i64`].
pub fn saturating_sub_i64(a: i64, b: i64) -> (r: i64)
    ensures
        r == sat_sub_i64(a, b),
{
    let d = (a as i128) - (b as i128);
    if d > i64::MAX as i128 {
        i64::MAX
    } else if d < i64::MIN as i128 {
        i64::MIN
    } else {
        d as i64
    }
}

/// What a new row records of the request it follows.
#[derive(Debug)]
pub struct RequestStart {
    pub provider: String,
    pub api_format: String,
    pub model: String,
    pub stream: bool,
    pub message_count: usize,
    pub tool_count: usize,
    pub cache_control_breakpoints: usize,
    pub estimated_context_tokens: u32,
}

/// The pending row `id`, started at `now` (milliseconds) for the request described by `s`.
pub open spec fn new_row(id: u64, now: i64, s: RequestStart) -> LogRow {
    LogRow {
        id,
        timestamp_ms: now,
        duration_ms: None,
        provider: s.provider@,
        api_format: s.api_format@,
        model: s.model@,
        stream: s.stream,
        message_count: s.message_count,
        tool_count: s.tool_count,
        cache_control_breakpoints: s.cache_control_breakpoints,
        estimated_context_tokens: s.estimated_context_tokens,
        input_tokens: None,
        output_tokens: None,
        cache_creation_input_tokens: None,
        cache_read_input_tokens: None,
        status: RequestLogStatus::Pending,
        error_code: None,
        error: None,
    }
}

/// The row with the usage counters of `u`; its status is untouched.
pub open spec fn row_with_usage(r: LogRow, u: UsageSnapshot) -> LogRow {
    LogRow {
        input_tokens: u.input_tokens,
        output_tokens: u.output_tokens,
        cache_creation_input_tokens: u.cache_creation_input_tokens,
        cache_read_input_tokens: u.cache_read_input_tokens,
        ..r
    }
}

/// A pending row ended at `now` with `status`, `code` and `error`; a row that already has a
/// terminal status is kept as it is.
pub open spec fn row_finished(
    r: LogRow,
    status: RequestLogStatus,
    code: Option<Seq<char>>,
    error: Option<Seq<char>>,
    now: i64,
) -> LogRow {
    if r.status == RequestLogStatus::Pending {
        LogRow {
            status,
            duration_ms: Some(sat_sub_i64(now, r.timestamp_ms)),
            error_code: code,
            error,
            ..r
        }
    } else {
        r
    }
}

/// A pending row failed at `now` with the message `error`: status `Error`, and the error code
/// that the message carries.
pub open spec fn row_failed(r: LogRow, error: Seq<char>, now: i64) -> LogRow {
    row_finished(r, RequestLogStatus::Error, error_code_of(error), Some(error), now)
}

// ---------------------------------------------------------------------------
// The store as a value
// ---------------------------------------------------------------------------
/// The state of the log: whether the persisted rows were read, the last id handed out and
/// the rows, newest first.
pub struct LogState {
    pub loaded: bool,
    pub next_id: u64,
    pub rows: Seq<LogRow>,
}

/// The store's invariant: at most [`MAX_LOGS`] rows, none with an id above the last one
/// handed out.
pub open spec fn log_wf(st: LogState) -> bool {
    &&& st.rows.len() <= MAX_LOGS
    &&& forall|i: int| 0 <= i < st.rows.len() ==> #[trigger] st.rows[i].id <= st.next_id
}

/// The id that the next started request gets: one more than the last, saturating.
pub open spec fn fresh_id(st: LogState) -> u64 {
    if st.next_id == u64::MAX {
        u64::MAX
    } else {
        (st.next_id + 1) as u64
    }
}

/// `rows` cut to the first [`MAX_LOGS`].
pub open spec fn bounded(rows: Seq<LogRow>) -> Seq<LogRow> {
    if rows.len() > MAX_LOGS {
        rows.take(MAX_LOGS as int)
    } else {
        rows
    }
}

/// The log after a request started at `now`: a new pending row with a fresh id in front,
/// the oldest row dropped when the log would grow beyond [`MAX_LOGS`].
pub open spec fn started(st: LogState, s: RequestStart, now: i64) -> LogState {
    let id = fresh_id(st);
    LogState { loaded: st.loaded, next_id: id, rows: bounded(seq![new_row(id, now, s)] + st.rows) }
}

/// Index of the first row `id` at or after `i`, or `rows.len()`.
pub open spec fn find_from(rows: Seq<LogRow>, id: u64, i: int) -> int
    decreases rows.len() - i,
{
    if i < 0 || i >= rows.len() {
        rows.len() as int
    } else if rows[i].id == id {
        i
    } else {
        find_from(rows, id, i + 1)
    }
}

/// Index of the (first) row `id`, or `rows.len()` where there is none.
pub open spec fn find_row(rows: Seq<LogRow>, id: u64) -> int {
    find_from(rows, id, 0)
}

/// The log with the row `id` replaced by `f(row)`; unchanged when there is no such row.
pub open spec fn update_row(st: LogState, id: u64, f: spec_fn(LogRow) -> LogRow) -> LogState {
    let i = find_row(st.rows, id);
    if i < st.rows.len() {
        LogState { rows: st.rows.update(i, f(st.rows[i])), ..st }
    } else {
        st
    }
}

/// The log after usage arrived for request `id`.
pub open spec fn usage_recorded(st: LogState, id: u64, u: UsageSnapshot) -> LogState {
    update_row(st, id, |r: LogRow| row_with_usage(r, u))
}

/// The log after request `id` failed at `now` with the message `error`.
pub open spec fn error_recorded(st: LogState, id: u64, error: Seq<char>, now: i64) -> LogState {
    update_row(st, id, |r: LogRow| row_failed(r, error, now))
}

/// The log after request `id` ended at `now` with `status`, `code` and `error`.
pub open spec fn finished(
    st: LogState,
    id: u64,
    status: RequestLogStatus,
    code: Option<Seq<char>>,
    error: Option<Seq<char>>,
    now: i64,
) -> LogState {
    update_row(st, id, |r: LogRow| row_finished(r, status, code, error, now))
}

/// How many rows a listing with `limit` returns from `st`: the limit (100 when none is
/// given), at most [`MAX_LOGS`], at most the number of rows.
pub open spec fn listed_len(st: LogState, limit: Option<usize>) -> int {
    let l = match limit {
        Some(n) => n as int,
        None => DEFAULT_LIST_LIMIT as int,
    };
    let l = if l > MAX_LOGS { MAX_LOGS as int } else { l };
    if l > st.rows.len() {
        st.rows.len() as int
    } else {
        l
    }
}


// ---------------------------------------------------------------------------
// Restoring persisted rows
// ---------------------------------------------------------------------------
/// `a` is listed before `b`: it is more recent, or as recent with a larger id.
pub open spec fn goes_before(a: LogRow, b: LogRow) -> bool {
    a.timestamp_ms > b.timestamp_ms || (a.timestamp_ms == b.timestamp_ms && a.id > b.id)
}

/// Where a stable insertion puts `x` into the ordered `s`: before the first row that `x`
/// goes before, searching from `i`.
pub open spec fn insert_pos(s: Seq<LogRow>, x: LogRow, i: int) -> int
    decreases s.len() - i,
{
    if i < 0 || i >= s.len() {
        s.len() as int
    } else if goes_before(x, s[i]) {
        i
    } else {
        insert_pos(s, x, i + 1)
    }
}

/// The rows `s` ordered most recent first (by timestamp, then id), rows that compare equal
/// keeping their order: the result of a stable sort.
pub open spec fn sort_recent(s: Seq<LogRow>) -> Seq<LogRow>
    decreases s.len(),
{
    if s.len() == 0 {
        s
    } else {
        let rest = sort_recent(s.drop_last());
        rest.insert(insert_pos(rest, s.last(), 0), s.last())
    }
}

/// No row goes before one listed ahead of it.
pub open spec fn ordered_recent(s: Seq<LogRow>) -> bool {
    forall|i: int, j: int| 0 <= i < j < s.len() ==> !goes_before(#[trigger] s[j], #[trigger] s[i])
}

/// Error code given to a row that was still pending when the service stopped.
pub open spec fn interrupted_code() -> Seq<char> {
    "INTERRUPTED"@
}

/// Message given to a row that was still pending when the service stopped.
pub open spec fn interrupted_message() -> Seq<char> {
    "服务启动时发现未收尾的历史请求；实际结束时间及原因未记录，无法确定上游错误。"@
}

/// A persisted row as it is restored: a row left pending becomes interrupted, with no
/// duration and the fixed code and message; any other row is kept.
pub open spec fn restored_row(r: LogRow) -> LogRow {
    if r.status == RequestLogStatus::Pending {
        LogRow {
            status: RequestLogStatus::Interrupted,
            duration_ms: None,
            error_code: Some(interrupted_code()),
            error: Some(interrupted_message()),
            ..r
        }
    } else {
        r
    }
}

/// The persisted rows as they are restored: most recent first, cut to [`MAX_LOGS`],
/// pending rows marked interrupted.
pub open spec fn restored_rows(p: Seq<LogRow>) -> Seq<LogRow> {
    let b = bounded(sort_recent(p));
    Seq::new(b.len(), |i: int| restored_row(b[i]))
}

/// The largest id among `rows`, 0 for none.
pub open spec fn max_id(rows: Seq<LogRow>) -> u64
    decreases rows.len(),
{
    if rows.len() == 0 {
        0
    } else {
        let m = max_id(rows.drop_last());
        if rows.last().id > m {
            rows.last().id
        } else {
            m
        }
    }
}

/// The log after its first access: rows read from storage (if any could be read) replace it,
/// ids continuing from the largest restored one; later accesses change nothing.
pub open spec fn loaded_from(st: LogState, persisted: Option<Seq<LogRow>>) -> LogState {
    if st.loaded {
        st
    } else {
        match persisted {
            None => LogState { loaded: true, ..st },
            Some(p) => {
                let rows = restored_rows(p);
                LogState { loaded: true, next_id: max_id(rows), rows }
            },
        }
    }
}

proof fn lemma_max_id(rows: Seq<LogRow>)
    ensures
        forall|i: int| 0 <= i < rows.len() ==> #[trigger] rows[i].id <= max_id(rows),
    decreases rows.len(),
{
    if rows.len() > 0 {
        lemma_max_id(rows.drop_last());
        assert forall|i: int| 0 <= i < rows.len() implies #[trigger] rows[i].id <= max_id(rows) by {
            if i < rows.len() - 1 {
                assert(rows[i] == rows.drop_last()[i]);
            }
        }
    }
}

proof fn lemma_insert_pos(s: Seq<LogRow>, x: LogRow, i: int)
    requires
        0 <= i <= s.len(),
    ensures
        i <= insert_pos(s, x, i) <= s.len(),
        forall|k: int| i <= k < insert_pos(s, x, i) ==> !goes_before(x, #[trigger] s[k]),
        insert_pos(s, x, i) < s.len() ==> goes_before(x, s[insert_pos(s, x, i)]),
    decreases s.len() - i,
{
    if i < s.len() && !goes_before(x, s[i]) {
        lemma_insert_pos(s, x, i + 1);
    }
}

proof fn lemma_sort_recent(s: Seq<LogRow>)
    ensures
        ordered_recent(sort_recent(s)),
        sort_recent(s).to_multiset() == s.to_multiset(),
        sort_recent(s).len() == s.len(),
    decreases s.len(),
{
    if s.len() > 0 {
        let rest = sort_recent(s.drop_last());
        let x = s.last();
        lemma_sort_recent(s.drop_last());
        lemma_insert_pos(rest, x, 0);
        let k = insert_pos(rest, x, 0);
        let r = rest.insert(k, x);
        assert forall|i: int, j: int| 0 <= i < j < r.len() implies !goes_before(
            #[trigger] r[j],
            #[trigger] r[i],
        ) by {
            if j < k {
                assert(r[i] == rest[i] && r[j] == rest[j]);
            } else if j == k {
                assert(r[i] == rest[i]);
                assert(!goes_before(x, rest[i]));
                if goes_before(x, rest[i]) {
                }
                // x goes after rest[i]; since !goes_before(x, rest[i]), either rest[i] goes
                // before x or they tie, and in both cases x does not go before rest[i].
            } else if i == k {
                assert(r[j] == rest[j - 1]);
                if k < rest.len() {
                    assert(goes_before(x, rest[k]));
                    if j - 1 > k {
                        assert(!goes_before(rest[j - 1], rest[k]));
                    }
                }
            } else if i < k {
                assert(r[i] == rest[i] && r[j] == rest[j - 1]);
            } else {
                assert(r[i] == rest[i - 1] && r[j] == rest[j - 1]);
            }
        }
        broadcast use vstd::seq_lib::group_seq_properties;
        broadcast use vstd::multiset::group_multiset_properties;
        broadcast use vstd::multiset::group_multiset_axioms;
        assert(s.drop_last().push(x) == s);
        assert(r.to_multiset() == rest.to_multiset().insert(x)) by {
            vstd::seq_lib::lemma_multiset_commutative(rest.take(k), rest.skip(k));
            vstd::seq_lib::lemma_multiset_commutative(rest.take(k).push(x), rest.skip(k));
            assert(rest == rest.take(k) + rest.skip(k));
            assert(r == rest.take(k).push(x) + rest.skip(k));
        }
    }
}

/// Restoring orders the persisted rows most recent first and keeps at most [`MAX_LOGS`] of
/// them; every kept row is a persisted row (possibly marked interrupted), none stays pending,
/// and the id counter is at least every restored id.
pub proof fn lemma_restore_ordered(p: Seq<LogRow>)
    ensures
        ({
            let r = restored_rows(p);
            &&& r.len() <= MAX_LOGS
            &&& r.len() == if p.len() > MAX_LOGS { MAX_LOGS as int } else { p.len() as int }
            &&& ordered_recent(r)
            &&& forall|i: int| 0 <= i < r.len() ==> #[trigger] r[i].status != RequestLogStatus::Pending
            &&& forall|i: int| 0 <= i < r.len() ==> #[trigger] r[i].id <= max_id(r)
        }),
{
    lemma_sort_recent(p);
    let b = bounded(sort_recent(p));
    let r = restored_rows(p);
    lemma_max_id(r);
    assert forall|i: int, j: int| 0 <= i < j < r.len() implies !goes_before(
        #[trigger] r[j],
        #[trigger] r[i],
    ) by {
        assert(b[i] == sort_recent(p)[i] && b[j] == sort_recent(p)[j]);
    }
}

/// Sorting keeps exactly the persisted rows: the sorted rows are a permutation of them.
pub proof fn lemma_sort_is_permutation(p: Seq<LogRow>)
    ensures
        sort_recent(p).to_multiset() == p.to_multiset(),
        ordered_recent(sort_recent(p)),
{
    lemma_sort_recent(p);
}


// ---------------------------------------------------------------------------
// The store
// ---------------------------------------------------------------------------
/// The request log kept in memory; the service persists it after each change.
#[derive(Debug)]
pub struct RequestLogStore {
    loaded: bool,
    next_id: u64,
    logs: Vec<ApiRequestLog>,
}

impl View for RequestLogStore {
    type V = LogState;

    closed spec fn view(&self) -> LogState {
        LogState { loaded: self.loaded, next_id: self.next_id, rows: rows_of(self.logs@) }
    }
}

impl RequestLogStore {
    /// The store always satisfies [`log_wf`].
    #[verifier::type_invariant]
    closed spec fn inv(self) -> bool {
        log_wf(self@)
    }
}

fn clone_rows(v: &Vec<ApiRequestLog>, n: usize) -> (r: Vec<ApiRequestLog>)
    requires
        n <= v.len(),
    ensures
        rows_of(r@) == rows_of(v@).take(n as int),
        r@ == v@.take(n as int),
{
    let mut out: Vec<ApiRequestLog> = Vec::new();
    let mut i: usize = 0;
    while i < n
        invariant
            n <= v.len(),
            i <= n,
            out@ == v@.take(i as int),
        decreases n - i,
    {
        out.push(v[i].clone());
        assert(v@.take(i + 1) == v@.take(i as int).push(v@[i as int]));
        i += 1;
    }
    assert(rows_of(out@) == rows_of(v@).take(n as int));
    out
}

impl RequestLogStore {
    /// An empty log whose persisted rows are not read yet.
    pub fn new() -> (r: Self)
        ensures
            r@ == (LogState { loaded: false, next_id: 0, rows: Seq::empty() }),
            log_wf(r@),
    {
        let r = RequestLogStore { loaded: false, next_id: 0, logs: Vec::new() };
        assert(rows_of(r.logs@) == Seq::<LogRow>::empty());
        r
    }

    /// Whether the persisted rows were read already.
    pub fn is_loaded(&self) -> (b: bool)
        ensures
            b == self@.loaded,
    {
        self.loaded
    }

    /// The last id handed out.
    pub fn last_id(&self) -> (r: u64)
        ensures
            r == self@.next_id,
    {
        self.next_id
    }

    /// The number of rows.
    pub fn len(&self) -> (r: usize)
        ensures
            r == self@.rows.len(),
    {
        self.logs.len()
    }

    fn position(&self, id: u64) -> (r: usize)
        ensures
            r == find_row(self@.rows, id),
            r <= self@.rows.len(),
    {
        let mut i: usize = 0;
        while i < self.logs.len()
            invariant
                i <= self.logs.len(),
                find_row(self@.rows, id) == find_from(self@.rows, id, i as int),
            decreases self.logs.len() - i,
        {
            if self.logs[i].id == id {
                return i;
            }
            i += 1;
        }
        i
    }

    /// Reads the rows `persisted` on first access (see [`loaded_from`]); `persisted` is
    /// `None` when storage is off or holds no readable log. Returns whether rows were
    /// restored, so that the log is to be written back.
    pub fn load(&mut self, persisted: Option<Vec<ApiRequestLog>>) -> (restored: bool)
        ensures
            final(self)@ == loaded_from(
                old(self)@,
                match persisted {
                    Some(p) => Some(rows_of(p@)),
                    None => None,
                },
            ),
            restored == (!old(self)@.loaded && persisted is Some),
            log_wf(final(self)@),
    {
        proof {
            use_type_invariant(&*self);
        }
        if self.loaded {
            return false;
        }
        self.loaded = true;
        match persisted {
            None => false,
            Some(p) => {
                let rows = restore_rows(&p);
                proof {
                    lemma_restore_ordered(rows_of(p@));
                }
                let m = max_row_id(&rows);
                *self = RequestLogStore { loaded: true, next_id: m, logs: rows };
                true
            },
        }
    }

    /// Starts the row of a new request at `now` (milliseconds) and returns its id (see
    /// [`started`]).
    pub fn record_start_at(&mut self, start: RequestStart, now: i64) -> (id: u64)
        ensures
            id == fresh_id(old(self)@),
            final(self)@ == started(old(self)@, start, now),
            log_wf(final(self)@),
    {
        proof {
            use_type_invariant(&*self);
        }
        let id = self.next_id.saturating_add(1);
        let ghost s = start;
        let row = ApiRequestLog {
            id,
            timestamp_ms: now,
            duration_ms: None,
            provider: start.provider,
            api_format: start.api_format,
            model: start.model,
            stream: start.stream,
            message_count: start.message_count,
            tool_count: start.tool_count,
            cache_control_breakpoints: start.cache_control_breakpoints,
            estimated_context_tokens: start.estimated_context_tokens,
            input_tokens: None,
            output_tokens: None,
            cache_creation_input_tokens: None,
            cache_read_input_tokens: None,
            status: RequestLogStatus::Pending,
            error_code: None,
            error: None,
        };
        assert(row@ == new_row(id, now, s));
        let ghost st0 = self@;
        let mut logs: Vec<ApiRequestLog> = Vec::new();
        std::mem::swap(&mut logs, &mut self.logs);
        let ghost before = logs@;
        assert(rows_of(before) == st0.rows);
        logs.insert(0, row);
        assert(rows_of(logs@) == seq![new_row(id, now, s)] + rows_of(before));
        if logs.len() > MAX_LOGS {
            let ghost full = logs@;
            logs.truncate(MAX_LOGS);
            assert(rows_of(logs@) == rows_of(full).take(MAX_LOGS as int));
        }
        proof {
            lemma_wf_preserved_start(st0, s, now);
        }
        *self = RequestLogStore { loaded: self.loaded, next_id: id, logs };
        id
    }

    /// Starts the row of a new request at the current time (see [`started`]).
    pub fn record_start(&mut self, start: RequestStart) -> (id: u64)
        ensures
            id == fresh_id(old(self)@),
            exists|now: i64| final(self)@ == started(old(self)@, start, now),
            log_wf(final(self)@),
    {
        let now = crate::clock::now_millis();
        self.record_start_at(start, now)
    }

    /// Records the usage reported for request `id`; its status is untouched. Returns whether
    /// the row exists.
    pub fn record_success(&mut self, id: u64, usage: UsageSnapshot) -> (found: bool)
        ensures
            final(self)@ == usage_recorded(old(self)@, id, usage),
            found == (find_row(old(self)@.rows, id) < old(self)@.rows.len()),
            log_wf(final(self)@),
    {
        proof {
            use_type_invariant(&*self);
        }
        let i = self.position(id);
        if i == self.logs.len() {
            return false;
        }
        let mut row = self.logs[i].clone();
        row.input_tokens = usage.input_tokens;
        row.output_tokens = usage.output_tokens;
        row.cache_creation_input_tokens = usage.cache_creation_input_tokens;
        row.cache_read_input_tokens = usage.cache_read_input_tokens;
        let mut logs: Vec<ApiRequestLog> = Vec::new();
        std::mem::swap(&mut logs, &mut self.logs);
        let ghost before = logs@;
        logs.set(i, row);
        assert(rows_of(logs@) == rows_of(before).update(i as int, row_with_usage(before[i as int]@, usage)));
        assert(forall|j: int| 0 <= j < logs@.len() ==> #[trigger] rows_of(logs@)[j].id == rows_of(before)[j].id);
        self.logs = logs;
        true
    }

    /// Ends the pending row `id` at `now` with `status`, `code` and `error`; a row with a
    /// terminal status is left as it is (see [`finished`]). Returns whether the row exists.
    pub fn finish_at(
        &mut self,
        id: u64,
        status: RequestLogStatus,
        code: Option<String>,
        error: Option<String>,
        now: i64,
    ) -> (found: bool)
        ensures
            final(self)@ == finished(old(self)@, id, status, opt_text(code), opt_text(error), now),
            found == (find_row(old(self)@.rows, id) < old(self)@.rows.len()),
            log_wf(final(self)@),
    {
        proof {
            use_type_invariant(&*self);
        }
        let i = self.position(id);
        if i == self.logs.len() {
            return false;
        }
        let ghost before = self.logs@;
        let ghost c = opt_text(code);
        let ghost e = opt_text(error);
        match self.logs[i].status {
            RequestLogStatus::Pending => {
                let mut row = self.logs[i].clone();
                row.status = status;
                row.duration_ms = Some(saturating_sub_i64(now, row.timestamp_ms));
                row.error_code = code;
                row.error = error;
                let mut logs: Vec<ApiRequestLog> = Vec::new();
                std::mem::swap(&mut logs, &mut self.logs);
                logs.set(i, row);
                assert(rows_of(logs@) == rows_of(before).update(
                    i as int,
                    row_finished(before[i as int]@, status, c, e, now),
                ));
                assert(forall|j: int| 0 <= j < logs@.len() ==> #[trigger] rows_of(logs@)[j].id == rows_of(before)[j].id);
                self.logs = logs;
            },
            _ => {
                assert(rows_of(self.logs@) == rows_of(before).update(
                    i as int,
                    row_finished(before[i as int]@, status, c, e, now),
                ));
            },
        }
        true
    }

    /// Ends the pending row `id` at the current time (see [`finished`]).
    pub fn finish(
        &mut self,
        id: u64,
        status: RequestLogStatus,
        code: Option<String>,
        error: Option<String>,
    ) -> (found: bool)
        ensures
            exists|now: i64|
                final(self)@ == finished(
                    old(self)@,
                    id,
                    status,
                    opt_text(code),
                    opt_text(error),
                    now,
                ),
            found == (find_row(old(self)@.rows, id) < old(self)@.rows.len()),
            log_wf(final(self)@),
    {
        let now = crate::clock::now_millis();
        self.finish_at(id, status, code, error, now)
    }

    /// Marks the pending row `id` failed at `now` with the message `error` and the error code
    /// it carries (see [`error_recorded`]). Returns whether the row exists.
    pub fn record_error_at(&mut self, id: u64, error: String, now: i64) -> (found: bool)
        ensures
            final(self)@ == error_recorded(old(self)@, id, error@, now),
            found == (find_row(old(self)@.rows, id) < old(self)@.rows.len()),
            log_wf(final(self)@),
    {
        let code = extract_error_code(error.as_str());
        let ghost e = error@;
        let found = self.finish_at(id, RequestLogStatus::Error, code, Some(error), now);
        assert(opt_text(code) == error_code_of(e));
        assert(finished(old(self)@, id, RequestLogStatus::Error, error_code_of(e), Some(e), now)
            == error_recorded(old(self)@, id, e, now));
        found
    }

    /// Marks the pending row `id` failed at the current time (see [`error_recorded`]).
    pub fn record_error(&mut self, id: u64, error: String) -> (found: bool)
        ensures
            exists|now: i64| final(self)@ == error_recorded(old(self)@, id, error@, now),
            found == (find_row(old(self)@.rows, id) < old(self)@.rows.len()),
            log_wf(final(self)@),
    {
        let now = crate::clock::now_millis();
        self.record_error_at(id, error, now)
    }

    /// The newest rows, as many as [`listed_len`] says.
    pub fn list(&self, limit: Option<usize>) -> (r: Vec<ApiRequestLog>)
        ensures
            rows_of(r@) == self@.rows.take(listed_len(self@, limit)),
    {
        let mut l = match limit {
            Some(n) => n,
            None => DEFAULT_LIST_LIMIT,
        };
        if l > MAX_LOGS {
            l = MAX_LOGS;
        }
        if l > self.logs.len() {
            l = self.logs.len();
        }
        clone_rows(&self.logs, l)
    }

    /// Every row, newest first (what is persisted).
    pub fn snapshot(&self) -> (r: Vec<ApiRequestLog>)
        ensures
            rows_of(r@) == self@.rows,
    {
        let r = clone_rows(&self.logs, self.logs.len());
        assert(rows_of(self.logs@).take(self.logs@.len() as int) == rows_of(self.logs@));
        r
    }

    /// Removes every row; ids keep counting from the last one handed out, so a request that
    /// started before the clearing never shares its id with a later one.
    pub fn clear(&mut self)
        ensures
            final(self)@ == (LogState { rows: Seq::empty(), ..old(self)@ }),
            log_wf(final(self)@),
    {
        self.logs = Vec::new();
        assert(rows_of(self.logs@) == Seq::<LogRow>::empty());
    }
}

fn insert_position(out: &Vec<ApiRequestLog>, x: &ApiRequestLog) -> (k: usize)
    ensures
        k == insert_pos(rows_of(out@), x@, 0),
{
    let mut k: usize = 0;
    while k < out.len()
        invariant
            k <= out.len(),
            insert_pos(rows_of(out@), x@, 0) == insert_pos(rows_of(out@), x@, k as int),
        decreases out.len() - k,
    {
        let o = &out[k];
        if x.timestamp_ms > o.timestamp_ms || (x.timestamp_ms == o.timestamp_ms && x.id > o.id) {
            return k;
        }
        k += 1;
    }
    k
}

/// The rows `p` as they are restored (see [`restored_rows`]).
fn restore_rows(p: &Vec<ApiRequestLog>) -> (r: Vec<ApiRequestLog>)
    ensures
        rows_of(r@) == restored_rows(rows_of(p@)),
{
    // stable insertion sort, most recent first
    let mut out: Vec<ApiRequestLog> = Vec::new();
    let mut i: usize = 0;
    while i < p.len()
        invariant
            i <= p.len(),
            rows_of(out@) == sort_recent(rows_of(p@).take(i as int)),
        decreases p.len() - i,
    {
        let x = p[i].clone();
        let k = insert_position(&out, &x);
        proof {
            lemma_insert_pos(rows_of(out@), x@, 0);
            assert(rows_of(p@).take(i + 1).drop_last() == rows_of(p@).take(i as int));
            assert(rows_of(p@).take(i + 1).last() == x@);
        }
        let ghost before = out@;
        out.insert(k, x);
        assert(rows_of(out@) == rows_of(before).insert(k as int, x@));
        i += 1;
    }
    assert(rows_of(p@).take(p.len() as int) == rows_of(p@));
    if out.len() > MAX_LOGS {
        let ghost full = out@;
        out.truncate(MAX_LOGS);
        assert(rows_of(out@) == rows_of(full).take(MAX_LOGS as int));
    }
    // rows left pending are marked interrupted
    let ghost b = rows_of(out@);
    let mut j: usize = 0;
    while j < out.len()
        invariant
            j <= out.len(),
            b.len() == out.len(),
            forall|m: int| 0 <= m < j ==> #[trigger] rows_of(out@)[m] == restored_row(b[m]),
            forall|m: int| j <= m < out.len() ==> #[trigger] rows_of(out@)[m] == b[m],
        decreases out.len() - j,
    {
        match out[j].status {
            RequestLogStatus::Pending => {
                let mut row = out[j].clone();
                row.status = RequestLogStatus::Interrupted;
                row.duration_ms = None;
                row.error_code = Some(String::from_str("INTERRUPTED"));
                row.error = Some(
                    String::from_str(
                        "服务启动时发现未收尾的历史请求；实际结束时间及原因未记录，无法确定上游错误。",
                    ),
                );
                assert(row@.error_code == Some(interrupted_code()));
                assert(row@.error == Some(interrupted_message()));
                assert(rows_of(out@)[j as int] == b[j as int]);
                assert(row@ == restored_row(b[j as int]));
                let ghost before = out@;
                out.set(j, row);
                assert(rows_of(out@) == rows_of(before).update(j as int, restored_row(b[j as int])));
            },
            _ => {},
        }
        j += 1;
    }
    assert(rows_of(out@) == restored_rows(rows_of(p@)));
    out
}

fn max_row_id(rows: &Vec<ApiRequestLog>) -> (m: u64)
    ensures
        m == max_id(rows_of(rows@)),
{
    let mut m: u64 = 0;
    let mut i: usize = 0;
    while i < rows.len()
        invariant
            i <= rows.len(),
            m == max_id(rows_of(rows@).take(i as int)),
        decreases rows.len() - i,
    {
        assert(rows_of(rows@).take(i + 1).drop_last() == rows_of(rows@).take(i as int));
        if rows[i].id > m {
            m = rows[i].id;
        }
        i += 1;
    }
    assert(rows_of(rows@).take(rows.len() as int) == rows_of(rows@));
    m
}


// ---------------------------------------------------------------------------
// Lifecycle of a tracked request
// ---------------------------------------------------------------------------
/// How a tracked request ended, as its owner observes it.
#[derive(Debug)]
pub enum RequestOutcome {
    /// The upstream request failed before any response, with this message.
    UpstreamFailed(String),
    /// The deadline passed, before the response or while its body was delivered; the message
    /// describes the timeout.
    DeadlineExceeded(String),
    /// Reading the response body failed with this message.
    BodyFailed(String),
    /// The whole response body was delivered.
    Completed,
    /// The downstream connection went away (the request's guard was dropped).
    Disconnected,
}

/// Prefix of the message recorded when the response body cannot be read.
pub open spec fn body_failure_prefix() -> Seq<char> {
    "响应流读取失败: "@
}

/// Error code recorded for a timeout.
pub open spec fn timeout_code() -> Seq<char> {
    "504"@
}

/// Error code recorded for a disconnected client.
pub open spec fn disconnect_code() -> Seq<char> {
    "CLIENT_DISCONNECTED"@
}

/// Message recorded for a disconnected client.
pub open spec fn disconnect_message() -> Seq<char> {
    "下游连接断开或请求被取消；可能由客户端或反向代理中止，Clewdr 无法获知对方的具体原因。"@
}

/// The log after request `id` ended at `now` as `outcome` says: an upstream or body failure
/// is an error (the body failure's message prefixed), a passed deadline a timeout with code
/// 504, a delivered body a success, and a disconnection a cancellation. Only a pending row
/// changes.
pub open spec fn outcome_recorded(st: LogState, id: u64, outcome: RequestOutcome, now: i64) -> LogState {
    match outcome {
        RequestOutcome::UpstreamFailed(e) => error_recorded(st, id, e@, now),
        RequestOutcome::DeadlineExceeded(e) => finished(
            st,
            id,
            RequestLogStatus::Timeout,
            Some(timeout_code()),
            Some(e@),
            now,
        ),
        RequestOutcome::BodyFailed(e) => error_recorded(st, id, body_failure_prefix() + e@, now),
        RequestOutcome::Completed => finished(st, id, RequestLogStatus::Success, None, None, now),
        RequestOutcome::Disconnected => finished(
            st,
            id,
            RequestLogStatus::Cancelled,
            Some(disconnect_code()),
            Some(disconnect_message()),
            now,
        ),
    }
}

impl RequestLogStore {
    /// Records how request `id` ended, at `now` (see [`outcome_recorded`]).
    pub fn record_outcome_at(&mut self, id: u64, outcome: RequestOutcome, now: i64) -> (found: bool)
        ensures
            final(self)@ == outcome_recorded(old(self)@, id, outcome, now),
            found == (find_row(old(self)@.rows, id) < old(self)@.rows.len()),
            log_wf(final(self)@),
    {
        match outcome {
            RequestOutcome::UpstreamFailed(e) => self.record_error_at(id, e, now),
            RequestOutcome::DeadlineExceeded(e) => self.finish_at(
                id,
                RequestLogStatus::Timeout,
                Some(String::from_str("504")),
                Some(e),
                now,
            ),
            RequestOutcome::BodyFailed(e) => {
                let msg = String::from_str("响应流读取失败: ").concat(e.as_str());
                self.record_error_at(id, msg, now)
            },
            RequestOutcome::Completed => self.finish_at(
                id,
                RequestLogStatus::Success,
                None,
                None,
                now,
            ),
            RequestOutcome::Disconnected => self.finish_at(
                id,
                RequestLogStatus::Cancelled,
                Some(String::from_str("CLIENT_DISCONNECTED")),
                Some(
                    String::from_str(
                        "下游连接断开或请求被取消；可能由客户端或反向代理中止，Clewdr 无法获知对方的具体原因。",
                    ),
                ),
                now,
            ),
        }
    }

    /// Records how request `id` ended, at the current time (see [`outcome_recorded`]).
    pub fn record_outcome(&mut self, id: u64, outcome: RequestOutcome) -> (found: bool)
        ensures
            exists|now: i64| final(self)@ == outcome_recorded(old(self)@, id, outcome, now),
            found == (find_row(old(self)@.rows, id) < old(self)@.rows.len()),
            log_wf(final(self)@),
    {
        let now = crate::clock::now_millis();
        self.record_outcome_at(id, outcome, now)
    }
}

// ---------------------------------------------------------------------------
// Following a tracked request
// ---------------------------------------------------------------------------
/// Where the owner of a tracked request is: waiting for the response, delivering its body,
/// or done.
#[derive(Debug, Clone, Copy, PartialEq, Eq)]
pub enum TrackPhase {
    AwaitingResponse,
    DeliveringBody,
    Closed,
}

/// What the owner observed next. The deadline covers the request and the body alike.
#[derive(Debug)]
pub enum TrackEvent {
    /// The upstream request answered with a response.
    Responded,
    /// The upstream request failed; the message describes the error.
    RequestFailed(String),
    /// A chunk of the response body arrived.
    Chunk,
    /// Reading the response body failed with this message.
    BodyFailed(String),
    /// The response body ended.
    BodyEnded,
    /// The deadline passed; the message describes the timeout.
    DeadlineElapsed(String),
}

/// What the owner does about an event.
#[derive(Debug)]
pub enum TrackAction {
    /// Pass the response on and follow its body.
    FollowBody,
    /// Pass the chunk on.
    PassChunk,
    /// Record how the request ended; the caller or the body stream then sees an error when
    /// `fails` holds.
    Finish { outcome: RequestOutcome, fails: bool },
    /// Nothing is left to do.
    Ignore,
}

/// The next phase and action: the response starts the body; a chunk is passed on; a failure,
/// the end of the body or the deadline ends the request with the matching outcome (all but the
/// end of the body being errors); anything else, and everything once closed, is ignored.
pub open spec fn track_step_of(phase: TrackPhase, event: TrackEvent) -> (TrackPhase, TrackAction) {
    match (phase, event) {
        (TrackPhase::AwaitingResponse, TrackEvent::Responded) => (TrackPhase::DeliveringBody, TrackAction::FollowBody),
        (TrackPhase::AwaitingResponse, TrackEvent::RequestFailed(m)) => (
            TrackPhase::Closed,
            TrackAction::Finish { outcome: RequestOutcome::UpstreamFailed(m), fails: true },
        ),
        (TrackPhase::AwaitingResponse, TrackEvent::DeadlineElapsed(m)) => (
            TrackPhase::Closed,
            TrackAction::Finish { outcome: RequestOutcome::DeadlineExceeded(m), fails: true },
        ),
        (TrackPhase::DeliveringBody, TrackEvent::Chunk) => (TrackPhase::DeliveringBody, TrackAction::PassChunk),
        (TrackPhase::DeliveringBody, TrackEvent::BodyFailed(m)) => (
            TrackPhase::Closed,
            TrackAction::Finish { outcome: RequestOutcome::BodyFailed(m), fails: true },
        ),
        (TrackPhase::DeliveringBody, TrackEvent::BodyEnded) => (
            TrackPhase::Closed,
            TrackAction::Finish { outcome: RequestOutcome::Completed, fails: false },
        ),
        (TrackPhase::DeliveringBody, TrackEvent::DeadlineElapsed(m)) => (
            TrackPhase::Closed,
            TrackAction::Finish { outcome: RequestOutcome::DeadlineExceeded(m), fails: true },
        ),
        (p, _) => (p, TrackAction::Ignore),
    }
}

/// Decides what follows an event of a tracked request (see [`track_step_of`]).
pub fn track_step(phase: TrackPhase, event: TrackEvent) -> (r: (TrackPhase, TrackAction))
    ensures
        r == track_step_of(phase, event),
{
    match phase {
        TrackPhase::AwaitingResponse => match event {
            TrackEvent::Responded => (TrackPhase::DeliveringBody, TrackAction::FollowBody),
            TrackEvent::RequestFailed(m) => (
                TrackPhase::Closed,
                TrackAction::Finish { outcome: RequestOutcome::UpstreamFailed(m), fails: true },
            ),
            TrackEvent::DeadlineElapsed(m) => (
                TrackPhase::Closed,
                TrackAction::Finish { outcome: RequestOutcome::DeadlineExceeded(m), fails: true },
            ),
            _ => (phase, TrackAction::Ignore),
        },
        TrackPhase::DeliveringBody => match event {
            TrackEvent::Chunk => (TrackPhase::DeliveringBody, TrackAction::PassChunk),
            TrackEvent::BodyFailed(m) => (
                TrackPhase::Closed,
                TrackAction::Finish { outcome: RequestOutcome::BodyFailed(m), fails: true },
            ),
            TrackEvent::BodyEnded => (
                TrackPhase::Closed,
                TrackAction::Finish { outcome: RequestOutcome::Completed, fails: false },
            ),
            TrackEvent::DeadlineElapsed(m) => (
                TrackPhase::Closed,
                TrackAction::Finish { outcome: RequestOutcome::DeadlineExceeded(m), fails: true },
            ),
            _ => (phase, TrackAction::Ignore),
        },
        TrackPhase::Closed => (phase, TrackAction::Ignore),
    }
}

/// A passed deadline in an open phase always ends the request as timed out, with the
/// deadline's message and an error for the caller or the body stream; a request counts as
/// completed only when its body ended while it was being delivered, and that is the only
/// ending without an error.
pub proof fn lemma_track_outcomes(phase: TrackPhase, event: TrackEvent)
    ensures
        ({
            let (next, action) = track_step_of(phase, event);
            &&& phase != TrackPhase::Closed && event is DeadlineElapsed ==> next == TrackPhase::Closed
                && action == TrackAction::Finish {
                outcome: RequestOutcome::DeadlineExceeded(event->DeadlineElapsed_0),
                fails: true,
            }
            &&& action is Finish ==> ((action->outcome == RequestOutcome::Completed) <==> (phase
                == TrackPhase::DeliveringBody && event is BodyEnded))
            &&& action is Finish ==> (!action->fails <==> action->outcome == RequestOutcome::Completed)
            &&& phase == TrackPhase::AwaitingResponse && event is RequestFailed ==> action
                == TrackAction::Finish { outcome: RequestOutcome::UpstreamFailed(event->RequestFailed_0), fails: true }
            &&& phase == TrackPhase::DeliveringBody && event is BodyFailed ==> action
                == TrackAction::Finish { outcome: RequestOutcome::BodyFailed(event->BodyFailed_0), fails: true }
        }),
{
}

/// A tracked request is finished at most once and only by closing: an outcome is recorded
/// exactly when the phase turns to closed, and nothing follows once it is closed; the deadline
/// always closes an open request.
pub proof fn lemma_track_finishes_once(phase: TrackPhase, event: TrackEvent)
    ensures
        ({
            let (next, action) = track_step_of(phase, event);
            &&& (action is Finish) <==> (phase != TrackPhase::Closed && next == TrackPhase::Closed)
            &&& phase == TrackPhase::Closed ==> next == TrackPhase::Closed && action is Ignore
            &&& (phase != TrackPhase::Closed && event is DeadlineElapsed) ==> next == TrackPhase::Closed
        }),
{
}


// ---------------------------------------------------------------------------
// The request deadline
// ---------------------------------------------------------------------------
/// The deadline, in seconds, when none is configured.
pub const DEFAULT_TIMEOUT_SECONDS: u64 = 270;

/// Numeric value of a sequence of decimal digits.
pub open spec fn decimal_value(d: Seq<char>) -> nat
    decreases d.len(),
{
    if d.len() == 0 {
        0
    } else {
        decimal_value(d.drop_last()) * 10 + ((d.last() as u32) - ('0' as u32)) as nat
    }
}

/// The digits of an unsigned decimal: the text without its optional leading `+`.
pub open spec fn decimal_digits(s: Seq<char>) -> Seq<char> {
    if s.len() > 0 && s[0] == '+' {
        s.skip(1)
    } else {
        s
    }
}

/// The `u64` that the text denotes, as `str::parse::<u64>` reads it: an optional `+` and at
/// least one ASCII digit, nothing else, and a value that fits.
pub open spec fn parse_u64_text(s: Seq<char>) -> Option<u64> {
    let d = decimal_digits(s);
    if d.len() > 0 && (forall|i: int| 0 <= i < d.len() ==> is_digit(#[trigger] d[i]))
        && decimal_value(d) <= u64::MAX {
        Some(decimal_value(d) as u64)
    } else {
        None
    }
}

/// The request deadline in seconds from the configured text: a positive `u64`, or 270 when
/// the text is absent, is no `u64`, or is zero.
pub open spec fn timeout_from(raw: Option<Seq<char>>) -> u64 {
    match raw {
        Some(s) => match parse_u64_text(s) {
            Some(v) => if v > 0 {
                v
            } else {
                DEFAULT_TIMEOUT_SECONDS
            },
            None => DEFAULT_TIMEOUT_SECONDS,
        },
        None => DEFAULT_TIMEOUT_SECONDS,
    }
}

proof fn lemma_decimal_grows(d: Seq<char>, i: int, j: int)
    requires
        0 <= i <= j <= d.len(),
        forall|k: int| 0 <= k < d.len() ==> is_digit(#[trigger] d[k]),
    ensures
        decimal_value(d.take(i)) <= decimal_value(d.take(j)),
    decreases j - i,
{
    if i < j {
        lemma_decimal_grows(d, i, j - 1);
        assert(d.take(j).drop_last() == d.take(j - 1));
    }
}

/// Parses an unsigned decimal (see [`parse_u64_text`]).
pub fn parse_u64(s: &str) -> (r: Option<u64>)
    ensures
        r == parse_u64_text(s@),
{
    let cs = chars_of(s);
    let start: usize = if cs.len() > 0 && cs[0] == '+' { 1 } else { 0 };
    let ghost d = decimal_digits(s@);
    assert(d == cs@.skip(start as int));
    if cs.len() == start {
        return None;
    }
    let mut v: u64 = 0;
    let mut i: usize = start;
    while i < cs.len()
        invariant
            cs@ == s@,
            start <= i <= cs.len(),
            d == cs@.skip(start as int),
            d == decimal_digits(s@),
            forall|k: int| 0 <= k < i - start ==> is_digit(#[trigger] d[k]),
            v as nat == decimal_value(d.take(i - start)),
        decreases cs.len() - i,
    {
        let c = cs[i];
        assert(d[i - start] == c);
        if !digit_char(c) {
            assert(!is_digit(d[i - start]));
            return None;
        }
        assert(d.take(i - start + 1).drop_last() == d.take(i - start));
        assert(d.take(i - start + 1).last() == c);
        assert(decimal_value(d.take(i - start + 1)) == v * 10 + ((c as u32) - ('0' as u32)));
        let dig = (c as u32 - '0' as u32) as u64;
        match v.checked_mul(10) {
            Some(t) => match t.checked_add(dig) {
                Some(n) => {
                    v = n;
                },
                None => {
                    proof {
                        if forall|k: int| 0 <= k < d.len() ==> is_digit(#[trigger] d[k]) {
                            lemma_decimal_grows(d, i - start + 1, d.len() as int);
                            assert(d.take(d.len() as int) == d);
                        }
                    }
                    return None;
                },
            },
            None => {
                proof {
                    if forall|k: int| 0 <= k < d.len() ==> is_digit(#[trigger] d[k]) {
                        lemma_decimal_grows(d, i - start + 1, d.len() as int);
                        assert(d.take(d.len() as int) == d);
                    }
                }
                return None;
            },
        }
        i += 1;
    }
    assert(d.take(i - start) == d);
    Some(v)
}

/// The request deadline in seconds from the configured text (see [`timeout_from`]).
pub fn timeout_seconds(raw: Option<&str>) -> (r: u64)
    ensures
        r == timeout_from(
            match raw {
                Some(s) => Some(s@),
                None => None,
            },
        ),
        r > 0,
{
    match raw {
        Some(s) => match parse_u64(s) {
            Some(v) => if v > 0 {
                v
            } else {
                DEFAULT_TIMEOUT_SECONDS
            },
            None => DEFAULT_TIMEOUT_SECONDS,
        },
        None => DEFAULT_TIMEOUT_SECONDS,
    }
}


// ---------------------------------------------------------------------------
// Laws of the request log
// ---------------------------------------------------------------------------
proof fn lemma_find_from(rows: Seq<LogRow>, id: u64, i: int)
    requires
        0 <= i <= rows.len(),
    ensures
        i <= find_from(rows, id, i) <= rows.len(),
        find_from(rows, id, i) < rows.len() ==> rows[find_from(rows, id, i)].id == id,
        forall|k: int| i <= k < find_from(rows, id, i) ==> #[trigger] rows[k].id != id,
    decreases rows.len() - i,
{
    if i < rows.len() && rows[i].id != id {
        lemma_find_from(rows, id, i + 1);
    }
}

/// The row found for `id` is the first row with that id.
pub proof fn lemma_find_row(rows: Seq<LogRow>, id: u64)
    ensures
        0 <= find_row(rows, id) <= rows.len(),
        find_row(rows, id) < rows.len() ==> rows[find_row(rows, id)].id == id,
        forall|k: int| 0 <= k < find_row(rows, id) ==> #[trigger] rows[k].id != id,
{
    lemma_find_from(rows, id, 0);
}

/// A request started while the counter is below `u64::MAX` gets an id above every id in the
/// log, so it shares its id with no other row; its pending row comes first and the older
/// rows follow in their order, the oldest dropped beyond [`MAX_LOGS`].
pub proof fn lemma_started_fresh(st: LogState, s: RequestStart, now: i64)
    requires
        log_wf(st),
        st.next_id < u64::MAX,
    ensures
        ({
            let n = started(st, s, now);
            let id = fresh_id(st);
            &&& id == st.next_id + 1
            &&& n.next_id == id
            &&& forall|i: int| 0 <= i < st.rows.len() ==> #[trigger] st.rows[i].id < id
            &&& n.rows[0] == new_row(id, now, s)
            &&& n.rows[0].status == RequestLogStatus::Pending
            &&& n.rows.len() == if st.rows.len() + 1 > MAX_LOGS {
                MAX_LOGS as int
            } else {
                st.rows.len() + 1int
            }
            &&& forall|i: int| 1 <= i < n.rows.len() ==> #[trigger] n.rows[i] == st.rows[i - 1]
            &&& log_wf(n)
        }),
{
    let n = started(st, s, now);
    let all = seq![new_row(fresh_id(st), now, s)] + st.rows;
    assert forall|i: int| 1 <= i < n.rows.len() implies #[trigger] n.rows[i] == st.rows[i - 1] by {
        assert(n.rows[i] == all[i]);
    }
    assert(n.rows[0] == all[0]);
    assert forall|i: int| 0 <= i < n.rows.len() implies #[trigger] n.rows[i].id <= n.next_id by {
        assert(n.rows[i] == all[i]);
        if i > 0 {
            assert(all[i] == st.rows[i - 1]);
        }
    }
}

/// Once a row has a terminal status it keeps it: ending it again, failing it or recording
/// another outcome leaves the whole log as it was.
pub proof fn lemma_terminal_is_final(
    st: LogState,
    id: u64,
    status: RequestLogStatus,
    code: Option<Seq<char>>,
    error: Option<Seq<char>>,
    message: Seq<char>,
    outcome: RequestOutcome,
    now: i64,
)
    requires
        find_row(st.rows, id) < st.rows.len(),
        st.rows[find_row(st.rows, id)].status != RequestLogStatus::Pending,
    ensures
        finished(st, id, status, code, error, now) == st,
        error_recorded(st, id, message, now) == st,
        outcome_recorded(st, id, outcome, now) == st,
{
    lemma_find_row(st.rows, id);
    let i = find_row(st.rows, id);
    assert(st.rows.update(i, st.rows[i]) =~= st.rows);
    match outcome {
        RequestOutcome::UpstreamFailed(e) => {},
        RequestOutcome::DeadlineExceeded(e) => {},
        RequestOutcome::BodyFailed(e) => {},
        RequestOutcome::Completed => {},
        RequestOutcome::Disconnected => {},
    }
}

/// Usage that arrives for a request changes only that row's usage counters: no status, and
/// no other row, ever changes through it.
pub proof fn lemma_usage_keeps_status(st: LogState, id: u64, u: UsageSnapshot)
    ensures
        ({
            let n = usage_recorded(st, id, u);
            &&& n.rows.len() == st.rows.len()
            &&& n.next_id == st.next_id
            &&& forall|i: int| 0 <= i < st.rows.len() ==> #[trigger] n.rows[i].status == st.rows[i].status
            &&& forall|i: int|
                0 <= i < st.rows.len() && i != find_row(st.rows, id) ==> #[trigger] n.rows[i]
                    == st.rows[i]
        }),
{
    lemma_find_row(st.rows, id);
}

/// Ending a pending row gives it the outcome's status, code, message and elapsed time;
/// every other row stays as it was.
pub proof fn lemma_finish_pending(
    st: LogState,
    id: u64,
    status: RequestLogStatus,
    code: Option<Seq<char>>,
    error: Option<Seq<char>>,
    now: i64,
)
    requires
        find_row(st.rows, id) < st.rows.len(),
        st.rows[find_row(st.rows, id)].status == RequestLogStatus::Pending,
    ensures
        ({
            let i = find_row(st.rows, id);
            let n = finished(st, id, status, code, error, now);
            &&& n.rows.len() == st.rows.len()
            &&& n.rows[i].id == id
            &&& n.rows[i].status == status
            &&& n.rows[i].error_code == code
            &&& n.rows[i].error == error
            &&& n.rows[i].duration_ms == Some(sat_sub_i64(now, st.rows[i].timestamp_ms))
            &&& forall|k: int| 0 <= k < st.rows.len() && k != i ==> #[trigger] n.rows[k] == st.rows[k]
        }),
{
    lemma_find_row(st.rows, id);
}

/// However a tracked request ends (completed, failed, timed out or disconnected), its row is
/// no longer pending afterwards: no outcome leaves a pending row behind.
pub proof fn lemma_outcome_ends_pending(st: LogState, id: u64, outcome: RequestOutcome, now: i64)
    requires
        find_row(st.rows, id) < st.rows.len(),
    ensures
        outcome_recorded(st, id, outcome, now).rows.len() == st.rows.len(),
        outcome_recorded(st, id, outcome, now).rows[find_row(st.rows, id)].status
            != RequestLogStatus::Pending,
{
    lemma_find_row(st.rows, id);
    match outcome {
        RequestOutcome::UpstreamFailed(e) => {},
        RequestOutcome::DeadlineExceeded(e) => {},
        RequestOutcome::BodyFailed(e) => {},
        RequestOutcome::Completed => {},
        RequestOutcome::Disconnected => {},
    }
}

proof fn lemma_wf_preserved_start(st: LogState, s: RequestStart, now: i64)
    requires
        log_wf(st),
    ensures
        log_wf(started(st, s, now)),
{
    let all = seq![new_row(fresh_id(st), now, s)] + st.rows;
    let n = started(st, s, now);
    assert forall|i: int| 0 <= i < n.rows.len() implies #[trigger] n.rows[i].id <= n.next_id by {
        assert(n.rows[i] == all[i]);
        if i > 0 {
            assert(all[i] == st.rows[i - 1]);
        }
    }
}

/// The id counter never goes back: starting a request raises it, every other change keeps
/// it, clearing included; after a clearing the next request's id is above every id handed
/// out before.
pub proof fn lemma_ids_never_reused(
    st: LogState,
    s: RequestStart,
    id: u64,
    status: RequestLogStatus,
    code: Option<Seq<char>>,
    error: Option<Seq<char>>,
    message: Seq<char>,
    u: UsageSnapshot,
    outcome: RequestOutcome,
    now: i64,
)
    requires
        log_wf(st),
        st.next_id < u64::MAX,
    ensures
        started(st, s, now).next_id > st.next_id,
        finished(st, id, status, code, error, now).next_id == st.next_id,
        error_recorded(st, id, message, now).next_id == st.next_id,
        usage_recorded(st, id, u).next_id == st.next_id,
        outcome_recorded(st, id, outcome, now).next_id == st.next_id,
        fresh_id(LogState { rows: Seq::empty(), ..st }) > st.next_id,
        forall|i: int| 0 <= i < st.rows.len() ==> #[trigger] st.rows[i].id < fresh_id(
            LogState { rows: Seq::empty(), ..st },
        ),
{
    match outcome {
        RequestOutcome::UpstreamFailed(e) => {},
        RequestOutcome::DeadlineExceeded(e) => {},
        RequestOutcome::BodyFailed(e) => {},
        RequestOutcome::Completed => {},
        RequestOutcome::Disconnected => {},
    }
}

/// Every change keeps the log within [`MAX_LOGS`] rows and its ids within the counter.
pub proof fn lemma_wf_preserved(
    st: LogState,
    s: RequestStart,
    id: u64,
    status: RequestLogStatus,
    code: Option<Seq<char>>,
    error: Option<Seq<char>>,
    u: UsageSnapshot,
    outcome: RequestOutcome,
    now: i64,
)
    requires
        log_wf(st),
    ensures
        log_wf(started(st, s, now)),
        log_wf(finished(st, id, status, code, error, now)),
        log_wf(usage_recorded(st, id, u)),
        log_wf(outcome_recorded(st, id, outcome, now)),
        log_wf(LogState { rows: Seq::empty(), ..st }),
{
    lemma_wf_preserved_start(st, s, now);
    lemma_find_row(st.rows, id);
    assert forall|k: int| 0 <= k < st.rows.len() implies (#[trigger] finished(st, id, status, code, error, now).rows[k]).id == st.rows[k].id by {}
    assert forall|k: int| 0 <= k < st.rows.len() implies (#[trigger] usage_recorded(st, id, u).rows[k]).id == st.rows[k].id by {}
    match outcome {
        RequestOutcome::UpstreamFailed(e) => {
            assert forall|k: int| 0 <= k < st.rows.len() implies (#[trigger] error_recorded(st, id, e@, now).rows[k]).id == st.rows[k].id by {}
        },
        RequestOutcome::DeadlineExceeded(e) => {
            assert forall|k: int| 0 <= k < st.rows.len() implies (#[trigger] finished(st, id, RequestLogStatus::Timeout, Some(timeout_code()), Some(e@), now).rows[k]).id == st.rows[k].id by {}
        },
        RequestOutcome::BodyFailed(e) => {
            assert forall|k: int| 0 <= k < st.rows.len() implies (#[trigger] error_recorded(st, id, body_failure_prefix() + e@, now).rows[k]).id == st.rows[k].id by {}
        },
        RequestOutcome::Completed => {
            assert forall|k: int| 0 <= k < st.rows.len() implies (#[trigger] finished(st, id, RequestLogStatus::Success, None, None, now).rows[k]).id == st.rows[k].id by {}
        },
        RequestOutcome::Disconnected => {
            assert forall|k: int| 0 <= k < st.rows.len() implies (#[trigger] finished(st, id, RequestLogStatus::Cancelled, Some(disconnect_code()), Some(disconnect_message()), now).rows[k]).id == st.rows[k].id by {}
        },
    }
}


// ---------------------------------------------------------------------------
// Prompt-cache breakpoints of a request
// ---------------------------------------------------------------------------
/// `cache_control`
pub open spec fn cache_control_key() -> Seq<char> {
    seq!['c', 'a', 'c', 'h', 'e', '_', 'c', 'o', 'n', 't', 'r', 'o', 'l']
}

/// `v` is an object whose `cache_control` member is present and not `null`.
pub open spec fn marks_cache(v: JsonValue) -> bool {
    match field(v, cache_control_key()) {
        Some(c) => !(c is Null),
        None => false,
    }
}

/// How many of `items` mark a cache breakpoint.
pub open spec fn count_marked(items: Seq<JsonValue>) -> nat
    decreases items.len(),
{
    if items.len() == 0 {
        0
    } else {
        count_marked(items.drop_last()) + if marks_cache(items.last()) {
            1nat
        } else {
            0nat
        }
    }
}

/// Cache breakpoints of a system prompt: each marked block of an array, or the prompt itself
/// when it is a marked object.
pub open spec fn system_breakpoints(system: Option<JsonValue>) -> nat {
    match system {
        Some(JsonValue::Array(items)) => count_marked(items@),
        Some(v) => match v {
            JsonValue::Object(_) => if marks_cache(v) {
                1nat
            } else {
                0nat
            },
            _ => 0nat,
        },
        None => 0,
    }
}

/// The content of a message as far as cache breakpoints go: plain text, or content blocks
/// (each as its JSON serialisation).
#[derive(Debug)]
pub enum MessageContent {
    Text,
    Blocks { content: Vec<JsonValue> },
}

/// Cache breakpoints among the blocks of the messages.
pub open spec fn message_breakpoints(messages: Seq<MessageContent>) -> nat
    decreases messages.len(),
{
    if messages.len() == 0 {
        0
    } else {
        message_breakpoints(messages.drop_last()) + match messages.last() {
            MessageContent::Text => 0nat,
            MessageContent::Blocks { content } => count_marked(content@),
        }
    }
}

/// All cache breakpoints of a request: in its system prompt, its message blocks and its tools
/// (each tool as its JSON serialisation).
pub open spec fn request_breakpoints(
    system: Option<JsonValue>,
    messages: Seq<MessageContent>,
    tools: Option<Seq<JsonValue>>,
) -> nat {
    system_breakpoints(system) + message_breakpoints(messages) + match tools {
        Some(t) => count_marked(t),
        None => 0nat,
    }
}

/// Whether `v` marks a cache breakpoint (see [`marks_cache`]).
pub fn has_cache_control(v: &JsonValue) -> (b: bool)
    ensures
        b == marks_cache(*v),
{
    proof {
        reveal_strlit("cache_control");
        assert("cache_control"@ =~= cache_control_key());
    }
    match v.get("cache_control") {
        Some(c) => !c.is_null(),
        None => false,
    }
}

proof fn lemma_count_marked_bound(items: Seq<JsonValue>)
    ensures
        count_marked(items) <= items.len(),
    decreases items.len(),
{
    if items.len() > 0 {
        lemma_count_marked_bound(items.drop_last());
    }
}

fn count_marked_items(items: &Vec<JsonValue>) -> (n: usize)
    ensures
        n == count_marked(items@),
{
    let mut n: usize = 0;
    let mut i: usize = 0;
    while i < items.len()
        invariant
            i <= items.len(),
            n == count_marked(items@.take(i as int)),
        decreases items.len() - i,
    {
        proof {
            assert(items@.take(i + 1).drop_last() == items@.take(i as int));
            lemma_count_marked_bound(items@.take(i as int));
        }
        if has_cache_control(&items[i]) {
            n += 1;
        }
        i += 1;
    }
    assert(items@.take(items.len() as int) == items@);
    n
}

/// Cache breakpoints of a system prompt (see [`system_breakpoints`]).
pub fn count_cache_controls_in_value(value: Option<&JsonValue>) -> (n: usize)
    ensures
        n == system_breakpoints(
            match value {
                Some(v) => Some(*v),
                None => None,
            },
        ),
{
    match value {
        Some(JsonValue::Array(items)) => count_marked_items(items),
        Some(v) => match v {
            JsonValue::Object(_) => if has_cache_control(v) {
                1
            } else {
                0
            },
            _ => 0,
        },
        None => 0,
    }
}

/// All cache breakpoints of a request (see [`request_breakpoints`]).
pub fn count_cache_control_breakpoints(
    system: Option<&JsonValue>,
    messages: &Vec<MessageContent>,
    tools: Option<&Vec<JsonValue>>,
) -> (n: usize)
    requires
        request_breakpoints(
            match system {
                Some(v) => Some(*v),
                None => None,
            },
            messages@,
            match tools {
                Some(t) => Some(t@),
                None => None,
            },
        ) <= usize::MAX,
    ensures
        n == request_breakpoints(
            match system {
                Some(v) => Some(*v),
                None => None,
            },
            messages@,
            match tools {
                Some(t) => Some(t@),
                None => None,
            },
        ),
{
    let ghost total = request_breakpoints(
        match system {
            Some(v) => Some(*v),
            None => None,
        },
        messages@,
        match tools {
            Some(t) => Some(t@),
            None => None,
        },
    );
    let system_count = count_cache_controls_in_value(system);
    let mut message_count: usize = 0;
    let mut i: usize = 0;
    while i < messages.len()
        invariant
            i <= messages.len(),
            message_count == message_breakpoints(messages@.take(i as int)),
            message_breakpoints(messages@) <= usize::MAX,
        decreases messages.len() - i,
    {
        proof {
            assert(messages@.take(i + 1).drop_last() == messages@.take(i as int));
            lemma_breakpoints_prefix(messages@, i + 1);
        }
        match &messages[i] {
            MessageContent::Text => {},
            MessageContent::Blocks { content } => {
                let c = count_marked_items(content);
                message_count = message_count + c;
            },
        }
        i += 1;
    }
    assert(messages@.take(messages.len() as int) == messages@);
    let tool_count = match tools {
        Some(t) => count_marked_items(t),
        None => 0,
    };
    system_count + message_count + tool_count
}

proof fn lemma_breakpoints_prefix(messages: Seq<MessageContent>, k: int)
    requires
        0 <= k <= messages.len(),
    ensures
        message_breakpoints(messages.take(k)) <= message_breakpoints(messages),
    decreases messages.len(),
{
    if k < messages.len() {
        assert(messages.drop_last().take(k) == messages.take(k));
        lemma_breakpoints_prefix(messages.drop_last(), k);
    } else {
        assert(messages.take(k) == messages);
    }
}

} // verus!
