//! Decisions of the code-assistant backend: model families, request headers, retries, token
//! counting, streamed usage and the refresh of the cookie's window boundaries.
use vstd::prelude::*;

use crate::clock::{parse_rfc3339_seconds, rfc3339_seconds};
use crate::cookie::{CookieStatus, ModelFamily};
use crate::error::ClewdrError;
use crate::json::{field, u64_of, JsonValue};
use crate::request_log::UsageSnapshot;
use crate::text::{
    chars_of, contains_chars, contains_seq, csv_item_chars, csv_items, ends_with_chars,
    ends_with_seq, lower_chars, lower_seq, push_char, string_from, string_of,
};
use crate::types::{Reason, UsageBreakdown};

verus! {

// ---------------------------------------------------------------------------
// Model family
// ---------------------------------------------------------------------------
/// The family of a model by its name: Opus when the lower-cased name contains `opus`,
/// else Sonnet when it contains `sonnet`, else other.
pub open spec fn family_of(model: Seq<char>) -> ModelFamily {
    let m = lower_seq(model);
    if contains_seq(m, seq!['o', 'p', 'u', 's']) {
        ModelFamily::Opus
    } else if contains_seq(m, seq!['s', 'o', 'n', 'n', 'e', 't']) {
        ModelFamily::Sonnet
    } else {
        ModelFamily::Other
    }
}

/// The family of a model (see [`family_of`]).
pub fn classify_model(model: &str) -> (f: ModelFamily)
    ensures
        f == family_of(model@),
{
    let m = lower_chars(&chars_of(model));
    let opus = vec!['o', 'p', 'u', 's'];
    let sonnet = vec!['s', 'o', 'n', 'n', 'e', 't'];
    assert(opus@ == seq!['o', 'p', 'u', 's']);
    assert(sonnet@ == seq!['s', 'o', 'n', 'n', 'e', 't']);
    if contains_chars(&m, &opus) {
        ModelFamily::Opus
    } else if contains_chars(&m, &sonnet) {
        ModelFamily::Sonnet
    } else {
        ModelFamily::Other
    }
}

/// The model name without its 1M-context marker `-1M`, when it ends with one.
pub open spec fn base_model(model: Seq<char>) -> Seq<char> {
    if ends_with_seq(model, seq!['-', '1', 'M']) {
        model.take(model.len() - 3)
    } else {
        model
    }
}

/// Removes the 1M-context marker from a model name (see [`base_model`]).
pub fn strip_context_suffix(model: &str) -> (r: String)
    ensures
        r@ == base_model(model@),
{
    let cs = chars_of(model);
    let suffix = vec!['-', '1', 'M'];
    assert(suffix@ == seq!['-', '1', 'M']);
    if ends_with_chars(&cs, &suffix) {
        string_of(&cs, 0, cs.len() - 3)
    } else {
        string_from(&cs)
    }
}

// ---------------------------------------------------------------------------
// The anthropic-beta header
// ---------------------------------------------------------------------------
/// The beta feature that every request names.
pub open spec fn beta_base() -> Seq<char> {
    seq!['o', 'a', 'u', 't', 'h', '-', '2', '0', '2', '5', '-', '0', '4', '-', '2', '0']
}

/// `base` followed by `,` and each of `items`.
pub open spec fn join_after(base: Seq<char>, items: Seq<Seq<char>>) -> Seq<char>
    decreases items.len(),
{
    if items.len() == 0 {
        base
    } else {
        join_after(base, items.drop_last()) + seq![','] + items.last()
    }
}

/// The `anthropic-beta` header: the base feature, then the configured extra features (the
/// comma-separated items of `extra`, trimmed, empty ones left out), joined by commas.
pub open spec fn beta_header(extra: Option<Seq<char>>) -> Seq<char> {
    match extra {
        Some(e) => join_after(beta_base(), csv_items(e)),
        None => beta_base(),
    }
}

/// Builds the `anthropic-beta` header (see [`beta_header`]).
pub fn build_beta_header(extra: Option<&str>) -> (r: String)
    ensures
        r@ == beta_header(
            match extra {
                Some(e) => Some(e@),
                None => None,
            },
        ),
{
    let base = vec!['o', 'a', 'u', 't', 'h', '-', '2', '0', '2', '5', '-', '0', '4', '-', '2', '0'];
    assert(base@ == beta_base());
    let mut out = string_from(&base);
    match extra {
        None => out,
        Some(e) => {
            let items = csv_item_chars(e);
            let mut i: usize = 0;
            while i < items.len()
                invariant
                    i <= items.len(),
                    items@.len() == csv_items(e@).len(),
                    forall|k: int| 0 <= k < items@.len() ==> #[trigger] items@[k]@ == csv_items(e@)[k],
                    out@ == join_after(beta_base(), csv_items(e@).take(i as int)),
                decreases items.len() - i,
            {
                assert(csv_items(e@).take(i + 1).drop_last() == csv_items(e@).take(i as int));
                assert(csv_items(e@).take(i + 1).last() == items@[i as int]@);
                let ghost before = out@;
                push_char(&mut out, ',');
                let item = &items[i];
                let mut j: usize = 0;
                while j < item.len()
                    invariant
                        j <= item.len(),
                        out@ == before + seq![','] + item@.take(j as int),
                    decreases item.len() - j,
                {
                    push_char(&mut out, item[j]);
                    assert(item@.take(j + 1) == item@.take(j as int).push(item@[j as int]));
                    j += 1;
                }
                assert(item@.take(item.len() as int) == item@);
                i += 1;
            }
            assert(csv_items(e@).take(items.len() as int) == csv_items(e@));
            out
        },
    }
}

// ---------------------------------------------------------------------------
// Retries
// ---------------------------------------------------------------------------
/// What to do after an attempt failed.
#[derive(Debug, PartialEq, Eq)]
pub enum RetryStep {
    /// Return the cookie with this reason and try again with another one.
    ReturnCookieAndRetry(Reason),
    /// Return the cookie with this reason and stop: every attempt is used up
    /// ([`ClewdrError::TooManyRetries`]).
    ReturnCookieAndStop(Reason),
    /// Stop with this error.
    Fail(ClewdrError),
}

/// After attempt `attempt` (counting from 0) of at most `max_retries + 1` failed with `e`:
/// a rejected cookie is returned and the request retried while attempts remain; any other
/// error ends the request.
pub open spec fn retry_step_of(attempt: u64, max_retries: u64, e: ClewdrError) -> RetryStep {
    match e {
        ClewdrError::InvalidCookie { reason } => if attempt < max_retries {
            RetryStep::ReturnCookieAndRetry(reason)
        } else {
            RetryStep::ReturnCookieAndStop(reason)
        },
        _ => RetryStep::Fail(e),
    }
}

/// Decides what follows a failed attempt (see [`retry_step_of`]).
pub fn retry_step(attempt: u64, max_retries: u64, e: ClewdrError) -> (r: RetryStep)
    ensures
        r == retry_step_of(attempt, max_retries, e),
{
    match e {
        ClewdrError::InvalidCookie { reason } => if attempt < max_retries {
            RetryStep::ReturnCookieAndRetry(reason)
        } else {
            RetryStep::ReturnCookieAndStop(reason)
        },
        _ => RetryStep::Fail(e),
    }
}

/// A retry is only ever decided while attempts remain, so a request makes at most
/// `max_retries + 1` attempts; an error other than a rejected cookie is never retried.
pub proof fn lemma_retry_bounded(attempt: u64, max_retries: u64, e: ClewdrError)
    ensures
        retry_step_of(attempt, max_retries, e) is ReturnCookieAndRetry ==> attempt + 1 <= max_retries,
        !(e is InvalidCookie) ==> retry_step_of(attempt, max_retries, e) == RetryStep::Fail(e),
{
}

// ---------------------------------------------------------------------------
// Token counting
// ---------------------------------------------------------------------------
/// How a token-count request is served.
#[derive(Debug, PartialEq, Eq)]
pub enum CountTokensRoute {
    /// Estimate locally; `persist_disallowed` says whether to store on the cookie that it may
    /// not call the endpoint.
    Local { persist_disallowed: bool },
    /// Call the upstream token counting endpoint.
    Remote,
}

/// A cookie known to be refused by the counting endpoint, or a request from the web backend
/// while web counting is off, is served locally; otherwise the endpoint is called.
pub open spec fn count_tokens_route_of(
    cookie_allowed: Option<bool>,
    for_web: bool,
    web_counting_enabled: bool,
) -> CountTokensRoute {
    let disallowed = cookie_allowed == Some(false);
    if disallowed || (for_web && !web_counting_enabled) {
        CountTokensRoute::Local { persist_disallowed: disallowed }
    } else {
        CountTokensRoute::Remote
    }
}

/// Decides how a token-count request is served (see [`count_tokens_route_of`]).
pub fn count_tokens_route(cookie_allowed: Option<bool>, for_web: bool, web_counting_enabled: bool) -> (r: CountTokensRoute)
    ensures
        r == count_tokens_route_of(cookie_allowed, for_web, web_counting_enabled),
{
    let disallowed = match cookie_allowed {
        Some(false) => true,
        _ => false,
    };
    if disallowed || (for_web && !web_counting_enabled) {
        CountTokensRoute::Local { persist_disallowed: disallowed }
    } else {
        CountTokensRoute::Remote
    }
}

/// The error says the cookie may not use the counting endpoint: HTTP 401, 403 or 404.
pub open spec fn counting_unauthorized(e: ClewdrError) -> bool {
    match e {
        ClewdrError::ClaudeHttpError { code } => code == 401 || code == 403 || code == 404,
        _ => false,
    }
}

/// Whether the error says the cookie may not use the counting endpoint.
pub fn is_count_tokens_unauthorized(e: &ClewdrError) -> (b: bool)
    ensures
        b == counting_unauthorized(*e),
{
    match e {
        ClewdrError::ClaudeHttpError { code } => *code == 401 || *code == 403 || *code == 404,
        _ => false,
    }
}

/// What follows a failed call of the counting endpoint.
#[derive(Debug, PartialEq, Eq)]
pub struct CountTokensFailure {
    /// Store on the cookie that it may not call the endpoint.
    pub persist_disallowed: bool,
    /// Answer with the local estimate instead of the error.
    pub fallback_local: bool,
}

/// After the counting endpoint failed with `e`: an authorization failure is remembered on
/// the cookie and, where a fallback is allowed, answered with the local estimate; any other
/// failure is passed on.
pub fn count_tokens_failure(e: &ClewdrError, allow_fallback: bool) -> (r: CountTokensFailure)
    ensures
        r.persist_disallowed == counting_unauthorized(*e),
        r.fallback_local == (counting_unauthorized(*e) && allow_fallback),
{
    let unauthorized = is_count_tokens_unauthorized(e);
    CountTokensFailure { persist_disallowed: unauthorized, fallback_local: unauthorized && allow_fallback }
}

/// The tokens to account for a non-streamed answer: the reported input (else the local
/// estimate `estimated_input`) and the reported output (else 0).
pub fn usage_totals(usage: &UsageSnapshot, estimated_input: u64) -> (r: (u64, u64))
    ensures
        r.0 == match usage.input_tokens {
            Some(n) => n,
            None => estimated_input,
        },
        r.1 == match usage.output_tokens {
            Some(n) => n,
            None => 0,
        },
{
    let input = match usage.input_tokens {
        Some(n) => n,
        None => estimated_input,
    };
    let output = match usage.output_tokens {
        Some(n) => n,
        None => 0,
    };
    (input, output)
}

// ---------------------------------------------------------------------------
// Usage of a streamed answer
// ---------------------------------------------------------------------------
/// Usage counters summed over the events of a streamed answer; sums wrap around as the
/// atomic counters they model do.
#[derive(Debug, Clone, Copy, PartialEq, Eq)]
pub struct StreamUsage {
    pub output_tokens: u64,
    pub cache_creation_input_tokens: u64,
    pub cache_read_input_tokens: u64,
}

/// `a + b` modulo 2^64.
pub open spec fn wrap_add(a: u64, b: u64) -> u64 {
    ((a + b) % 0x1_0000_0000_0000_0000) as u64
}

/// `counter` plus the unsigned integer `v` holds, if it holds one.
pub open spec fn add_reported(counter: u64, v: Option<JsonValue>) -> u64 {
    match v {
        Some(x) => match u64_of(x) {
            Some(n) => wrap_add(counter, n),
            None => counter,
        },
        None => counter,
    }
}

/// `usage`
pub open spec fn usage_key() -> Seq<char> {
    seq!['u', 's', 'a', 'g', 'e']
}

/// The counters after one event: when the event carries a `usage` object, its unsigned
/// `output_tokens`, `cache_creation_input_tokens` and `cache_read_input_tokens` are added.
pub open spec fn usage_after_event(s: StreamUsage, event: JsonValue) -> StreamUsage {
    match field(event, usage_key()) {
        Some(u) => StreamUsage {
            output_tokens: add_reported(
                s.output_tokens,
                field(u, seq!['o', 'u', 't', 'p', 'u', 't', '_', 't', 'o', 'k', 'e', 'n', 's']),
            ),
            cache_creation_input_tokens: add_reported(
                s.cache_creation_input_tokens,
                field(u, crate::request_log::cache_creation_key()),
            ),
            cache_read_input_tokens: add_reported(
                s.cache_read_input_tokens,
                field(u, crate::request_log::cache_read_key()),
            ),
        },
        None => s,
    }
}

/// `wrapping_add` of two counters.
fn wrapping(a: u64, b: u64) -> (r: u64)
    ensures
        r == wrap_add(a, b),
{
    if b <= u64::MAX - a {
        a + b
    } else {
        let r = b - (u64::MAX - a) - 1;
        assert(r == (a + b) % 0x1_0000_0000_0000_0000) by (nonlinear_arith)
            requires
                b > u64::MAX - a,
                r == b - (u64::MAX - a) - 1,
                a <= u64::MAX,
                b <= u64::MAX,
        ;
        r
    }
}

fn add_member(counter: u64, v: Option<&JsonValue>) -> (r: u64)
    ensures
        r == add_reported(
            counter,
            match v {
                Some(x) => Some(*x),
                None => None,
            },
        ),
{
    match v {
        Some(x) => match x.as_u64() {
            Some(n) => wrapping(counter, n),
            None => counter,
        },
        None => counter,
    }
}

impl StreamUsage {
    /// No usage seen yet.
    pub fn new() -> (r: Self)
        ensures
            r == (StreamUsage { output_tokens: 0, cache_creation_input_tokens: 0, cache_read_input_tokens: 0 }),
    {
        StreamUsage { output_tokens: 0, cache_creation_input_tokens: 0, cache_read_input_tokens: 0 }
    }

    /// Adds the usage an event of the stream reports (see [`usage_after_event`]).
    pub fn observe(&mut self, event: &JsonValue)
        ensures
            *final(self) == usage_after_event(*old(self), *event),
    {
        proof {
            reveal_strlit("usage");
            reveal_strlit("output_tokens");
            reveal_strlit("cache_creation_input_tokens");
            reveal_strlit("cache_read_input_tokens");
            assert("usage"@ =~= usage_key());
            assert("output_tokens"@ =~= seq!['o', 'u', 't', 'p', 'u', 't', '_', 't', 'o', 'k', 'e', 'n', 's']);
            assert("cache_creation_input_tokens"@ =~= crate::request_log::cache_creation_key());
            assert("cache_read_input_tokens"@ =~= crate::request_log::cache_read_key());
        }
        match event.get("usage") {
            Some(u) => {
                self.output_tokens = add_member(self.output_tokens, u.get("output_tokens"));
                self.cache_creation_input_tokens = add_member(
                    self.cache_creation_input_tokens,
                    u.get("cache_creation_input_tokens"),
                );
                self.cache_read_input_tokens = add_member(
                    self.cache_read_input_tokens,
                    u.get("cache_read_input_tokens"),
                );
            },
            None => {},
        }
    }

    /// The usage recorded once the stream ends: the known input tokens and the sums.
    pub fn snapshot(&self, input_tokens: u64) -> (r: UsageSnapshot)
        ensures
            r == (UsageSnapshot {
                input_tokens: Some(input_tokens),
                output_tokens: Some(self.output_tokens),
                cache_creation_input_tokens: Some(self.cache_creation_input_tokens),
                cache_read_input_tokens: Some(self.cache_read_input_tokens),
            }),
    {
        UsageSnapshot {
            input_tokens: Some(input_tokens),
            output_tokens: Some(self.output_tokens),
            cache_creation_input_tokens: Some(self.cache_creation_input_tokens),
            cache_read_input_tokens: Some(self.cache_read_input_tokens),
        }
    }
}

/// `type`
pub open spec fn type_key() -> Seq<char> {
    seq!['t', 'y', 'p', 'e']
}

/// `message_stop`
pub open spec fn message_stop_tag() -> Seq<char> {
    seq!['m', 'e', 's', 's', 'a', 'g', 'e', '_', 's', 't', 'o', 'p']
}

/// The event ends the message: an object whose `type` is the string `message_stop`.
pub open spec fn ends_message(event: JsonValue) -> bool {
    match field(event, type_key()) {
        Some(JsonValue::String(t)) => t@ == message_stop_tag(),
        _ => false,
    }
}

/// Whether a stream event ends the message (see [`ends_message`]).
pub fn is_message_stop(event: &JsonValue) -> (b: bool)
    ensures
        b == ends_message(*event),
{
    proof {
        reveal_strlit("type");
        reveal_strlit("message_stop");
        assert("type"@ =~= type_key());
        assert("message_stop"@ =~= message_stop_tag());
    }
    match event.get("type") {
        Some(JsonValue::String(t)) => crate::json::str_eq(t.as_str(), "message_stop"),
        _ => false,
    }
}


// ---------------------------------------------------------------------------
// Window boundaries of a cookie
// ---------------------------------------------------------------------------
/// Length of the session window used when its boundary cannot be fetched: 5 hours.
pub const SESSION_WINDOW_SECS: i64 = 18000;

/// Length of a weekly window used when its boundary cannot be fetched: 7 days.
pub const WEEKLY_WINDOW_SECS: i64 = 604800;

/// Reset boundaries that the upstream usage endpoint reports, in seconds since the epoch.
#[derive(Debug, Clone, Copy, PartialEq, Eq)]
pub struct UsageResets {
    pub session: Option<i64>,
    pub weekly: Option<i64>,
    pub weekly_sonnet: Option<i64>,
}

/// `resets_at`
pub open spec fn resets_at_key() -> Seq<char> {
    seq!['r', 'e', 's', 'e', 't', 's', '_', 'a', 't']
}

/// The boundary of window `key` in a usage answer: its `resets_at` text read as an RFC 3339
/// date-time.
pub open spec fn reset_of(usage: JsonValue, key: Seq<char>) -> Option<i64> {
    match field(usage, key) {
        Some(w) => match field(w, resets_at_key()) {
            Some(JsonValue::String(t)) => rfc3339_seconds(t@),
            _ => None,
        },
        None => None,
    }
}

/// The boundaries of the session (`five_hour`), weekly (`seven_day`) and weekly Sonnet
/// (`seven_day_sonnet`) windows in a usage answer.
pub open spec fn resets_of(usage: JsonValue) -> UsageResets {
    UsageResets {
        session: reset_of(usage, seq!['f', 'i', 'v', 'e', '_', 'h', 'o', 'u', 'r']),
        weekly: reset_of(usage, seq!['s', 'e', 'v', 'e', 'n', '_', 'd', 'a', 'y']),
        weekly_sonnet: reset_of(
            usage,
            seq!['s', 'e', 'v', 'e', 'n', '_', 'd', 'a', 'y', '_', 's', 'o', 'n', 'n', 'e', 't'],
        ),
    }
}

fn reset_in(usage: &JsonValue, key: &str) -> (r: Option<i64>)
    ensures
        r == reset_of(*usage, key@),
{
    proof {
        reveal_strlit("resets_at");
        assert("resets_at"@ =~= resets_at_key());
    }
    match usage.get(key) {
        Some(w) => match w.get("resets_at") {
            Some(JsonValue::String(t)) => parse_rfc3339_seconds(t.as_str()),
            _ => None,
        },
        None => None,
    }
}

/// Reads the window boundaries from a usage answer (see [`resets_of`]).
pub fn parse_usage_resets(usage: &JsonValue) -> (r: UsageResets)
    ensures
        r == resets_of(*usage),
{
    proof {
        reveal_strlit("five_hour");
        reveal_strlit("seven_day");
        reveal_strlit("seven_day_sonnet");
        assert("five_hour"@ =~= seq!['f', 'i', 'v', 'e', '_', 'h', 'o', 'u', 'r']);
        assert("seven_day"@ =~= seq!['s', 'e', 'v', 'e', 'n', '_', 'd', 'a', 'y']);
        assert("seven_day_sonnet"@ =~= seq!['s', 'e', 'v', 'e', 'n', '_', 'd', 'a', 'y', '_', 's', 'o', 'n', 'n', 'e', 't']);
    }
    UsageResets {
        session: reset_in(usage, "five_hour"),
        weekly: reset_in(usage, "seven_day"),
        weekly_sonnet: reset_in(usage, "seven_day_sonnet"),
    }
}

/// Which windows are due at a given time, and whether the boundaries are to be fetched.
#[derive(Debug, Clone, Copy, PartialEq, Eq)]
pub struct BoundaryCheck {
    pub session_due: bool,
    pub weekly_due: bool,
    pub sonnet_due: bool,
    /// Fetch the boundaries: a window's tracking is still undecided, or a window is due.
    pub probe: bool,
}

/// The window is tracked: the subscription reported a boundary for it.
pub open spec fn window_followed(flag: Option<bool>) -> bool {
    flag == Some(true)
}

/// The boundary has passed at `now`.
pub open spec fn due(ts: Option<i64>, now: i64) -> bool {
    match ts {
        Some(t) => now >= t,
        None => false,
    }
}

/// A tracked window whose boundary has passed at `now` is due; the boundaries are fetched
/// when a window is due or the tracking of a window is still undecided.
pub open spec fn check_of(c: CookieStatus, now: i64) -> BoundaryCheck {
    let session_due = window_followed(c.session_has_reset) && due(c.session_resets_at, now);
    let weekly_due = window_followed(c.weekly_has_reset) && due(c.weekly_resets_at, now);
    let sonnet_due = window_followed(c.weekly_sonnet_has_reset) && due(c.weekly_sonnet_resets_at, now);
    BoundaryCheck {
        session_due,
        weekly_due,
        sonnet_due,
        probe: c.session_has_reset is None || c.weekly_has_reset is None
            || c.weekly_sonnet_has_reset is None || session_due || weekly_due || sonnet_due,
    }
}

fn is_followed(flag: Option<bool>) -> (b: bool)
    ensures
        b == window_followed(flag),
{
    match flag {
        Some(true) => true,
        _ => false,
    }
}

fn is_due(ts: Option<i64>, now: i64) -> (b: bool)
    ensures
        b == due(ts, now),
{
    match ts {
        Some(t) => now >= t,
        None => false,
    }
}

/// Which windows of the cookie are due at `now` (see [`check_of`]).
pub fn boundary_check(c: &CookieStatus, now: i64) -> (r: BoundaryCheck)
    ensures
        r == check_of(*c, now),
{
    let session_due = is_followed(c.session_has_reset) && is_due(c.session_resets_at, now);
    let weekly_due = is_followed(c.weekly_has_reset) && is_due(c.weekly_resets_at, now);
    let sonnet_due = is_followed(c.weekly_sonnet_has_reset) && is_due(c.weekly_sonnet_resets_at, now);
    BoundaryCheck {
        session_due,
        weekly_due,
        sonnet_due,
        probe: c.session_has_reset.is_none() || c.weekly_has_reset.is_none()
            || c.weekly_sonnet_has_reset.is_none() || session_due || weekly_due || sonnet_due,
    }
}

/// Starts the boundary refresh at `now`: decides which windows are due and, when the
/// boundaries are to be fetched, records `now` as the time of the last check.
pub fn begin_boundary_refresh(c: &mut CookieStatus, now: i64) -> (r: BoundaryCheck)
    ensures
        r == check_of(*old(c), now),
        *final(c) == if r.probe {
            CookieStatus { resets_last_checked_at: Some(now), ..*old(c) }
        } else {
            *old(c)
        },
{
    let r = boundary_check(c, now);
    if r.probe {
        c.resets_last_checked_at = Some(now);
    }
    r
}

/// The tracking flag and boundary of a window after a successful fetch that found `found`:
/// an undecided window becomes tracked exactly when a boundary was found; a tracked window
/// takes the found boundary, or stops being tracked (and loses its boundary) without one.
pub open spec fn settled(flag: Option<bool>, found: Option<i64>, at: Option<i64>) -> (Option<bool>, Option<i64>) {
    let f = if flag is None {
        Some(found is Some)
    } else {
        flag
    };
    if f == Some(true) {
        match found {
            Some(ts) => (f, Some(ts)),
            None => (Some(false), None),
        }
    } else {
        (f, at)
    }
}

/// The cookie after the boundary fetch ended with `probe` (`None` when it failed), for the
/// windows found due by `check` at `now`. After a successful fetch, due windows are emptied
/// and each window's tracking and boundary are settled (see [`settled`]). After a failed one,
/// each due window is emptied and given a boundary one window length after `now`.
pub open spec fn after_probe(c: CookieStatus, check: BoundaryCheck, now: i64, probe: Option<UsageResets>) -> CookieStatus {
    match probe {
        Some(r) => {
            let s = settled(c.session_has_reset, r.session, c.session_resets_at);
            let w = settled(c.weekly_has_reset, r.weekly, c.weekly_resets_at);
            let n = settled(c.weekly_sonnet_has_reset, r.weekly_sonnet, c.weekly_sonnet_resets_at);
            CookieStatus {
                session_has_reset: s.0,
                session_resets_at: s.1,
                weekly_has_reset: w.0,
                weekly_resets_at: w.1,
                weekly_sonnet_has_reset: n.0,
                weekly_sonnet_resets_at: n.1,
                session_usage: if check.session_due { UsageBreakdown::zero() } else { c.session_usage },
                weekly_usage: if check.weekly_due { UsageBreakdown::zero() } else { c.weekly_usage },
                weekly_sonnet_usage: if check.sonnet_due {
                    UsageBreakdown::zero()
                } else {
                    c.weekly_sonnet_usage
                },
                ..c
            }
        },
        None => CookieStatus {
            session_usage: if check.session_due { UsageBreakdown::zero() } else { c.session_usage },
            session_resets_at: if check.session_due {
                Some((now + SESSION_WINDOW_SECS) as i64)
            } else {
                c.session_resets_at
            },
            weekly_usage: if check.weekly_due { UsageBreakdown::zero() } else { c.weekly_usage },
            weekly_resets_at: if check.weekly_due {
                Some((now + WEEKLY_WINDOW_SECS) as i64)
            } else {
                c.weekly_resets_at
            },
            weekly_sonnet_usage: if check.sonnet_due {
                UsageBreakdown::zero()
            } else {
                c.weekly_sonnet_usage
            },
            weekly_sonnet_resets_at: if check.sonnet_due {
                Some((now + WEEKLY_WINDOW_SECS) as i64)
            } else {
                c.weekly_sonnet_resets_at
            },
            ..c
        },
    }
}

fn settle(flag: Option<bool>, found: Option<i64>, at: Option<i64>) -> (r: (Option<bool>, Option<i64>))
    ensures
        r == settled(flag, found, at),
{
    let f = match flag {
        None => Some(found.is_some()),
        Some(b) => Some(b),
    };
    match f {
        Some(true) => match found {
            Some(ts) => (f, Some(ts)),
            None => (Some(false), None),
        },
        _ => (f, at),
    }
}

/// Applies the result of the boundary fetch (see [`after_probe`]).
pub fn apply_boundary_probe(c: &mut CookieStatus, check: BoundaryCheck, now: i64, probe: Option<UsageResets>)
    requires
        probe is None && check.session_due ==> now <= i64::MAX - SESSION_WINDOW_SECS,
        probe is None && (check.weekly_due || check.sonnet_due) ==> now <= i64::MAX
            - WEEKLY_WINDOW_SECS,
    ensures
        *final(c) == after_probe(*old(c), check, now, probe),
{
    match probe {
        Some(r) => {
            let s = settle(c.session_has_reset, r.session, c.session_resets_at);
            let w = settle(c.weekly_has_reset, r.weekly, c.weekly_resets_at);
            let n = settle(c.weekly_sonnet_has_reset, r.weekly_sonnet, c.weekly_sonnet_resets_at);
            c.session_has_reset = s.0;
            c.session_resets_at = s.1;
            c.weekly_has_reset = w.0;
            c.weekly_resets_at = w.1;
            c.weekly_sonnet_has_reset = n.0;
            c.weekly_sonnet_resets_at = n.1;
            if check.session_due {
                c.session_usage = UsageBreakdown::empty();
            }
            if check.weekly_due {
                c.weekly_usage = UsageBreakdown::empty();
            }
            if check.sonnet_due {
                c.weekly_sonnet_usage = UsageBreakdown::empty();
            }
        },
        None => {
            if check.session_due {
                c.session_usage = UsageBreakdown::empty();
                c.session_resets_at = Some(now + SESSION_WINDOW_SECS);
            }
            if check.weekly_due {
                c.weekly_usage = UsageBreakdown::empty();
                c.weekly_resets_at = Some(now + WEEKLY_WINDOW_SECS);
            }
            if check.sonnet_due {
                c.weekly_sonnet_usage = UsageBreakdown::empty();
                c.weekly_sonnet_resets_at = Some(now + WEEKLY_WINDOW_SECS);
            }
        },
    }
}

/// After a successful fetch no window's tracking is undecided, a tracked window always has a
/// boundary, and due windows are empty; fetched or not, the lifetime and weekly Opus windows,
/// the cookie itself and its token are never touched.
pub proof fn lemma_probe_settles_windows(c: CookieStatus, now: i64, probe: Option<UsageResets>)
    ensures
        ({
            let check = check_of(c, now);
            let d = after_probe(c, check, now, probe);
            &&& probe is Some ==> {
                &&& d.session_has_reset is Some
                &&& d.weekly_has_reset is Some
                &&& d.weekly_sonnet_has_reset is Some
                &&& (window_followed(d.session_has_reset) ==> d.session_resets_at is Some)
                &&& (window_followed(d.weekly_has_reset) ==> d.weekly_resets_at is Some)
                &&& (window_followed(d.weekly_sonnet_has_reset) ==> d.weekly_sonnet_resets_at is Some)
            }
            &&& check.session_due ==> d.session_usage == UsageBreakdown::zero()
            &&& check.weekly_due ==> d.weekly_usage == UsageBreakdown::zero()
            &&& check.sonnet_due ==> d.weekly_sonnet_usage == UsageBreakdown::zero()
            &&& d.lifetime_usage == c.lifetime_usage
            &&& d.weekly_opus_usage == c.weekly_opus_usage
            &&& d.cookie == c.cookie
            &&& d.token == c.token
        }),
{
}

/// A window that is not due keeps its usage, fetched or not; when the fetch fails it also
/// keeps its boundary and its tracking.
pub proof fn lemma_probe_spares_windows_not_due(c: CookieStatus, now: i64, probe: Option<UsageResets>)
    ensures
        ({
            let check = check_of(c, now);
            let d = after_probe(c, check, now, probe);
            &&& !check.session_due ==> d.session_usage == c.session_usage
            &&& !check.weekly_due ==> d.weekly_usage == c.weekly_usage
            &&& !check.sonnet_due ==> d.weekly_sonnet_usage == c.weekly_sonnet_usage
            &&& probe is None && !check.session_due ==> d.session_resets_at == c.session_resets_at
            &&& probe is None ==> d.session_has_reset == c.session_has_reset
            &&& probe is None ==> d.weekly_has_reset == c.weekly_has_reset
            &&& probe is None ==> d.weekly_sonnet_has_reset == c.weekly_sonnet_has_reset
        }),
{
}


// ---------------------------------------------------------------------------
// Usage of a non-streamed answer
// ---------------------------------------------------------------------------
/// The snapshot reports at least one counter.
pub open spec fn reports_any(u: UsageSnapshot) -> bool {
    u.input_tokens is Some || u.output_tokens is Some || u.cache_creation_input_tokens is Some
        || u.cache_read_input_tokens is Some
}

/// The usage kept for a non-streamed answer: what the answer reports, if it reports anything;
/// else, when the answer could be read as a message, its estimated output tokens; else none.
pub fn usage_or_estimate(reported: UsageSnapshot, estimated_output: Option<u64>) -> (r: Option<UsageSnapshot>)
    ensures
        r == if reports_any(reported) {
            Some(reported)
        } else {
            match estimated_output {
                Some(n) => Some(UsageSnapshot { output_tokens: Some(n), ..reported }),
                None => None,
            }
        },
{
    if reported.input_tokens.is_some() || reported.output_tokens.is_some()
        || reported.cache_creation_input_tokens.is_some()
        || reported.cache_read_input_tokens.is_some() {
        return Some(reported);
    }
    match estimated_output {
        Some(n) => Some(UsageSnapshot { output_tokens: Some(n), ..reported }),
        None => None,
    }
}

// ---------------------------------------------------------------------------
// Conversations of the web backend
// ---------------------------------------------------------------------------
/// How the web backend opens a conversation.
#[derive(Debug, Clone, Copy, PartialEq, Eq)]
pub struct ConversationPlan {
    /// The conversation is temporary (incognito) and left unnamed.
    pub is_temporary: bool,
    /// The page given as referer is the incognito one.
    pub incognito_referer: bool,
    /// Extended thinking is switched on for the conversation.
    pub extended_thinking: bool,
}

/// Conversations are temporary unless chats are to be preserved; extended thinking is used
/// when the request asks for thinking and the account is a Pro account.
pub fn conversation_plan(preserve_chats: bool, wants_thinking: bool, is_pro: bool) -> (r: ConversationPlan)
    ensures
        r.is_temporary == !preserve_chats,
        r.incognito_referer == !preserve_chats,
        r.extended_thinking == (wants_thinking && is_pro),
{
    ConversationPlan {
        is_temporary: !preserve_chats,
        incognito_referer: !preserve_chats,
        extended_thinking: wants_thinking && is_pro,
    }
}


/// Token counting stays local whenever the cookie is known to be refused by the counting
/// endpoint or the request comes from the web backend while web counting is off (whatever the
/// cookie's stored permission); the endpoint is called in every other case. Only a cookie known
/// to be refused has that refusal stored.
pub proof fn lemma_count_tokens_routing(cookie_allowed: Option<bool>, for_web: bool, web_counting_enabled: bool)
    ensures
        for_web && !web_counting_enabled ==> count_tokens_route_of(
            cookie_allowed,
            for_web,
            web_counting_enabled,
        ) is Local,
        cookie_allowed == Some(false) ==> count_tokens_route_of(
            cookie_allowed,
            for_web,
            web_counting_enabled,
        ) == (CountTokensRoute::Local { persist_disallowed: true }),
        (count_tokens_route_of(cookie_allowed, for_web, web_counting_enabled) == CountTokensRoute::Remote)
            <==> (cookie_allowed != Some(false) && !(for_web && !web_counting_enabled)),
        count_tokens_route_of(cookie_allowed, for_web, web_counting_enabled) matches CountTokensRoute::Local {
            persist_disallowed,
        } ==> persist_disallowed == (cookie_allowed == Some(false)),
{
}

/// Each event adds what its `usage` object reports to the counters, modulo 2^64: a counter
/// whose member holds an unsigned integer `n` grows by `n`, any other counter is kept; an event
/// without a `usage` object changes nothing.
pub proof fn lemma_stream_usage_adds(s: StreamUsage, event: JsonValue)
    ensures
        ({
            let t = usage_after_event(s, event);
            let key_out = seq!['o', 'u', 't', 'p', 'u', 't', '_', 't', 'o', 'k', 'e', 'n', 's'];
            match field(event, seq!['u', 's', 'a', 'g', 'e']) {
                None => t == s,
                Some(u) => {
                    &&& t.output_tokens as int == match field(u, key_out) {
                        Some(x) => match u64_of(x) {
                            Some(n) => (s.output_tokens as int + n as int) % 0x1_0000_0000_0000_0000,
                            None => s.output_tokens as int,
                        },
                        None => s.output_tokens as int,
                    }
                    &&& t.cache_creation_input_tokens as int == match field(
                        u,
                        crate::request_log::cache_creation_key(),
                    ) {
                        Some(x) => match u64_of(x) {
                            Some(n) => (s.cache_creation_input_tokens as int + n as int)
                                % 0x1_0000_0000_0000_0000,
                            None => s.cache_creation_input_tokens as int,
                        },
                        None => s.cache_creation_input_tokens as int,
                    }
                    &&& t.cache_read_input_tokens as int == match field(
                        u,
                        crate::request_log::cache_read_key(),
                    ) {
                        Some(x) => match u64_of(x) {
                            Some(n) => (s.cache_read_input_tokens as int + n as int)
                                % 0x1_0000_0000_0000_0000,
                            None => s.cache_read_input_tokens as int,
                        },
                        None => s.cache_read_input_tokens as int,
                    }
                },
            }
        }),
{
}

proof fn lemma_wrap_assoc(x: int, a: int, b: int)
    requires
        0 <= x < 0x1_0000_0000_0000_0000,
        0 <= a < 0x1_0000_0000_0000_0000,
        0 <= b < 0x1_0000_0000_0000_0000,
    ensures
        ((x + a) % 0x1_0000_0000_0000_0000 + b) % 0x1_0000_0000_0000_0000 == (x + a + b)
            % 0x1_0000_0000_0000_0000,
{
    let m = 0x1_0000_0000_0000_0000int;
    vstd::arithmetic::div_mod::lemma_add_mod_noop(x + a, b, m);
    vstd::arithmetic::div_mod::lemma_mod_twice(x + a, m);
    vstd::arithmetic::div_mod::lemma_small_mod(b as nat, m as nat);
}

/// What an event adds to the counters, as observed from zero.
spec fn added_by(e: JsonValue) -> StreamUsage {
    usage_after_event(
        StreamUsage { output_tokens: 0, cache_creation_input_tokens: 0, cache_read_input_tokens: 0 },
        e,
    )
}

proof fn lemma_event_adds_contribution(s: StreamUsage, e: JsonValue)
    ensures
        usage_after_event(s, e).output_tokens as int == (s.output_tokens as int + added_by(e).output_tokens as int)
            % 0x1_0000_0000_0000_0000,
        usage_after_event(s, e).cache_creation_input_tokens as int == (s.cache_creation_input_tokens as int
            + added_by(e).cache_creation_input_tokens as int) % 0x1_0000_0000_0000_0000,
        usage_after_event(s, e).cache_read_input_tokens as int == (s.cache_read_input_tokens as int
            + added_by(e).cache_read_input_tokens as int) % 0x1_0000_0000_0000_0000,
{
    let m = 0x1_0000_0000_0000_0000int;
    let z = StreamUsage { output_tokens: 0, cache_creation_input_tokens: 0, cache_read_input_tokens: 0 };
    lemma_stream_usage_adds(s, e);
    lemma_stream_usage_adds(z, e);
    vstd::arithmetic::div_mod::lemma_small_mod(s.output_tokens as nat, m as nat);
    vstd::arithmetic::div_mod::lemma_small_mod(s.cache_creation_input_tokens as nat, m as nat);
    vstd::arithmetic::div_mod::lemma_small_mod(s.cache_read_input_tokens as nat, m as nat);
    match field(e, seq!['u', 's', 'a', 'g', 'e']) {
        Some(u) => {
            lemma_reported_small(
                field(u, seq!['o', 'u', 't', 'p', 'u', 't', '_', 't', 'o', 'k', 'e', 'n', 's']),
            );
            lemma_reported_small(field(u, crate::request_log::cache_creation_key()));
            lemma_reported_small(field(u, crate::request_log::cache_read_key()));
        },
        None => {},
    }
}

proof fn lemma_reported_small(v: Option<JsonValue>)
    ensures
        v matches Some(x) ==> (u64_of(x) matches Some(n) ==> (0int + n as int)
            % 0x1_0000_0000_0000_0000 == n as int),
{
    if let Some(x) = v {
        if let Some(n) = u64_of(x) {
            vstd::arithmetic::div_mod::lemma_small_mod(n as nat, 0x1_0000_0000_0000_0000nat);
        }
    }
}

/// Observing two events accumulates both: the counters after both are the counters before
/// plus what each event alone adds (modulo 2^64), so no event's report replaces another's.
pub proof fn lemma_stream_usage_sums(s: StreamUsage, e1: JsonValue, e2: JsonValue)
    ensures
        ({
            let z = StreamUsage { output_tokens: 0, cache_creation_input_tokens: 0, cache_read_input_tokens: 0 };
            let a = usage_after_event(z, e1);
            let b = usage_after_event(z, e2);
            let t = usage_after_event(usage_after_event(s, e1), e2);
            &&& t.output_tokens as int == (s.output_tokens as int + a.output_tokens as int
                + b.output_tokens as int) % 0x1_0000_0000_0000_0000
            &&& t.cache_creation_input_tokens as int == (s.cache_creation_input_tokens as int
                + a.cache_creation_input_tokens as int + b.cache_creation_input_tokens as int)
                % 0x1_0000_0000_0000_0000
            &&& t.cache_read_input_tokens as int == (s.cache_read_input_tokens as int
                + a.cache_read_input_tokens as int + b.cache_read_input_tokens as int)
                % 0x1_0000_0000_0000_0000
        }),
{
    let s1 = usage_after_event(s, e1);
    lemma_event_adds_contribution(s, e1);
    lemma_event_adds_contribution(s1, e2);
    let a = added_by(e1);
    let b = added_by(e2);
    lemma_wrap_assoc(s.output_tokens as int, a.output_tokens as int, b.output_tokens as int);
    lemma_wrap_assoc(
        s.cache_creation_input_tokens as int,
        a.cache_creation_input_tokens as int,
        b.cache_creation_input_tokens as int,
    );
    lemma_wrap_assoc(
        s.cache_read_input_tokens as int,
        a.cache_read_input_tokens as int,
        b.cache_read_input_tokens as int,
    );
}

} // verus!
