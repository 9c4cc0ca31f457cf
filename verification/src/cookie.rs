//! Session cookies of the upstream service: their textual grammar and the per-cookie usage record.
use vstd::prelude::*;

use crate::error::ClewdrError;
use crate::text::{alnum_char, chars_of, digit_char, is_alnum, is_digit, push_char, string_of};
use crate::types::UsageBreakdown;

verus! {

// ---------------------------------------------------------------------------
// Grammar of a cookie
// ---------------------------------------------------------------------------
/// Characters that can occur in a cookie: ASCII letters and digits, `_` and `-`.
pub open spec fn is_cookie_char(c: char) -> bool {
    is_alnum(c) || c == '_' || c == '-'
}

/// `s` with every character that cannot occur in a cookie removed (surrounding
/// white space included, since it is never a cookie character).
pub open spec fn clean(s: Seq<char>) -> Seq<char>
    decreases s.len(),
{
    if s.len() == 0 {
        Seq::<char>::empty()
    } else {
        let rest = clean(s.drop_last());
        if is_cookie_char(s.last()) {
            rest.push(s.last())
        } else {
            rest
        }
    }
}

/// Every character of `t[from..to]` is a cookie character.
pub open spec fn all_cookie_chars(t: Seq<char>, from: int, to: int) -> bool {
    forall|i: int| from <= i < to ==> #[trigger] is_cookie_char(t[i])
}

/// `t[s..s + 13]` is `sk-ant-sid`, two digits and `-`.
pub open spec fn session_prefix_at(t: Seq<char>, s: int) -> bool {
    &&& 0 <= s
    &&& s + 13 <= t.len()
    &&& t[s] == 's' && t[s + 1] == 'k' && t[s + 2] == '-'
    &&& t[s + 3] == 'a' && t[s + 4] == 'n' && t[s + 5] == 't' && t[s + 6] == '-'
    &&& t[s + 7] == 's' && t[s + 8] == 'i' && t[s + 9] == 'd'
    &&& is_digit(t[s + 10]) && is_digit(t[s + 11])
    &&& t[s + 12] == '-'
}

/// The pattern `sk-ant-sid\d{2}-[cookie]{n}-[cookie]{6}AA` matches `t[s..s + n + 22]`.
pub open spec fn full_match_at(t: Seq<char>, s: int, n: int) -> bool {
    &&& 86 <= n <= 120
    &&& session_prefix_at(t, s)
    &&& s + n + 22 <= t.len()
    &&& all_cookie_chars(t, s + 13, s + 13 + n)
    &&& t[s + 13 + n] == '-'
    &&& all_cookie_chars(t, s + 14 + n, s + 20 + n)
    &&& t[s + 20 + n] == 'A'
    &&& t[s + 21 + n] == 'A'
}

/// The longest body length `n <= from` (and at least 86) with which the pattern matches at `s`:
/// the greedy repetition tries the longest body first.
pub open spec fn longest_body_at(t: Seq<char>, s: int, from: int) -> Option<int>
    decreases from,
{
    if from < 86 {
        None
    } else if full_match_at(t, s, from) {
        Some(from)
    } else {
        longest_body_at(t, s, from - 1)
    }
}

/// The leftmost match of the session-key pattern at or after `s`: its start and body length.
pub open spec fn leftmost_match_from(t: Seq<char>, s: int) -> Option<(int, int)>
    decreases t.len() - s,
{
    if s < 0 || s >= t.len() {
        None
    } else {
        match longest_body_at(t, s, 120) {
            Some(n) => Some((s, n)),
            None => leftmost_match_from(t, s + 1),
        }
    }
}

/// The whole of `t` is `[cookie]{86,120}-[cookie]{6}AA`.
pub open spec fn bare_match(t: Seq<char>) -> bool {
    let l = t.len() as int;
    &&& 95 <= l <= 129
    &&& all_cookie_chars(t, 0, l - 9)
    &&& t[l - 9] == '-'
    &&& all_cookie_chars(t, l - 8, l - 2)
    &&& t[l - 2] == 'A'
    &&& t[l - 1] == 'A'
}

/// The cookie that the text `s` holds, if any: after cleaning, the leftmost full
/// `sk-ant-sid..` session key, or else the cleaned text itself when it is a bare key.
pub open spec fn cookie_text(s: Seq<char>) -> Option<Seq<char>> {
    let t = clean(s);
    match leftmost_match_from(t, 0) {
        Some((start, n)) => Some(t.subrange(start, start + n + 22)),
        None => if bare_match(t) {
            Some(t)
        } else {
            None
        },
    }
}

proof fn lemma_longest_body_matches(t: Seq<char>, s: int, from: int)
    ensures
        longest_body_at(t, s, from) matches Some(n) ==> full_match_at(t, s, n),
    decreases from,
{
    if from >= 86 && !full_match_at(t, s, from) {
        lemma_longest_body_matches(t, s, from - 1);
    }
}

proof fn lemma_leftmost_matches(t: Seq<char>, s: int)
    ensures
        leftmost_match_from(t, s) matches Some((start, n)) ==> full_match_at(t, start, n),
    decreases t.len() - s,
{
    if 0 <= s < t.len() {
        lemma_longest_body_matches(t, s, 120);
        if longest_body_at(t, s, 120) is None {
            lemma_leftmost_matches(t, s + 1);
        }
    }
}

proof fn lemma_clean_chars(s: Seq<char>)
    ensures
        all_cookie_chars(clean(s), 0, clean(s).len() as int),
        clean(s).len() <= s.len(),
    decreases s.len(),
{
    if s.len() > 0 {
        lemma_clean_chars(s.drop_last());
    }
}

proof fn lemma_clean_keeps_cookie_text(t: Seq<char>)
    requires
        all_cookie_chars(t, 0, t.len() as int),
    ensures
        clean(t) == t,
    decreases t.len(),
{
    if t.len() > 0 {
        let p = t.drop_last();
        assert(all_cookie_chars(p, 0, p.len() as int)) by {
            assert forall|i: int| 0 <= i < p.len() implies #[trigger] is_cookie_char(p[i]) by {
                assert(p[i] == t[i]);
            }
        }
        lemma_clean_keeps_cookie_text(p);
        assert(is_cookie_char(t[t.len() - 1]));
        assert(p.push(t.last()) == t);
    }
}

proof fn lemma_leftmost_is_longest(t: Seq<char>, s: int)
    ensures
        leftmost_match_from(t, s) matches Some((a, n)) ==> longest_body_at(t, a, 120) == Some(n),
    decreases t.len() - s,
{
    if 0 <= s < t.len() && longest_body_at(t, s, 120) is None {
        lemma_leftmost_is_longest(t, s + 1);
    }
}

/// Within a match of body length `n`, no longer body matches at the start of the matched text
/// alone, so the longest body found there is `n` again.
proof fn lemma_longest_in_match(c: Seq<char>, n: int, from: int)
    requires
        86 <= n <= from,
        c.len() == n + 22,
        full_match_at(c, 0, n),
    ensures
        longest_body_at(c, 0, from) == Some(n),
    decreases from,
{
    if from > n {
        assert(!full_match_at(c, 0, from));
        lemma_longest_in_match(c, n, from - 1);
    }
}

/// The text of a parsed cookie parses back to itself: a cookie's text is in canonical form.
pub proof fn lemma_cookie_text_canonical(s: Seq<char>)
    requires
        cookie_text(s) is Some,
    ensures
        cookie_text(cookie_text(s)->0) == cookie_text(s),
{
    let t = clean(s);
    lemma_clean_chars(s);
    lemma_leftmost_matches(t, 0);
    lemma_leftmost_is_longest(t, 0);
    match leftmost_match_from(t, 0) {
        Some((a, n)) => {
            let c = t.subrange(a, a + n + 22);
            assert(full_match_at(t, a, n));
            assert(all_cookie_chars(c, 0, c.len() as int)) by {
                assert forall|i: int| 0 <= i < c.len() implies #[trigger] is_cookie_char(c[i]) by {
                    assert(c[i] == t[a + i]);
                }
            }
            lemma_clean_keeps_cookie_text(c);
            assert(full_match_at(c, 0, n)) by {
                assert forall|i: int| 13 <= i < 13 + n implies #[trigger] is_cookie_char(c[i]) by {
                    assert(c[i] == t[a + i]);
                    assert(is_cookie_char(t[a + i]));
                }
                assert forall|i: int| 14 + n <= i < 20 + n implies #[trigger] is_cookie_char(c[i]) by {
                    assert(c[i] == t[a + i]);
                    assert(is_cookie_char(t[a + i]));
                }
            }
            lemma_longest_in_match(c, n, 120);
            assert(leftmost_match_from(c, 0) == Some((0int, n)));
            assert(c.subrange(0, n + 22) == c);
        },
        None => {
            lemma_clean_keeps_cookie_text(t);
        },
    }
}

/// Executable form of [`is_cookie_char`].
pub fn cookie_char(c: char) -> (b: bool)
    ensures
        b == is_cookie_char(c),
{
    alnum_char(c) || c == '_' || c == '-'
}

/// The cookie characters of `s`, in order.
fn clean_chars(s: &str) -> (out: Vec<char>)
    ensures
        out@ == clean(s@),
{
    let cs = chars_of(s);
    let mut out: Vec<char> = Vec::new();
    let mut i: usize = 0;
    while i < cs.len()
        invariant
            i <= cs.len(),
            cs@ == s@,
            out@ == clean(cs@.take(i as int)),
        decreases cs.len() - i,
    {
        let c = cs[i];
        assert(cs@.take(i + 1).drop_last() == cs@.take(i as int));
        if cookie_char(c) {
            out.push(c);
        }
        i += 1;
    }
    assert(cs@.take(cs.len() as int) == cs@);
    out
}

fn cookie_chars_between(t: &Vec<char>, from: usize, to: usize) -> (b: bool)
    requires
        from <= to <= t.len(),
    ensures
        b == all_cookie_chars(t@, from as int, to as int),
{
    let mut i = from;
    while i < to
        invariant
            from <= i <= to <= t.len(),
            all_cookie_chars(t@, from as int, i as int),
        decreases to - i,
    {
        if !cookie_char(t[i]) {
            return false;
        }
        i += 1;
    }
    true
}

fn session_prefix_matches(t: &Vec<char>, s: usize) -> (b: bool)
    ensures
        b == session_prefix_at(t@, s as int),
{
    if s > t.len() || t.len() - s < 13 {
        return false;
    }
    t[s] == 's' && t[s + 1] == 'k' && t[s + 2] == '-' && t[s + 3] == 'a' && t[s + 4] == 'n'
        && t[s + 5] == 't' && t[s + 6] == '-' && t[s + 7] == 's' && t[s + 8] == 'i' && t[s + 9]
        == 'd' && digit_char(t[s + 10]) && digit_char(t[s + 11]) && t[s + 12] == '-'
}

fn full_matches(t: &Vec<char>, s: usize, n: usize) -> (b: bool)
    requires
        86 <= n <= 120,
    ensures
        b == full_match_at(t@, s as int, n as int),
{
    if !session_prefix_matches(t, s) {
        return false;
    }
    if t.len() - s < n + 22 {
        return false;
    }
    cookie_chars_between(t, s + 13, s + 13 + n) && t[s + 13 + n] == '-' && cookie_chars_between(
        t,
        s + 14 + n,
        s + 20 + n,
    ) && t[s + 20 + n] == 'A' && t[s + 21 + n] == 'A'
}

fn longest_body(t: &Vec<char>, s: usize) -> (r: Option<usize>)
    ensures
        match r {
            Some(n) => longest_body_at(t@, s as int, 120) == Some(n as int),
            None => longest_body_at(t@, s as int, 120) is None,
        },
{
    let mut n: usize = 120;
    while n >= 86
        invariant
            85 <= n <= 120,
            longest_body_at(t@, s as int, 120) == longest_body_at(t@, s as int, n as int),
        decreases n,
    {
        if full_matches(t, s, n) {
            return Some(n);
        }
        n -= 1;
    }
    None
}

fn leftmost_match(t: &Vec<char>) -> (r: Option<(usize, usize)>)
    ensures
        match r {
            Some((s, n)) => leftmost_match_from(t@, 0) == Some((s as int, n as int)),
            None => leftmost_match_from(t@, 0) is None,
        },
{
    let mut s: usize = 0;
    while s < t.len()
        invariant
            s <= t.len(),
            leftmost_match_from(t@, 0) == leftmost_match_from(t@, s as int),
        decreases t.len() - s,
    {
        match longest_body(t, s) {
            Some(n) => {
                return Some((s, n));
            },
            None => {},
        }
        s += 1;
    }
    None
}

fn bare_matches(t: &Vec<char>) -> (b: bool)
    ensures
        b == bare_match(t@),
{
    let l = t.len();
    if l < 95 || l > 129 {
        return false;
    }
    cookie_chars_between(t, 0, l - 9) && t[l - 9] == '-' && cookie_chars_between(t, l - 8, l - 2)
        && t[l - 2] == 'A' && t[l - 1] == 'A'
}

// ---------------------------------------------------------------------------
// The cookie value
// ---------------------------------------------------------------------------
/// An upstream session cookie, as it is sent in the `sessionKey` cookie header.
#[derive(Debug, PartialEq, Eq, PartialOrd, Ord, Hash)]
pub struct ClewdrCookie {
    inner: String,
}

impl View for ClewdrCookie {
    type V = Seq<char>;

    closed spec fn view(&self) -> Seq<char> {
        self.inner@
    }
}

impl Clone for ClewdrCookie {
    fn clone(&self) -> (r: Self)
        ensures
            r == *self,
    {
        proof {
            use_type_invariant(self);
        }
        ClewdrCookie { inner: self.inner.clone() }
    }
}

impl ClewdrCookie {
    /// Only cookie characters occur in a cookie.
    #[verifier::type_invariant]
    closed spec fn inv(self) -> bool {
        all_cookie_chars(self.inner@, 0, self.inner@.len() as int)
    }

    /// Extracts the cookie from `s`: the text is cleaned of every non-cookie character,
    /// then the leftmost full session key `sk-ant-sidNN-...AA` is taken, or the whole cleaned
    /// text when it is a bare key; anything else is refused.
    pub fn parse(s: &str) -> (r: Result<ClewdrCookie, ClewdrError>)
        ensures
            match r {
                Ok(c) => cookie_text(s@) == Some(c@),
                Err(e) => cookie_text(s@) is None && e == ClewdrError::ParseCookieError {
                    msg: "Invalid cookie format",
                },
            },
    {
        let t = clean_chars(s);
        proof {
            lemma_clean_chars(s@);
            lemma_leftmost_matches(t@, 0);
        }
        match leftmost_match(&t) {
            Some((start, n)) => {
                let inner = string_of(&t, start, start + n + 22);
                Ok(ClewdrCookie { inner })
            },
            None => {
                if bare_matches(&t) {
                    let inner = string_of(&t, 0, t.len());
                    assert(t@.subrange(0, t@.len() as int) == t@);
                    Ok(ClewdrCookie { inner })
                } else {
                    Err(ClewdrError::ParseCookieError { msg: "Invalid cookie format" })
                }
            },
        }
    }
}


impl core::str::FromStr for ClewdrCookie {
    type Err = ClewdrError;

    fn from_str(s: &str) -> (r: Result<Self, Self::Err>)
        ensures
            match r {
                Ok(c) => cookie_text(s@) == Some(c@),
                Err(e) => cookie_text(s@) is None && e == ClewdrError::ParseCookieError {
                    msg: "Invalid cookie format",
                },
            },
    {
        Self::parse(s)
    }
}

impl core::ops::Deref for ClewdrCookie {
    type Target = str;

    fn deref(&self) -> (r: &str)
        ensures
            r@ == self@,
    {
        self.inner.as_str()
    }
}

/// The shortened form of a cookie shown in logs: its first 20 characters and `...`, or
/// the whole cookie when it is not longer than that.
pub open spec fn masked(c: Seq<char>) -> Seq<char> {
    if c.len() > 20 {
        c.take(20) + seq!['.', '.', '.']
    } else {
        c
    }
}

impl ClewdrCookie {
    /// The cookie's text.
    pub fn as_str(&self) -> (r: &str)
        ensures
            r@ == self@,
    {
        self.inner.as_str()
    }

    /// Every character of the cookie is a cookie character, so the cookie is ASCII and
    /// its length in bytes is its length in characters.
    pub fn all_chars_valid(&self) -> (b: bool)
        ensures
            b,
            all_cookie_chars(self@, 0, self@.len() as int),
    {
        proof {
            use_type_invariant(self);
        }
        true
    }

    /// The cookie shortened for logs (see [`masked`]).
    pub fn mask(&self) -> (r: String)
        ensures
            r@ == masked(self@),
    {
        let cs = chars_of(self.inner.as_str());
        if cs.len() > 20 {
            let mut out = string_of(&cs, 0, 20);
            push_char(&mut out, '.');
            push_char(&mut out, '.');
            push_char(&mut out, '.');
            assert(out@ == cs@.take(20) + seq!['.', '.', '.']);
            out
        } else {
            string_of(&cs, 0, cs.len())
        }
    }

    /// The cookie as an HTTP cookie pair: `sessionKey=` followed by the cookie.
    pub fn to_header_string(&self) -> (r: String)
        ensures
            r@ == seq!['s', 'e', 's', 's', 'i', 'o', 'n', 'K', 'e', 'y', '='] + self@,
    {
        let mut out = String::new();
        push_char(&mut out, 's');
        push_char(&mut out, 'e');
        push_char(&mut out, 's');
        push_char(&mut out, 's');
        push_char(&mut out, 'i');
        push_char(&mut out, 'o');
        push_char(&mut out, 'n');
        push_char(&mut out, 'K');
        push_char(&mut out, 'e');
        push_char(&mut out, 'y');
        push_char(&mut out, '=');
        let cs = chars_of(self.inner.as_str());
        let mut i: usize = 0;
        while i < cs.len()
            invariant
                i <= cs.len(),
                cs@ == self@,
                out@ == seq!['s', 'e', 's', 's', 'i', 'o', 'n', 'K', 'e', 'y', '='] + cs@.take(
                    i as int,
                ),
            decreases cs.len() - i,
        {
            push_char(&mut out, cs[i]);
            assert(cs@.take(i + 1) == cs@.take(i as int).push(cs@[i as int]));
            i += 1;
        }
        assert(cs@.take(cs.len() as int) == cs@);
        out
    }
}


// ---------------------------------------------------------------------------
// Usage record of a cookie
// ---------------------------------------------------------------------------
/// Model family of a request, by which its token usage is bucketed.
#[derive(Debug, Clone, Copy, PartialEq, Eq)]
pub enum ModelFamily {
    Sonnet,
    Opus,
    Other,
}

/// The OAuth token obtained for a cookie.
#[derive(Debug)]
pub struct TokenInfo {
    pub access_token: String,
}

impl Clone for TokenInfo {
    fn clone(&self) -> (r: Self)
        ensures
            r == *self,
    {
        TokenInfo { access_token: self.access_token.clone() }
    }
}

/// The default of the `enabled` flag of a stored cookie.
pub fn default_enabled() -> (b: bool)
    ensures
        b,
{
    true
}

/// A cookie with its state: whether it is enabled, its token, its cool-down, its token usage
/// per accounting window, and the reset boundaries of those windows.
#[derive(Debug)]
pub struct CookieStatus {
    pub cookie: ClewdrCookie,
    pub enabled: bool,
    pub token: Option<TokenInfo>,
    pub reset_time: Option<i64>,
    pub count_tokens_allowed: Option<bool>,
    pub session_usage: UsageBreakdown,
    pub weekly_usage: UsageBreakdown,
    pub weekly_sonnet_usage: UsageBreakdown,
    pub weekly_opus_usage: UsageBreakdown,
    pub lifetime_usage: UsageBreakdown,
    pub session_resets_at: Option<i64>,
    pub weekly_resets_at: Option<i64>,
    pub weekly_sonnet_resets_at: Option<i64>,
    pub weekly_opus_resets_at: Option<i64>,
    pub resets_last_checked_at: Option<i64>,
    pub session_has_reset: Option<bool>,
    pub weekly_has_reset: Option<bool>,
    pub weekly_sonnet_has_reset: Option<bool>,
    pub weekly_opus_has_reset: Option<bool>,
}

impl Clone for CookieStatus {
    fn clone(&self) -> (r: Self)
        ensures
            r == *self,
    {
        let token = match &self.token {
            Some(t) => Some(t.clone()),
            None => None,
        };
        CookieStatus {
            cookie: self.cookie.clone(),
            enabled: self.enabled,
            token,
            reset_time: self.reset_time,
            count_tokens_allowed: self.count_tokens_allowed,
            session_usage: self.session_usage,
            weekly_usage: self.weekly_usage,
            weekly_sonnet_usage: self.weekly_sonnet_usage,
            weekly_opus_usage: self.weekly_opus_usage,
            lifetime_usage: self.lifetime_usage,
            session_resets_at: self.session_resets_at,
            weekly_resets_at: self.weekly_resets_at,
            weekly_sonnet_resets_at: self.weekly_sonnet_resets_at,
            weekly_opus_resets_at: self.weekly_opus_resets_at,
            resets_last_checked_at: self.resets_last_checked_at,
            session_has_reset: self.session_has_reset,
            weekly_has_reset: self.weekly_has_reset,
            weekly_sonnet_has_reset: self.weekly_sonnet_has_reset,
            weekly_opus_has_reset: self.weekly_opus_has_reset,
        }
    }
}

/// Two cookie records are the same record when they hold the same cookie.
impl PartialEq for CookieStatus {
    fn eq(&self, other: &Self) -> (r: bool) {
        self.cookie.inner == other.cookie.inner
    }
}

impl vstd::std_specs::cmp::PartialEqSpecImpl for CookieStatus {
    open spec fn obeys_eq_spec() -> bool {
        true
    }

    open spec fn eq_spec(&self, other: &Self) -> bool {
        self.cookie@ == other.cookie@
    }
}

impl Eq for CookieStatus {}

/// `a + b`, capped at `u64::MAX`.
pub open spec fn sat_add(a: u64, b: u64) -> u64 {
    if a + b > u64::MAX {
        u64::MAX
    } else {
        (a + b) as u64
    }
}

/// `u` with `input`/`output` added to its totals, and to its Sonnet and Opus counters
/// where `sonnet` and `opus` say so.
pub open spec fn bucket_add(
    u: UsageBreakdown,
    input: u64,
    output: u64,
    sonnet: bool,
    opus: bool,
) -> UsageBreakdown {
    UsageBreakdown {
        total_input_tokens: sat_add(u.total_input_tokens, input),
        total_output_tokens: sat_add(u.total_output_tokens, output),
        sonnet_input_tokens: if sonnet {
            sat_add(u.sonnet_input_tokens, input)
        } else {
            u.sonnet_input_tokens
        },
        sonnet_output_tokens: if sonnet {
            sat_add(u.sonnet_output_tokens, output)
        } else {
            u.sonnet_output_tokens
        },
        opus_input_tokens: if opus {
            sat_add(u.opus_input_tokens, input)
        } else {
            u.opus_input_tokens
        },
        opus_output_tokens: if opus {
            sat_add(u.opus_output_tokens, output)
        } else {
            u.opus_output_tokens
        },
    }
}

/// The record after a request of family `family` used `input` and `output` tokens: the
/// session, weekly and lifetime windows count it in their totals and in the family's
/// counters; the weekly Sonnet window counts only Sonnet requests and the weekly Opus window
/// only Opus requests. A request that used no token changes nothing.
pub open spec fn with_usage(c: CookieStatus, input: u64, output: u64, family: ModelFamily) -> CookieStatus {
    if input == 0 && output == 0 {
        c
    } else {
        let sonnet = family == ModelFamily::Sonnet;
        let opus = family == ModelFamily::Opus;
        CookieStatus {
            session_usage: bucket_add(c.session_usage, input, output, sonnet, opus),
            weekly_usage: bucket_add(c.weekly_usage, input, output, sonnet, opus),
            weekly_sonnet_usage: if sonnet {
                bucket_add(c.weekly_sonnet_usage, input, output, true, false)
            } else {
                c.weekly_sonnet_usage
            },
            weekly_opus_usage: if opus {
                bucket_add(c.weekly_opus_usage, input, output, false, true)
            } else {
                c.weekly_opus_usage
            },
            lifetime_usage: bucket_add(c.lifetime_usage, input, output, sonnet, opus),
            ..c
        }
    }
}

/// The record with the session and weekly windows (all families) emptied.
pub open spec fn with_windows_cleared(c: CookieStatus) -> CookieStatus {
    CookieStatus {
        session_usage: UsageBreakdown::zero(),
        weekly_usage: UsageBreakdown::zero(),
        weekly_sonnet_usage: UsageBreakdown::zero(),
        weekly_opus_usage: UsageBreakdown::zero(),
        ..c
    }
}

/// The record at time `now` (seconds): a cool-down that ended before `now` is lifted and
/// the session and weekly windows are emptied; otherwise the record is unchanged.
pub open spec fn reset_at_time(c: CookieStatus, now: i64) -> CookieStatus {
    match c.reset_time {
        Some(t) if t < now => CookieStatus { reset_time: None, ..with_windows_cleared(c) },
        _ => c,
    }
}

fn add_to_bucket(u: &mut UsageBreakdown, input: u64, output: u64, sonnet: bool, opus: bool)
    ensures
        *final(u) == bucket_add(*old(u), input, output, sonnet, opus),
{
    u.total_input_tokens = u.total_input_tokens.saturating_add(input);
    u.total_output_tokens = u.total_output_tokens.saturating_add(output);
    if sonnet {
        u.sonnet_input_tokens = u.sonnet_input_tokens.saturating_add(input);
        u.sonnet_output_tokens = u.sonnet_output_tokens.saturating_add(output);
    }
    if opus {
        u.opus_input_tokens = u.opus_input_tokens.saturating_add(input);
        u.opus_output_tokens = u.opus_output_tokens.saturating_add(output);
    }
}

impl CookieStatus {
    /// A fresh record for the cookie held in `cookie` (see [`ClewdrCookie::parse`]):
    /// enabled, without token, with the given cool-down and all windows empty.
    pub fn new(cookie: &str, reset_time: Option<i64>) -> (r: Result<Self, ClewdrError>)
        ensures
            match r {
                Ok(c) => {
                    &&& cookie_text(cookie@) == Some(c.cookie@)
                    &&& c.enabled
                    &&& c.token is None
                    &&& c.reset_time == reset_time
                    &&& c.count_tokens_allowed is None
                    &&& c.session_usage == UsageBreakdown::zero()
                    &&& c.weekly_usage == UsageBreakdown::zero()
                    &&& c.weekly_sonnet_usage == UsageBreakdown::zero()
                    &&& c.weekly_opus_usage == UsageBreakdown::zero()
                    &&& c.lifetime_usage == UsageBreakdown::zero()
                    &&& c.session_resets_at is None
                    &&& c.weekly_resets_at is None
                    &&& c.weekly_sonnet_resets_at is None
                    &&& c.weekly_opus_resets_at is None
                    &&& c.resets_last_checked_at is None
                    &&& c.session_has_reset is None
                    &&& c.weekly_has_reset is None
                    &&& c.weekly_sonnet_has_reset is None
                    &&& c.weekly_opus_has_reset is None
                },
                Err(e) => cookie_text(cookie@) is None && e == ClewdrError::ParseCookieError {
                    msg: "Invalid cookie format",
                },
            },
    {
        let cookie = ClewdrCookie::parse(cookie)?;
        Ok(CookieStatus {
            cookie,
            enabled: true,
            token: None,
            reset_time,
            count_tokens_allowed: None,
            session_usage: UsageBreakdown::empty(),
            weekly_usage: UsageBreakdown::empty(),
            weekly_sonnet_usage: UsageBreakdown::empty(),
            weekly_opus_usage: UsageBreakdown::empty(),
            lifetime_usage: UsageBreakdown::empty(),
            session_resets_at: None,
            weekly_resets_at: None,
            weekly_sonnet_resets_at: None,
            weekly_opus_resets_at: None,
            resets_last_checked_at: None,
            session_has_reset: None,
            weekly_has_reset: None,
            weekly_sonnet_has_reset: None,
            weekly_opus_has_reset: None,
        })
    }

    /// Lifts the cool-down if it ended before `now` (seconds), emptying the session and
    /// weekly windows (see [`reset_at_time`]).
    pub fn reset_at(self, now: i64) -> (r: Self)
        ensures
            r == reset_at_time(self, now),
    {
        match self.reset_time {
            Some(t) => {
                if t < now {
                    return CookieStatus {
                        reset_time: None,
                        session_usage: UsageBreakdown::empty(),
                        weekly_usage: UsageBreakdown::empty(),
                        weekly_sonnet_usage: UsageBreakdown::empty(),
                        weekly_opus_usage: UsageBreakdown::empty(),
                        ..self
                    };
                }
            },
            None => {},
        }
        self
    }

    /// Lifts the cool-down if it has ended by the current time (see [`reset_at_time`]).
    pub fn reset(self) -> (r: Self)
        ensures
            exists|now: i64| r == reset_at_time(self, now),
    {
        let now = crate::clock::now_seconds();
        self.reset_at(now)
    }

    /// Stores the token obtained for the cookie.
    pub fn add_token(&mut self, token: TokenInfo)
        ensures
            *final(self) == (CookieStatus { token: Some(token), ..*old(self) }),
    {
        self.token = Some(token);
    }

    /// Records whether the cookie may call the token counting endpoint.
    pub fn set_count_tokens_allowed(&mut self, value: Option<bool>)
        ensures
            *final(self) == (CookieStatus { count_tokens_allowed: value, ..*old(self) }),
    {
        self.count_tokens_allowed = value;
    }

    /// Empties the session and weekly windows; the lifetime window is kept.
    pub fn reset_window_usage(&mut self)
        ensures
            *final(self) == with_windows_cleared(*old(self)),
    {
        self.session_usage = UsageBreakdown::empty();
        self.weekly_usage = UsageBreakdown::empty();
        self.weekly_sonnet_usage = UsageBreakdown::empty();
        self.weekly_opus_usage = UsageBreakdown::empty();
    }

    /// Sets the reset boundary of the session window.
    pub fn set_session_resets_at(&mut self, ts: Option<i64>)
        ensures
            *final(self) == (CookieStatus { session_resets_at: ts, ..*old(self) }),
    {
        self.session_resets_at = ts;
    }

    /// Sets the reset boundary of the weekly window.
    pub fn set_weekly_resets_at(&mut self, ts: Option<i64>)
        ensures
            *final(self) == (CookieStatus { weekly_resets_at: ts, ..*old(self) }),
    {
        self.weekly_resets_at = ts;
    }

    /// Sets the reset boundary of the weekly Sonnet window.
    pub fn set_weekly_sonnet_resets_at(&mut self, ts: Option<i64>)
        ensures
            *final(self) == (CookieStatus { weekly_sonnet_resets_at: ts, ..*old(self) }),
    {
        self.weekly_sonnet_resets_at = ts;
    }

    /// Sets the reset boundary of the weekly Opus window.
    pub fn set_weekly_opus_resets_at(&mut self, ts: Option<i64>)
        ensures
            *final(self) == (CookieStatus { weekly_opus_resets_at: ts, ..*old(self) }),
    {
        self.weekly_opus_resets_at = ts;
    }

    /// Counts a request's token usage in the windows (see [`with_usage`]); every counter
    /// saturates at `u64::MAX`.
    pub fn add_and_bucket_usage(&mut self, input: u64, output: u64, family: ModelFamily)
        ensures
            *final(self) == with_usage(*old(self), input, output, family),
    {
        if input == 0 && output == 0 {
            return;
        }
        let sonnet = match family {
            ModelFamily::Sonnet => true,
            _ => false,
        };
        let opus = match family {
            ModelFamily::Opus => true,
            _ => false,
        };
        add_to_bucket(&mut self.session_usage, input, output, sonnet, opus);
        add_to_bucket(&mut self.weekly_usage, input, output, sonnet, opus);
        if sonnet {
            add_to_bucket(&mut self.weekly_sonnet_usage, input, output, true, false);
        }
        if opus {
            add_to_bucket(&mut self.weekly_opus_usage, input, output, false, true);
        }
        add_to_bucket(&mut self.lifetime_usage, input, output, sonnet, opus);
    }
}


// ---------------------------------------------------------------------------
// Usage shown for a cookie
// ---------------------------------------------------------------------------
/// A usage window as the cookie's details list it.
#[derive(Debug, Clone, Copy, PartialEq, Eq)]
pub enum UsageWindow {
    Session,
    SevenDay,
    SevenDayOpus,
    Total,
}

/// The windows a cookie's details show, in this order: session, weekly, weekly Opus and
/// lifetime, each only when one of its counters is not zero.
pub open spec fn shown_windows(c: CookieStatus) -> Seq<(UsageWindow, UsageBreakdown)> {
    let all = seq![
        (UsageWindow::Session, c.session_usage),
        (UsageWindow::SevenDay, c.weekly_usage),
        (UsageWindow::SevenDayOpus, c.weekly_opus_usage),
        (UsageWindow::Total, c.lifetime_usage),
    ];
    all.filter(|g: (UsageWindow, UsageBreakdown)| g.1 != UsageBreakdown::zero())
}

/// The usage groups of a cookie's details (see [`shown_windows`]).
pub fn usage_groups(c: &CookieStatus) -> (r: Vec<(UsageWindow, UsageBreakdown)>)
    ensures
        r@ == shown_windows(*c),
{
    let all = vec![
        (UsageWindow::Session, c.session_usage),
        (UsageWindow::SevenDay, c.weekly_usage),
        (UsageWindow::SevenDayOpus, c.weekly_opus_usage),
        (UsageWindow::Total, c.lifetime_usage),
    ];
    let ghost spec_all = seq![
        (UsageWindow::Session, c.session_usage),
        (UsageWindow::SevenDay, c.weekly_usage),
        (UsageWindow::SevenDayOpus, c.weekly_opus_usage),
        (UsageWindow::Total, c.lifetime_usage),
    ];
    assert(all@ == spec_all);
    let mut out: Vec<(UsageWindow, UsageBreakdown)> = Vec::new();
    let mut i: usize = 0;
    while i < all.len()
        invariant
            i <= all.len(),
            all@ == spec_all,
            out@ == spec_all.take(i as int).filter(
                |g: (UsageWindow, UsageBreakdown)| g.1 != UsageBreakdown::zero(),
            ),
        decreases all.len() - i,
    {
        let g = all[i];
        proof {
            let f = |g: (UsageWindow, UsageBreakdown)| g.1 != UsageBreakdown::zero();
            assert(spec_all.take(i + 1).drop_last() == spec_all.take(i as int));
            spec_all.take(i as int).lemma_filter_push(spec_all[i as int], f);
            assert(spec_all.take(i as int).push(spec_all[i as int]) == spec_all.take(i + 1));
        }
        if g.1.any_nonzero() {
            out.push(g);
        }
        i += 1;
    }
    assert(spec_all.take(4) == spec_all);
    out
}


// ---------------------------------------------------------------------------
// Laws of usage accounting
// ---------------------------------------------------------------------------
/// In every window of the record, the per-family counters stay within the totals.
pub open spec fn usage_consistent(c: CookieStatus) -> bool {
    &&& c.session_usage.families_within_totals()
    &&& c.weekly_usage.families_within_totals()
    &&& c.weekly_sonnet_usage.families_within_totals()
    &&& c.weekly_opus_usage.families_within_totals()
    &&& c.lifetime_usage.families_within_totals()
}

proof fn lemma_bucket_consistent(u: UsageBreakdown, input: u64, output: u64, sonnet: bool, opus: bool)
    requires
        u.families_within_totals(),
    ensures
        bucket_add(u, input, output, sonnet, opus).families_within_totals(),
{
}

/// Counting a request never lets a per-family counter exceed its window's total.
pub proof fn lemma_usage_keeps_families_within_totals(
    c: CookieStatus,
    input: u64,
    output: u64,
    family: ModelFamily,
)
    requires
        usage_consistent(c),
    ensures
        usage_consistent(with_usage(c, input, output, family)),
{
    let sonnet = family == ModelFamily::Sonnet;
    let opus = family == ModelFamily::Opus;
    lemma_bucket_consistent(c.session_usage, input, output, sonnet, opus);
    lemma_bucket_consistent(c.weekly_usage, input, output, sonnet, opus);
    lemma_bucket_consistent(c.weekly_sonnet_usage, input, output, true, false);
    lemma_bucket_consistent(c.weekly_opus_usage, input, output, false, true);
    lemma_bucket_consistent(c.lifetime_usage, input, output, sonnet, opus);
}

proof fn lemma_bucket_commutes(
    u: UsageBreakdown,
    i1: u64,
    o1: u64,
    s1: bool,
    p1: bool,
    i2: u64,
    o2: u64,
    s2: bool,
    p2: bool,
)
    ensures
        bucket_add(bucket_add(u, i1, o1, s1, p1), i2, o2, s2, p2) == bucket_add(
            bucket_add(u, i2, o2, s2, p2),
            i1,
            o1,
            s1,
            p1,
        ),
{
}

/// The order in which two requests are counted does not matter.
pub proof fn lemma_usage_order_irrelevant(
    c: CookieStatus,
    i1: u64,
    o1: u64,
    f1: ModelFamily,
    i2: u64,
    o2: u64,
    f2: ModelFamily,
)
    ensures
        with_usage(with_usage(c, i1, o1, f1), i2, o2, f2) == with_usage(
            with_usage(c, i2, o2, f2),
            i1,
            o1,
            f1,
        ),
{
    let s1 = f1 == ModelFamily::Sonnet;
    let p1 = f1 == ModelFamily::Opus;
    let s2 = f2 == ModelFamily::Sonnet;
    let p2 = f2 == ModelFamily::Opus;
    lemma_bucket_commutes(c.session_usage, i1, o1, s1, p1, i2, o2, s2, p2);
    lemma_bucket_commutes(c.weekly_usage, i1, o1, s1, p1, i2, o2, s2, p2);
    lemma_bucket_commutes(c.lifetime_usage, i1, o1, s1, p1, i2, o2, s2, p2);
    lemma_bucket_commutes(c.weekly_sonnet_usage, i1, o1, true, false, i2, o2, true, false);
    lemma_bucket_commutes(c.weekly_opus_usage, i1, o1, false, true, i2, o2, false, true);
}

/// Lifetime totals never decrease, and grow by exactly the request's tokens while they stay
/// below `u64::MAX`; the cookie, its token, its cool-down and its reset boundaries are untouched.
pub proof fn lemma_usage_lifetime_exact(c: CookieStatus, input: u64, output: u64, family: ModelFamily)
    ensures
        ({
            let d = with_usage(c, input, output, family);
            &&& d.lifetime_usage.total_input_tokens >= c.lifetime_usage.total_input_tokens
            &&& d.lifetime_usage.total_output_tokens >= c.lifetime_usage.total_output_tokens
            &&& c.lifetime_usage.total_input_tokens + input <= u64::MAX
                ==> d.lifetime_usage.total_input_tokens == c.lifetime_usage.total_input_tokens + input
            &&& c.lifetime_usage.total_output_tokens + output <= u64::MAX
                ==> d.lifetime_usage.total_output_tokens == c.lifetime_usage.total_output_tokens
                + output
            &&& d.cookie == c.cookie && d.enabled == c.enabled && d.token == c.token
            &&& d.reset_time == c.reset_time
            &&& d.session_resets_at == c.session_resets_at && d.weekly_resets_at == c.weekly_resets_at
        }),
{
}

/// Only Sonnet requests reach the weekly Sonnet window, and only Opus requests the weekly
/// Opus window.
pub proof fn lemma_usage_family_windows(c: CookieStatus, input: u64, output: u64, family: ModelFamily)
    ensures
        family != ModelFamily::Sonnet ==> with_usage(c, input, output, family).weekly_sonnet_usage
            == c.weekly_sonnet_usage,
        family != ModelFamily::Opus ==> with_usage(c, input, output, family).weekly_opus_usage
            == c.weekly_opus_usage,
{
}


/// `a + b` capped at the largest `u64`.
pub open spec fn capped_sum(a: u64, b: u64) -> int {
    if a as int + b as int > u64::MAX as int {
        u64::MAX as int
    } else {
        a as int + b as int
    }
}

/// `after` is `before` with a request of `input`/`output` tokens counted: its totals grow by
/// them (capped), its Sonnet counters grow when `sonnet` holds and are kept otherwise, and its
/// Opus counters grow when `opus` holds and are kept otherwise.
pub open spec fn window_counts(
    before: UsageBreakdown,
    after: UsageBreakdown,
    input: u64,
    output: u64,
    sonnet: bool,
    opus: bool,
) -> bool {
    &&& after.total_input_tokens == capped_sum(before.total_input_tokens, input)
    &&& after.total_output_tokens == capped_sum(before.total_output_tokens, output)
    &&& after.sonnet_input_tokens == if sonnet {
        capped_sum(before.sonnet_input_tokens, input)
    } else {
        before.sonnet_input_tokens as int
    }
    &&& after.sonnet_output_tokens == if sonnet {
        capped_sum(before.sonnet_output_tokens, output)
    } else {
        before.sonnet_output_tokens as int
    }
    &&& after.opus_input_tokens == if opus {
        capped_sum(before.opus_input_tokens, input)
    } else {
        before.opus_input_tokens as int
    }
    &&& after.opus_output_tokens == if opus {
        capped_sum(before.opus_output_tokens, output)
    } else {
        before.opus_output_tokens as int
    }
}

/// Counting a request buckets it by model family in the session, weekly and lifetime windows
/// alike: each window's totals grow by the request's tokens, and exactly the counters of the
/// request's family (Sonnet or Opus; none for other models) grow with them. The weekly Sonnet
/// window counts only Sonnet requests and the weekly Opus window only Opus requests; every
/// other window is kept.
pub proof fn lemma_usage_buckets_by_family(c: CookieStatus, input: u64, output: u64, family: ModelFamily)
    ensures
        ({
            let d = with_usage(c, input, output, family);
            let sonnet = family == ModelFamily::Sonnet;
            let opus = family == ModelFamily::Opus;
            &&& window_counts(c.session_usage, d.session_usage, input, output, sonnet, opus)
            &&& window_counts(c.weekly_usage, d.weekly_usage, input, output, sonnet, opus)
            &&& window_counts(c.lifetime_usage, d.lifetime_usage, input, output, sonnet, opus)
            &&& sonnet ==> window_counts(
                c.weekly_sonnet_usage,
                d.weekly_sonnet_usage,
                input,
                output,
                true,
                false,
            )
            &&& !sonnet ==> d.weekly_sonnet_usage == c.weekly_sonnet_usage
            &&& opus ==> window_counts(c.weekly_opus_usage, d.weekly_opus_usage, input, output, false, true)
            &&& !opus ==> d.weekly_opus_usage == c.weekly_opus_usage
        }),
{
}

} // verus!
