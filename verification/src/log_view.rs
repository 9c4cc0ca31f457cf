//! What the request-log view derives from the rows it fetched: counts per filter, the rows
//! shown, and the parts of a row's line.
use vstd::prelude::*;

use crate::frontend::{
    filter_accepts, input_total, row_shown, row_visible, ApiRequestLog, StatusFilter,
};
use crate::json::str_eq;
use crate::request_log::{sat_sub_i64, saturating_sub_i64};
use crate::text::{chars_of, string_of, trim, trimmed};

verus! {

// ---------------------------------------------------------------------------
// Counts
// ---------------------------------------------------------------------------
/// How many of `logs` pass the filter `f`.
pub open spec fn passing(logs: Seq<ApiRequestLog>, f: StatusFilter) -> nat
    decreases logs.len(),
{
    if logs.len() == 0 {
        0
    } else {
        passing(logs.drop_last(), f) + if filter_accepts(f, logs.last().status@) {
            1nat
        } else {
            0nat
        }
    }
}

/// How many of `logs` have the status `kind`.
pub open spec fn with_status(logs: Seq<ApiRequestLog>, kind: Seq<char>) -> nat
    decreases logs.len(),
{
    if logs.len() == 0 {
        0
    } else {
        with_status(logs.drop_last(), kind) + if logs.last().status@ == kind {
            1nat
        } else {
            0nat
        }
    }
}

proof fn lemma_passing_bound(logs: Seq<ApiRequestLog>, f: StatusFilter)
    ensures
        passing(logs, f) <= logs.len(),
    decreases logs.len(),
{
    if logs.len() > 0 {
        lemma_passing_bound(logs.drop_last(), f);
    }
}

proof fn lemma_with_status_bound(logs: Seq<ApiRequestLog>, kind: Seq<char>)
    ensures
        with_status(logs, kind) <= logs.len(),
    decreases logs.len(),
{
    if logs.len() > 0 {
        lemma_with_status_bound(logs.drop_last(), kind);
    }
}

/// The count shown on the button of filter `f` (see [`passing`]).
pub fn filter_count(logs: &Vec<ApiRequestLog>, f: StatusFilter) -> (n: usize)
    ensures
        n == passing(logs@, f),
{
    let mut n: usize = 0;
    let mut i: usize = 0;
    while i < logs.len()
        invariant
            i <= logs.len(),
            n == passing(logs@.take(i as int), f),
        decreases logs.len() - i,
    {
        proof {
            lemma_passing_bound(logs@.take(i as int), f);
            assert(logs@.take(i + 1).drop_last() == logs@.take(i as int));
        }
        if f.matches(logs[i].status.as_str()) {
            n += 1;
        }
        i += 1;
    }
    assert(logs@.take(logs.len() as int) == logs@);
    n
}

/// The count shown on the chip of failure kind `kind` (see [`with_status`]).
pub fn status_count(logs: &Vec<ApiRequestLog>, kind: &str) -> (n: usize)
    ensures
        n == with_status(logs@, kind@),
{
    let mut n: usize = 0;
    let mut i: usize = 0;
    while i < logs.len()
        invariant
            i <= logs.len(),
            n == with_status(logs@.take(i as int), kind@),
        decreases logs.len() - i,
    {
        proof {
            lemma_with_status_bound(logs@.take(i as int), kind@);
            assert(logs@.take(i + 1).drop_last() == logs@.take(i as int));
        }
        if str_eq(logs[i].status.as_str(), kind) {
            n += 1;
        }
        i += 1;
    }
    assert(logs@.take(logs.len() as int) == logs@);
    n
}

/// The counts of the filter buttons add up: every row is counted under `All`, and under
/// exactly one of `Pending`, `Success` and `Failed`.
pub proof fn lemma_filter_counts_add_up(logs: Seq<ApiRequestLog>)
    ensures
        passing(logs, StatusFilter::All) == logs.len(),
        passing(logs, StatusFilter::Pending) + passing(logs, StatusFilter::Success) + passing(
            logs,
            StatusFilter::Failed,
        ) == logs.len(),
    decreases logs.len(),
{
    if logs.len() > 0 {
        lemma_filter_counts_add_up(logs.drop_last());
        crate::frontend::lemma_filters_partition(logs.last().status@);
    }
}

// ---------------------------------------------------------------------------
// The rows shown
// ---------------------------------------------------------------------------
/// The positions of the rows of `logs` that are shown (see [`row_shown`]), in order.
pub open spec fn shown_positions(
    logs: Seq<ApiRequestLog>,
    filter: StatusFilter,
    kind: Option<Seq<char>>,
    model: Option<Seq<char>>,
    query: Seq<char>,
) -> Seq<int>
    decreases logs.len(),
{
    if logs.len() == 0 {
        Seq::empty()
    } else {
        let before = shown_positions(logs.drop_last(), filter, kind, model, query);
        if row_shown(logs.last(), filter, kind, model, query) {
            before.push(logs.len() - 1)
        } else {
            before
        }
    }
}

/// A text that may be absent, by its characters.
pub open spec fn opt_text(o: Option<&str>) -> Option<Seq<char>> {
    match o {
        Some(s) => Some(s@),
        None => None,
    }
}

/// The positions of the rows shown under the filter, failure kind, model and (normalised)
/// query (see [`shown_positions`]).
pub fn visible_rows(
    logs: &Vec<ApiRequestLog>,
    filter: StatusFilter,
    kind: Option<&str>,
    model: Option<&str>,
    query: &str,
) -> (r: Vec<usize>)
    ensures
        r@.len() == shown_positions(logs@, filter, opt_text(kind), opt_text(model), query@).len(),
        forall|j: int|
            0 <= j < r@.len() ==> #[trigger] r@[j] as int == shown_positions(
                logs@,
                filter,
                opt_text(kind),
                opt_text(model),
                query@,
            )[j],
{
    let mut out: Vec<usize> = Vec::new();
    let mut i: usize = 0;
    while i < logs.len()
        invariant
            i <= logs.len(),
            out@.len() == shown_positions(
                logs@.take(i as int),
                filter,
                opt_text(kind),
                opt_text(model),
                query@,
            ).len(),
            forall|j: int|
                0 <= j < out@.len() ==> #[trigger] out@[j] as int == shown_positions(
                    logs@.take(i as int),
                    filter,
                    opt_text(kind),
                    opt_text(model),
                    query@,
                )[j],
        decreases logs.len() - i,
    {
        let ghost pre = logs@.take(i as int);
        assert(logs@.take(i + 1).drop_last() == pre);
        assert(logs@.take(i + 1).last() == logs@[i as int]);
        if row_visible(&logs[i], filter, kind, model, query) {
            out.push(i);
        }
        i += 1;
    }
    assert(logs@.take(logs.len() as int) == logs@);
    out
}

// ---------------------------------------------------------------------------
// The line of a row
// ---------------------------------------------------------------------------
/// The duration shown for a row at `now`: the time elapsed so far while it is pending, its
/// recorded duration once it ended.
pub open spec fn shown_duration_of(log: ApiRequestLog, now: i64) -> Option<i64> {
    if log.status@ == crate::frontend::pending_name() {
        Some(sat_sub_i64(now, log.timestamp_ms))
    } else {
        log.duration_ms
    }
}

/// The duration shown for a row at `now` (see [`shown_duration_of`]).
pub fn shown_duration(log: &ApiRequestLog, now: i64) -> (r: Option<i64>)
    ensures
        r == shown_duration_of(*log, now),
{
    proof {
        reveal_strlit("pending");
        assert("pending"@ =~= crate::frontend::pending_name());
    }
    if str_eq(log.status.as_str(), "pending") {
        Some(saturating_sub_i64(now, log.timestamp_ms))
    } else {
        log.duration_ms
    }
}

/// The cache share shown for a row: the cached input and the whole input, when the whole
/// input is known and not zero and the cached input is reported.
pub fn cache_share(log: &ApiRequestLog) -> (r: Option<(u64, u64)>)
    ensures
        r == match (input_total(*log), log.cache_read_input_tokens) {
            (Some(total), Some(read)) => if total > 0 {
                Some((read, total))
            } else {
                None
            },
            _ => None,
        },
{
    match (crate::frontend::total_input(log), log.cache_read_input_tokens) {
        (Some(total), Some(read)) => if total > 0 {
            Some((read, total))
        } else {
            None
        },
        _ => None,
    }
}

// ---------------------------------------------------------------------------
// The headline of an error
// ---------------------------------------------------------------------------
/// Where the first `\n` at or after `i` stands in `s`, or `s.len()` where there is none.
pub open spec fn newline_from(s: Seq<char>, i: int) -> int
    decreases s.len() - i,
{
    if i < 0 || i >= s.len() {
        s.len() as int
    } else if s[i] == '\n' {
        i
    } else {
        newline_from(s, i + 1)
    }
}

/// The newline search stops at a newline at or after where it started, or at the end.
pub proof fn lemma_newline_from(s: Seq<char>, i: int)
    requires
        0 <= i <= s.len(),
    ensures
        i <= newline_from(s, i) <= s.len(),
        newline_from(s, i) < s.len() ==> s[newline_from(s, i)] == '\n',
    decreases s.len() - i,
{
    if i < s.len() && s[i] != '\n' {
        lemma_newline_from(s, i + 1);
    }
}

/// A line without the `\r` of a `\r\n` ending.
pub open spec fn without_cr(l: Seq<char>) -> Seq<char> {
    if l.len() > 0 && l.last() == '\r' {
        l.drop_last()
    } else {
        l
    }
}

/// The first line of `s` at or after position `start` that holds more than white space,
/// lines being delimited as `str::lines` does: at `\n` or `\r\n`, the last one ending at
/// the end of the text.
pub open spec fn text_line_from(s: Seq<char>, start: int) -> Option<Seq<char>>
    decreases s.len() - start,
{
    if start < 0 || start > s.len() {
        None
    } else {
        let k = newline_from(s, start);
        if k < s.len() {
            let line = without_cr(s.subrange(start, k));
            if trim(line).len() > 0 {
                Some(line)
            } else {
                proof {
                    lemma_newline_from(s, start);
                }
                text_line_from(s, k + 1)
            }
        } else {
            let line = s.subrange(start, s.len() as int);
            if trim(line).len() > 0 {
                Some(line)
            } else {
                None
            }
        }
    }
}

/// The headline of an error shown on a row's line: its first line that holds more than
/// white space, cut to 240 characters.
pub open spec fn headline_of(error: Option<Seq<char>>) -> Option<Seq<char>> {
    match error {
        Some(e) => match text_line_from(e, 0) {
            Some(l) => Some(
                if l.len() > 240 {
                    l.take(240)
                } else {
                    l
                },
            ),
            None => None,
        },
        None => None,
    }
}

fn newline_index(cs: &Vec<char>, start: usize) -> (k: usize)
    requires
        start <= cs.len(),
    ensures
        k == newline_from(cs@, start as int),
{
    let mut k = start;
    while k < cs.len() && cs[k] != '\n'
        invariant
            start <= k <= cs.len(),
            newline_from(cs@, start as int) == newline_from(cs@, k as int),
        decreases cs.len() - k,
    {
        k += 1;
    }
    k
}

fn headline_text(cs: &Vec<char>, from: usize, to: usize) -> (r: String)
    requires
        from <= to <= cs.len(),
    ensures
        ({
            let l = cs@.subrange(from as int, to as int);
            r@ == if l.len() > 240 {
                l.take(240)
            } else {
                l
            }
        }),
{
    let end = if to - from > 240 {
        from + 240
    } else {
        to
    };
    let r = string_of(cs, from, end);
    assert(cs@.subrange(from as int, to as int).take((end - from) as int) == cs@.subrange(
        from as int,
        end as int,
    ));
    r
}

/// The headline of an error (see [`headline_of`]).
pub fn error_headline(error: Option<&str>) -> (r: Option<String>)
    ensures
        match r {
            Some(h) => headline_of(opt_text(error)) == Some(h@),
            None => headline_of(opt_text(error)) is None,
        },
{
    let e = match error {
        Some(e) => e,
        None => {
            return None;
        },
    };
    let cs = chars_of(e);
    let mut start: usize = 0;
    while start <= cs.len()
        invariant
            cs@ == e@,
            opt_text(error) == Some(e@),
            start <= cs.len(),
            text_line_from(cs@, 0) == text_line_from(cs@, start as int),
        decreases cs.len() - start,
    {
        let k = newline_index(&cs, start);
        proof {
            lemma_newline_from(cs@, start as int);
        }
        if k < cs.len() {
            let end = if k > start && cs[k - 1] == '\r' {
                k - 1
            } else {
                k
            };
            assert(without_cr(cs@.subrange(start as int, k as int)) == cs@.subrange(
                start as int,
                end as int,
            ));
            let t = trimmed(&cs, start, end);
            if t.len() > 0 {
                return Some(headline_text(&cs, start, end));
            }
            start = k + 1;
        } else {
            let t = trimmed(&cs, start, cs.len());
            if t.len() > 0 {
                return Some(headline_text(&cs, start, cs.len()));
            }
            return None;
        }
    }
    None
}

// ---------------------------------------------------------------------------
// Model chips
// ---------------------------------------------------------------------------
/// How many of `logs` are for the model `m`.
pub open spec fn model_uses(logs: Seq<ApiRequestLog>, m: Seq<char>) -> nat
    decreases logs.len(),
{
    if logs.len() == 0 {
        0
    } else {
        model_uses(logs.drop_last(), m) + if logs.last().model@ == m {
            1nat
        } else {
            0nat
        }
    }
}

/// `a` sorts before `b` from position `i` on, in the order of `String` (lexicographic by
/// characters, a proper prefix first).
pub open spec fn text_lt_from(a: Seq<char>, b: Seq<char>, i: int) -> bool
    decreases a.len() - i,
{
    if i < 0 || i >= a.len() {
        i < b.len()
    } else if i >= b.len() {
        false
    } else if a[i] != b[i] {
        a[i] < b[i]
    } else {
        text_lt_from(a, b, i + 1)
    }
}

/// `a` sorts before `b` in the order of `String`.
pub open spec fn text_lt(a: Seq<char>, b: Seq<char>) -> bool {
    text_lt_from(a, b, 0)
}

/// The chip of model `a` used `na` times goes before that of `b` used `nb` times: it is used
/// more, or as often with a name that sorts first.
pub open spec fn chip_before(a: Seq<char>, na: int, b: Seq<char>, nb: int) -> bool {
    na > nb || (na == nb && text_lt(a, b))
}

proof fn lemma_lt_from_trans(a: Seq<char>, b: Seq<char>, c: Seq<char>, i: int)
    requires
        0 <= i,
        text_lt_from(a, b, i),
        text_lt_from(b, c, i),
    ensures
        text_lt_from(a, c, i),
    decreases a.len() - i,
{
    if i < a.len() && i < b.len() && i < c.len() && a[i] == b[i] && b[i] == c[i] {
        lemma_lt_from_trans(a, b, c, i + 1);
    }
}

proof fn lemma_lt_from_asym(a: Seq<char>, b: Seq<char>, i: int)
    requires
        0 <= i,
        text_lt_from(a, b, i),
    ensures
        !text_lt_from(b, a, i),
    decreases a.len() - i,
{
    if i < a.len() && i < b.len() && a[i] == b[i] {
        lemma_lt_from_asym(a, b, i + 1);
    }
}

proof fn lemma_lt_from_total(a: Seq<char>, b: Seq<char>, i: int)
    requires
        0 <= i <= a.len(),
        i <= b.len(),
        forall|k: int| 0 <= k < i ==> a[k] == b[k],
        a != b,
    ensures
        text_lt_from(a, b, i) || text_lt_from(b, a, i),
    decreases a.len() - i,
{
    if i == a.len() && i == b.len() {
        assert(a =~= b);
    } else if i < a.len() && i < b.len() && a[i] == b[i] {
        lemma_lt_from_total(a, b, i + 1);
    }
}

/// The order of chips is a strict total order on chips of distinct models.
proof fn lemma_chip_order(a: Seq<char>, na: int, b: Seq<char>, nb: int, c: Seq<char>, nc: int)
    ensures
        chip_before(a, na, b, nb) && chip_before(b, nb, c, nc) ==> chip_before(a, na, c, nc),
        chip_before(a, na, b, nb) ==> !chip_before(b, nb, a, na),
        a != b ==> chip_before(a, na, b, nb) || chip_before(b, nb, a, na),
{
    if chip_before(a, na, b, nb) && chip_before(b, nb, c, nc) && na == nb && nb == nc {
        lemma_lt_from_trans(a, b, c, 0);
    }
    if chip_before(a, na, b, nb) && na == nb {
        lemma_lt_from_asym(a, b, 0);
    }
    if a != b {
        lemma_lt_from_total(a, b, 0);
    }
}

fn text_less(a: &str, b: &str) -> (r: bool)
    ensures
        r == text_lt(a@, b@),
{
    let x = chars_of(a);
    let y = chars_of(b);
    let mut i: usize = 0;
    while i < x.len() && i < y.len() && x[i] == y[i]
        invariant
            x@ == a@,
            y@ == b@,
            i <= x.len(),
            i <= y.len(),
            text_lt(a@, b@) == text_lt_from(x@, y@, i as int),
        decreases x.len() - i,
    {
        i += 1;
    }
    if i == x.len() {
        i < y.len()
    } else if i == y.len() {
        false
    } else {
        x[i] < y[i]
    }
}

proof fn lemma_uses_positive(logs: Seq<ApiRequestLog>, m: Seq<char>)
    ensures
        model_uses(logs, m) > 0 ==> exists|p: int| 0 <= p < logs.len() && #[trigger] logs[p].model@ == m,
        model_uses(logs, m) <= logs.len(),
    decreases logs.len(),
{
    if logs.len() > 0 {
        let init = logs.drop_last();
        lemma_uses_positive(init, m);
        if model_uses(init, m) > 0 {
            let p = choose|p: int| 0 <= p < init.len() && #[trigger] init[p].model@ == m;
            assert(logs[p] == init[p]);
        }
        if logs.last().model@ == m {
            assert(logs[logs.len() - 1].model@ == m);
        }
    }
}

/// The chips are keyed by distinct models.
pub open spec fn chips_distinct(c: Seq<(String, usize)>) -> bool {
    forall|i: int, j: int| 0 <= i < j < c.len() ==> #[trigger] c[i].0@ != #[trigger] c[j].0@
}

/// Each chip counts the uses of its model among `logs`, and the model is used.
pub open spec fn chips_counted(c: Seq<(String, usize)>, logs: Seq<ApiRequestLog>) -> bool {
    forall|j: int|
        0 <= j < c.len() ==> #[trigger] c[j].1 == model_uses(logs, c[j].0@) && c[j].1 > 0
}

/// Every model of `logs` has a chip.
pub open spec fn chips_cover(c: Seq<(String, usize)>, logs: Seq<ApiRequestLog>) -> bool {
    forall|p: int| #![trigger logs[p]] 0 <= p < logs.len() ==> has_chip(c, logs[p].model@)
}

/// Some chip of `c` is for the model `m`.
pub open spec fn has_chip(c: Seq<(String, usize)>, m: Seq<char>) -> bool {
    exists|j: int| 0 <= j < c.len() && #[trigger] c[j].0@ == m
}

/// The chips are in chip order.
pub open spec fn chips_sorted(c: Seq<(String, usize)>) -> bool {
    forall|i: int, j: int|
        0 <= i < j < c.len() ==> chip_before(
            #[trigger] c[i].0@,
            c[i].1 as int,
            #[trigger] c[j].0@,
            c[j].1 as int,
        )
}

fn find_chip(chips: &Vec<(String, usize)>, model: &str) -> (r: usize)
    ensures
        r <= chips.len(),
        r < chips.len() ==> chips@[r as int].0@ == model@,
        r == chips.len() ==> forall|j: int| 0 <= j < chips.len() ==> #[trigger] chips@[j].0@ != model@,
{
    let mut j: usize = 0;
    while j < chips.len()
        invariant
            j <= chips.len(),
            forall|k: int| 0 <= k < j ==> #[trigger] chips@[k].0@ != model@,
        decreases chips.len() - j,
    {
        if str_eq(chips[j].0.as_str(), model) {
            return j;
        }
        j += 1;
    }
    j
}

fn count_models(logs: &Vec<ApiRequestLog>) -> (c: Vec<(String, usize)>)
    ensures
        chips_distinct(c@),
        chips_counted(c@, logs@),
        chips_cover(c@, logs@),
{
    let mut c: Vec<(String, usize)> = Vec::new();
    let mut i: usize = 0;
    while i < logs.len()
        invariant
            i <= logs.len(),
            chips_distinct(c@),
            chips_counted(c@, logs@.take(i as int)),
            chips_cover(c@, logs@.take(i as int)),
        decreases logs.len() - i,
    {
        let ghost pre = logs@.take(i as int);
        let ghost post = logs@.take(i + 1);
        let ghost m = logs@[i as int].model@;
        assert(post.drop_last() == pre);
        assert(post.last() == logs@[i as int]);
        let j = find_chip(&c, logs[i].model.as_str());
        let ghost old_c = c@;
        proof {
            lemma_uses_positive(pre, m);
            lemma_uses_positive(post, m);
        }
        if j < c.len() {
            let name = c[j].0.clone();
            let n = c[j].1;
            assert(n <= i) by {
                lemma_uses_positive(pre, m);
            }
            c.set(j, (name, n + 1));
            assert forall|k: int| 0 <= k < c@.len() implies #[trigger] c@[k].1 == model_uses(post, c@[k].0@) && c@[k].1 > 0 by {
                assert(c@[k].0@ == old_c[k].0@);
            }
            assert forall|p: int| 0 <= p < post.len() implies has_chip(c@, #[trigger] post[p].model@) by {
                if p < pre.len() {
                    assert(post[p] == pre[p]);
                    assert(has_chip(old_c, pre[p].model@));
                    let q = choose|q: int| 0 <= q < old_c.len() && #[trigger] old_c[q].0@ == pre[p].model@;
                    assert(c@[q].0@ == old_c[q].0@);
                } else {
                    assert(c@[j as int].0@ == m);
                }
            }
            assert forall|a: int, b: int| 0 <= a < b < c@.len() implies #[trigger] c@[a].0@ != #[trigger] c@[b].0@ by {
                assert(c@[a].0@ == old_c[a].0@ && c@[b].0@ == old_c[b].0@);
            }
        } else {
            assert(model_uses(pre, m) == 0) by {
                if model_uses(pre, m) > 0 {
                    let p = choose|p: int| 0 <= p < pre.len() && #[trigger] pre[p].model@ == m;
                    assert(has_chip(old_c, pre[p].model@));
                    let q = choose|q: int| 0 <= q < old_c.len() && #[trigger] old_c[q].0@ == pre[p].model@;
                    assert(old_c[q].0@ != m);
                }
            }
            c.push((logs[i].model.clone(), 1));
            assert forall|k: int| 0 <= k < c@.len() implies #[trigger] c@[k].1 == model_uses(post, c@[k].0@) && c@[k].1 > 0 by {
                if k < old_c.len() {
                    assert(c@[k] == old_c[k]);
                    assert(old_c[k].0@ != m);
                }
            }
            assert forall|p: int| 0 <= p < post.len() implies has_chip(c@, #[trigger] post[p].model@) by {
                if p < pre.len() {
                    assert(post[p] == pre[p]);
                    assert(has_chip(old_c, pre[p].model@));
                    let q = choose|q: int| 0 <= q < old_c.len() && #[trigger] old_c[q].0@ == pre[p].model@;
                    assert(c@[q] == old_c[q]);
                } else {
                    assert(c@[old_c.len() as int].0@ == m);
                }
            }
            assert forall|a: int, b: int| 0 <= a < b < c@.len() implies #[trigger] c@[a].0@ != #[trigger] c@[b].0@ by {
                if b == old_c.len() {
                    assert(c@[a] == old_c[a]);
                } else {
                    assert(c@[a] == old_c[a] && c@[b] == old_c[b]);
                }
            }
        }
        i += 1;
    }
    assert(logs@.take(logs.len() as int) == logs@);
    c
}

fn chip_position(out: &Vec<(String, usize)>, name: &str, n: usize) -> (p: usize)
    ensures
        p <= out.len(),
        forall|j: int|
            0 <= j < p ==> !chip_before(name@, n as int, #[trigger] out@[j].0@, out@[j].1 as int),
        p < out.len() ==> chip_before(name@, n as int, out@[p as int].0@, out@[p as int].1 as int),
{
    let mut j: usize = 0;
    while j < out.len()
        invariant
            j <= out.len(),
            forall|q: int|
                0 <= q < j ==> !chip_before(name@, n as int, #[trigger] out@[q].0@, out@[q].1 as int),
        decreases out.len() - j,
    {
        if n > out[j].1 || (n == out[j].1 && text_less(name, out[j].0.as_str())) {
            return j;
        }
        j += 1;
    }
    j
}

/// `out` holds exactly the chips `c[0..k]`, by model and count: `out[j]` is `c[idx[j]]` and
/// `c[q]` is `out[inv[q]]`.
spec fn chips_match(
    out: Seq<(String, usize)>,
    c: Seq<(String, usize)>,
    k: int,
    idx: Seq<int>,
    inv: Seq<int>,
) -> bool {
    &&& idx.len() == out.len()
    &&& inv.len() == k
    &&& forall|j: int|
        0 <= j < out.len() ==> 0 <= #[trigger] idx[j] < k && out[j].0@ == c[idx[j]].0@ && out[j].1
            == c[idx[j]].1
    &&& forall|q: int|
        0 <= q < k ==> 0 <= #[trigger] inv[q] < out.len() && out[inv[q]].0@ == c[q].0@
            && out[inv[q]].1 == c[q].1
}

proof fn lemma_insert_distinct(old_out: Seq<(String, usize)>, pos: int, x: (String, usize))
    requires
        0 <= pos <= old_out.len(),
        chips_distinct(old_out),
        forall|j: int| 0 <= j < old_out.len() ==> #[trigger] old_out[j].0@ != x.0@,
    ensures
        chips_distinct(old_out.insert(pos, x)),
{
    let out = old_out.insert(pos, x);
    assert forall|a: int, b: int| 0 <= a < b < out.len() implies #[trigger] out[a].0@
        != #[trigger] out[b].0@ by {
        if a < pos && b < pos {
            assert(out[a] == old_out[a] && out[b] == old_out[b]);
        } else if a < pos && b == pos {
            assert(out[a] == old_out[a]);
        } else if a < pos {
            assert(out[a] == old_out[a] && out[b] == old_out[b - 1]);
        } else if a == pos {
            assert(out[b] == old_out[b - 1]);
        } else {
            assert(out[a] == old_out[a - 1] && out[b] == old_out[b - 1]);
        }
    }
}

proof fn lemma_insert_sorted(old_out: Seq<(String, usize)>, pos: int, x: (String, usize))
    requires
        0 <= pos <= old_out.len(),
        chips_sorted(old_out),
        forall|j: int| 0 <= j < old_out.len() ==> #[trigger] old_out[j].0@ != x.0@,
        forall|j: int|
            0 <= j < pos ==> !chip_before(x.0@, x.1 as int, #[trigger] old_out[j].0@, old_out[j].1 as int),
        pos < old_out.len() ==> chip_before(x.0@, x.1 as int, old_out[pos].0@, old_out[pos].1 as int),
    ensures
        chips_sorted(old_out.insert(pos, x)),
{
    let out = old_out.insert(pos, x);
    assert forall|a: int, b: int| 0 <= a < b < out.len() implies chip_before(
        #[trigger] out[a].0@,
        out[a].1 as int,
        #[trigger] out[b].0@,
        out[b].1 as int,
    ) by {
        if a < pos && b < pos {
            assert(out[a] == old_out[a] && out[b] == old_out[b]);
        } else if a < pos && b == pos {
            assert(out[a] == old_out[a]);
            assert(old_out[a].0@ != x.0@);
            lemma_chip_order(old_out[a].0@, old_out[a].1 as int, x.0@, x.1 as int, x.0@, x.1 as int);
        } else if a < pos {
            assert(out[a] == old_out[a] && out[b] == old_out[b - 1]);
        } else if a == pos {
            assert(out[b] == old_out[b - 1]);
            if b - 1 > pos {
                lemma_chip_order(
                    x.0@,
                    x.1 as int,
                    old_out[pos].0@,
                    old_out[pos].1 as int,
                    old_out[b - 1].0@,
                    old_out[b - 1].1 as int,
                );
            }
        } else {
            assert(out[a] == old_out[a - 1] && out[b] == old_out[b - 1]);
        }
    }
}

proof fn lemma_insert_match(
    old_out: Seq<(String, usize)>,
    pos: int,
    x: (String, usize),
    c: Seq<(String, usize)>,
    k: int,
    idx: Seq<int>,
    inv: Seq<int>,
)
    requires
        0 <= k < c.len(),
        0 <= pos <= old_out.len(),
        x.0@ == c[k].0@,
        x.1 == c[k].1,
        chips_match(old_out, c, k, idx, inv),
    ensures
        chips_match(
            old_out.insert(pos, x),
            c,
            k + 1,
            idx.insert(pos, k),
            Seq::new(k as nat, |q: int| if inv[q] >= pos { inv[q] + 1 } else { inv[q] }).push(pos),
        ),
{
    let out = old_out.insert(pos, x);
    let idx2 = idx.insert(pos, k);
    let inv2 = Seq::new(k as nat, |q: int| if inv[q] >= pos { inv[q] + 1 } else { inv[q] }).push(pos);
    assert forall|j: int| 0 <= j < out.len() implies 0 <= #[trigger] idx2[j] < k + 1 && out[j].0@
        == c[idx2[j]].0@ && out[j].1 == c[idx2[j]].1 by {
        if j < pos {
            assert(out[j] == old_out[j] && idx2[j] == idx[j]);
        } else if j == pos {
            assert(out[j] == x && idx2[j] == k);
        } else {
            assert(out[j] == old_out[j - 1] && idx2[j] == idx[j - 1]);
        }
    }
    assert forall|q: int| 0 <= q < k + 1 implies 0 <= #[trigger] inv2[q] < out.len() && out[inv2[q]].0@
        == c[q].0@ && out[inv2[q]].1 == c[q].1 by {
        if q == k {
            assert(inv2[q] == pos && out[pos] == x);
        } else {
            let p = inv[q];
            if p >= pos {
                assert(inv2[q] == p + 1 && out[p + 1] == old_out[p]);
            } else {
                assert(inv2[q] == p && out[p] == old_out[p]);
            }
        }
    }
}

proof fn lemma_new_chip_fresh(
    old_out: Seq<(String, usize)>,
    c: Seq<(String, usize)>,
    k: int,
    idx: Seq<int>,
    inv: Seq<int>,
)
    requires
        0 <= k < c.len(),
        chips_distinct(c),
        chips_match(old_out, c, k, idx, inv),
    ensures
        forall|j: int| 0 <= j < old_out.len() ==> #[trigger] old_out[j].0@ != c[k].0@,
{
    assert forall|j: int| 0 <= j < old_out.len() implies #[trigger] old_out[j].0@ != c[k].0@ by {
        assert(0 <= idx[j] < k);
        assert(c[idx[j]].0@ != c[k].0@);
    }
}

proof fn lemma_chips_final(
    out: Seq<(String, usize)>,
    c: Seq<(String, usize)>,
    logs: Seq<ApiRequestLog>,
    idx: Seq<int>,
    inv: Seq<int>,
)
    requires
        chips_counted(c, logs),
        chips_cover(c, logs),
        chips_match(out, c, c.len() as int, idx, inv),
    ensures
        chips_counted(out, logs),
        chips_cover(out, logs),
{
    assert forall|j: int| 0 <= j < out.len() implies #[trigger] out[j].1 == model_uses(logs, out[j].0@)
        && out[j].1 > 0 by {
        let q = idx[j];
        assert(c[q].1 == model_uses(logs, c[q].0@) && c[q].1 > 0);
    }
    assert forall|p: int| 0 <= p < logs.len() implies has_chip(out, #[trigger] logs[p].model@) by {
        assert(has_chip(c, logs[p].model@));
        let q = choose|q: int| 0 <= q < c.len() && #[trigger] c[q].0@ == logs[p].model@;
        let j = inv[q];
        assert(out[j].0@ == logs[p].model@);
    }
}

/// The model chips of the log view: one per model of `logs`, with the number of its rows,
/// the most used first and models used as often by name.
pub fn model_chips(logs: &Vec<ApiRequestLog>) -> (r: Vec<(String, usize)>)
    ensures
        chips_distinct(r@),
        chips_counted(r@, logs@),
        chips_cover(r@, logs@),
        chips_sorted(r@),
{
    let c = count_models(logs);
    let mut out: Vec<(String, usize)> = Vec::new();
    let mut k: usize = 0;
    let ghost mut idx: Seq<int> = Seq::empty();
    let ghost mut inv: Seq<int> = Seq::empty();
    while k < c.len()
        invariant
            k <= c.len(),
            chips_distinct(c@),
            chips_distinct(out@),
            chips_sorted(out@),
            out@.len() == k,
            chips_match(out@, c@, k as int, idx, inv),
        decreases c.len() - k,
    {
        let name = c[k].0.clone();
        let n = c[k].1;
        let pos = chip_position(&out, name.as_str(), n);
        let ghost old_out = out@;
        let ghost x = (name, n);
        proof {
            lemma_new_chip_fresh(old_out, c@, k as int, idx, inv);
        }
        out.insert(pos, (name, n));
        proof {
            lemma_insert_distinct(old_out, pos as int, x);
            lemma_insert_sorted(old_out, pos as int, x);
            lemma_insert_match(old_out, pos as int, x, c@, k as int, idx, inv);
            inv = Seq::new(k as nat, |q: int| if inv[q] >= pos { inv[q] + 1 } else { inv[q] }).push(
                pos as int,
            );
            idx = idx.insert(pos as int, k as int);
        }
        k += 1;
    }
    proof {
        lemma_chips_final(out@, c@, logs@, idx, inv);
    }
    out
}

} // verus!
