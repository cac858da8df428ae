//! Decisions around each API request: the request-rate limit, and what to
//! do with a response (retry after a pause, fail, or parse the body).

use vstd::prelude::*;

use crate::text::{int_decimal, trim, trim_str, u64_to_string};
use crate::utils::{cuttable, summarize_body, summarized};

verus! {

/// Requests allowed per window.
pub const MAX_REQUESTS_PER_WINDOW: usize = 80;

/// The window, in nanoseconds (one minute).
pub const REQUEST_WINDOW_NANOS: u64 = 60_000_000_000;

/// The send times (nanoseconds on a monotonic clock) of the requests made
/// within the last window, oldest first.
pub struct RateLimiter {
    timestamps: Vec<u64>,
}

/// Whether a request may go now, or how long to wait before asking again.
pub enum SlotDecision {
    Granted,
    Wait(u64),
}

/// The times with stale ones (a whole window old or more at `now`) dropped
/// from the front.
pub open spec fn drop_stale(ts: Seq<u64>, now: u64) -> Seq<u64>
    decreases ts.len(),
{
    if ts.len() > 0 && (if now >= ts[0] { now - ts[0] } else { 0 }) >= REQUEST_WINDOW_NANOS {
        drop_stale(ts.drop_first(), now)
    } else {
        ts
    }
}

/// One request for a slot at `now`, as values: the remembered times
/// afterwards, and whether the request was granted.
pub open spec fn acquire_step(ts: Seq<u64>, now: u64) -> (Seq<u64>, bool) {
    let kept = drop_stale(ts, now);
    if kept.len() < MAX_REQUESTS_PER_WINDOW {
        (kept.push(now), true)
    } else {
        (kept, false)
    }
}

impl RateLimiter {
    pub closed spec fn view(&self) -> Seq<u64> {
        self.timestamps@
    }

    /// At most a window's worth of requests is remembered.
    pub open spec fn wf(&self) -> bool {
        self.view().len() <= MAX_REQUESTS_PER_WINDOW
    }

    pub fn new() -> (res: RateLimiter)
        ensures
            res.view() == Seq::<u64>::empty(),
            res.wf(),
    {
        RateLimiter { timestamps: Vec::new() }
    }

    /// Asks for a request slot at time `now`: forgets the requests a whole
    /// window old; then grants and records `now` if fewer than the limit
    /// remain, else says how long until the oldest one leaves the window.
    pub fn try_acquire(&mut self, now: u64) -> (res: SlotDecision)
        requires
            old(self).wf(),
        ensures
            final(self).wf(),
            (final(self).view(), res is Granted) == acquire_step(old(self).view(), now),
            ({
                let kept = drop_stale(old(self).view(), now);
                match res {
                    SlotDecision::Granted => kept.len() < MAX_REQUESTS_PER_WINDOW && final(self).view()
                        == kept.push(now),
                    SlotDecision::Wait(d) => kept.len() >= MAX_REQUESTS_PER_WINDOW && final(self).view()
                        == kept && d == REQUEST_WINDOW_NANOS - (if now >= kept[0] {
                        now - kept[0]
                    } else {
                        0
                    }),
                }
            }),
    {
        let ghost start = self.timestamps@;
        let mut drop: usize = 0;
        assert(start.skip(0) =~= start);
        while drop < self.timestamps.len() && now.saturating_sub(self.timestamps[drop])
            >= REQUEST_WINDOW_NANOS
            invariant
                self.timestamps@ == start,
                drop <= start.len(),
                drop_stale(start, now) == drop_stale(start.skip(drop as int), now),
            decreases start.len() - drop,
        {
            proof {
                assert(start.skip(drop as int).drop_first() =~= start.skip(drop + 1));
            }
            drop = drop + 1;
        }
        let ghost kept = drop_stale(start, now);
        assert(kept == start.skip(drop as int));
        let mut rest: Vec<u64> = Vec::new();
        let mut i: usize = drop;
        while i < self.timestamps.len()
            invariant
                self.timestamps@ == start,
                drop <= i <= start.len(),
                rest@ == start.subrange(drop as int, i as int),
            decreases start.len() - i,
        {
            rest.push(self.timestamps[i]);
            proof {
                assert(start.subrange(drop as int, i + 1) =~= start.subrange(drop as int, i as int).push(
                    start[i as int],
                ));
            }
            i = i + 1;
        }
        assert(rest@ =~= kept);
        self.timestamps = rest;
        if self.timestamps.len() < MAX_REQUESTS_PER_WINDOW {
            self.timestamps.push(now);
            SlotDecision::Granted
        } else {
            let oldest = self.timestamps[0];
            SlotDecision::Wait(REQUEST_WINDOW_NANOS - now.saturating_sub(oldest))
        }
    }
}

/// Retries allowed for rate limiting, transient errors and empty bodies.
pub const MAX_RETRIES: u32 = 6;

/// What to do with a response.
pub enum HttpDecision {
    /// Wait `backoff_ms` milliseconds and send the request again; `notice`
    /// says why.
    Retry { backoff_ms: u64, notice: String },
    /// Give up with this message.
    Fail(String),
    /// Parse this (normalized) body as the GraphQL reply.
    Parse(String),
}

/// `HttpDecision` as values.
pub enum DecisionView {
    Retry(int, Seq<char>),
    Fail(Seq<char>),
    Parse(Seq<char>),
}

impl HttpDecision {
    pub open spec fn view(&self) -> DecisionView {
        match self {
            HttpDecision::Retry { backoff_ms, notice } => DecisionView::Retry(*backoff_ms as int, notice@),
            HttpDecision::Fail(m) => DecisionView::Fail(m@),
            HttpDecision::Parse(b) => DecisionView::Parse(b@),
        }
    }
}

pub open spec fn pow_nat(b: nat, e: nat) -> nat
    decreases e,
{
    if e == 0 {
        1
    } else {
        b * pow_nat(b, (e - 1) as nat)
    }
}

/// Leading byte-order marks (U+FEFF) removed.
pub open spec fn strip_bom(s: Seq<char>) -> Seq<char>
    decreases s.len(),
{
    if s.len() > 0 && s[0] == '\u{feff}' {
        strip_bom(s.drop_first())
    } else {
        s
    }
}

/// 2xx
pub open spec fn is_success(status: u16) -> bool {
    200 <= status <= 299
}

/// `"{slug} [{query_type}]"`
pub open spec fn request_tag(slug: Seq<char>, query_type: Seq<char>) -> Seq<char> {
    slug + " ["@ + query_type + "]"@
}

/// `", retrying in {ms}ms (attempt {retry + 1}/{MAX_RETRIES})"`
pub open spec fn retry_suffix(ms: int, retry: int) -> Seq<char> {
    ", retrying in "@ + int_decimal(ms) + "ms (attempt "@ + int_decimal(retry + 1) + "/"@
        + int_decimal(MAX_RETRIES as int) + ")"@
}

/// `" (content-type: {ct}). Body: {summary}"`
pub open spec fn body_suffix(content_type: Seq<char>, body: Seq<char>) -> Seq<char> {
    " (content-type: "@ + content_type + "). Body: "@ + summarized(body, 300)
}

/// The response statuses whose message quotes the body.
pub open spec fn quotes_body(retry: u32, status: u16) -> bool {
    ||| (status == 502 || status == 503) && retry >= MAX_RETRIES
    ||| status == 504
    ||| status != 429 && status != 502 && status != 503 && !is_success(status)
}

/// Whether the message for this response quotes its body.
pub fn response_quotes_body(retry: u32, status: u16) -> (res: bool)
    ensures
        res == quotes_body(retry, status),
{
    ((status == 502 || status == 503) && retry >= MAX_RETRIES) || status == 504 || (status != 429
        && status != 502 && status != 503 && !(200 <= status && status <= 299))
}

/// What a response calls for, by status: 429 is retried with backoff
/// 200·4ⁿ ms, 502/503 and empty 2xx bodies with backoff 250·2ⁿ ms, each at
/// most `MAX_RETRIES` times; 504 and other non-2xx statuses fail at once;
/// a non-empty 2xx body is parsed.
pub open spec fn expected_decision(
    retry: u32,
    status: u16,
    content_type: Seq<char>,
    body: Seq<char>,
    slug: Seq<char>,
    query_type: Seq<char>,
) -> DecisionView {
    let tag = request_tag(slug, query_type);
    if status == 429 {
        if retry < MAX_RETRIES {
            let ms = (200 * pow_nat(4, retry as nat)) as int;
            DecisionView::Retry(ms, "Rate limited (429) for "@ + tag + retry_suffix(ms, retry as int))
        } else {
            DecisionView::Fail(
                "Rate limited (429) for "@ + tag + " after "@ + int_decimal(MAX_RETRIES as int)
                    + " retries"@,
            )
        }
    } else if status == 502 || status == 503 {
        if retry < MAX_RETRIES {
            let ms = (250 * pow_nat(2, retry as nat)) as int;
            DecisionView::Retry(
                ms,
                "Transient HTTP "@ + int_decimal(status as int) + " for "@ + tag + retry_suffix(
                    ms,
                    retry as int,
                ),
            )
        } else {
            DecisionView::Fail(
                "HTTP "@ + int_decimal(status as int) + " for "@ + tag + " after "@ + int_decimal(
                    MAX_RETRIES as int,
                ) + " retries"@ + body_suffix(content_type, body),
            )
        }
    } else if status == 504 {
        DecisionView::Fail("HTTP 504 for "@ + tag + body_suffix(content_type, body))
    } else if !is_success(status) {
        DecisionView::Fail(
            "HTTP "@ + int_decimal(status as int) + " for "@ + tag + body_suffix(content_type, body),
        )
    } else {
        let normalized = trim(strip_bom(body));
        if normalized.len() == 0 {
            if retry < MAX_RETRIES {
                let ms = (250 * pow_nat(2, retry as nat)) as int;
                DecisionView::Retry(
                    ms,
                    "Empty response body for "@ + tag + retry_suffix(ms, retry as int),
                )
            } else {
                DecisionView::Fail(
                    "Empty response body for "@ + tag + " after "@ + int_decimal(
                        MAX_RETRIES as int,
                    ) + " retries (content-type: "@ + content_type + ")"@,
                )
            }
        } else {
            DecisionView::Parse(normalized)
        }
    }
}

fn pow_small(b: u64, e: u32) -> (res: u64)
    requires
        b == 2 || b == 4,
        e < MAX_RETRIES,
    ensures
        res == pow_nat(b as nat, e as nat),
        res <= 1024,
{
    proof {
        reveal_with_fuel(pow_nat, 7);
    }
    let mut r: u64 = 1;
    let mut k: u32 = 0;
    while k < e
        invariant
            b == 2 || b == 4,
            k <= e < MAX_RETRIES,
            r == pow_nat(b as nat, k as nat),
            r <= 1024,
            k == 0 ==> r == 1,
            k >= 1 ==> r <= pow_nat(4, k as nat),
            pow_nat(4, 5) == 1024,
        decreases e - k,
    {
        proof {
            lemma_pow_le(b as nat, k as nat);
        }
        r = r * b;
        k = k + 1;
    }
    r
}

proof fn lemma_pow_le(b: nat, k: nat)
    requires
        b == 2 || b == 4,
        k < 5,
    ensures
        pow_nat(b, k) * b <= pow_nat(4, (k + 1) as nat),
        pow_nat(4, (k + 1) as nat) <= 1024,
    decreases k,
{
    reveal_with_fuel(pow_nat, 7);
    if k > 0 {
        lemma_pow_le(b, (k - 1) as nat);
        assert(pow_nat(b, k) == b * pow_nat(b, (k - 1) as nat));
        assert(pow_nat(4, (k + 1) as nat) == 4 * pow_nat(4, k));
        assert(pow_nat(b, k) * b <= pow_nat(4, (k + 1) as nat)) by (nonlinear_arith)
            requires
                pow_nat(b, (k - 1) as nat) * b <= pow_nat(4, k),
                pow_nat(b, k) == b * pow_nat(b, (k - 1) as nat),
                pow_nat(4, (k + 1) as nat) == 4 * pow_nat(4, k),
                b <= 4,
        ;
    }
}

proof fn lemma_strip_bom_skip(s: Seq<char>, i: int)
    requires
        0 <= i <= s.len(),
        forall|j: int| 0 <= j < i ==> #[trigger] s[j] == '\u{feff}',
    ensures
        strip_bom(s) == strip_bom(s.skip(i)),
    decreases i,
{
    if i > 0 {
        assert(s.drop_first().skip(i - 1) =~= s.skip(i));
        lemma_strip_bom_skip(s.drop_first(), i - 1);
    } else {
        assert(s.skip(0) =~= s);
    }
}

/// The body with leading byte-order marks dropped, then trimmed.
pub fn normalize_body(body: &str) -> (res: String)
    ensures
        res@ == trim(strip_bom(body@)),
{
    let n = body.unicode_len();
    let mut i: usize = 0;
    while i < n && body.get_char(i) == '\u{feff}'
        invariant
            n == body@.len(),
            i <= n,
            forall|j: int| 0 <= j < i ==> #[trigger] body@[j] == '\u{feff}',
        decreases n - i,
    {
        i = i + 1;
    }
    proof {
        lemma_strip_bom_skip(body@, i as int);
        assert(body@.skip(i as int) =~= body@.subrange(i as int, n as int));
    }
    trim_str(body.substring_char(i, n))
}

fn request_tag_text(slug: &str, query_type: &str) -> (res: String)
    ensures
        res@ == request_tag(slug@, query_type@),
{
    let mut m = String::from_str(slug);
    m.append(" [");
    m.append(query_type);
    m.append("]");
    m
}

fn retry_suffix_text(ms: u64, retry: u32) -> (res: String)
    requires
        retry < MAX_RETRIES,
    ensures
        res@ == retry_suffix(ms as int, retry as int),
{
    let mut m = String::from_str(", retrying in ");
    m.append(u64_to_string(ms).as_str());
    m.append("ms (attempt ");
    m.append(u64_to_string((retry + 1) as u64).as_str());
    m.append("/");
    m.append(u64_to_string(MAX_RETRIES as u64).as_str());
    m.append(")");
    m
}

fn body_suffix_text(content_type: &str, body: &str) -> (res: String)
    requires
        cuttable(body@, 300),
    ensures
        res@ == body_suffix(content_type@, body@),
{
    let mut m = String::from_str(" (content-type: ");
    m.append(content_type);
    m.append("). Body: ");
    m.append(summarize_body(body, 300).as_str());
    m
}

/// Decides what a response calls for (see `expected_decision`). The body
/// is quoted, cut to 300 bytes, in some messages; there the cut must not
/// split a character.
pub fn decide_response(
    retry_count: u32,
    status: u16,
    content_type: &str,
    body: &str,
    tournament_slug: &str,
    query_type: &str,
) -> (res: HttpDecision)
    requires
        quotes_body(retry_count, status) ==> cuttable(body@, 300),
    ensures
        res.view() == expected_decision(
            retry_count,
            status,
            content_type@,
            body@,
            tournament_slug@,
            query_type@,
        ),
{
    let tag = request_tag_text(tournament_slug, query_type);
    if status == 429 {
        if retry_count < MAX_RETRIES {
            let backoff_ms = 200u64 * pow_small(4, retry_count);
            let mut m = String::from_str("Rate limited (429) for ");
            m.append(tag.as_str());
            m.append(retry_suffix_text(backoff_ms, retry_count).as_str());
            HttpDecision::Retry { backoff_ms, notice: m }
        } else {
            let mut m = String::from_str("Rate limited (429) for ");
            m.append(tag.as_str());
            m.append(" after ");
            m.append(u64_to_string(MAX_RETRIES as u64).as_str());
            m.append(" retries");
            HttpDecision::Fail(m)
        }
    } else if status == 502 || status == 503 {
        if retry_count < MAX_RETRIES {
            let backoff_ms = 250u64 * pow_small(2, retry_count);
            let mut m = String::from_str("Transient HTTP ");
            m.append(u64_to_string(status as u64).as_str());
            m.append(" for ");
            m.append(tag.as_str());
            m.append(retry_suffix_text(backoff_ms, retry_count).as_str());
            HttpDecision::Retry { backoff_ms, notice: m }
        } else {
            let mut m = String::from_str("HTTP ");
            m.append(u64_to_string(status as u64).as_str());
            m.append(" for ");
            m.append(tag.as_str());
            m.append(" after ");
            m.append(u64_to_string(MAX_RETRIES as u64).as_str());
            m.append(" retries");
            m.append(body_suffix_text(content_type, body).as_str());
            HttpDecision::Fail(m)
        }
    } else if status == 504 {
        let mut m = String::from_str("HTTP 504 for ");
        m.append(tag.as_str());
        m.append(body_suffix_text(content_type, body).as_str());
        HttpDecision::Fail(m)
    } else if !(200 <= status && status <= 299) {
        let mut m = String::from_str("HTTP ");
        m.append(u64_to_string(status as u64).as_str());
        m.append(" for ");
        m.append(tag.as_str());
        m.append(body_suffix_text(content_type, body).as_str());
        HttpDecision::Fail(m)
    } else {
        let normalized = normalize_body(body);
        if normalized.as_str().is_empty() {
            if retry_count < MAX_RETRIES {
                let backoff_ms = 250u64 * pow_small(2, retry_count);
                let mut m = String::from_str("Empty response body for ");
                m.append(tag.as_str());
                m.append(retry_suffix_text(backoff_ms, retry_count).as_str());
                HttpDecision::Retry { backoff_ms, notice: m }
            } else {
                let mut m = String::from_str("Empty response body for ");
                m.append(tag.as_str());
                m.append(" after ");
                m.append(u64_to_string(MAX_RETRIES as u64).as_str());
                m.append(" retries (content-type: ");
                m.append(content_type);
                m.append(")");
                HttpDecision::Fail(m)
            }
        } else {
            HttpDecision::Parse(normalized)
        }
    }
}

/// `"HTTP request failed for {slug} [{query_type}]: {error}"`
pub fn send_failure_message(tournament_slug: &str, query_type: &str, error: &str) -> (res: String)
    ensures
        res@ == "HTTP request failed for "@ + request_tag(tournament_slug@, query_type@) + ": "@
            + error@,
{
    let mut m = String::from_str("HTTP request failed for ");
    m.append(request_tag_text(tournament_slug, query_type).as_str());
    m.append(": ");
    m.append(error);
    m
}

/// `"Failed to read response body: {error}"`
pub fn read_failure_message(error: &str) -> (res: String)
    ensures
        res@ == "Failed to read response body: "@ + error@,
{
    let mut m = String::from_str("Failed to read response body: ");
    m.append(error);
    m
}

/// The message for a 2xx body that is not a GraphQL reply: the parser's
/// error, the status, the content type and the body cut to 300 bytes.
pub fn parse_failure_message(
    tournament_slug: &str,
    query_type: &str,
    error: &str,
    status: u16,
    content_type: &str,
    normalized_body: &str,
) -> (res: String)
    requires
        cuttable(normalized_body@, 300),
    ensures
        res@ == "Failed to parse GraphQL response for "@ + request_tag(tournament_slug@, query_type@)
            + ": "@ + error@ + " (HTTP "@ + int_decimal(status as int) + ", content-type: "@
            + content_type@ + "). Body: "@ + summarized(normalized_body@, 300),
{
    let mut m = String::from_str("Failed to parse GraphQL response for ");
    m.append(request_tag_text(tournament_slug, query_type).as_str());
    m.append(": ");
    m.append(error);
    m.append(" (HTTP ");
    m.append(u64_to_string(status as u64).as_str());
    m.append(", content-type: ");
    m.append(content_type);
    m.append("). Body: ");
    m.append(summarize_body(normalized_body, 300).as_str());
    m
}

} // verus!
