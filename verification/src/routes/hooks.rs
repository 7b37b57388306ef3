//! The ingestion endpoint and the background delivery it spawns: the
//! per-hook secret check, the event-type dispatch into the transformer,
//! and the rate-limit-aware retry decision for the outbound call.
use vstd::prelude::*;

use crate::models::discord::{
    is_issue_embed, is_merge_request_embed, is_pipeline_embed, is_push_embed, Embed,
};
use crate::models::gitlab::{IssueEvent, MergeRequestEvent, PipelineEvent, PushEvent};
use crate::store::{uuid_canon_of, HookData, HookRegistry};
use crate::text::{char_count_first, count_of, first_index_of, str_eq};

verus! {

/// The per-hook shared secret check: the identifier must name a
/// registered hook and the caller's token header must equal its secret.
pub open spec fn spec_token_valid(
    m: Map<Seq<char>, HookData>,
    id: Seq<char>,
    token: Option<Seq<char>>,
) -> bool {
    match uuid_canon_of(id) {
        Some(c) => m.contains_key(c) && match token {
            Some(t) => t == m[c].gitlab_token,
            None => false,
        },
        None => false,
    }
}

/// Checks the caller's secret for the hook the path names. This runs
/// before any body is read.
pub fn valid_token(hooks: &HookRegistry, id: &str, token: Option<&String>) -> (r: bool)
    requires
        hooks.wf(),
    ensures
        r == spec_token_valid(
            hooks.contents(),
            id@,
            match token {
                Some(t) => Some(t@),
                None => None,
            },
        ),
{
    let config = match hooks.get(id) {
        Ok(c) => c,
        Err(_) => {
            return false;
        },
    };
    match token {
        Some(t) => str_eq(t.as_str(), config.gitlab_token.as_str()),
        None => false,
    }
}

/// What the ingestion endpoint replies immediately: a failed secret
/// check is forbidden, a missing event-type header is a bad request,
/// anything else is acknowledged and handled in the background.
#[derive(Debug, Clone, Copy, PartialEq, Eq, Structural)]
pub enum IngressDecision {
    Forbidden,
    Accepted,
    BadRequest,
}

/// Decides the immediate reply of the ingestion endpoint.
pub fn post_gitlab(
    hooks: &HookRegistry,
    id: &str,
    token: Option<&String>,
    event_header: Option<&String>,
) -> (r: IngressDecision)
    requires
        hooks.wf(),
    ensures
        r == (if !spec_token_valid(
            hooks.contents(),
            id@,
            match token {
                Some(t) => Some(t@),
                None => None,
            },
        ) {
            IngressDecision::Forbidden
        } else if event_header is Some {
            IngressDecision::Accepted
        } else {
            IngressDecision::BadRequest
        }),
{
    if !valid_token(hooks, id, token) {
        return IngressDecision::Forbidden;
    }
    match event_header {
        Some(_) => IngressDecision::Accepted,
        None => IngressDecision::BadRequest,
    }
}

/// The event categories the relay understands.
#[derive(Debug, Clone, Copy, PartialEq, Eq, Structural)]
pub enum EventKind {
    Push,
    Issue,
    MergeRequest,
    Pipeline,
}

/// Maps the event-type header to a category; an unknown value is
/// ignored without error.
pub fn classify_event(event: &str) -> (r: Option<EventKind>)
    ensures
        r == (if event@ == "Push Hook"@ {
            Some(EventKind::Push)
        } else if event@ == "Issue Hook"@ {
            Some(EventKind::Issue)
        } else if event@ == "Merge Request Hook"@ {
            Some(EventKind::MergeRequest)
        } else if event@ == "Pipeline Hook"@ {
            Some(EventKind::Pipeline)
        } else {
            None::<EventKind>
        }),
{
    if str_eq(event, "Push Hook") {
        Some(EventKind::Push)
    } else if str_eq(event, "Issue Hook") {
        Some(EventKind::Issue)
    } else if str_eq(event, "Merge Request Hook") {
        Some(EventKind::MergeRequest)
    } else if str_eq(event, "Pipeline Hook") {
        Some(EventKind::Pipeline)
    } else {
        None
    }
}

/// One parsed source event.
#[derive(Debug, Clone)]
pub enum GitlabEvent {
    Push(PushEvent),
    Issue(IssueEvent),
    MergeRequest(MergeRequestEvent),
    Pipeline(PipelineEvent),
}

/// Transforms a push event, unless it carries no commits.
pub fn handle_push_hook(ev: PushEvent) -> (r: Option<Embed>)
    ensures
        r is Some <==> ev.total_commits_count != 0,
        r matches Some(e) ==> is_push_embed(e, ev),
{
    if ev.total_commits_count != 0 {
        Some(Embed::from_push(ev))
    } else {
        None
    }
}

/// Transforms an issue event, for open and close actions only.
pub fn handle_issue_hook(ev: IssueEvent) -> (r: Option<Embed>)
    ensures
        r is Some <==> (ev.attributes.action@ == "open"@ || ev.attributes.action@ == "close"@),
        r matches Some(e) ==> is_issue_embed(e, ev),
{
    if str_eq(ev.attributes.action.as_str(), "open") || str_eq(
        ev.attributes.action.as_str(),
        "close",
    ) {
        Some(Embed::from_issue(ev))
    } else {
        None
    }
}

/// Transforms a merge-request event, for open, close and merge actions
/// only.
pub fn handle_merge_request_hook(ev: MergeRequestEvent) -> (r: Option<Embed>)
    ensures
        r is Some <==> (ev.attributes.action@ == "open"@ || ev.attributes.action@ == "close"@
            || ev.attributes.action@ == "merge"@),
        r matches Some(e) ==> is_merge_request_embed(e, ev),
{
    if str_eq(ev.attributes.action.as_str(), "open") || str_eq(
        ev.attributes.action.as_str(),
        "close",
    ) || str_eq(ev.attributes.action.as_str(), "merge") {
        Some(Embed::from_merge_request(ev))
    } else {
        None
    }
}

/// Transforms a pipeline event, for the terminal statuses only.
pub fn handle_pipeline_hook(ev: PipelineEvent) -> (r: Option<Embed>)
    ensures
        r is Some <==> (ev.attributes.status@ == "success"@ || ev.attributes.status@
            == "failed"@),
        r matches Some(e) ==> is_pipeline_embed(e, ev),
{
    if str_eq(ev.attributes.status.as_str(), "success") || str_eq(
        ev.attributes.status.as_str(),
        "failed",
    ) {
        Some(Embed::from_pipeline(ev))
    } else {
        None
    }
}

/// Transforms any parsed event: each category decides for itself
/// whether to emit or suppress.
pub fn handle_event(ev: GitlabEvent) -> (r: Option<Embed>)
    ensures
        match ev {
            GitlabEvent::Push(p) => (r is Some <==> p.total_commits_count != 0) && (r matches Some(
                e,
            ) ==> is_push_embed(e, p)),
            GitlabEvent::Issue(i) => (r is Some <==> (i.attributes.action@ == "open"@
                || i.attributes.action@ == "close"@)) && (r matches Some(e) ==> is_issue_embed(
                e,
                i,
            )),
            GitlabEvent::MergeRequest(m) => (r is Some <==> (m.attributes.action@ == "open"@
                || m.attributes.action@ == "close"@ || m.attributes.action@ == "merge"@)) && (
            r matches Some(e) ==> is_merge_request_embed(e, m)),
            GitlabEvent::Pipeline(p) => (r is Some <==> (p.attributes.status@ == "success"@
                || p.attributes.status@ == "failed"@)) && (r matches Some(e) ==> is_pipeline_embed(
                e,
                p,
            )),
        },
{
    match ev {
        GitlabEvent::Push(p) => handle_push_hook(p),
        GitlabEvent::Issue(i) => handle_issue_hook(i),
        GitlabEvent::MergeRequest(m) => handle_merge_request_hook(m),
        GitlabEvent::Pipeline(p) => handle_pipeline_hook(p),
    }
}

pub open spec fn is_dec_digit(c: char) -> bool {
    c == '0' || c == '1' || c == '2' || c == '3' || c == '4' || c == '5' || c == '6' || c == '7'
        || c == '8' || c == '9'
}

pub open spec fn digit_val(c: char) -> int {
    if c == '0' {
        0
    } else if c == '1' {
        1
    } else if c == '2' {
        2
    } else if c == '3' {
        3
    } else if c == '4' {
        4
    } else if c == '5' {
        5
    } else if c == '6' {
        6
    } else if c == '7' {
        7
    } else if c == '8' {
        8
    } else {
        9
    }
}

pub open spec fn all_digits(s: Seq<char>) -> bool {
    forall|i: int| 0 <= i < s.len() ==> is_dec_digit(#[trigger] s[i])
}

/// The number a digit string denotes.
pub open spec fn spec_digits_val(s: Seq<char>) -> int
    decreases s.len(),
{
    if s.len() == 0 {
        0
    } else {
        spec_digits_val(s.drop_last()) * 10 + digit_val(s.last())
    }
}

/// The largest whole-second delay the parser accepts; a larger one
/// cannot be counted in milliseconds.
pub const MAX_DELAY_SECS: u64 = 18446744073709550;

/// The fraction part's contribution in milliseconds: its first three
/// digits, scaled up when fewer are given; further digits are beyond
/// millisecond precision and are dropped.
pub open spec fn spec_frac_millis(fp: Seq<char>) -> int {
    if fp.len() >= 3 {
        spec_digits_val(fp.take(3))
    } else if fp.len() == 2 {
        spec_digits_val(fp) * 10
    } else if fp.len() == 1 {
        spec_digits_val(fp) * 100
    } else {
        0
    }
}

/// The reset-delay header as milliseconds: a decimal number of
/// seconds, with an optional fraction, and nothing else. `None` for
/// any other text, or for a delay too large to count.
pub open spec fn spec_delay_millis(s: Seq<char>) -> Option<u64> {
    let dot = first_index_of(s, '.');
    let ip = s.take(dot);
    let fp = s.skip(dot + 1);
    if count_of(s, '.') <= 1 && ip.len() > 0 && all_digits(ip) && (dot == s.len() || all_digits(
        fp,
    )) && spec_digits_val(ip) <= MAX_DELAY_SECS {
        if dot == s.len() {
            Some((spec_digits_val(ip) * 1000) as u64)
        } else {
            Some((spec_digits_val(ip) * 1000 + spec_frac_millis(fp)) as u64)
        }
    } else {
        None
    }
}

proof fn lemma_digits_val_bounds(s: Seq<char>)
    ensures
        spec_digits_val(s) >= 0,
        s.len() <= 1 ==> spec_digits_val(s) <= 9,
        s.len() <= 2 ==> spec_digits_val(s) <= 99,
        s.len() <= 3 ==> spec_digits_val(s) <= 999,
    decreases s.len(),
{
    if s.len() > 0 {
        lemma_digits_val_bounds(s.drop_last());
    }
}

/// A digit string's value only grows as digits are appended.
proof fn lemma_digits_val_prefix_le(s: Seq<char>, i: int)
    requires
        0 <= i <= s.len(),
    ensures
        spec_digits_val(s.take(i)) <= spec_digits_val(s),
    decreases s.len() - i,
{
    if i == s.len() {
        assert(s.take(i) =~= s);
    } else {
        lemma_digits_val_prefix_le(s, i + 1);
        assert(s.take(i + 1).drop_last() =~= s.take(i));
        lemma_digits_val_bounds(s.take(i));
        assert(spec_digits_val(s.take(i + 1)) == spec_digits_val(s.take(i)) * 10 + digit_val(
            s.take(i + 1).last(),
        ));
    }
}

fn digit_of(c: char) -> (r: Option<u64>)
    ensures
        match r {
            Some(d) => is_dec_digit(c) && d as int == digit_val(c) && d <= 9,
            None => !is_dec_digit(c),
        },
{
    match c {
        '0' => Some(0),
        '1' => Some(1),
        '2' => Some(2),
        '3' => Some(3),
        '4' => Some(4),
        '5' => Some(5),
        '6' => Some(6),
        '7' => Some(7),
        '8' => Some(8),
        '9' => Some(9),
        _ => None,
    }
}

/// Reads `s[from..to]` as a decimal number of at most `limit`.
fn parse_digits(s: &str, from: usize, to: usize, limit: u64) -> (r: Option<u64>)
    requires
        from <= to <= s@.len(),
    ensures
        match r {
            Some(v) => all_digits(s@.subrange(from as int, to as int)) && v as int
                == spec_digits_val(s@.subrange(from as int, to as int)) && v <= limit,
            None => !(all_digits(s@.subrange(from as int, to as int)) && spec_digits_val(
                s@.subrange(from as int, to as int),
            ) <= limit),
        },
{
    let ghost whole = s@.subrange(from as int, to as int);
    let mut acc: u64 = 0;
    let mut i: usize = from;
    proof {
        assert(whole.take(0) =~= Seq::<char>::empty());
    }
    while i < to
        invariant
            from <= i <= to <= s@.len(),
            whole == s@.subrange(from as int, to as int),
            acc <= limit,
            all_digits(whole.take(i - from)),
            acc as int == spec_digits_val(whole.take(i - from)),
        decreases to - i,
    {
        let c = s.get_char(i);
        proof {
            assert(whole[i - from] == s@[i as int]);
            assert(whole.take(i - from + 1).drop_last() =~= whole.take(i - from));
            assert(whole.take(i - from + 1).last() == whole[i - from]);
        }
        let d = match digit_of(c) {
            Some(d) => d,
            None => {
                proof {
                    assert(!all_digits(whole));
                }
                return None;
            },
        };
        if acc > limit / 10 || (acc == limit / 10 && d > limit % 10) {
            proof {
                assert(acc as int * 10 + d as int > limit);
                assert(spec_digits_val(whole.take(i - from + 1)) > limit);
                lemma_digits_val_prefix_le(whole, i - from + 1);
            }
            return None;
        }
        proof {
            assert(acc as int * 10 + d as int <= limit);
        }
        acc = acc * 10 + d;
        i += 1;
    }
    proof {
        assert(whole.take(to - from) =~= whole);
    }
    Some(acc)
}

/// Parses a reset-delay header into milliseconds.
pub fn parse_delay_millis(s: &str) -> (r: Option<u64>)
    ensures
        r == spec_delay_millis(s@),
{
    let n: usize = s.unicode_len();
    let (dots, dot) = char_count_first(s, '.');
    if dots > 1 {
        return None;
    }
    if dot == 0 {
        proof {
            assert(s@.take(0) =~= Seq::<char>::empty());
        }
        return None;
    }
    let ghost ip = s@.take(dot as int);
    let secs = match parse_digits(s, 0, dot, MAX_DELAY_SECS) {
        Some(v) => v,
        None => {
            proof {
                assert(s@.subrange(0, dot as int) =~= ip);
            }
            return None;
        },
    };
    proof {
        assert(s@.subrange(0, dot as int) =~= ip);
    }
    if dot == n {
        return Some(secs * 1000);
    }
    let ghost fp = s@.skip(dot + 1);
    let f_end: usize = if n - dot >= 4 {
        dot + 4
    } else {
        n
    };
    let frac = match parse_digits(s, dot + 1, f_end, 999) {
        Some(v) => v,
        None => {
            proof {
                let pre = s@.subrange(dot + 1, f_end as int);
                lemma_digits_val_bounds(pre);
                assert(!all_digits(pre));
                let bad = choose|j: int| 0 <= j < pre.len() && !is_dec_digit(#[trigger] pre[j]);
                assert(fp[bad] == pre[bad]);
                assert(!all_digits(fp));
            }
            return None;
        },
    };
    let mut i: usize = f_end;
    while i < n
        invariant
            dot + 1 <= f_end <= i <= n,
            n == s@.len(),
            fp == s@.skip(dot + 1),
            dots as int == count_of(s@, '.'),
            dot as int == first_index_of(s@, '.'),
            dots <= 1,
            0 < dot < n,
            forall|j: int| f_end - dot - 1 <= j < i - dot - 1 ==> is_dec_digit(#[trigger] fp[j]),
        decreases n - i,
    {
        let c = s.get_char(i);
        proof {
            assert(fp[i - dot - 1] == s@[i as int]);
        }
        if digit_of(c).is_none() {
            proof {
                assert(!is_dec_digit(fp[i - dot - 1]));
            }
            return None;
        }
        i += 1;
    }
    proof {
        let pre = s@.subrange(dot + 1, f_end as int);
        assert forall|j: int| 0 <= j < fp.len() implies is_dec_digit(#[trigger] fp[j]) by {
            if j < f_end - dot - 1 {
                assert(pre[j] == fp[j]);
                assert(is_dec_digit(pre[j]));
            }
        }
        assert(all_digits(fp));
        if fp.len() >= 3 {
            assert(f_end == dot + 4);
            assert(fp.take(3) =~= pre);
        } else {
            assert(f_end == n);
            assert(fp =~= pre);
        }
    }
    proof {
        lemma_digits_val_bounds(s@.subrange(dot + 1, f_end as int));
    }
    let frac_len: usize = f_end - (dot + 1);
    let millis_frac: u64 = if frac_len == 3 {
        frac
    } else if frac_len == 2 {
        frac * 10
    } else if frac_len == 1 {
        frac * 100
    } else {
        0
    };
    Some(secs * 1000 + millis_frac)
}

/// What one outbound attempt came back with, as the background task
/// observes it: a transport failure, or a response's status with the
/// rate-limit reset header if the sink sent one.
#[derive(Debug, Clone)]
pub enum AttemptOutcome {
    NetworkError,
    Response { status: u16, ratelimit_reset: Option<String> },
}

/// What the delivery loop does next: sleep for the given milliseconds
/// and try again, or stop (logging is the caller's side effect).
#[derive(Debug, Clone, Copy, PartialEq, Eq, Structural)]
pub enum DeliveryAction {
    Retry(u64),
    Stop,
}

/// The retry rule of the delivery loop: only a rate-limited response
/// with a readable reset delay is retried; a transport failure, a
/// plain error and a success all end the loop.
pub open spec fn spec_delivery_step(o: AttemptOutcome) -> DeliveryAction {
    match o {
        AttemptOutcome::NetworkError => DeliveryAction::Stop,
        AttemptOutcome::Response { status, ratelimit_reset } => {
            if status == 429 {
                match ratelimit_reset {
                    Some(h) => match spec_delay_millis(h@) {
                        Some(ms) => DeliveryAction::Retry(ms),
                        None => DeliveryAction::Stop,
                    },
                    None => DeliveryAction::Stop,
                }
            } else {
                DeliveryAction::Stop
            }
        },
    }
}

/// Decides what the delivery loop does after one attempt.
pub fn delivery_step(outcome: &AttemptOutcome) -> (r: DeliveryAction)
    ensures
        r == spec_delivery_step(*outcome),
{
    match outcome {
        AttemptOutcome::NetworkError => DeliveryAction::Stop,
        AttemptOutcome::Response { status, ratelimit_reset } => {
            if *status == 429 {
                match ratelimit_reset {
                    Some(h) => match parse_delay_millis(h.as_str()) {
                        Some(ms) => DeliveryAction::Retry(ms),
                        None => DeliveryAction::Stop,
                    },
                    None => DeliveryAction::Stop,
                }
            } else {
                DeliveryAction::Stop
            }
        },
    }
}

/// The attempt whose outcome the loop logs: the first one that is not
/// retried. `None` when every observed attempt was rate-limited.
pub open spec fn spec_deciding_attempt(attempts: Seq<AttemptOutcome>) -> Option<int>
    decreases attempts.len(),
{
    if attempts.len() == 0 {
        None
    } else if spec_delivery_step(attempts[0]) is Stop {
        Some(0)
    } else {
        match spec_deciding_attempt(attempts.drop_first()) {
            Some(i) => Some(i + 1),
            None => None,
        }
    }
}

proof fn lemma_deciding_skip(attempts: Seq<AttemptOutcome>, i: int)
    requires
        0 <= i <= attempts.len(),
        forall|j: int| 0 <= j < i ==> !(spec_delivery_step(#[trigger] attempts[j]) is Stop),
    ensures
        spec_deciding_attempt(attempts) == match spec_deciding_attempt(attempts.skip(i)) {
            Some(k) => Some(k + i),
            None => None::<int>,
        },
    decreases i,
{
    if i > 0 {
        lemma_deciding_skip(attempts, i - 1);
        assert(attempts.skip(i - 1)[0] == attempts[i - 1]);
        assert(attempts.skip(i - 1).drop_first() =~= attempts.skip(i));
        assert(spec_deciding_attempt(attempts.skip(i - 1)) == match spec_deciding_attempt(
            attempts.skip(i),
        ) {
            Some(k) => Some(k + 1),
            None => None::<int>,
        });
    } else {
        assert(attempts.skip(0) =~= attempts);
    }
}

/// Replays a sequence of attempt outcomes through the retry rule and
/// returns the index of the attempt that decided the outcome.
pub fn deciding_attempt(attempts: &Vec<AttemptOutcome>) -> (r: Option<usize>)
    ensures
        match r {
            Some(i) => spec_deciding_attempt(attempts@) == Some(i as int),
            None => spec_deciding_attempt(attempts@) is None,
        },
{
    let mut i: usize = 0;
    while i < attempts.len()
        invariant
            i <= attempts@.len(),
            forall|j: int|
                0 <= j < i ==> !(spec_delivery_step(#[trigger] attempts@[j]) is Stop),
        decreases attempts@.len() - i,
    {
        let act = delivery_step(&attempts[i]);
        match act {
            DeliveryAction::Stop => {
                proof {
                    lemma_deciding_skip(attempts@, i as int);
                    assert(attempts@.skip(i as int)[0] == attempts@[i as int]);
                }
                return Some(i);
            },
            DeliveryAction::Retry(_) => {},
        }
        i += 1;
    }
    proof {
        lemma_deciding_skip(attempts@, attempts@.len() as int);
        assert(attempts@.skip(attempts@.len() as int) =~= Seq::<AttemptOutcome>::empty());
    }
    None
}

/// A rate-limited attempt with a readable reset delay never decides
/// the delivery's outcome: the decision falls to a later attempt, so
/// the retry's result, not the rate-limited reply, is what gets
/// logged.
pub proof fn lemma_rate_limited_defers(attempts: Seq<AttemptOutcome>)
    requires
        attempts.len() > 0,
        spec_delivery_step(attempts[0]) is Retry,
    ensures
        spec_deciding_attempt(attempts) == match spec_deciding_attempt(attempts.drop_first()) {
            Some(i) => Some(i + 1),
            None => None::<int>,
        },
{
}

} // verus!
