//! The decisions of the engine connection pool: which connection serves a
//! request, how a request is framed, when to retry and when to give up.
use crate::config::Mode;
use crate::error::{RZError, RZErrorView};
use crate::protocol::{prepend_header, prepend_router_header, router_frame, shard_frame, ROUTER_MAGIC};
use crate::wire::u32_le;
use crate::protocol::response::status_of;
use vstd::prelude::*;
use vstd::string::StringSliceAdditionalSpecFns;

verus! {

/// Attempts made for one request before giving up.
pub const MAX_ATTEMPTS: u32 = 3;

/// The first usable slot met when walking the slots cyclically from
/// `start`, looking at `k` slots at most: its offset from `start`.
pub open spec fn usable_offset(usable: Seq<bool>, start: int, k: int) -> Option<int>
    decreases k,
{
    if k <= 0 {
        None
    } else {
        match usable_offset(usable, start, k - 1) {
            Some(o) => Some(o),
            None => if usable[(start + k - 1) % (usable.len() as int)] {
                Some(k - 1)
            } else {
                None
            },
        }
    }
}

/// Round-robin choice: the slot to use (the first usable one from `next`,
/// cyclically) and the next starting slot (just after it); when no slot is
/// usable, no slot and the start unchanged.
pub open spec fn round_robin(usable: Seq<bool>, next: int) -> (Option<int>, int) {
    let n = usable.len() as int;
    match usable_offset(usable, next, n) {
        Some(o) => (Some((next + o) % n), (next + o + 1) % n),
        None => (None, if n == 0 { next } else { next % n }),
    }
}

/// Picks a connection round-robin among the slots whose connection is open
/// (`usable[i]`), starting at `next`; returns the slot and the new start.
pub fn pick_connection(usable: &Vec<bool>, next: usize) -> (r: (Option<usize>, usize))
    requires
        usable@.len() == 0 || next < usable@.len(),
    ensures
        r.0 matches Some(i) ==> round_robin(usable@, next as int).0 == Some(i as int),
        r.0 is None ==> round_robin(usable@, next as int).0 is None,
        r.1 as int == round_robin(usable@, next as int).1,
{
    let n = usable.len();
    let mut idx = next;
    let mut k: usize = 0;
    proof {
        if n > 0 {
            assert((next as int) % (n as int) == next as int) by (nonlinear_arith)
                requires next < n;
        }
    }
    while k < n
        invariant
            n == usable@.len(),
            k <= n,
            n > 0 ==> idx < n,
            n > 0 ==> idx as int == (next + k) % (n as int),
            n == 0 ==> idx == next,
            usable_offset(usable@, next as int, k as int) is None,
        decreases n - k,
    {
        let i = idx;
        idx = (idx + 1) % n;
        proof {
            assert((next + k + 1) % (n as int) == ((next + k) % (n as int) + 1) % (n as int)) by (nonlinear_arith)
                requires n > 0;
        }
        if usable[i] {
            proof {
                assert(usable_offset(usable@, next as int, k + 1) == Some(k as int));
                lemma_offset_stable(usable@, next as int, k + 1, n as int);
            }
            return (Some(i), idx);
        }
        k = k + 1;
    }
    proof {
        assert(k == n);
        assert(usable_offset(usable@, next as int, n as int) is None);
        if n > 0 {
            assert((next + n) % (n as int) == (next as int) % (n as int)) by (nonlinear_arith)
                requires n > 0;
            assert(idx as int == (next as int) % (n as int));
        } else {
            assert(idx == next);
        }
    }
    (None, idx)
}

/// Once found within `k` slots, the offset stays the same for more slots.
proof fn lemma_offset_stable(usable: Seq<bool>, start: int, k: int, m: int)
    requires
        k <= m,
        usable_offset(usable, start, k) is Some,
    ensures
        usable_offset(usable, start, m) == usable_offset(usable, start, k),
    decreases m - k,
{
    if k < m {
        lemma_offset_stable(usable, start, k, m - 1);
    }
}

/// Why an attempt failed.
#[derive(Clone, Copy, Debug, PartialEq, Eq, Structural)]
pub enum Failure {
    /// No open connection was available.
    NoConnection,
    /// The request was sent but its answer never came.
    NoAnswer,
}

/// What to do after a failed attempt.
#[derive(Debug)]
pub enum RetryStep {
    /// Wait `delay_ms` milliseconds, then try again; `attempts` failed so far.
    Retry { attempts: u32, delay_ms: u64 },
    /// Give up with this error.
    GiveUp(RZError),
}

/// Abstract view of [`RetryStep`].
pub enum RetryStepView {
    Retry { attempts: u32, delay_ms: u64 },
    GiveUp(RZErrorView),
}

impl View for RetryStep {
    type V = RetryStepView;

    open spec fn view(&self) -> RetryStepView {
        match self {
            RetryStep::Retry { attempts, delay_ms } => RetryStepView::Retry {
                attempts: *attempts,
                delay_ms: *delay_ms,
            },
            RetryStep::GiveUp(e) => RetryStepView::GiveUp(e@),
        }
    }
}

/// After the failure that makes `attempts + 1` failed attempts: give up at
/// the third (engine unreachable, or timed out), else wait 50 ms times the
/// new attempt count plus one.
pub open spec fn retry_after(attempts: u32, failure: Failure, target: Seq<char>) -> RetryStepView {
    let a = attempts + 1;
    if a >= MAX_ATTEMPTS {
        RetryStepView::GiveUp(
            match failure {
                Failure::NoConnection => RZErrorView::RoomzinUnreachable(target),
                Failure::NoAnswer => RZErrorView::Timeout,
            },
        )
    } else {
        RetryStepView::Retry { attempts: a as u32, delay_ms: (50 * (a + 1)) as u64 }
    }
}

/// Decides what follows a failed attempt; `attempts` failed before it.
pub fn after_failure(attempts: u32, failure: Failure, target_addr: &str) -> (r: RetryStep)
    requires
        attempts < MAX_ATTEMPTS,
    ensures
        r@ == retry_after(attempts, failure, target_addr@),
{
    let a = attempts + 1;
    if a >= MAX_ATTEMPTS {
        match failure {
            Failure::NoConnection => RetryStep::GiveUp(RZError::RoomzinUnreachable(target_addr.to_owned())),
            Failure::NoAnswer => RetryStep::GiveUp(RZError::Timeout),
        }
    } else {
        RetryStep::Retry { attempts: a, delay_ms: 50 * (a as u64 + 1) }
    }
}

/// A request payload is refused when it is empty.
pub fn check_payload(payload: &[u8]) -> (r: Result<(), RZError>)
    ensures
        payload@.len() == 0 ==> (r matches Err(e) && e@ == RZErrorView::Validation("empty payload"@)),
        payload@.len() > 0 ==> r is Ok,
{
    if payload.len() == 0 {
        Err(RZError::Validation("empty payload".to_owned()))
    } else {
        Ok(())
    }
}

/// The frame that carries a request: a shard frame to a standalone engine,
/// a router frame (with the segment and the write flag) to a router;
/// `None` when the router frame's lengths would not fit its 32-bit fields.
pub open spec fn request_frame(mode: Mode, segment: Seq<u8>, is_write: bool, clrid: u32, payload: Seq<u8>) -> Option<Seq<u8>> {
    match mode {
        Mode::Standalone => Some(shard_frame(clrid, payload)),
        Mode::Router => if segment.len() + payload.len() + 11 <= u32::MAX {
            Some(router_frame(segment, is_write, clrid, payload))
        } else {
            None
        },
    }
}

/// Frames a request for the engine.
pub fn frame_request(mode: Mode, segment: &str, is_write: bool, clrid: u32, payload: &[u8]) -> (r: Option<Vec<u8>>)
    ensures
        match request_frame(mode, segment.spec_bytes(), is_write, clrid, payload@) {
            Some(f) => r matches Some(v) && v@ == f,
            None => r is None,
        },
{
    match mode {
        Mode::Standalone => Some(prepend_header(clrid, payload)),
        Mode::Router => {
            let seg_len = segment.as_bytes().len() as u64;
            let limit: u64 = 0xFFFF_FFF4;
            if seg_len <= limit && payload.len() as u64 <= limit - seg_len {
                Some(prepend_router_header(segment, is_write, clrid, payload))
            } else {
                None
            }
        },
    }
}

/// The status codes of an `ERROR` answer after which the engine closes the
/// connection (redirect, not allowed, unavailable).
pub open spec fn closing_code(code: Seq<u8>) -> bool {
    code == "308".spec_bytes() || code == "405".spec_bytes() || code == "503".spec_bytes()
}

/// The answer is an `ERROR` whose first three field bytes name a closing
/// status code.
pub open spec fn answer_closes(d: Seq<u8>) -> bool {
    let start = 1 + d[0] + 2;
    &&& d.len() > 0
    &&& d.len() >= start
    &&& status_of(d) == "ERROR".spec_bytes()
    &&& closing_code(d.subrange(start, start + 3))
}

/// The three bytes after the field count are present whenever the answer
/// is long enough to hold its header and its status is `ERROR`.
pub open spec fn code_readable(d: Seq<u8>) -> bool {
    d.len() > 0 && d.len() >= 1 + d[0] + 2 && status_of(d) == "ERROR".spec_bytes() ==> d.len() >= 1 + d[0] + 5
}

/// The connection must be closed after delivering this answer.
pub fn closes_connection(payload: &[u8]) -> (r: bool)
    requires
        code_readable(payload@),
    ensures
        r == answer_closes(payload@),
{
    if payload.len() == 0 {
        return false;
    }
    let status_len = payload[0] as usize;
    let start = 1 + status_len + 2;
    if payload.len() < start {
        return false;
    }
    let status = &payload[1..1 + status_len];
    proof {
        reveal_strlit("ERROR");
        reveal_strlit("308");
        reveal_strlit("405");
        reveal_strlit("503");
        assert(vstd::string::is_ascii("ERROR"));
    }
    if !crate::wire::bytes_eq(status, "ERROR".as_bytes()) {
        return false;
    }
    let code = &payload[start..start + 3];
    crate::wire::bytes_eq(code, "308".as_bytes()) || crate::wire::bytes_eq(code, "405".as_bytes())
        || crate::wire::bytes_eq(code, "503".as_bytes())
}

/// Largest wait between two GETCODECS attempts, in seconds.
pub const MAX_CODECS_BACKOFF_SEC: u64 = 5;

/// GETCODECS attempts before giving up.
pub const MAX_CODECS_ATTEMPTS: u32 = 60;

/// The wait after the current one: doubled, at most five seconds.
pub fn next_codecs_backoff(backoff: u64) -> (r: u64)
    requires
        backoff <= MAX_CODECS_BACKOFF_SEC,
    ensures
        r == if 2 * backoff <= MAX_CODECS_BACKOFF_SEC { 2 * backoff } else { MAX_CODECS_BACKOFF_SEC as int },
{
    let doubled = backoff * 2;
    if doubled <= MAX_CODECS_BACKOFF_SEC {
        doubled
    } else {
        MAX_CODECS_BACKOFF_SEC
    }
}

} // verus!

verus! {

/// What a found offset or a miss says about the slots looked at.
proof fn lemma_offset_facts(usable: Seq<bool>, start: int, k: int)
    requires
        usable.len() > 0,
    ensures
        match usable_offset(usable, start, k) {
            Some(o) => 0 <= o < k && usable[(start + o) % (usable.len() as int)],
            None => forall|o: int| 0 <= o < k ==> !#[trigger] usable[(start + o) % (usable.len() as int)],
        },
    decreases k,
{
    if k > 0 {
        lemma_offset_facts(usable, start, k - 1);
    }
}

/// Round-robin choice picks an open connection, and picks one whenever
/// some connection is open.
pub proof fn law_round_robin_picks_open(usable: Seq<bool>, next: int)
    requires
        0 <= next < usable.len(),
    ensures
        round_robin(usable, next).0 matches Some(i) ==> 0 <= i < usable.len() && usable[i],
        (exists|j: int| 0 <= j < usable.len() && usable[j]) ==> round_robin(usable, next).0 is Some,
        0 <= round_robin(usable, next).1 < usable.len(),
{
    let n = usable.len() as int;
    lemma_offset_facts(usable, next, n);
    match usable_offset(usable, next, n) {
        Some(o) => {
            assert(0 <= (next + o) % n < n) by (nonlinear_arith)
                requires n > 0;
            assert(0 <= (next + o + 1) % n < n) by (nonlinear_arith)
                requires n > 0;
        },
        None => {
            assert(0 <= next % n < n) by (nonlinear_arith)
                requires n > 0;
            if exists|j: int| 0 <= j < n && usable[j] {
                let j = choose|j: int| 0 <= j < n && usable[j];
                let o = if j >= next { j - next } else { j - next + n };
                assert((next + o) % n == j) by (nonlinear_arith)
                    requires
                        0 <= j < n,
                        0 <= next < n,
                        o == if j >= next { j - next } else { j - next + n };
                assert(!usable[(next + o) % n]);
            }
        },
    }
}

/// A request is tried at most three times: after a failure it is retried
/// while fewer than three attempts have failed, and given up at the third.
pub proof fn law_three_attempts(attempts: u32, failure: Failure, target: Seq<char>)
    requires
        attempts < MAX_ATTEMPTS,
    ensures
        retry_after(attempts, failure, target) is GiveUp <==> attempts == 2,
        retry_after(attempts, failure, target) matches RetryStepView::Retry { attempts: a, delay_ms }
            ==> a == attempts + 1 && a < MAX_ATTEMPTS && delay_ms == 50 * (a + 1),
{
}

} // verus!

verus! {

/// A standalone engine gets the same frame whatever the segment: the
/// segment only routes requests through a router.
pub proof fn law_standalone_ignores_segment(a: Seq<u8>, b: Seq<u8>, is_write: bool, other_write: bool, clrid: u32, payload: Seq<u8>)
    ensures
        request_frame(Mode::Standalone, a, is_write, clrid, payload) == request_frame(
            Mode::Standalone,
            b,
            other_write,
            clrid,
            payload,
        ),
        request_frame(Mode::Standalone, a, is_write, clrid, payload) == Some(shard_frame(clrid, payload)),
{
}

} // verus!

verus! {

/// In router mode the request frame carries the caller's write flag: the
/// byte after the segment is 1 for a write and 0 for a read. The frames of
/// a write and of the same request as a read have the same length and
/// differ in that byte alone.
pub proof fn law_router_frame_write_flag(segment: Seq<u8>, clrid: u32, payload: Seq<u8>)
    requires
        segment.len() + payload.len() + 11 <= u32::MAX,
    ensures
        request_frame(Mode::Router, segment, true, clrid, payload) matches Some(w) && request_frame(
            Mode::Router,
            segment,
            false,
            clrid,
            payload,
        ) matches Some(r) && {
            &&& w[6 + segment.len() as int] == 1u8
            &&& r[6 + segment.len() as int] == 0u8
            &&& w.len() == r.len()
            &&& w.subrange(6, 6 + segment.len() as int) == segment
            &&& r.subrange(6, 6 + segment.len() as int) == segment
            &&& forall|i: int| 0 <= i < w.len() && i != 6 + segment.len() ==> #[trigger] w[i] == r[i]
        },
{
    let w = router_frame(segment, true, clrid, payload);
    let r = router_frame(segment, false, clrid, payload);
    let head = seq![ROUTER_MAGIC] + u32_le((segment.len() + 11 + payload.len()) as int) + seq![
        (segment.len() % 256) as u8,
    ] + segment;
    let tail = shard_frame(clrid, payload);
    assert(w == head + seq![1u8] + tail);
    assert(r == head + seq![0u8] + tail);
    assert(head.len() == 6 + segment.len());
    assert(w.subrange(6, 6 + segment.len() as int) =~= segment);
    assert(r.subrange(6, 6 + segment.len() as int) =~= segment);
    assert forall|i: int| 0 <= i < w.len() && i != 6 + segment.len() implies #[trigger] w[i] == r[i] by {
        if i < head.len() {
            assert(w[i] == head[i] && r[i] == head[i]);
        } else {
            assert(w[i] == tail[i - head.len() - 1] && r[i] == tail[i - head.len() - 1]);
        }
    }
}

} // verus!
