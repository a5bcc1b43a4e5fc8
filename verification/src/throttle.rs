//! When a request is sent, held back or sent again, as the server's replies ask.
//!
//! Points in time are nanoseconds on a clock that only goes forward.
use vstd::prelude::*;

use crate::http;
use crate::number;
use crate::text;
use crate::zotero;

verus! {

/// Nanoseconds in a second.
pub const SECOND: u128 = 1_000_000_000;

/// The latest time at which a reply can be taken.
pub const CLOCK_END: u128 = 0x8000_0000_0000_0000_0000_0000_0000_0000;

/// How long requests are held back: until this time, where the server has asked for it.
#[derive(Debug, PartialEq, Eq)]
pub struct Throttle {
    pub backoff_until: Option<u128>,
}

/// A request that is being sent, and how many times it has been sent again.
#[derive(Debug, PartialEq, Eq)]
pub struct Sending {
    pub attempt: u32,
}

/// The parts of a reply that decide whether the request is sent again.
#[derive(Debug, PartialEq, Eq)]
pub struct ReplyHead {
    pub status: u16,
    /// The header `backoff`.
    pub backoff: Option<String>,
    /// The header `retry-after`.
    pub retry_after: Option<String>,
}

/// What is done about a reply.
#[derive(Debug, PartialEq, Eq)]
pub enum SendStep {
    /// Wait so many seconds, then send the request again.
    Retry { next: Sending, wait: u64 },
    /// Hand the reply on.
    Deliver,
}

/// The whole number of seconds that a header holds.
pub open spec fn seconds_in(header: Option<Seq<char>>) -> Option<u64> {
    match header {
        Some(h) => number::number_in(text::trimmed(h)),
        None => None,
    }
}

/// Whether a reply has the request sent again.
pub open spec fn is_retried(attempt: u32, status: u16) -> bool {
    http::is_rate_limit(status) && attempt < zotero::MAX_RETRIES
}

/// How long to wait before the request is sent again: as long as the server says, or else a second.
pub open spec fn retry_wait(retry_after: Option<Seq<char>>) -> u64 {
    match seconds_in(retry_after) {
        Some(wait) => wait,
        None => 1,
    }
}

/// Until when requests are held back once a reply has come.
pub open spec fn backoff_after(
    before: Option<u128>,
    now: u128,
    backoff: Option<Seq<char>>,
) -> Option<u128> {
    match seconds_in(backoff) {
        Some(secs) => Some((now + secs * SECOND) as u128),
        None => before,
    }
}

/// How long to wait at `now` before a request is first sent, given until when requests are held back.
pub open spec fn hold_of(backoff_until: Option<u128>, now: u128) -> Option<u128> {
    match backoff_until {
        Some(until) => if now <= until {
            Some((until - now) as u128)
        } else {
            None
        },
        None => None,
    }
}

/// Parse a header whose value is a whole number of seconds. Zotero sends both `Backoff` and
/// `Retry-After` as integer seconds.
pub fn header_secs(value: &Option<String>) -> (r: Option<u64>)
    ensures
        r == seconds_in(value.deep_view()),
{
    match value {
        Some(v) => {
            let digits: String = text::trim(v.as_str());
            number::parse_u64(digits.as_str())
        },
        None => None,
    }
}

impl Throttle {
    /// Nothing is held back.
    pub fn new() -> (r: Self)
        ensures
            r.backoff_until is None,
    {
        Throttle { backoff_until: None }
    }

    /// How many nanoseconds to wait before a request is first sent. What the server asked for is
    /// waited out once.
    pub fn hold(&mut self, now: u128) -> (r: Option<u128>)
        ensures
            final(self).backoff_until is None,
            r == hold_of(old(self).backoff_until, now),
    {
        match self.backoff_until.take() {
            Some(until) => {
                if now <= until {
                    Some(until - now)
                } else {
                    None
                }
            },
            None => None,
        }
    }
}

impl Sending {
    /// A request that has not been sent yet.
    pub fn new() -> (r: Self)
        ensures
            r.attempt == 0,
    {
        Sending { attempt: 0 }
    }

    /// Decides what is done about a reply that came at `now`. The server's wish that later requests
    /// be held back is noted either way.
    pub fn answer(self, throttle: &mut Throttle, now: u128, reply: &ReplyHead) -> (r: SendStep)
        requires
            now <= CLOCK_END,
        ensures
            final(throttle).backoff_until == backoff_after(
                old(throttle).backoff_until,
                now,
                reply.backoff.deep_view(),
            ),
            r == if is_retried(self.attempt, reply.status) {
                SendStep::Retry {
                    next: Sending { attempt: (self.attempt + 1) as u32 },
                    wait: retry_wait(reply.retry_after.deep_view()),
                }
            } else {
                SendStep::Deliver
            },
    {
        match header_secs(&reply.backoff) {
            Some(secs) => {
                assert(now + secs * SECOND <= u128::MAX) by (nonlinear_arith)
                    requires
                        now <= CLOCK_END,
                        secs <= u64::MAX,
                ;
                throttle.backoff_until = Some(now + secs as u128 * SECOND);
            },
            None => {},
        }
        let limited: bool = reply.status == http::TOO_MANY_REQUESTS || reply.status
            == http::SERVICE_UNAVAILABLE;
        if limited && self.attempt < zotero::MAX_RETRIES {
            let wait: u64 = match header_secs(&reply.retry_after) {
                Some(wait) => wait,
                None => 1,
            };
            SendStep::Retry { next: Sending { attempt: self.attempt + 1 }, wait }
        } else {
            SendStep::Deliver
        }
    }
}

/// How many of the replies, one after another, have the request sent again.
pub open spec fn retries(attempt: u32, statuses: Seq<u16>) -> nat
    decreases statuses.len(),
{
    if statuses.len() > 0 && is_retried(attempt, statuses[0]) {
        1 + retries((attempt + 1) as u32, statuses.drop_first())
    } else {
        0
    }
}

/// A request is sent again [`zotero::MAX_RETRIES`] times at most, and only while each reply asks for
/// it: the first reply that does not is handed on.
pub proof fn retries_are_limited(statuses: Seq<u16>)
    ensures
        retries(0, statuses) <= zotero::MAX_RETRIES,
        forall|i: int|
            0 <= i < retries(0, statuses) ==> http::is_rate_limit(#[trigger] statuses[i]),
        retries(0, statuses) < statuses.len() ==> retries(0, statuses) == zotero::MAX_RETRIES
            || !http::is_rate_limit(statuses[retries(0, statuses) as int]),
{
    lemma_retries(0, statuses);
}

proof fn lemma_retries(attempt: u32, statuses: Seq<u16>)
    requires
        attempt <= zotero::MAX_RETRIES,
    ensures
        retries(attempt, statuses) <= statuses.len(),
        attempt + retries(attempt, statuses) <= zotero::MAX_RETRIES,
        forall|i: int|
            0 <= i < retries(attempt, statuses) ==> http::is_rate_limit(#[trigger] statuses[i]),
        retries(attempt, statuses) < statuses.len() ==> attempt + retries(attempt, statuses)
            == zotero::MAX_RETRIES || !http::is_rate_limit(
            statuses[retries(attempt, statuses) as int],
        ),
    decreases statuses.len(),
{
    if statuses.len() > 0 && is_retried(attempt, statuses[0]) {
        let rest = statuses.drop_first();
        lemma_retries((attempt + 1) as u32, rest);
        assert forall|i: int| 0 <= i < retries(attempt, statuses) implies http::is_rate_limit(
            #[trigger] statuses[i],
        ) by {
            if i > 0 {
                assert(rest[i - 1] == statuses[i]);
            }
        }
    }
}

/// A reply that asks for a number of seconds in decimal has the next request held back for as long
/// from the reply on, whatever was asked for before.
pub proof fn backoff_counts_from_the_reply(before: Option<u128>, now: u128, secs: u64)
    requires
        now <= CLOCK_END,
    ensures
        backoff_after(before, now, Some(number::decimal_text(secs as nat))) is Some,
        backoff_after(before, now, Some(number::decimal_text(secs as nat)))->0 == now + secs
            * SECOND,
{
    let s = number::decimal_text(secs as nat);
    number::number_text_round_trip(secs);
    number::lemma_decimal(secs as nat);
    text::lemma_trim_start(s);
    text::lemma_trim_end(s);
    assert(text::is_digit(s[0]));
    assert(text::is_digit(s[s.len() - 1]));
    assert(text::trim_start(s) == s);
    assert(text::trimmed(s) == s);
    assert(now + secs * SECOND <= u128::MAX) by (nonlinear_arith)
        requires
            now <= CLOCK_END,
            secs <= u64::MAX,
    ;
}

} // verus!
