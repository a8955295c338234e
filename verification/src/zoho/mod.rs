//! The decisions of the Zoho HTTP client: how a response is classified, how
//! long to wait before a retry, and when to give up.
pub mod folders;
pub mod messages;
pub mod requests;

use vstd::prelude::*;
use crate::text::chars_of;
use crate::zoho::requests::{decimal_spec, digit_char};

verus! {

/// Whether `c` is an ASCII decimal digit.
pub open spec fn is_digit_spec(c: char) -> bool {
    '0' <= c && c <= '9'
}

/// The number that a string of decimal digits spells.
pub open spec fn digits_value(s: Seq<char>) -> nat
    decreases s.len(),
{
    if s.len() == 0 {
        0
    } else {
        digits_value(s.drop_last()) * 10 + ((s.last() as u32) - ('0' as u32)) as nat
    }
}

/// The digits of an unsigned number: the string without a leading `+`.
pub open spec fn unsigned_digits(s: Seq<char>) -> Seq<char> {
    if s.len() > 0 && s[0] == '+' {
        s.drop_first()
    } else {
        s
    }
}

/// The `u64` that a string spells in the syntax of `u64::from_str`: an
/// optional `+`, then one or more ASCII digits, the value fitting in 64
/// bits.
pub open spec fn parse_u64_spec(s: Seq<char>) -> Option<u64> {
    let d = unsigned_digits(s);
    if d.len() > 0 && (forall|i: int| 0 <= i < d.len() ==> is_digit_spec(#[trigger] d[i]))
        && digits_value(d) <= u64::MAX {
        Some(digits_value(d) as u64)
    } else {
        None
    }
}

proof fn lemma_digits_value_grows(d: Seq<char>, i: int)
    requires
        0 <= i <= d.len(),
        forall|k: int| 0 <= k < d.len() ==> is_digit_spec(#[trigger] d[k]),
    ensures
        digits_value(d) >= digits_value(d.take(i)),
    decreases d.len() - i,
{
    if i < d.len() {
        lemma_digits_value_grows(d, i + 1);
        let t = d.take(i + 1);
        assert(t.drop_last() =~= d.take(i));
        assert(is_digit_spec(t.last()));
    } else {
        assert(d.take(i) =~= d);
    }
}

/// Parses a decimal `u64` as `u64::from_str` does; `None` where it fails.
pub fn parse_u64(s: &str) -> (r: Option<u64>)
    ensures
        r == parse_u64_spec(s@),
{
    let cs = chars_of(s);
    let ghost d = unsigned_digits(s@);
    let start: usize = if cs.len() > 0 && cs[0] == '+' { 1 } else { 0 };
    assert(d =~= s@.subrange(start as int, s@.len() as int));
    if start >= cs.len() {
        return None;
    }
    let mut acc: u64 = 0;
    let mut i: usize = start;
    while i < cs.len()
        invariant
            start <= i <= cs.len(),
            cs@ == s@,
            d == s@.subrange(start as int, s@.len() as int),
            d == unsigned_digits(s@),
            forall|k: int| 0 <= k < i - start ==> is_digit_spec(#[trigger] d[k]),
            acc as nat == digits_value(d.take(i - start)),
        decreases cs.len() - i,
    {
        let c = cs[i];
        proof {
            assert(d[i - start] == c);
        }
        if !('0' <= c && c <= '9') {
            proof {
                assert(!is_digit_spec(d[i - start]));
                assert(!(forall|k: int| 0 <= k < d.len() ==> is_digit_spec(#[trigger] d[k])));
                assert(parse_u64_spec(s@) is None);
            }
            return None;
        }
        let digit = (c as u32 - '0' as u32) as u64;
        proof {
            let t = d.take(i - start + 1);
            assert(t.drop_last() =~= d.take(i - start));
            assert(t.last() == c);
        }
        match acc.checked_mul(10) {
            Some(m) => match m.checked_add(digit) {
                Some(v) => {
                    acc = v;
                },
                None => {
                    proof {
                        assert(digits_value(d.take(i - start + 1)) == acc as nat * 10 + digit as nat);
                        if forall|k: int| 0 <= k < d.len() ==> is_digit_spec(#[trigger] d[k]) {
                            lemma_digits_value_grows(d, i - start + 1);
                            assert(digits_value(d) > u64::MAX);
                        }
                        assert(parse_u64_spec(s@) is None);
                    }
                    return None;
                },
            },
            None => {
                proof {
                    if forall|k: int| 0 <= k < d.len() ==> is_digit_spec(#[trigger] d[k]) {
                        lemma_digits_value_grows(d, i - start + 1);
                    }
                }
                return None;
            },
        }
        i = i + 1;
    }
    assert(d.take(i - start) =~= d);
    Some(acc)
}

/// How a completed HTTP exchange, or its failure, is answered.
#[derive(Clone, Debug, PartialEq, Eq)]
pub enum HttpOutcome {
    /// A response arrived with this status, and with this `Retry-After`
    /// header where one was present as visible ASCII.
    Response { status: u16, retry_after: Option<String> },
    /// The request timed out or could not connect.
    TimeoutOrConnect,
    /// Any other transport failure.
    OtherTransportError,
}

/// The class of an HTTP exchange.
#[derive(Clone, Copy, Debug, PartialEq, Eq, Structural)]
pub enum ResponseClass {
    /// A 2xx response: its body is the result.
    Success,
    /// A 401 response: the access token is no longer valid.
    Unauthorized,
    /// A 429 or 5xx response, or a timeout or connection failure: worth
    /// retrying, after the given number of seconds where the server named it.
    Retry { delay_secs: Option<u64> },
    /// Any other status: the request failed.
    HttpError,
    /// A transport failure that is not worth retrying.
    TransportError,
}

/// The class of an HTTP exchange, as the client decides it.
pub open spec fn classify_spec(status: Option<u16>, retry_after: Option<Seq<char>>, timeout_or_connect: bool) -> ResponseClass {
    match status {
        Some(code) => if 200 <= code <= 299 {
            ResponseClass::Success
        } else if code == 401 {
            ResponseClass::Unauthorized
        } else if code == 429 || (500 <= code <= 599) {
            ResponseClass::Retry {
                delay_secs: match retry_after {
                    Some(v) => parse_u64_spec(v),
                    None => None,
                },
            }
        } else {
            ResponseClass::HttpError
        },
        None => if timeout_or_connect {
            ResponseClass::Retry { delay_secs: None }
        } else {
            ResponseClass::TransportError
        },
    }
}

/// Classifies an HTTP exchange: success, expired token, retryable (with the
/// server's `Retry-After` seconds where it parses), or failure.
pub fn classify_response(outcome: &HttpOutcome) -> (c: ResponseClass)
    ensures
        c == match outcome {
            HttpOutcome::Response { status, retry_after } => classify_spec(
                Some(*status),
                retry_after.deep_view(),
                false,
            ),
            HttpOutcome::TimeoutOrConnect => classify_spec(None, None, true),
            HttpOutcome::OtherTransportError => classify_spec(None, None, false),
        },
        (outcome is Response && 200 <= outcome->status && outcome->status <= 299) ==> c
            == ResponseClass::Success,
        (outcome is Response && outcome->status == 401) ==> c == ResponseClass::Unauthorized,
        (outcome is Response && (outcome->status == 429 || (500 <= outcome->status
            && outcome->status <= 599))) ==> (c == ResponseClass::Retry {
            delay_secs: match outcome->retry_after.deep_view() {
                Some(v) => parse_u64_spec(v),
                None => None,
            },
        }),
        (outcome is Response && !(200 <= outcome->status && outcome->status <= 299)
            && outcome->status != 401 && outcome->status != 429 && !(500 <= outcome->status
            && outcome->status <= 599)) ==> c == ResponseClass::HttpError,
        outcome is TimeoutOrConnect ==> (c == ResponseClass::Retry { delay_secs: None }),
        outcome is OtherTransportError ==> c == ResponseClass::TransportError,
{
    match outcome {
        HttpOutcome::Response { status, retry_after } => {
            let code = *status;
            if 200 <= code && code <= 299 {
                ResponseClass::Success
            } else if code == 401 {
                ResponseClass::Unauthorized
            } else if code == 429 || (500 <= code && code <= 599) {
                let delay_secs = match retry_after {
                    Some(v) => parse_u64(v.as_str()),
                    None => None,
                };
                ResponseClass::Retry { delay_secs }
            } else {
                ResponseClass::HttpError
            }
        },
        HttpOutcome::TimeoutOrConnect => ResponseClass::Retry { delay_secs: None },
        HttpOutcome::OtherTransportError => ResponseClass::TransportError,
    }
}

/// `2` to the power of the attempt number, capped at the fifth power.
pub open spec fn backoff_multiplier_spec(attempt: u32) -> nat {
    if attempt == 0 {
        1
    } else if attempt == 1 {
        2
    } else if attempt == 2 {
        4
    } else if attempt == 3 {
        8
    } else if attempt == 4 {
        16
    } else {
        32
    }
}

/// The backoff before retry number `attempt + 1`, before jitter: the base
/// doubled once per earlier attempt (at most five times), saturating at
/// `u64::MAX`.
pub open spec fn backoff_nominal_spec(base_ms: u64, attempt: u32) -> u64 {
    let v = base_ms * backoff_multiplier_spec(attempt);
    if v > u64::MAX {
        u64::MAX
    } else {
        v as u64
    }
}

/// The nominal backoff, in milliseconds, before the retry after `attempt`
/// failed attempts.
pub fn backoff_nominal_ms(base_ms: u64, attempt: u32) -> (ms: u64)
    ensures
        ms == backoff_nominal_spec(base_ms, attempt),
{
    let m: u64 = if attempt == 0 {
        1
    } else if attempt == 1 {
        2
    } else if attempt == 2 {
        4
    } else if attempt == 3 {
        8
    } else if attempt == 4 {
        16
    } else {
        32
    };
    match base_ms.checked_mul(m) {
        Some(v) => v,
        None => u64::MAX,
    }
}

/// How long to wait before the next attempt.
#[derive(Clone, Copy, Debug, PartialEq, Eq, Structural)]
pub enum RetryWait {
    /// The server's `Retry-After`, in seconds.
    Seconds(u64),
    /// The exponential backoff, in milliseconds, before jitter.
    BackoffMs(u64),
}

/// The next step of a request that asked to be retried.
#[derive(Clone, Copy, Debug, PartialEq, Eq, Structural)]
pub enum RetryStep {
    /// The retry limit is reached: the request fails.
    GiveUp,
    /// Wait, then make attempt number `next_attempt`.
    Wait { wait: RetryWait, next_attempt: u32 },
}

/// The wait before a retry: the server's delay where it named one, else the
/// backoff.
pub open spec fn retry_wait_spec(delay_secs: Option<u64>, base_backoff_ms: u64, attempt: u32) -> RetryWait {
    match delay_secs {
        Some(d) => RetryWait::Seconds(d),
        None => RetryWait::BackoffMs(backoff_nominal_spec(base_backoff_ms, attempt)),
    }
}

/// After attempt number `attempt` (counted from 0) asked to be retried:
/// give up once `max_retries` retries were made; otherwise wait for the
/// server's delay where it named one, else for the backoff.
pub fn retry_step(
    attempt: u32,
    max_retries: u32,
    delay_secs: Option<u64>,
    base_backoff_ms: u64,
) -> (s: RetryStep)
    ensures
        attempt >= max_retries ==> s == RetryStep::GiveUp,
        attempt < max_retries ==> s == (RetryStep::Wait {
            wait: retry_wait_spec(delay_secs, base_backoff_ms, attempt),
            next_attempt: (attempt + 1) as u32,
        }),
        forall|d: u64| attempt < max_retries && delay_secs == Some(d) ==> s == (RetryStep::Wait {
            wait: RetryWait::Seconds(d),
            next_attempt: (attempt + 1) as u32,
        }),
        attempt < max_retries && delay_secs is None ==> s == (RetryStep::Wait {
            wait: RetryWait::BackoffMs(backoff_nominal_spec(base_backoff_ms, attempt)),
            next_attempt: (attempt + 1) as u32,
        }),
{
    if attempt >= max_retries {
        return RetryStep::GiveUp;
    }
    let wait = match delay_secs {
        Some(d) => RetryWait::Seconds(d),
        None => RetryWait::BackoffMs(backoff_nominal_ms(base_backoff_ms, attempt)),
    };
    RetryStep::Wait { wait, next_attempt: attempt + 1 }
}

/// Every status is classified by its range: 2xx succeeds, 401 means the
/// token expired, 429 and every 5xx are retried after the server's
/// `Retry-After` seconds where that header parses as a number, and every
/// other status fails; a timeout or connection failure is retried without a
/// delay, any other transport failure fails.
pub proof fn lemma_classify_by_status(code: u16, retry_after: Option<Seq<char>>)
    ensures
        200 <= code <= 299 ==> classify_spec(Some(code), retry_after, false) == ResponseClass::Success,
        code == 401 ==> classify_spec(Some(code), retry_after, false) == ResponseClass::Unauthorized,
        (code == 429 || 500 <= code <= 599) ==> classify_spec(Some(code), retry_after, false)
            is Retry,
        (code == 429 || 500 <= code <= 599) ==> (forall|v: Seq<char>, n: u64|
            retry_after == Some(v) && parse_u64_spec(v) == Some(n) ==> classify_spec(
                Some(code),
                retry_after,
                false,
            ) == (ResponseClass::Retry { delay_secs: Some(n) })),
        (code == 429 || 500 <= code <= 599) && retry_after is None ==> classify_spec(
            Some(code),
            retry_after,
            false,
        ) == (ResponseClass::Retry { delay_secs: None }),
        !(200 <= code <= 299) && code != 401 && code != 429 && !(500 <= code <= 599)
            ==> classify_spec(Some(code), retry_after, false) == ResponseClass::HttpError,
        classify_spec(None, None, true) == (ResponseClass::Retry { delay_secs: None }),
        classify_spec(None, None, false) == ResponseClass::TransportError,
{
}

proof fn lemma_digit_char(d: nat)
    requires
        d < 10,
    ensures
        is_digit_spec(digit_char(d)),
        ((digit_char(d) as u32) - ('0' as u32)) as nat == d,
{
    if d == 0 { assert(digit_char(d) == '0'); }
    else if d == 1 { assert(digit_char(d) == '1'); }
    else if d == 2 { assert(digit_char(d) == '2'); }
    else if d == 3 { assert(digit_char(d) == '3'); }
    else if d == 4 { assert(digit_char(d) == '4'); }
    else if d == 5 { assert(digit_char(d) == '5'); }
    else if d == 6 { assert(digit_char(d) == '6'); }
    else if d == 7 { assert(digit_char(d) == '7'); }
    else if d == 8 { assert(digit_char(d) == '8'); }
    else { assert(digit_char(d) == '9'); }
}

proof fn lemma_decimal_digits(n: nat)
    ensures
        decimal_spec(n).len() > 0,
        decimal_spec(n)[0] != '+',
        forall|i: int| 0 <= i < decimal_spec(n).len() ==> is_digit_spec(#[trigger] decimal_spec(n)[i]),
        digits_value(decimal_spec(n)) == n,
    decreases n,
{
    if n < 10 {
        lemma_digit_char(n);
        let s = decimal_spec(n);
        assert(s.drop_last() =~= Seq::<char>::empty());
        assert(s.last() == digit_char(n));
        assert(digits_value(s) == digits_value(s.drop_last()) * 10 + ((s.last() as u32) - ('0' as u32)) as nat);
    } else {
        lemma_decimal_digits(n / 10);
        lemma_digit_char(n % 10);
        let p = decimal_spec(n / 10);
        let s = decimal_spec(n);
        assert(s.drop_last() =~= p);
        assert(s[0] == p[0]);
        assert forall|i: int| 0 <= i < s.len() implies is_digit_spec(#[trigger] s[i]) by {
            if i < p.len() {
                assert(s[i] == p[i]);
            }
        }
        assert(s.last() == digit_char(n % 10));
        assert(digits_value(s) == digits_value(s.drop_last()) * 10 + ((s.last() as u32) - ('0' as u32)) as nat);
        assert(n == (n / 10) * 10 + n % 10);
    }
}

/// Parsing reads back every number from its decimal spelling, with or
/// without a leading `+`.
pub proof fn lemma_parse_decimal(n: u64)
    ensures
        parse_u64_spec(decimal_spec(n as nat)) == Some(n),
        parse_u64_spec(seq!['+'] + decimal_spec(n as nat)) == Some(n),
{
    lemma_decimal_digits(n as nat);
    let d = decimal_spec(n as nat);
    assert(unsigned_digits(d) == d);
    let p = seq!['+'] + d;
    assert(unsigned_digits(p) =~= d);
}

/// Parsing refuses the empty string, a lone `+`, and any string with a
/// character other than a digit after an optional leading `+`.
pub proof fn lemma_parse_refuses(s: Seq<char>, i: int)
    ensures
        parse_u64_spec(Seq::<char>::empty()) is None,
        parse_u64_spec(seq!['+']) is None,
        0 <= i < unsigned_digits(s).len() && !is_digit_spec(unsigned_digits(s)[i]) ==> parse_u64_spec(s) is None,
{
    assert(unsigned_digits(seq!['+']) =~= Seq::<char>::empty());
}

/// The server's `Retry-After` delay, where it gave one, is always what a
/// retry waits for; the backoff is used only when it gave none.
pub proof fn lemma_server_delay_wins(delay_secs: Option<u64>, base_backoff_ms: u64, attempt: u32)
    ensures
        forall|d: u64| delay_secs == Some(d) ==> retry_wait_spec(delay_secs, base_backoff_ms, attempt)
            == RetryWait::Seconds(d),
        delay_secs is None ==> retry_wait_spec(delay_secs, base_backoff_ms, attempt) is BackoffMs,
{
}

/// The backoff starts at the base and doubles with each attempt, saturating
/// at `u64::MAX`, until the fifth doubling; from then on it stays put.
pub proof fn lemma_backoff_doubles(base_ms: u64, attempt: u32)
    ensures
        backoff_nominal_spec(base_ms, 0) == base_ms,
        attempt < 5 ==> backoff_nominal_spec(base_ms, (attempt + 1) as u32) == if 2 * backoff_nominal_spec(
            base_ms,
            attempt,
        ) > u64::MAX {
            u64::MAX
        } else {
            (2 * backoff_nominal_spec(base_ms, attempt)) as u64
        },
        attempt >= 5 && attempt < u32::MAX ==> backoff_nominal_spec(base_ms, (attempt + 1) as u32)
            == backoff_nominal_spec(base_ms, attempt),
        backoff_nominal_spec(base_ms, attempt) >= base_ms,
{
    assert(backoff_multiplier_spec(0) == 1);
    assert(base_ms * 1 == base_ms);
    let m = backoff_multiplier_spec(attempt);
    let m1 = backoff_multiplier_spec((attempt + 1) as u32);
    if attempt < 5 {
        assert(m1 == 2 * m);
        assert(base_ms * m1 == 2 * (base_ms * m)) by (nonlinear_arith)
            requires
                m1 == 2 * m,
        ;
    } else if attempt < u32::MAX {
        assert(m1 == m);
    }
    assert(m >= 1);
    assert(base_ms * m >= base_ms) by (nonlinear_arith)
        requires
            m >= 1,
    ;
}

} // verus!
