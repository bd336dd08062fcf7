//! Deadlines: the header that carries them, and reading and setting it.
use crate::decimal::{decimal, parsed_unsigned, read_u64, write_u64};
use crate::headers::{first_of, HeaderView, Headers};
use crate::message::{RPCError, Request};
use crate::text::{trim, trimmed};
use vstd::prelude::*;

verus! {

/// The header that carries the time which a call may take, in milliseconds.
pub const HEADER_TIMEOUT: &'static str = "connect-timeout-ms";

/// The milliseconds that a header value stands for; 0, no deadline, where it is
/// not a number.
pub open spec fn timeout_value(value: Seq<char>) -> int {
    match parsed_unsigned(trimmed(value), u64::MAX as int) {
        Some(ms) => ms,
        None => 0,
    }
}

/// The deadline that headers carry, 0 where they carry none.
pub open spec fn deadline_in(headers: HeaderView) -> int {
    match first_of(headers, HEADER_TIMEOUT@) {
        Some(value) => timeout_value(value),
        None => 0,
    }
}

/// Headers with a deadline set; as they are where the deadline is 0.
pub open spec fn with_deadline_set(headers: HeaderView, ms: nat) -> HeaderView {
    if ms == 0 {
        headers
    } else {
        headers.insert(HEADER_TIMEOUT@, seq![decimal(ms)])
    }
}

/// Reads the value of the timeout header.
pub fn parse_timeout(value: &str) -> (ms: u64)
    ensures
        ms == timeout_value(value@),
{
    match read_u64(&trim(value)) {
        Some(ms) => ms,
        None => 0,
    }
}

/// Reads the deadline of a call from its headers.
pub fn deadline_of(headers: &Headers) -> (ms: u64)
    ensures
        ms == deadline_in(headers@),
{
    match headers.first(HEADER_TIMEOUT) {
        Some(value) => parse_timeout(value),
        None => 0,
    }
}

/// Attaches a deadline to a request; 0 attaches none.
pub fn with_timeout(req: Request, timeout_ms: u64) -> (r: Request)
    ensures
        r.headers@ == with_deadline_set(req.headers@, timeout_ms as nat),
        r.url == req.url,
        r.method == req.method,
        r.body == req.body,
{
    if timeout_ms == 0 {
        return req;
    }
    let mut headers = req.headers;
    headers.set(HEADER_TIMEOUT, &write_u64(timeout_ms));
    Request { url: req.url, method: req.method, headers, body: req.body }
}

/// The error of a call that its deadline has cut short.
pub open spec fn deadline_exceeded() -> crate::message::ErrorView {
    crate::message::plain_error(4, "deadline exceeded"@)
}

/// Makes the error of a call that its deadline has cut short.
pub fn deadline_error() -> (e: RPCError)
    ensures
        e@ == deadline_exceeded(),
{
    RPCError::new(4, "deadline exceeded")
}

/// The time that a call is given before it is cut short; none, and the call is
/// never cut short, where the deadline is 0.
pub fn time_limit(ms: u64) -> (r: Option<u64>)
    ensures
        r == if ms == 0 {
            None
        } else {
            Some(ms)
        },
{
    if ms == 0 {
        None
    } else {
        Some(ms)
    }
}

/// What a call comes to that was raced against its deadline: its own outcome
/// where it came to one in time, else the error of the deadline.
pub fn deadline_outcome<T>(finished: Option<Result<T, RPCError>>) -> (r: Result<T, RPCError>)
    ensures
        match finished {
            Some(outcome) => r == outcome,
            None => r is Err && r->Err_0@ == deadline_exceeded(),
        },
{
    match finished {
        Some(outcome) => outcome,
        None => Err(deadline_error()),
    }
}

/// The deadline that is set on a call is the deadline that is read from it.
pub proof fn law_deadline_reads_back(headers: HeaderView, ms: nat)
    requires
        ms <= u64::MAX,
    ensures
        ms > 0 ==> deadline_in(with_deadline_set(headers, ms)) == ms,
        ms == 0 ==> with_deadline_set(headers, ms) == headers,
{
    if ms > 0 {
        let d = decimal(ms);
        crate::decimal::law_decimal_reads_back(ms);
        crate::decimal::law_unsigned_reads_back(ms, u64::MAX as int);
        assert(crate::decimal::is_digit(d[0]));
        assert(crate::decimal::is_digit(d[d.len() - 1]));
        assert(trimmed(d) == d);
    }
}

/// A deadline changes no other header.
pub proof fn law_deadline_keeps_other_headers(headers: HeaderView, ms: nat, name: Seq<char>)
    requires
        name != HEADER_TIMEOUT@,
    ensures
        first_of(with_deadline_set(headers, ms), name) == first_of(headers, name),
{
}

/// The deadline that headers carry is the number in the first value of the header,
/// with white space around it or none; a value that is no number carries none.
pub proof fn law_deadline_is_read(headers: HeaderView)
    ensures
        ({
            let value = first_of(headers, "connect-timeout-ms"@);
            let number = parsed_unsigned(trimmed(value->0), 0xffff_ffff_ffff_ffff);
            &&& value is None ==> deadline_in(headers) == 0
            &&& value is Some && number is Some ==> deadline_in(headers) == number->0
            &&& value is Some && number is None ==> deadline_in(headers) == 0
        }),
        deadline_exceeded() == (crate::message::ErrorView {
            code: 4,
            message: "deadline exceeded"@,
            details: Seq::empty(),
        }),
{
}

/// A deadline takes the place of one that is there, and is the only value of its
/// header.
pub proof fn law_deadline_is_set(headers: HeaderView, ms: nat)
    requires
        ms > 0,
    ensures
        with_deadline_set(headers, ms).dom() == headers.dom().insert("connect-timeout-ms"@),
        with_deadline_set(headers, ms)["connect-timeout-ms"@] == seq![decimal(ms)],
        forall|k: Seq<char>|
            k != "connect-timeout-ms"@ && headers.dom().contains(k) ==> #[trigger] with_deadline_set(
                headers,
                ms,
            )[k] == headers[k],
{
}

} // verus!
