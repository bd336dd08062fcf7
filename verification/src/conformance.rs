//! The conformance service: its methods, and what each of them answers.
use crate::context::HandlerContext;
use crate::decimal::{parsed_signed, read_signed};
use crate::headers::{first_of, with_values, HeaderView, Headers};
use crate::message::{DetailView, ErrorDetail, ErrorView, MethodSpec, RPCError};
use crate::outgoing::{lines, push_line, LineView};
use crate::protocol::{method_path, url_for};
use crate::text::joined;
use vstd::prelude::*;
use vstd::utf8::encode_utf8;

verus! {

/// The names of the methods and whether each is a stream.
pub open spec fn method_table() -> Seq<(Seq<char>, bool)> {
    seq![
        ("Health"@, false),
        ("Echo"@, false),
        ("Fail"@, false),
        ("FailDetails"@, false),
        ("EchoMeta"@, false),
        ("Big"@, false),
        ("EchoBytes"@, false),
        ("Sleep"@, false),
        ("Empty"@, false),
        ("EchoTrailer"@, false),
        ("BigStream"@, true),
        ("Count"@, true),
        ("StreamFail"@, true),
        ("StreamFailDetails"@, true),
        ("CountTrailer"@, true),
    ]
}

/// Whether a method is the one of that name in the conformance service.
pub open spec fn is_method(m: MethodSpec, name: Seq<char>, server_stream: bool) -> bool {
    &&& m.service@ == "easyrpc.conformance.v1.ConformanceService"@
    &&& m.name@ == name
    &&& m.path@ == method_path("easyrpc.conformance.v1"@, "ConformanceService"@, name)
    &&& m.http_method@ == "POST"@
    &&& !m.client_stream
    &&& m.server_stream == server_stream
    &&& m.body@ == ""@
}

fn add_method(v: &mut Vec<MethodSpec>, name: &str, server_stream: bool)
    ensures
        final(v)@.len() == old(v)@.len() + 1,
        final(v)@.drop_last() == old(v)@,
        is_method(final(v)@.last(), name@, server_stream),
{
    let ghost before = v@;
    v.push(
        MethodSpec {
            service: "easyrpc.conformance.v1.ConformanceService".to_owned(),
            name: name.to_owned(),
            path: url_for("easyrpc.conformance.v1", "ConformanceService", name),
            http_method: "POST".to_owned(),
            client_stream: false,
            server_stream,
            body: "".to_owned(),
        },
    );
    assert(v@.drop_last() =~= before);
}

/// The methods of the service.
pub fn method_specs() -> (r: Vec<MethodSpec>)
    ensures
        r@.len() == 15,
        forall|i: int|
            0 <= i < 15 ==> is_method(#[trigger] r@[i], method_table()[i].0, method_table()[i].1),
{
    let unary = [
        "Health",
        "Echo",
        "Fail",
        "FailDetails",
        "EchoMeta",
        "Big",
        "EchoBytes",
        "Sleep",
        "Empty",
        "EchoTrailer",
    ];
    let stream = ["BigStream", "Count", "StreamFail", "StreamFailDetails", "CountTrailer"];
    let mut v: Vec<MethodSpec> = Vec::new();
    let mut i: usize = 0;
    while i < 10
        invariant
            i <= 10,
            v@.len() == i,
            unary@.len() == 10,
            forall|j: int| 0 <= j < 10 ==> (#[trigger] unary@[j])@ == method_table()[j].0,
            forall|j: int|
                0 <= j < i ==> is_method(#[trigger] v@[j], method_table()[j].0, method_table()[j].1),
        decreases 10 - i,
    {
        let ghost before = v@;
        assert(unary@[i as int]@ == method_table()[i as int].0);
        add_method(&mut v, unary[i], false);
        assert forall|j: int| 0 <= j < i implies #[trigger] v@[j] == before[j] by {
            assert(v@.drop_last()[j] == before[j]);
        }
        assert(v@[i as int] == v@.last());
        i += 1;
    }
    let mut k: usize = 0;
    while k < 5
        invariant
            k <= 5,
            v@.len() == 10 + k,
            stream@.len() == 5,
            forall|j: int| 0 <= j < 5 ==> (#[trigger] stream@[j])@ == method_table()[10 + j].0,
            forall|j: int|
                0 <= j < 10 + k ==> is_method(
                    #[trigger] v@[j],
                    method_table()[j].0,
                    method_table()[j].1,
                ),
        decreases 5 - k,
    {
        let ghost before = v@;
        assert(stream@[k as int]@ == method_table()[10 + k].0);
        add_method(&mut v, stream[k], true);
        assert forall|j: int| 0 <= j < 10 + k implies #[trigger] v@[j] == before[j] by {
            assert(v@.drop_last()[j] == before[j]);
        }
        assert(v@[10 + k] == v@.last());
        k += 1;
    }
    v
}

/// `Health`: whether the service is well, and its name.
pub fn health() -> (r: (bool, String))
    ensures
        r.0,
        r.1@ == "conformance"@,
{
    (true, "conformance".to_owned())
}

/// `Echo`: the input behind a mark.
pub fn echo(input: &str) -> (output: String)
    ensures
        output@ == "echo:"@ + input@,
{
    joined("echo:", input)
}

/// `Fail`: fails with the message, and answers where there is none.
pub fn fail(message: &str) -> (r: Result<bool, RPCError>)
    ensures
        match r {
            Ok(ok) => message@.len() == 0 && ok,
            Err(e) => message@.len() > 0 && e@ == crate::message::plain_error(3, message@),
        },
{
    if message.is_empty() {
        Ok(true)
    } else {
        Err(RPCError::new(3, message))
    }
}

/// An error with one detail, whose value is text.
pub open spec fn detailed(
    code: int,
    message: Seq<char>,
    detail_type: Seq<char>,
    detail_text: Seq<char>,
) -> ErrorView {
    ErrorView {
        code,
        message,
        details: seq![DetailView { type_: detail_type, value: encode_utf8(detail_text) }],
    }
}

/// `FailDetails`, and the end of `StreamFailDetails`: an error with one detail.
pub fn fail_details(code: i32, message: &str, detail_type: &str, detail_text: &str) -> (e: RPCError)
    ensures
        e@ == detailed(code as int, message@, detail_type@, detail_text@),
{
    let value = vstd::slice::slice_to_vec(detail_text.as_bytes());
    let mut details: Vec<ErrorDetail> = Vec::new();
    details.push(ErrorDetail { type_: detail_type.to_owned(), value });
    let e = RPCError::new(code, message).with_details(details);
    assert(e@.details =~= seq![
        DetailView { type_: detail_type@, value: encode_utf8(detail_text@) },
    ]);
    e
}

/// A header by name, with its first value, where it is there.
pub open spec fn picked(headers: HeaderView, name: Seq<char>) -> Seq<LineView> {
    match first_of(headers, name) {
        Some(v) => seq![(name, v)],
        None => Seq::empty(),
    }
}

fn pick(out: &mut Vec<(String, String)>, headers: &Headers, name: &str)
    ensures
        lines(final(out)@) == lines(old(out)@) + picked(headers@, name@),
{
    let ghost before = lines(out@);
    match headers.first(name) {
        Some(v) => {
            push_line(out, name, v);
        },
        None => {},
    }
    assert(lines(out@) =~= before + picked(headers@, name@));
}

/// `EchoMeta`: the metadata of the call that is echoed.
pub fn echo_meta(headers: &Headers) -> (r: Vec<(String, String)>)
    ensures
        lines(r@) == picked(headers@, "x-test"@) + picked(headers@, "authorization"@),
{
    let mut r: Vec<(String, String)> = Vec::new();
    let ghost none = lines(r@);
    pick(&mut r, headers, "x-test");
    assert(none + picked(headers@, "x-test"@) =~= picked(headers@, "x-test"@));
    pick(&mut r, headers, "authorization");
    r
}

/// What `Sleep` does: how long it waits, and then whether it answers.
#[derive(Debug)]
pub struct SleepPlan {
    pub wait_ms: u64,
    pub outcome: Result<bool, RPCError>,
}

/// The deadline of a call as `Sleep` reads it: 0 where there is none, or it is no
/// number that fits.
pub open spec fn sleep_deadline(headers: HeaderView) -> int {
    match first_of(headers, "connect-timeout-ms"@) {
        Some(s) => match parsed_signed(s, i32::MIN as int, i32::MAX as int) {
            Some(ms) => ms,
            None => 0,
        },
        None => 0,
    }
}

/// `Sleep`: waits for the given time and answers; where the deadline comes
/// earlier, waits until then and fails.
pub fn sleep(headers: &Headers, millis: i32) -> (r: SleepPlan)
    ensures
        ({
            let deadline = sleep_deadline(headers@);
            if 0 < deadline < millis {
                &&& r.wait_ms == deadline
                &&& r.outcome is Err
                &&& r.outcome->Err_0@ == crate::deadline::deadline_exceeded()
            } else {
                &&& r.wait_ms == if millis > 0 {
                    millis as int
                } else {
                    0
                }
                &&& r.outcome == Ok::<bool, RPCError>(true)
            }
        }),
{
    let deadline: i64 = match headers.first("connect-timeout-ms") {
        Some(s) => match read_signed(s, -2147483648, 2147483647) {
            Some(ms) => ms,
            None => 0,
        },
        None => 0,
    };
    if deadline > 0 && deadline < millis as i64 {
        return SleepPlan {
            wait_ms: deadline as u64,
            outcome: Err(crate::deadline::deadline_error()),
        };
    }
    let wait_ms: u64 = if millis > 0 {
        millis as u64
    } else {
        0
    };
    SleepPlan { wait_ms, outcome: Ok(true) }
}

/// `EchoTrailer`: the input behind a mark, and in a trailer behind another.
pub fn echo_trailer(ctx: &mut HandlerContext, input: &str) -> (output: String)
    ensures
        output@ == "trailer:"@ + input@,
        final(ctx).trailing@ == with_values(old(ctx).trailing@, "x-trl"@, seq!["unary-"@ + input@]),
        final(ctx).response@ == old(ctx).response@,
        final(ctx).headers == old(ctx).headers,
        final(ctx).kind == old(ctx).kind,
{
    ctx.set_trailer("x-trl", &joined("unary-", input));
    joined("trailer:", input)
}

/// `BigStream`, `Count` and `CountTrailer`: how many messages are streamed.
pub fn stream_length(count: i32) -> (n: i32)
    ensures
        n == if count > 0 {
            count as int
        } else {
            3
        },
{
    if count > 0 {
        count
    } else {
        3
    }
}

/// Whether a list of indexes is 0, 1 and so on, `n` of them.
pub open spec fn counts_up(indexes: Seq<i32>, n: int) -> bool {
    indexes.len() == n && forall|i: int| 0 <= i < n ==> #[trigger] indexes[i] == i
}

fn indexes_up_to(n: i32) -> (r: Vec<i32>)
    requires
        0 <= n,
    ensures
        counts_up(r@, n as int),
{
    let mut r: Vec<i32> = Vec::new();
    let mut i: i32 = 0;
    while i < n
        invariant
            0 <= i <= n,
            counts_up(r@, i as int),
        decreases n - i,
    {
        r.push(i);
        i += 1;
    }
    r
}

/// `BigStream`, `Count` and `CountTrailer`: the indexes that the messages carry, in
/// order.
pub fn stream_indexes(count: i32) -> (r: Vec<i32>)
    ensures
        counts_up(
            r@,
            if count > 0 {
                count as int
            } else {
                3
            },
        ),
{
    indexes_up_to(stream_length(count))
}

/// `CountTrailer`: marks the stream as done in a trailer.
pub fn count_trailer(ctx: &mut HandlerContext)
    ensures
        final(ctx).trailing@ == with_values(old(ctx).trailing@, "x-ctrailer"@, seq!["done"@]),
        final(ctx).response@ == old(ctx).response@,
        final(ctx).headers == old(ctx).headers,
        final(ctx).kind == old(ctx).kind,
{
    ctx.set_trailer("x-ctrailer", "done");
}

/// `StreamFail` and `StreamFailDetails`: the indexes that the messages before the
/// error carry, in order.
pub fn indexes_before_failure(emit_before: i32) -> (r: Vec<i32>)
    ensures
        counts_up(
            r@,
            if emit_before > 0 {
                emit_before as int
            } else {
                0
            },
        ),
{
    if emit_before > 0 {
        indexes_up_to(emit_before)
    } else {
        Vec::new()
    }
}

// ---- laws ----

/// An error with a detail has the code, the message and the one detail that it is
/// made of, whose value is the text in UTF-8.
pub proof fn law_detailed(
    code: int,
    message: Seq<char>,
    detail_type: Seq<char>,
    detail_text: Seq<char>,
)
    ensures
        ({
            let e = detailed(code, message, detail_type, detail_text);
            &&& e.code == code
            &&& e.message == message
            &&& e.details.len() == 1
            &&& e.details[0].type_ == detail_type
            &&& vstd::utf8::decode_utf8(e.details[0].value) == detail_text
        }),
{
    vstd::utf8::encode_utf8_decode_utf8(detail_text);
}

/// A header that is there is echoed under its name with its first value, and one
/// that is not there is not.
pub proof fn law_picked(headers: HeaderView, name: Seq<char>)
    ensures
        headers.dom().contains(name) && headers[name].len() > 0 ==> picked(headers, name) == seq![
            (name, headers[name][0]),
        ],
        !headers.dom().contains(name) || headers[name].len() == 0 ==> picked(headers, name).len()
            == 0,
{
}

/// The deadline is the number in the first value of its header, as it stands; a
/// value that is no number of 32 bits is no deadline.
pub proof fn law_sleep_deadline(headers: HeaderView)
    ensures
        ({
            let value = first_of(headers, "connect-timeout-ms"@);
            let number = parsed_signed(value->0, -0x8000_0000, 0x7fff_ffff);
            &&& value is Some && number is Some ==> sleep_deadline(headers) == number->0
            &&& value is None || number is None ==> sleep_deadline(headers) == 0
        }),
{
}

/// Indexes that count up are 0, 1 and so on, as many as there are to be.
pub proof fn law_counting(indexes: Seq<i32>, n: int, i: int)
    requires
        counts_up(indexes, n),
    ensures
        indexes.len() == n,
        0 <= i < n ==> indexes[i] == i,
{
}

/// The service has ten unary methods and then five that stream, each under its own
/// name and path.
pub proof fn law_methods(m: MethodSpec, i: int)
    requires
        0 <= i < 15,
    ensures
        method_table().len() == 15,
        method_table()[i].1 <==> i >= 10,
        i < 10 ==> method_table()[i].0 == seq![
            "Health"@,
            "Echo"@,
            "Fail"@,
            "FailDetails"@,
            "EchoMeta"@,
            "Big"@,
            "EchoBytes"@,
            "Sleep"@,
            "Empty"@,
            "EchoTrailer"@,
        ][i],
        i >= 10 ==> method_table()[i].0 == seq![
            "BigStream"@,
            "Count"@,
            "StreamFail"@,
            "StreamFailDetails"@,
            "CountTrailer"@,
        ][i - 10],
        is_method(m, method_table()[i].0, method_table()[i].1) ==> {
            &&& m.name@ == method_table()[i].0
            &&& m.service@ == "easyrpc.conformance.v1.ConformanceService"@
            &&& m.path@ == "/"@ + "easyrpc.conformance.v1"@ + "."@ + "ConformanceService"@ + "/"@
                + m.name@
            &&& m.http_method@ == "POST"@
            &&& !m.client_stream
            &&& m.server_stream <==> i >= 10
            &&& m.body@ == ""@
        },
{
}

} // verus!
