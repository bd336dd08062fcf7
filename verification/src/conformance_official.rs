//! The official conformance service: calls whose request says how they are to be
//! answered.
use crate::context::HandlerContext;
use crate::decimal::{parsed_signed, read_signed};
use crate::framing::{length_at, length_bytes, push_length, read_length};
use crate::headers::{first_of, with_values, HeaderView, Headers};
use crate::message::{detail_views, DetailView, ErrorDetail, ErrorView, MethodSpec, RPCError};
use crate::protocol::{method_path, url_for};
use crate::text::{after_last, copy_texts, cut_after_last, joined, texts, trim, trimmed};
use vstd::prelude::*;

verus! {

/// A message packed with its type.
#[derive(Debug)]
pub struct AnyMessage {
    pub type_url: String,
    pub value: Vec<u8>,
}

/// A header with all its values.
#[derive(Debug)]
pub struct HeaderEntry {
    pub name: String,
    pub value: Vec<String>,
}

/// What a call was made with, as it is told back to the client.
#[derive(Debug)]
pub struct RequestInfo {
    pub request_headers: Vec<HeaderEntry>,
    pub timeout_ms: Option<i64>,
    pub requests: Vec<AnyMessage>,
}

/// An error that a call is to be answered with.
#[derive(Debug)]
pub struct ErrorDefinition {
    pub code: i32,
    pub message: Option<String>,
    pub details: Vec<AnyMessage>,
}

/// Packs the bytes of a request message under its name.
pub fn request_any(value: Vec<u8>, name: &str) -> (r: AnyMessage)
    ensures
        r.value == value,
        r.type_url@ == "type.googleapis.com/connectrpc.conformance.v1."@ + name@,
{
    AnyMessage { type_url: joined("type.googleapis.com/connectrpc.conformance.v1.", name), value }
}

/// Whether a list of entries holds the headers with the given names, one entry
/// for each, in order.
pub open spec fn lists_headers(
    entries: Seq<HeaderEntry>,
    names: Seq<Seq<char>>,
    m: HeaderView,
) -> bool {
    &&& entries.len() == names.len()
    &&& forall|i: int|
        0 <= i < entries.len() ==> (#[trigger] entries[i]).name@ == names[i] && texts(
            entries[i].value@,
        ) == m[names[i]]
}

/// The deadline of a call in its headers, where it is a number.
pub open spec fn info_timeout(headers: HeaderView) -> Option<int> {
    match first_of(headers, "connect-timeout-ms"@) {
        Some(s) => parsed_signed(trimmed(s), i64::MIN as int, i64::MAX as int),
        None => None,
    }
}

/// Tells what a call was made with: every header once, with all its values.
pub fn make_request_info(headers: &Headers, requests: Vec<AnyMessage>) -> (r: RequestInfo)
    ensures
        lists_headers(r.request_headers@, headers.names(), headers@),
        crate::outgoing::is_walk(headers.names(), headers@),
        match r.timeout_ms {
            Some(ms) => info_timeout(headers@) == Some(ms as int),
            None => info_timeout(headers@) is None,
        },
        r.requests == requests,
{
    let mut request_headers: Vec<HeaderEntry> = Vec::new();
    let n = headers.len();
    let ghost names = headers.names();
    let mut i: usize = 0;
    while i < n
        invariant
            i <= n == names.len(),
            names == headers.names(),
            lists_headers(request_headers@, names.take(i as int), headers@),
        decreases n - i,
    {
        let ghost before = request_headers@;
        request_headers.push(
            HeaderEntry {
                name: headers.name_at(i).clone(),
                value: copy_texts(headers.values_at(i)),
            },
        );
        assert forall|j: int| 0 <= j < i + 1 implies (#[trigger] request_headers@[j]).name@
            == names.take(i + 1)[j] && texts(request_headers@[j].value@) == headers@[names.take(
            i + 1,
        )[j]] by {
            if j < i {
                assert(before[j].name@ == names.take(i as int)[j]);
            }
        }
        i += 1;
    }
    assert(names.take(i as int) =~= names);
    let timeout_ms = match headers.first("connect-timeout-ms") {
        Some(s) => read_signed(&trim(s), -9223372036854775808, 9223372036854775807),
        None => None,
    };
    RequestInfo { request_headers, timeout_ms, requests }
}

/// The details of an error that is defined by packed messages: the type without
/// what stands before its last slash.
pub open spec fn bare_details(v: Seq<AnyMessage>) -> Seq<DetailView> {
    v.map_values(
        |a: AnyMessage| DetailView { type_: after_last(a.type_url@, '/'), value: a.value@ },
    )
}

/// The detail that tells what a call was made with.
pub open spec fn info_detail(info: Seq<u8>) -> DetailView {
    DetailView {
        type_: "connectrpc.conformance.v1.ConformancePayload.RequestInfo"@,
        value: info,
    }
}

/// The error that a definition comes to, with what the call was made with behind
/// its details.
pub open spec fn defined_error(e: ErrorDefinition, info: Option<Seq<u8>>) -> ErrorView {
    ErrorView {
        code: e.code as int,
        message: match e.message {
            Some(m) => m@,
            None => Seq::empty(),
        },
        details: match info {
            Some(i) => bare_details(e.details@).push(info_detail(i)),
            None => bare_details(e.details@),
        },
    }
}

/// Makes the error that a definition comes to. `info` is the encoded request
/// info.
pub fn to_rpc_error(e: &ErrorDefinition, info: Option<Vec<u8>>) -> (r: RPCError)
    ensures
        r@ == defined_error(*e, crate::gzip::bytes_view(info)),
{
    let mut details: Vec<ErrorDetail> = Vec::new();
    let mut i: usize = 0;
    while i < e.details.len()
        invariant
            i <= e.details@.len(),
            details@.len() == i,
            forall|j: int|
                0 <= j < i ==> (#[trigger] details@[j])@ == bare_details(e.details@)[j],
        decreases e.details@.len() - i,
    {
        details.push(
            ErrorDetail {
                type_: cut_after_last(&e.details[i].type_url, '/'),
                value: vstd::slice::slice_to_vec(&e.details[i].value),
            },
        );
        i += 1;
    }
    assert(detail_views(details@) =~= bare_details(e.details@));
    match info {
        Some(value) => {
            let ghost before = details@;
            details.push(
                ErrorDetail {
                    type_: "connectrpc.conformance.v1.ConformancePayload.RequestInfo".to_owned(),
                    value,
                },
            );
            assert(detail_views(details@) =~= detail_views(before).push(info_detail(value@)));
        },
        None => {},
    }
    let message = match &e.message {
        Some(m) => m.clone(),
        None => String::new(),
    };
    RPCError { code: e.code, message, details }
}

/// A header map with the values of the entries added, each behind those that its
/// name already has. An entry without values adds nothing.
pub open spec fn with_entries(m: HeaderView, list: Seq<HeaderEntry>) -> HeaderView
    decreases list.len(),
{
    if list.len() == 0 {
        m
    } else {
        let earlier = with_entries(m, list.drop_last());
        let values = texts(list.last().value@);
        if values.len() == 0 {
            earlier
        } else {
            with_values(earlier, list.last().name@, values)
        }
    }
}

fn apply_entry(entry: &HeaderEntry, ctx: &mut HandlerContext, trailer: bool)
    ensures
        ({
            let values = texts(entry.value@);
            let before = if trailer {
                old(ctx).trailing@
            } else {
                old(ctx).response@
            };
            let after = if trailer {
                final(ctx).trailing@
            } else {
                final(ctx).response@
            };
            after == if values.len() == 0 {
                before
            } else {
                with_values(before, entry.name@, values)
            }
        }),
        trailer ==> final(ctx).response@ == old(ctx).response@,
        !trailer ==> final(ctx).trailing@ == old(ctx).trailing@,
        final(ctx).headers == old(ctx).headers,
        final(ctx).kind == old(ctx).kind,
{
    let ghost first = *ctx;
    let ghost values = texts(entry.value@);
    let ghost before = if trailer {
        ctx.trailing@
    } else {
        ctx.response@
    };
    let mut i: usize = 0;
    while i < entry.value.len()
        invariant
            i <= entry.value@.len(),
            values == texts(entry.value@),
            (if trailer {
                ctx.trailing@
            } else {
                ctx.response@
            }) == if i == 0 {
                before
            } else {
                with_values(before, entry.name@, values.take(i as int))
            },
            trailer ==> ctx.response@ == first.response@,
            !trailer ==> ctx.trailing@ == first.trailing@,
            ctx.headers == first.headers,
            ctx.kind == first.kind,
        decreases entry.value@.len() - i,
    {
        let ghost name = entry.name@;
        proof {
            let have = crate::headers::values_of(before, name);
            assert(values[i as int] == entry.value@[i as int]@);
            assert((have + values.take(i as int)) + seq![values[i as int]] =~= have + values.take(
                i + 1,
            ));
            assert(have + seq![values[i as int]] =~= have + values.take(i + 1) || i > 0);
            let m = with_values(before, name, values.take(i as int));
            assert(with_values(m, name, seq![values[i as int]]) =~= with_values(
                before,
                name,
                values.take(i + 1),
            ));
        }
        if trailer {
            ctx.set_trailer(&entry.name, &entry.value[i]);
        } else {
            ctx.set_header(&entry.name, &entry.value[i]);
        }
        i += 1;
    }
    assert(values.take(i as int) =~= values);
}

/// Sets the headers, or the trailers, that a definition asks for.
pub fn apply_headers(list: &Vec<HeaderEntry>, ctx: &mut HandlerContext, trailer: bool)
    ensures
        trailer ==> final(ctx).trailing@ == with_entries(old(ctx).trailing@, list@)
            && final(ctx).response@ == old(ctx).response@,
        !trailer ==> final(ctx).response@ == with_entries(old(ctx).response@, list@)
            && final(ctx).trailing@ == old(ctx).trailing@,
        final(ctx).headers == old(ctx).headers,
        final(ctx).kind == old(ctx).kind,
{
    let ghost first = *ctx;
    let mut i: usize = 0;
    assert(list@.take(0) =~= Seq::empty());
    while i < list.len()
        invariant
            i <= list@.len(),
            trailer ==> ctx.trailing@ == with_entries(first.trailing@, list@.take(i as int))
                && ctx.response@ == first.response@,
            !trailer ==> ctx.response@ == with_entries(first.response@, list@.take(i as int))
                && ctx.trailing@ == first.trailing@,
            ctx.headers == first.headers,
            ctx.kind == first.kind,
        decreases list@.len() - i,
    {
        assert(list@.take(i + 1).drop_last() =~= list@.take(i as int));
        assert(list@.take(i + 1).last() == list@[i as int]);
        apply_entry(&list[i], ctx, trailer);
        i += 1;
    }
    assert(list@.take(i as int) =~= list@);
}

// ---- unary calls ----

/// What a unary call is to be answered with.
#[derive(Debug)]
pub enum UnaryResponse {
    Data(Vec<u8>),
    Error(ErrorDefinition),
    Unset,
}

/// How a unary call is to be answered.
#[derive(Debug)]
pub struct UnaryDefinition {
    pub response_headers: Vec<HeaderEntry>,
    pub response_trailers: Vec<HeaderEntry>,
    pub response: UnaryResponse,
    pub response_delay_ms: u32,
}

/// What a unary call comes to: a wait, and then data or an error.
#[derive(Debug)]
pub struct UnaryOutcome {
    pub wait_ms: u32,
    pub result: Result<Vec<u8>, RPCError>,
}

/// Whether the outcome of a unary call is the defined one. Only an answer waits.
pub open spec fn is_unary_outcome(
    r: UnaryOutcome,
    def: Option<UnaryDefinition>,
    info: Seq<u8>,
) -> bool {
    match def {
        None => r.wait_ms == 0 && r.result is Ok && r.result->Ok_0@ == Seq::<u8>::empty(),
        Some(d) => match d.response {
            UnaryResponse::Error(e) => r.wait_ms == 0 && r.result is Err && r.result->Err_0@
                == defined_error(e, Some(info)),
            UnaryResponse::Data(b) => r.wait_ms == d.response_delay_ms && r.result
                == Ok::<Vec<u8>, RPCError>(b),
            UnaryResponse::Unset => r.wait_ms == d.response_delay_ms && r.result is Ok
                && r.result->Ok_0@ == Seq::<u8>::empty(),
        },
    }
}

/// `Unary`: sets the headers and trailers that the request asks for, and comes to
/// what it defines. `info` is the encoded request info.
pub fn unary(ctx: &mut HandlerContext, def: Option<UnaryDefinition>, info: Vec<u8>) -> (r:
    UnaryOutcome)
    ensures
        is_unary_outcome(r, def, info@),
        def is None ==> final(ctx).response@ == old(ctx).response@ && final(ctx).trailing@ == old(
            ctx,
        ).trailing@,
        def is Some ==> final(ctx).response@ == with_entries(
            old(ctx).response@,
            def->0.response_headers@,
        ) && final(ctx).trailing@ == with_entries(
            old(ctx).trailing@,
            def->0.response_trailers@,
        ),
        final(ctx).headers == old(ctx).headers,
        final(ctx).kind == old(ctx).kind,
{
    match def {
        None => UnaryOutcome { wait_ms: 0, result: Ok(Vec::new()) },
        Some(d) => {
            apply_headers(&d.response_headers, ctx, false);
            apply_headers(&d.response_trailers, ctx, true);
            match d.response {
                UnaryResponse::Error(e) => UnaryOutcome {
                    wait_ms: 0,
                    result: Err(to_rpc_error(&e, Some(info))),
                },
                UnaryResponse::Data(b) => UnaryOutcome {
                    wait_ms: d.response_delay_ms,
                    result: Ok(b),
                },
                UnaryResponse::Unset => UnaryOutcome {
                    wait_ms: d.response_delay_ms,
                    result: Ok(Vec::new()),
                },
            }
        },
    }
}

// ---- stream calls ----

/// How a stream call is to be answered.
#[derive(Debug)]
pub struct StreamDefinition {
    pub response_headers: Vec<HeaderEntry>,
    pub response_trailers: Vec<HeaderEntry>,
    pub response_data: Vec<Vec<u8>>,
    pub response_delay_ms: u32,
    pub error: Option<ErrorDefinition>,
}

/// What a stream call comes to: messages with a wait before each, the first of
/// which brings the request info, and then an error or a clean end.
#[derive(Debug)]
pub struct StreamOutcome {
    pub messages: Vec<Vec<u8>>,
    pub wait_ms: u32,
    pub end: Result<(), RPCError>,
}

/// Whether the outcome of a stream call is the defined one. The error brings the
/// request info only where no message has brought it.
pub open spec fn is_stream_outcome(
    r: StreamOutcome,
    def: Option<StreamDefinition>,
    info: Seq<u8>,
) -> bool {
    match def {
        None => r.messages@.len() == 0 && r.wait_ms == 0 && r.end is Ok,
        Some(d) => {
            &&& r.messages == d.response_data
            &&& r.wait_ms == d.response_delay_ms
            &&& match d.error {
                None => r.end is Ok,
                Some(e) => r.end is Err && r.end->Err_0@ == defined_error(
                    e,
                    if d.response_data@.len() == 0 {
                        Some(info)
                    } else {
                        None
                    },
                ),
            }
        },
    }
}

/// `ServerStream`: sets the headers and trailers that the request asks for, and
/// comes to what it defines. `info` is the encoded request info.
pub fn server_stream(ctx: &mut HandlerContext, def: Option<StreamDefinition>, info: Vec<u8>) -> (r:
    StreamOutcome)
    ensures
        is_stream_outcome(r, def, info@),
        def is None ==> final(ctx).response@ == old(ctx).response@ && final(ctx).trailing@ == old(
            ctx,
        ).trailing@,
        def is Some ==> final(ctx).response@ == with_entries(
            old(ctx).response@,
            def->0.response_headers@,
        ) && final(ctx).trailing@ == with_entries(
            old(ctx).trailing@,
            def->0.response_trailers@,
        ),
        final(ctx).headers == old(ctx).headers,
        final(ctx).kind == old(ctx).kind,
{
    match def {
        None => StreamOutcome { messages: Vec::new(), wait_ms: 0, end: Ok(()) },
        Some(d) => {
            apply_headers(&d.response_headers, ctx, false);
            apply_headers(&d.response_trailers, ctx, true);
            let end = match &d.error {
                None => Ok(()),
                Some(e) => {
                    let told = if d.response_data.len() == 0 {
                        Some(info)
                    } else {
                        None
                    };
                    Err(to_rpc_error(e, told))
                },
            };
            StreamOutcome { messages: d.response_data, wait_ms: d.response_delay_ms, end }
        },
    }
}

/// The request info that the message at a place of a stream brings: the first
/// message brings it, no other does.
pub fn message_info<I>(info: I, index: usize) -> (r: Option<I>)
    ensures
        r == if index == 0 {
            Some(info)
        } else {
            None
        },
{
    if index == 0 {
        Some(info)
    } else {
        None
    }
}

/// The error of a method that is not there.
pub fn unimplemented() -> (e: RPCError)
    ensures
        e@ == crate::message::plain_error(12, "unimplemented"@),
{
    RPCError::new(12, "unimplemented")
}

/// The error of a call that streams requests.
pub fn client_stream() -> (e: RPCError)
    ensures
        e@ == crate::message::plain_error(12, "client streaming is not supported"@),
{
    RPCError::new(12, "client streaming is not supported")
}

/// The error of a call that streams both ways.
pub fn bidi_stream() -> (e: RPCError)
    ensures
        e@ == crate::message::plain_error(12, "bidi streaming is not supported"@),
{
    RPCError::new(12, "bidi streaming is not supported")
}

// ---- messages on a pipe ----

/// A message behind its size in four bytes.
pub open spec fn prefixed(message: Seq<u8>) -> Seq<u8> {
    length_bytes(message.len() as int) + message
}

/// Puts the size of a message before it.
pub fn size_prefixed(message: &[u8]) -> (out: Vec<u8>)
    ensures
        out@ == prefixed(message@),
{
    let mut out: Vec<u8> = Vec::new();
    push_length(&mut out, message.len());
    let ghost head = out@;
    out.extend_from_slice(message);
    assert(out@ =~= head + message@);
    assert(head =~= length_bytes(message@.len() as int));
    out
}

/// Reads the size that stands before a message.
pub fn prefixed_size(head: [u8; 4]) -> (n: usize)
    ensures
        n == length_at(head@, 0),
{
    read_length(&head, 0) as usize
}

/// The size that is put before a message is the size that is read, where four
/// bytes can hold it.
pub proof fn law_size_reads_back(message: Seq<u8>)
    requires
        message.len() < 0x1_0000_0000,
    ensures
        length_at(prefixed(message).take(4), 0) == message.len(),
        prefixed(message).skip(4) == message,
{
    let p = prefixed(message);
    crate::framing::law_length_reads_back(message.len() as int, Seq::empty(), Seq::empty());
    assert(p.take(4) =~= Seq::<u8>::empty() + length_bytes(message.len() as int)
        + Seq::<u8>::empty());
    assert(p.skip(4) =~= message);
}

// ---- the methods ----

/// The names of the methods, whether each takes a stream, and whether each
/// answers with one.
pub open spec fn method_table() -> Seq<(Seq<char>, bool, bool)> {
    seq![
        ("Unary"@, false, false),
        ("ServerStream"@, false, true),
        ("ClientStream"@, true, false),
        ("BidiStream"@, true, true),
        ("Unimplemented"@, false, false),
        ("IdempotentUnary"@, false, false),
    ]
}

/// Whether a method is that one of the official service.
pub open spec fn is_method(m: MethodSpec, row: (Seq<char>, bool, bool)) -> bool {
    &&& m.service@ == "connectrpc.conformance.v1.ConformanceService"@
    &&& m.name@ == row.0
    &&& m.path@ == method_path("connectrpc.conformance.v1"@, "ConformanceService"@, row.0)
    &&& m.http_method@ == "POST"@
    &&& m.client_stream == row.1
    &&& m.server_stream == row.2
    &&& m.body@ == ""@
}

fn method(name: &str, client_stream: bool, server_stream: bool) -> (m: MethodSpec)
    ensures
        is_method(m, (name@, client_stream, server_stream)),
{
    MethodSpec {
        service: "connectrpc.conformance.v1.ConformanceService".to_owned(),
        name: name.to_owned(),
        path: url_for("connectrpc.conformance.v1", "ConformanceService", name),
        http_method: "POST".to_owned(),
        client_stream,
        server_stream,
        body: "".to_owned(),
    }
}

/// The methods of the service.
pub fn method_specs() -> (r: Vec<MethodSpec>)
    ensures
        r@.len() == 6,
        forall|i: int| 0 <= i < 6 ==> is_method(#[trigger] r@[i], method_table()[i]),
{
    let mut r: Vec<MethodSpec> = Vec::new();
    r.push(method("Unary", false, false));
    r.push(method("ServerStream", false, true));
    r.push(method("ClientStream", true, false));
    r.push(method("BidiStream", true, true));
    r.push(method("Unimplemented", false, false));
    r.push(method("IdempotentUnary", false, false));
    r
}

// ---- laws ----

/// The error that a definition comes to has its code, its message, empty where it
/// has none, and a detail for each packed message, under what stands behind the
/// last slash of its type; what the call was made with comes last, where it is
/// told.
pub proof fn law_defined_errors(e: ErrorDefinition, info: Option<Seq<u8>>, i: int)
    ensures
        ({
            let r = defined_error(e, info);
            let n = e.details@.len();
            &&& r.code == e.code
            &&& e.message is Some ==> r.message == e.message->0@
            &&& e.message is None ==> r.message.len() == 0
            &&& r.details.len() == n + if info is Some {
                1int
            } else {
                0
            }
            &&& 0 <= i < n ==> r.details[i].type_ == after_last(e.details@[i].type_url@, '/')
                && r.details[i].value == e.details@[i].value@
            &&& info is Some ==> r.details[n as int].value == info->0 && r.details[n as int].type_
                == "connectrpc.conformance.v1.ConformancePayload.RequestInfo"@
        }),
{
}

/// One more entry adds its values behind those of its name, and touches no other
/// name; one without values adds nothing, not even its name.
pub proof fn law_entries(m: HeaderView, list: Seq<HeaderEntry>, e: HeaderEntry, k: Seq<char>)
    ensures
        ({
            let before = with_entries(m, list);
            let after = with_entries(m, list.push(e));
            let values = texts(e.value@);
            &&& with_entries(m, Seq::empty()) == m
            &&& values.len() == 0 ==> after == before
            &&& values.len() > 0 ==> {
                &&& after.dom() == before.dom().insert(e.name@)
                &&& after[e.name@] == crate::headers::values_of(before, e.name@) + values
                &&& k != e.name@ && before.dom().contains(k) ==> after[k] == before[k]
            }
        }),
{
    assert(list.push(e).drop_last() =~= list);
    if texts(e.value@).len() > 0 {
        assert(with_entries(m, list.push(e)).dom() =~= with_entries(m, list).dom().insert(e.name@));
    }
}

/// The deadline that is told back is the number in the first value of its header,
/// with white space around it or none; a value that is no number is not told.
pub proof fn law_told_deadline(headers: HeaderView)
    ensures
        ({
            let value = first_of(headers, "connect-timeout-ms"@);
            &&& value is None ==> info_timeout(headers) is None
            &&& value is Some ==> info_timeout(headers) == parsed_signed(
                trimmed(value->0),
                -0x8000_0000_0000_0000,
                0x7fff_ffff_ffff_ffff,
            )
        }),
{
}

/// What a unary call comes to: an error at once, with what the call was made with;
/// data, or nothing, after the delay; and nothing at once where nothing is defined.
pub proof fn law_unary_outcomes(r: UnaryOutcome, def: Option<UnaryDefinition>, info: Seq<u8>)
    requires
        is_unary_outcome(r, def, info),
    ensures
        def is None ==> r.wait_ms == 0 && r.result is Ok && r.result->Ok_0@.len() == 0,
        def is Some && def->0.response is Error ==> r.wait_ms == 0 && r.result is Err
            && r.result->Err_0@ == defined_error(def->0.response->Error_0, Some(info)),
        def is Some && def->0.response is Data ==> r.wait_ms == def->0.response_delay_ms
            && r.result is Ok && r.result->Ok_0@ == def->0.response->Data_0@,
        def is Some && def->0.response is Unset ==> r.wait_ms == def->0.response_delay_ms
            && r.result is Ok && r.result->Ok_0@.len() == 0,
{
}

/// What a stream call comes to: the messages, with the delay before each, and then
/// the error or a clean end. The error tells what the call was made with just where
/// there is no message to tell it.
pub proof fn law_stream_outcomes(r: StreamOutcome, def: Option<StreamDefinition>, info: Seq<u8>)
    requires
        is_stream_outcome(r, def, info),
    ensures
        def is None ==> r.messages@.len() == 0 && r.wait_ms == 0 && r.end is Ok,
        def is Some ==> r.messages@ == def->0.response_data@ && r.wait_ms
            == def->0.response_delay_ms,
        def is Some && def->0.error is None ==> r.end is Ok,
        def is Some && def->0.error is Some && r.messages@.len() == 0 ==> r.end is Err
            && r.end->Err_0@ == defined_error(def->0.error->0, Some(info)),
        def is Some && def->0.error is Some && r.messages@.len() > 0 ==> r.end is Err
            && r.end->Err_0@ == defined_error(def->0.error->0, None),
{
}

/// The headers of a call are told back one entry for each name, with all its
/// values.
pub proof fn law_told_headers(
    entries: Seq<HeaderEntry>,
    names: Seq<Seq<char>>,
    m: HeaderView,
    i: int,
)
    requires
        lists_headers(entries, names, m),
    ensures
        entries.len() == names.len(),
        0 <= i < names.len() ==> entries[i].name@ == names[i] && texts(entries[i].value@)
            == m[names[i]],
{
}

/// The methods go by what they stream: requests where the name says client or bidi,
/// answers where it says server or bidi.
pub proof fn law_methods(m: MethodSpec, i: int)
    requires
        0 <= i < 6,
    ensures
        method_table().len() == 6,
        method_table()[i].0 == seq![
            "Unary"@,
            "ServerStream"@,
            "ClientStream"@,
            "BidiStream"@,
            "Unimplemented"@,
            "IdempotentUnary"@,
        ][i],
        method_table()[i].1 <==> method_table()[i].0 == "ClientStream"@ || method_table()[i].0
            == "BidiStream"@,
        method_table()[i].2 <==> method_table()[i].0 == "ServerStream"@ || method_table()[i].0
            == "BidiStream"@,
        is_method(m, method_table()[i]) ==> {
            &&& m.name@ == method_table()[i].0
            &&& m.service@ == "connectrpc.conformance.v1.ConformanceService"@
            &&& m.path@ == "/"@ + "connectrpc.conformance.v1"@ + "."@ + "ConformanceService"@ + "/"@
                + m.name@
            &&& m.http_method@ == "POST"@
            &&& m.client_stream == method_table()[i].1
            &&& m.server_stream == method_table()[i].2
            &&& m.body@ == ""@
        },
{
    reveal_strlit("Unary");
    reveal_strlit("ServerStream");
    reveal_strlit("ClientStream");
    reveal_strlit("BidiStream");
    reveal_strlit("Unimplemented");
    reveal_strlit("IdempotentUnary");
    assert("ServerStream"@[0] != "ClientStream"@[0]);
    assert("Unary"@.len() == 5 && "ServerStream"@.len() == 12 && "ClientStream"@.len() == 12
        && "BidiStream"@.len() == 10 && "Unimplemented"@.len() == 13 && "IdempotentUnary"@.len()
        == 15);
}

} // verus!
