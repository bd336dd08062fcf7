//! What the clients have in common: the request that is sent, and the reading of
//! a unary response.
use crate::codes::{code_of_status, connect_from_status};
use crate::content::{type_for, ContentKind};
use crate::headers::{values_of, HeaderView, Headers};
use crate::dispatch::{answer, Answer, Refusal};
use crate::message::{body_bytes, plain_error, ErrorView, MethodSpec, RPCError, Response};
use crate::reply::{
    answer_headers, answer_reply, error_reply, failure_reply, typed, EventView,
};
use crate::server::ServerRegistry;
use crate::stream::{
    fed, fresh, law_stream_response_reads_back, run, stream_response, written,
};
use crate::text::{from_utf8_lossy, read_lossy};
use crate::trailers::{
    demux_trailers, demuxed_headers, demuxed_trailers, is_trailer_name, law_trailers_come_apart,
    lemma_prefixed, merged, muxed,
};
use crate::wire_error::{
    body_error, carried_error, decode_error_json, end_payload, error_of,
};
use vstd::prelude::*;

verus! {

/// A request as it is sent.
#[derive(Debug)]
pub struct Outgoing {
    pub method: String,
    pub target: String,
    pub headers: Vec<(String, String)>,
    pub body: Vec<u8>,
}

/// The bytes of a body that may be absent.
pub fn body_or_empty(body: Option<Vec<u8>>) -> (r: Vec<u8>)
    ensures
        r@ == body_bytes(body),
{
    match body {
        Some(b) => b,
        None => Vec::new(),
    }
}

/// The error of a connection, or of anything else that goes wrong below the
/// protocol.
pub fn err_box(e: String) -> (r: RPCError)
    ensures
        r@ == plain_error(13, e@),
{
    RPCError::new(13, &e)
}

/// Whether a status tells of a failure.
pub open spec fn is_failure(status: int) -> bool {
    status >= 300
}

/// The error of a failed response whose body is no error body: the code goes by
/// the status, and the message is the body.
pub open spec fn bare_error(status: int, body: Seq<u8>) -> ErrorView {
    plain_error(code_of_status(status), read_lossy(body))
}

/// The error that the body of a failed response carries, else the bare one.
pub open spec fn error_in_body(status: int, body: Seq<u8>) -> ErrorView {
    if body_error(body).code != 0 {
        body_error(body)
    } else {
        bare_error(status, body)
    }
}

/// Makes the error of a failed response from what was decoded from its body.
pub fn error_or_bare(
    status: u16,
    body: &[u8],
    decoded: (i32, String, Vec<crate::message::ErrorDetail>),
) -> (e: RPCError)
    ensures
        decoded.0 != 0 ==> e@ == error_of(decoded.0 as int, decoded.1@, decoded.2@),
        decoded.0 == 0 ==> e@ == bare_error(status as int, body@),
{
    let (code, message, details) = decoded;
    if code != 0 {
        RPCError { code, message, details }
    } else {
        RPCError::new(connect_from_status(status), &from_utf8_lossy(body))
    }
}

/// Reads the error of a failed response from its body.
pub fn read_error(status: u16, body: &[u8]) -> (e: RPCError)
    ensures
        e@ == error_in_body(status as int, body@),
{
    error_or_bare(status, body, decode_error_json(body))
}

/// Puts a unary response together. Trailers that came among the headers are
/// parted from them.
pub fn new_response(status: u16, received: &Headers, body: Vec<u8>, error: Option<RPCError>) -> (r:
    Response)
    ensures
        r.status == status,
        r.headers@ == demuxed_headers(received@),
        r.trailers@ == demuxed_trailers(received@),
        r.body == body,
        r.error == error,
{
    let (headers, trailers) = demux_trailers(received);
    Response { status, headers, body, trailers, error }
}

/// The error that a stream which could not be opened comes to.
pub open spec fn stream_refusal(status: int) -> Option<ErrorView> {
    if is_failure(status) {
        Some(plain_error(code_of_status(status), "http error"@))
    } else {
        None
    }
}

/// Tells from the status of its response whether a stream is open; the error
/// where it is not.
pub fn check_stream_status(status: u16) -> (r: Result<(), RPCError>)
    ensures
        match r {
            Ok(_) => stream_refusal(status as int) is None,
            Err(e) => stream_refusal(status as int) == Some(e@),
        },
{
    if status >= 300 {
        Err(RPCError::new(connect_from_status(status), "http error"))
    } else {
        Ok(())
    }
}

/// The status of a response.
pub open spec fn status_in(events: Seq<EventView>) -> int {
    events[0]->Status_0
}

/// The headers of a response.
pub open spec fn headers_in(events: Seq<EventView>) -> HeaderView {
    events[1]->Header_0
}

/// The body of a response that is one body.
pub open spec fn body_in(events: Seq<EventView>) -> Seq<u8> {
    events[2]->Frame_0
}

/// An error that a server answers with is the error that a client reads from the
/// response, as far as it survives the wire; whatever the status, as long as it
/// tells of a failure. What is asked of the body is what is ensured of it when it
/// is written.
pub proof fn law_error_reply_reads_back(e: ErrorView, status: int)
    requires
        e.code != 0,
        is_failure(status),
        body_error(body_in(error_reply(e, status))) == carried_error(e),
    ensures
        status_in(error_reply(e, status)) == status,
        error_in_body(status, body_in(error_reply(e, status))) == carried_error(e),
{
}

/// An error that a handler fails with is the error that a client reads from the
/// response, as far as it survives the wire.
pub proof fn law_failure_reads_back(e: ErrorView, response: HeaderView, trailing: HeaderView)
    requires
        e.code != 0,
        body_error(body_in(failure_reply(e, response, trailing))) == carried_error(e),
    ensures
        ({
            let events = failure_reply(e, response, trailing);
            &&& is_failure(status_in(events))
            &&& error_in_body(status_in(events), body_in(events)) == carried_error(e)
        }),
{
    crate::codes::law_statuses_are_failures(e.code);
}

/// The trailers that a handler sets reach the client with the answer, and no
/// error does, where the headers that it sets bear no name of a trailer.
pub proof fn law_answer_reads_back(
    body: Seq<u8>,
    compressed: bool,
    kind: ContentKind,
    response: HeaderView,
    trailing: HeaderView,
)
    requires
        forall|k: Seq<char>| response.dom().contains(k) ==> !is_trailer_name(k),
    ensures
        ({
            let events = answer_reply(body, compressed, kind, response, trailing);
            &&& !is_failure(status_in(events))
            &&& body_in(events) == body
            &&& demuxed_trailers(headers_in(events)) == trailing
            &&& demuxed_headers(headers_in(events))["content-type"@] == seq![type_for(false, kind)]
        }),
{
    let base = if compressed {
        map!["content-encoding"@ => seq![crate::gzip::ENCODING_GZIP@]]
    } else {
        Map::empty()
    };
    lemma_not_trailers();
    let all = muxed(base, trailing);
    let h = answer_headers(compressed, kind, response, trailing);
    law_trailers_come_apart(base, trailing);
    let got = demuxed_trailers(h);
    let want = demuxed_trailers(all);
    assert forall|k: Seq<char>|
        (#[trigger] got.dom().contains(k) <==> want.dom().contains(k)) by {
        lemma_prefixed(k);
        assert(!response.dom().contains("trailer-"@ + k));
    }
    assert forall|k: Seq<char>| #[trigger] got.dom().contains(k) implies got[k] == want[k] by {
        lemma_prefixed(k);
        let p = "trailer-"@ + k;
        assert(!response.dom().contains(p));
        assert(values_of(all, p) + values_of(response, p) =~= values_of(all, p));
    }
    assert(got =~= want);
}

proof fn lemma_not_trailers()
    ensures
        !is_trailer_name("content-type"@),
        !is_trailer_name("content-encoding"@),
{
    reveal_strlit("trailer-");
    reveal_strlit("content-type");
    reveal_strlit("content-encoding");
    assert("trailer-"@[0] != "content-type"@.subrange(0, 8)[0]);
    assert("trailer-"@[0] != "content-encoding"@.subrange(0, 8)[0]);
}

/// The trailers that a handler sets reach the client with its error, where the
/// headers that it sets bear no name of a trailer.
pub proof fn law_failure_keeps_trailers(e: ErrorView, response: HeaderView, trailing: HeaderView)
    requires
        forall|k: Seq<char>| response.dom().contains(k) ==> !is_trailer_name(k),
    ensures
        demuxed_trailers(headers_in(failure_reply(e, response, trailing))) == trailing,
        demuxed_headers(headers_in(failure_reply(e, response, trailing))) == merged(
            typed("application/json"@),
            response,
        ),
{
    lemma_not_trailers();
    law_trailers_come_apart(merged(typed("application/json"@), response), trailing);
}

/// What a refused request is answered is what its client reads: from the body of
/// the response where the status tells of a failure, from the frame that ends the
/// stream where the request was for one. No message comes before that frame. What
/// is asked of the refusal, that it reads back, is what is ensured of it when the
/// request is refused.
pub proof fn law_refused_request_reads_back(
    url: Seq<char>,
    headers: HeaderView,
    body: Seq<u8>,
    methods: Seq<MethodSpec>,
    reg: ServerRegistry,
    f: Refusal,
)
    requires
        answer(url, headers, body, methods, reg) == Answer::Refused(f),
        f.reads_back(),
        f is Stream ==> end_payload(f.error(), Map::empty()).len() < 0x1_0000_0000,
    ensures
        match f {
            Refusal::Unary(e, status) => {
                &&& status_in(f.events()) == status
                &&& is_failure(status)
                &&& error_in_body(status, body_in(f.events())) == carried_error(e)
            },
            Refusal::Stream(e, _) => {
                let r = run(fed(fresh(), written(f.events())));
                &&& stream_refusal(status_in(f.events())) is None
                &&& r.messages == Seq::<Seq<u8>>::empty()
                &&& r.stop is Done
                &&& r.rest.ended
                &&& r.rest.err == Some(carried_error(e))
            },
        },
{
    crate::dispatch::law_refusals_are_errors(url, headers, body, methods, reg);
    match f {
        Refusal::Unary(e, status) => {
            law_error_reply_reads_back(e, status);
        },
        Refusal::Stream(e, kind) => {
            let none = Seq::<Seq<u8>>::empty();
            let h = typed(type_for(true, kind));
            law_stream_response_reads_back(h, none, none, e, Map::empty());
            assert(f.events() =~= stream_response(h, none, e, Map::empty()));
        },
    }
}

/// A stream is open just where the status of its response is below 300; where it is
/// not, the error has the code that the status stands for, whatever the status.
pub proof fn law_stream_status(status: int)
    ensures
        status < 300 ==> stream_refusal(status) is None,
        status >= 300 ==> stream_refusal(status) == Some(
            ErrorView {
                code: code_of_status(status),
                message: "http error"@,
                details: Seq::empty(),
            },
        ),
        is_failure(status) <==> status >= 300,
{
}

/// The error of a failed response is the one that its body carries, all of it; where
/// the body carries none, it has the code that the status stands for, the body as
/// its message and no details.
pub proof fn law_error_of_failed_response(status: int, body: Seq<u8>)
    ensures
        body_error(body).code != 0 ==> error_in_body(status, body) == body_error(body),
        body_error(body).code == 0 ==> error_in_body(status, body) == (ErrorView {
            code: code_of_status(status),
            message: read_lossy(body),
            details: Seq::empty(),
        }),
        bare_error(status, body) == (ErrorView {
            code: code_of_status(status),
            message: read_lossy(body),
            details: Seq::empty(),
        }),
{
}

/// Every header that a handler has set reaches the client with the answer, or with
/// the error, with all its values, where it bears no name of a trailer and is none
/// of the two that the server writes itself.
pub proof fn law_headers_reach_client(
    body: Seq<u8>,
    compressed: bool,
    kind: ContentKind,
    e: ErrorView,
    response: HeaderView,
    trailing: HeaderView,
    k: Seq<char>,
)
    requires
        response.dom().contains(k),
        !is_trailer_name(k),
        k != "content-type"@,
        k != "content-encoding"@,
    ensures
        ({
            let got = demuxed_headers(
                headers_in(answer_reply(body, compressed, kind, response, trailing)),
            );
            got.dom().contains(k) && got[k] == response[k]
        }),
        ({
            let got = demuxed_headers(headers_in(failure_reply(e, response, trailing)));
            got.dom().contains(k) && got[k] == response[k]
        }),
{
    crate::reply::law_answer_headers(body, compressed, kind, response, trailing, k);
    crate::reply::law_failure_headers(e, response, trailing, k);
}

} // verus!
