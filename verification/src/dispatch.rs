//! Dispatch: what becomes of a request. It is refused with a response, or it is
//! handed to the handler of its method.
use crate::content::{content_kind_of, is_stream_content_type, is_stream_type, kind_of, ContentKind};
use crate::context::HandlerContext;
use crate::codes::status_of_code;
use crate::framing::{
    frame_payload, has_frame, is_compressed, length_at, read_frame, read_length,
    DEFAULT_MAX_MESSAGE_BYTES,
};
use crate::gzip::{
    bytes_view, corrupt_gzip, gunzip, gunzipped, ENCODING_GZIP, HEADER_ACCEPT_ENCODING,
};
use crate::headers::{first_of, values_of, HeaderView, Headers};
use crate::json::json_text;
use crate::message::{body_bytes, plain_error, ErrorView, MethodSpec, RPCError, Request};
use crate::reply::{
    error_reply, stream_fail_kind, stream_failure, unary_reply, write_error, write_error_status,
    EventView, OutcomeView, ResponseRecord,
};
use crate::server::{find_method, is_listed, method_for, ServerRegistry};
use crate::text::{
    before_first, cut_before_first, joined, lower_case, parts, same_text, split, texts, to_lowercase,
    trim, trimmed,
};
use crate::stream::concatenated;
use crate::wire_error::{
    body_error, carried_end, carried_error, end_error, end_metadata, end_payload, error_tree,
    text_or_empty,
};
use vstd::prelude::*;

pub use crate::context::RequestContext;
pub use crate::reply::ResponseWriter;

verus! {

/// The header that names the version of the protocol.
pub const HEADER_PROTOCOL_VERSION: &'static str = "connect-protocol-version";

/// The version that is spoken here.
pub const CONNECT_PROTOCOL_VERSION: &'static str = "1";

// ---- counting frames ----

/// The number of frames in `body` from `off` on. An error where the body ends
/// inside the head of a frame, or a frame announces more than the limit. The
/// payload of the last frame need not be all there.
pub open spec fn frames_from(body: Seq<u8>, off: int) -> Result<int, ErrorView>
    decreases
            if off < body.len() {
                body.len() - off
            } else {
                0
            },
{
    if off < 0 || off >= body.len() {
        Ok(0)
    } else if off + 5 > body.len() {
        Err(plain_error(13, "truncated frame header"@))
    } else if length_at(body, off + 1) > DEFAULT_MAX_MESSAGE_BYTES {
        Err(plain_error(8, "frame too large"@))
    } else {
        match frames_from(body, off + 5 + length_at(body, off + 1)) {
            Ok(n) => Ok(n + 1),
            Err(e) => Err(e),
        }
    }
}

/// Counts the frames in a body.
pub fn count_frames(body: &[u8]) -> (r: Result<usize, RPCError>)
    ensures
        match r {
            Ok(n) => frames_from(body@, 0) == Ok::<int, ErrorView>(n as int),
            Err(e) => frames_from(body@, 0) == Err::<int, ErrorView>(e@),
        },
{
    let mut off: usize = 0;
    let mut n: usize = 0;
    while off < body.len()
        invariant
            n <= off,
            frames_from(body@, 0) == match frames_from(body@, off as int) {
                Ok(k) => Ok::<int, ErrorView>(n + k),
                Err(e) => Err(e),
            },
        decreases body@.len() - off,
    {
        if body.len() - off < 5 {
            return Err(RPCError::new(13, "truncated frame header"));
        }
        let len = read_length(body, off + 1) as usize;
        if len > DEFAULT_MAX_MESSAGE_BYTES {
            return Err(RPCError::new(8, "frame too large"));
        }
        assert(off + 5 + len >= body@.len() ==> frames_from(body@, off + 5 + len) == Ok::<
            int,
            ErrorView,
        >(0));
        if body.len() - off - 5 <= len {
            return Ok(n + 1);
        }
        off += 5 + len;
        n += 1;
    }
    Ok(n)
}

// ---- what is read off the headers ----

/// The first value of a header, empty where there is none.
pub open spec fn header_or_empty(headers: HeaderView, name: Seq<char>) -> Seq<char> {
    text_or_empty(first_of(headers, name))
}

fn header_text(headers: &Headers, name: &str) -> (r: String)
    ensures
        r@ == header_or_empty(headers@, name@),
{
    match headers.first(name) {
        Some(v) => v.clone(),
        None => String::new(),
    }
}

/// The compression that a header names.
pub open spec fn encoding_in(headers: HeaderView, name: Seq<char>) -> Seq<char> {
    lower_case(trimmed(header_or_empty(headers, name)))
}

fn encoding_of(headers: &Headers, name: &str) -> (r: String)
    ensures
        r@ == encoding_in(headers@, name@),
{
    to_lowercase(&trim(&header_text(headers, name)))
}

/// Whether a list of encodings, parted by commas, has gzip in it.
pub open spec fn names_gzip(value: Seq<char>) -> bool {
    exists|i: int|
        0 <= i < parts(value, ',').len() && trimmed(#[trigger] parts(value, ',')[i])
            == ENCODING_GZIP@
}

/// Whether the client says that it can read gzip.
pub open spec fn accepts_gzip(headers: HeaderView) -> bool {
    exists|i: int|
        0 <= i < values_of(headers, HEADER_ACCEPT_ENCODING@).len() && names_gzip(
            #[trigger] values_of(headers, HEADER_ACCEPT_ENCODING@)[i],
        )
}

fn has_gzip(value: &str) -> (r: bool)
    ensures
        r == names_gzip(value@),
{
    let list = split(value, ',');
    let ghost all = parts(value@, ',');
    let mut i: usize = 0;
    while i < list.len()
        invariant
            i <= list@.len(),
            texts(list@) == all,
            all == parts(value@, ','),
            forall|j: int| 0 <= j < i ==> trimmed(#[trigger] all[j]) != ENCODING_GZIP@,
        decreases list@.len() - i,
    {
        assert(all[i as int] == list@[i as int]@);
        if same_text(&trim(&list[i]), ENCODING_GZIP) {
            assert(trimmed(parts(value@, ',')[i as int]) == ENCODING_GZIP@);
            return true;
        }
        i += 1;
    }
    false
}

/// Tests whether the client can read gzip.
pub fn wants_gzip(headers: &Headers) -> (r: bool)
    ensures
        r == accepts_gzip(headers@),
{
    match headers.get(HEADER_ACCEPT_ENCODING) {
        None => false,
        Some(vs) => {
            let ghost all = values_of(headers@, HEADER_ACCEPT_ENCODING@);
            let mut i: usize = 0;
            while i < vs.len()
                invariant
                    i <= vs@.len(),
                    texts(vs@) == all,
                    all == values_of(headers@, HEADER_ACCEPT_ENCODING@),
                    forall|j: int| 0 <= j < i ==> !names_gzip(#[trigger] all[j]),
                decreases vs@.len() - i,
            {
                assert(all[i as int] == vs@[i as int]@);
                if has_gzip(&vs[i]) {
                    assert(names_gzip(
                        values_of(headers@, HEADER_ACCEPT_ENCODING@)[i as int],
                    ));
                    return true;
                }
                i += 1;
            }
            false
        },
    }
}

// ---- the verdict on a request ----

/// A call that is handed to the handler of a method.
#[derive(Debug)]
pub struct Call {
    pub name: String,
    pub server_stream: bool,
    pub body: Vec<u8>,
    pub context: HandlerContext,
    pub wants_gzip: bool,
}

/// A call as plain values.
pub struct CallView {
    pub name: Seq<char>,
    pub server_stream: bool,
    pub body: Seq<u8>,
    pub kind: ContentKind,
    pub headers: HeaderView,
    pub wants_gzip: bool,
}

impl View for Call {
    type V = CallView;

    open spec fn view(&self) -> CallView {
        CallView {
            name: self.name@,
            server_stream: self.server_stream,
            body: self.body@,
            kind: self.context.kind,
            headers: self.context.headers@,
            wants_gzip: self.wants_gzip,
        }
    }
}

/// A call whose message may still be compressed.
#[derive(Debug)]
pub struct Admitted {
    pub call: Call,
    pub compressed: bool,
}

/// Why and how a request is refused: with a status and an error body, or on the
/// end of a stream.
pub enum Refusal {
    Unary(ErrorView, int),
    Stream(ErrorView, ContentKind),
}

impl Refusal {
    /// The error that the client is to be told.
    pub open spec fn error(self) -> ErrorView {
        match self {
            Refusal::Unary(e, _) => e,
            Refusal::Stream(e, _) => e,
        }
    }

    /// What is written in response.
    pub open spec fn events(self) -> Seq<EventView> {
        match self {
            Refusal::Unary(e, status) => error_reply(e, status),
            Refusal::Stream(e, kind) => stream_failure(e, kind),
        }
    }

    /// Whether a client decodes the error, as far as it survives the wire, from
    /// the bytes that are written.
    pub open spec fn reads_back(self) -> bool {
        match self {
            Refusal::Unary(e, _) => body_error(json_text(error_tree(e))) == carried_error(e),
            Refusal::Stream(e, _) => {
                let payload = end_payload(e, Map::empty());
                &&& end_error(payload) == carried_end(e)
                &&& end_metadata(payload) == Map::<Seq<char>, Seq<Seq<char>>>::empty()
            },
        }
    }
}

/// What becomes of a request before its message is decompressed.
pub enum Verdict {
    Refused(Refusal),
    Admitted(CallView, bool),
}

/// What becomes of a request.
pub enum Answer {
    Refused(Refusal),
    Handed(CallView),
}

/// Why a request is refused, whatever method it is for: another version of the
/// protocol, another verb than `POST`, or too large a body. With the status.
pub open spec fn early_refusal(headers: HeaderView, size: int) -> Option<(ErrorView, int)> {
    let version = header_or_empty(headers, HEADER_PROTOCOL_VERSION@);
    let verb = header_or_empty(headers, ":method"@);
    if version.len() > 0 && version != CONNECT_PROTOCOL_VERSION@ {
        Some(
            (
                plain_error(12, "unsupported connect-protocol-version: "@ + version),
                status_of_code(12),
            ),
        )
    } else if verb.len() > 0 && verb != "POST"@ {
        Some((plain_error(2, "method "@ + verb + " not allowed"@), 405))
    } else if size > DEFAULT_MAX_MESSAGE_BYTES {
        Some((plain_error(8, "request too large"@), status_of_code(8)))
    } else {
        None
    }
}

/// The verdict on a call of a stream method: it is refused where the method has
/// no handler, where the compression is not known, or where the body is not one
/// frame. Every refusal rides on the end of the stream.
pub open spec fn stream_verdict(
    name: Seq<char>,
    kind: ContentKind,
    headers: HeaderView,
    body: Seq<u8>,
    handled: bool,
) -> Verdict {
    let encoding = encoding_in(headers, "connect-content-encoding"@);
    if !handled {
        Verdict::Refused(Refusal::Stream(plain_error(12, "no handler"@), kind))
    } else if encoding.len() > 0 && encoding != "identity"@ && encoding != ENCODING_GZIP@ {
        Verdict::Refused(
            Refusal::Stream(plain_error(12, "unsupported content-encoding: "@ + encoding), kind),
        )
    } else {
        match frames_from(body, 0) {
            Err(e) => Verdict::Refused(Refusal::Stream(e, kind)),
            Ok(n) => if n == 0 {
                Verdict::Refused(Refusal::Stream(plain_error(12, "missing request message"@), kind))
            } else if n != 1 {
                Verdict::Refused(
                    Refusal::Stream(
                        plain_error(12, "server-stream request must contain exactly one message"@),
                        kind,
                    ),
                )
            } else if !has_frame(body) {
                Verdict::Refused(
                    Refusal::Stream(plain_error(13, "stream request: truncated frame"@), kind),
                )
            } else {
                Verdict::Admitted(
                    CallView {
                        name,
                        server_stream: true,
                        body: frame_payload(body),
                        kind,
                        headers,
                        wants_gzip: accepts_gzip(headers),
                    },
                    is_compressed(body[0]),
                )
            },
        }
    }
}

/// The verdict on a call of a unary method: it is refused where the method has no
/// handler, or where the compression is not known.
pub open spec fn unary_verdict(
    name: Seq<char>,
    kind: ContentKind,
    headers: HeaderView,
    body: Seq<u8>,
    handled: bool,
) -> Verdict {
    let encoding = encoding_in(headers, "content-encoding"@);
    if !handled {
        Verdict::Refused(Refusal::Unary(plain_error(5, "method not found"@), status_of_code(5)))
    } else if encoding.len() > 0 && encoding != ENCODING_GZIP@ {
        Verdict::Refused(
            Refusal::Unary(
                plain_error(12, "unsupported content-encoding: "@ + encoding),
                status_of_code(12),
            ),
        )
    } else {
        Verdict::Admitted(
            CallView {
                name,
                server_stream: false,
                body,
                kind,
                headers,
                wants_gzip: accepts_gzip(headers),
            },
            encoding == ENCODING_GZIP@ && body.len() > 0,
        )
    }
}

/// The verdict on a request: the reasons to refuse it are looked for in this
/// order, and the first that holds decides.
pub open spec fn verdict(
    url: Seq<char>,
    headers: HeaderView,
    body: Seq<u8>,
    methods: Seq<MethodSpec>,
    reg: ServerRegistry,
) -> Verdict {
    let content_type = header_or_empty(headers, "content-type"@);
    match early_refusal(headers, body.len() as int) {
        Some((e, status)) => Verdict::Refused(Refusal::Unary(e, status)),
        None => match method_for(methods, before_first(url, '?')) {
            None => Verdict::Refused(Refusal::Unary(plain_error(12, "unimplemented"@), 404)),
            Some(m) => match kind_of(content_type) {
                Some(kind) => if is_stream_type(content_type) != m.server_stream {
                    Verdict::Refused(
                        Refusal::Unary(
                            plain_error(2, "unsupported content-type: "@ + content_type),
                            415,
                        ),
                    )
                } else if m.server_stream {
                    stream_verdict(m.name@, kind, headers, body, is_listed(reg.stream@, m.name@))
                } else {
                    unary_verdict(m.name@, kind, headers, body, is_listed(reg.unary@, m.name@))
                },
                None => Verdict::Refused(
                    Refusal::Unary(plain_error(2, "unsupported content-type: "@ + content_type), 415),
                ),
            },
        },
    }
}

/// What becomes of a request once its message is decompressed. Data that claims
/// to be compressed and is not is refused.
pub open spec fn settled(v: Verdict, plain: Option<Seq<u8>>) -> Answer {
    match v {
        Verdict::Refused(f) => Answer::Refused(f),
        Verdict::Admitted(call, compressed) => if !compressed {
            Answer::Handed(call)
        } else {
            match plain {
                Some(body) => Answer::Handed(CallView { body, ..call }),
                None => Answer::Refused(
                    if call.server_stream {
                        Refusal::Stream(corrupt_gzip(), call.kind)
                    } else {
                        Refusal::Unary(corrupt_gzip(), status_of_code(13))
                    },
                ),
            }
        },
    }
}

/// What becomes of a request.
pub open spec fn answer(
    url: Seq<char>,
    headers: HeaderView,
    body: Seq<u8>,
    methods: Seq<MethodSpec>,
    reg: ServerRegistry,
) -> Answer {
    let v = verdict(url, headers, body, methods, reg);
    match v {
        Verdict::Admitted(call, true) => settled(v, gunzipped(call.body)),
        _ => settled(v, None),
    }
}

/// Whether nothing is set on the response yet.
pub open spec fn is_fresh(context: HandlerContext) -> bool {
    &&& context.response@ == Map::<Seq<char>, Seq<Seq<char>>>::empty()
    &&& context.trailing@ == Map::<Seq<char>, Seq<Seq<char>>>::empty()
}

fn refuse_early(w: &mut ResponseRecord, headers: &Headers, size: usize) -> (refused: bool)
    ensures
        match early_refusal(headers@, size as int) {
            Some((e, status)) => {
                let f = Refusal::Unary(e, status);
                refused && final(w)@ == old(w)@ + f.events() && f.reads_back()
            },
            None => !refused && final(w)@ == old(w)@,
        },
{
    let version = header_text(headers, HEADER_PROTOCOL_VERSION);
    if !version.as_str().is_empty() && !same_text(&version, CONNECT_PROTOCOL_VERSION) {
        let message = joined("unsupported connect-protocol-version: ", &version);
        write_error(w, &RPCError::new(12, &message));
        return true;
    }
    let verb = header_text(headers, ":method");
    if !verb.as_str().is_empty() && !same_text(&verb, "POST") {
        let message = joined(&joined("method ", &verb), " not allowed");
        write_error_status(w, &RPCError::new(2, &message), 405);
        return true;
    }
    if size > DEFAULT_MAX_MESSAGE_BYTES {
        write_error(w, &RPCError::new(8, "request too large"));
        return true;
    }
    false
}

fn new_call(
    name: &str,
    server_stream: bool,
    body: Vec<u8>,
    kind: ContentKind,
    headers: &Headers,
) -> (call: Call)
    ensures
        call@ == (CallView {
            name: name@,
            server_stream,
            body: body@,
            kind,
            headers: headers@,
            wants_gzip: accepts_gzip(headers@),
        }),
        is_fresh(call.context),
{
    let mut context = HandlerContext::new(headers.clone());
    context.kind = kind;
    Call { name: name.to_owned(), server_stream, body, context, wants_gzip: wants_gzip(headers) }
}

/// Whether what was returned and written is the verdict.
pub open spec fn follows_verdict(
    v: Verdict,
    r: Option<Admitted>,
    before: Seq<EventView>,
    after: Seq<EventView>,
) -> bool {
    match v {
        Verdict::Refused(f) => r is None && after == before + f.events() && f.reads_back(),
        Verdict::Admitted(call, compressed) => {
            &&& r is Some
            &&& r->0.call@ == call
            &&& r->0.compressed == compressed
            &&& is_fresh(r->0.call.context)
            &&& after == before
        },
    }
}

fn examine_stream(
    w: &mut ResponseRecord,
    name: &str,
    kind: ContentKind,
    headers: &Headers,
    body: &Vec<u8>,
    handled: bool,
) -> (r: Option<Admitted>)
    ensures
        follows_verdict(
            stream_verdict(name@, kind, headers@, body@, handled),
            r,
            old(w)@,
            final(w)@,
        ),
{
    if !handled {
        stream_fail_kind(w, &RPCError::new(12, "no handler"), kind);
        return None;
    }
    let encoding = encoding_of(headers, "connect-content-encoding");
    if !encoding.as_str().is_empty() && !same_text(&encoding, "identity") && !same_text(
        &encoding,
        ENCODING_GZIP,
    ) {
        let message = joined("unsupported content-encoding: ", &encoding);
        stream_fail_kind(w, &RPCError::new(12, &message), kind);
        return None;
    }
    match count_frames(body) {
        Err(e) => {
            stream_fail_kind(w, &e, kind);
            return None;
        },
        Ok(n) => {
            if n != 1 {
                let message = if n == 0 {
                    "missing request message"
                } else {
                    "server-stream request must contain exactly one message"
                };
                stream_fail_kind(w, &RPCError::new(12, message), kind);
                return None;
            }
        },
    }
    assert(length_at(body@, 1) <= DEFAULT_MAX_MESSAGE_BYTES);
    match read_frame(body) {
        Some((payload, _, _)) => Some(
            Admitted {
                call: new_call(name, true, payload, kind, headers),
                compressed: body[0] % 2 == 1,
            },
        ),
        None => {
            stream_fail_kind(w, &RPCError::new(13, "stream request: truncated frame"), kind);
            None
        },
    }
}

fn examine_unary(
    w: &mut ResponseRecord,
    name: &str,
    kind: ContentKind,
    headers: &Headers,
    body: Vec<u8>,
    handled: bool,
) -> (r: Option<Admitted>)
    ensures
        follows_verdict(
            unary_verdict(name@, kind, headers@, body@, handled),
            r,
            old(w)@,
            final(w)@,
        ),
{
    if !handled {
        write_error(w, &RPCError::new(5, "method not found"));
        return None;
    }
    let encoding = encoding_of(headers, "content-encoding");
    if !encoding.as_str().is_empty() && !same_text(&encoding, ENCODING_GZIP) {
        let message = joined("unsupported content-encoding: ", &encoding);
        write_error(w, &RPCError::new(12, &message));
        return None;
    }
    let compressed = same_text(&encoding, ENCODING_GZIP) && body.len() > 0;
    Some(Admitted { call: new_call(name, false, body, kind, headers), compressed })
}

/// Decides on a request, up to the compression of its message. A request that is
/// refused is answered in `w`, and a client decodes the reason from the answer.
pub fn examine(
    w: &mut ResponseRecord,
    req: &Request,
    methods: &[MethodSpec],
    reg: &ServerRegistry,
) -> (r: Option<Admitted>)
    ensures
        follows_verdict(
            verdict(req.url@, req.headers@, body_bytes(req.body), methods@, *reg),
            r,
            old(w)@,
            final(w)@,
        ),
{
    let body: Vec<u8> = match &req.body {
        Some(b) => vstd::slice::slice_to_vec(b),
        None => Vec::new(),
    };
    assert(body@ == body_bytes(req.body));
    if refuse_early(w, &req.headers, body.len()) {
        return None;
    }
    let path = cut_before_first(&req.url, '?');
    let method = match find_method(methods, &path) {
        Some(m) => m,
        None => {
            write_error_status(w, &RPCError::new(12, "unimplemented"), 404);
            return None;
        },
    };
    let content_type = header_text(&req.headers, "content-type");
    let stream_shape = is_stream_content_type(&content_type);
    match content_kind_of(&content_type) {
        Some(kind) => {
            if stream_shape == method.server_stream {
                return if method.server_stream {
                    let handled = reg.has_stream(&method.name);
                    examine_stream(w, &method.name, kind, &req.headers, &body, handled)
                } else {
                    let handled = reg.has_unary(&method.name);
                    examine_unary(w, &method.name, kind, &req.headers, body, handled)
                };
            }
        },
        None => {},
    }
    let message = joined("unsupported content-type: ", &content_type);
    write_error_status(w, &RPCError::new(2, &message), 415);
    None
}

/// Whether what was returned and written is the answer.
pub open spec fn follows_answer(
    a: Answer,
    r: Option<Call>,
    before: Seq<EventView>,
    after: Seq<EventView>,
) -> bool {
    match a {
        Answer::Refused(f) => r is None && after == before + f.events() && f.reads_back(),
        Answer::Handed(call) => {
            &&& r is Some
            &&& r->0@ == call
            &&& is_fresh(r->0.context)
            &&& after == before
        },
    }
}

/// Finishes an admitted call with what its message was decompressed to; `plain`
/// is not looked at where the message is not compressed. A message that could not
/// be decompressed is refused in `w`.
pub fn unpack(w: &mut ResponseRecord, admitted: Admitted, plain: Option<Vec<u8>>) -> (r: Option<
    Call,
>)
    ensures
        match settled(Verdict::Admitted(admitted.call@, admitted.compressed), bytes_view(plain)) {
            Answer::Refused(f) => r is None && final(w)@ == old(w)@ + f.events() && f.reads_back(),
            Answer::Handed(call) => {
                &&& r is Some
                &&& r->0@ == call
                &&& r->0.context == admitted.call.context
                &&& final(w)@ == old(w)@
            },
        },
{
    let Admitted { call, compressed } = admitted;
    if !compressed {
        return Some(call);
    }
    match plain {
        Some(body) => Some(
            Call {
                name: call.name,
                server_stream: call.server_stream,
                body,
                context: call.context,
                wants_gzip: call.wants_gzip,
            },
        ),
        None => {
            let e = RPCError::new(13, "corrupt gzip data");
            if call.server_stream {
                stream_fail_kind(w, &e, call.context.kind);
            } else {
                write_error(w, &e);
            }
            None
        },
    }
}

/// Decides on a request: the call that its handler is to be given, or none where
/// it is refused, and then it is answered in `w`, and a client decodes the reason
/// from the answer.
pub fn plan(
    w: &mut ResponseRecord,
    req: &Request,
    methods: &[MethodSpec],
    reg: &ServerRegistry,
) -> (r: Option<Call>)
    ensures
        follows_answer(
            answer(req.url@, req.headers@, body_bytes(req.body), methods@, *reg),
            r,
            old(w)@,
            final(w)@,
        ),
{
    match examine(w, req, methods, reg) {
        None => None,
        Some(admitted) => {
            let plain = if admitted.compressed {
                gunzip(&admitted.call.body)
            } else {
                None
            };
            unpack(w, admitted, plain)
        },
    }
}

// ---- laws ----

/// Whether a response is whole: a final HTTP status, then headers, then one body or
/// frame.
pub open spec fn is_whole(events: Seq<EventView>) -> bool {
    &&& events.len() == 3
    &&& events[0] is Status
    &&& 200 <= events[0]->Status_0 < 600
    &&& events[1] is Header
    &&& events[2] is Frame
}

/// A request that is refused is answered with a whole response, whatever the
/// reason.
pub proof fn law_refusals_are_whole(
    url: Seq<char>,
    headers: HeaderView,
    body: Seq<u8>,
    methods: Seq<MethodSpec>,
    reg: ServerRegistry,
)
    ensures
        match answer(url, headers, body, methods, reg) {
            Answer::Refused(f) => is_whole(f.events()),
            Answer::Handed(_) => true,
        },
{
    crate::codes::law_statuses_are_failures(5);
    crate::codes::law_statuses_are_failures(8);
    crate::codes::law_statuses_are_failures(12);
    crate::codes::law_statuses_are_failures(13);
}

proof fn lemma_frame_errors(body: Seq<u8>, off: int)
    ensures
        match frames_from(body, off) {
            Ok(_) => true,
            Err(e) => e.code == 13 || e.code == 8,
        },
    decreases
            if off < body.len() {
                body.len() - off
            } else {
                0
            },
{
    if 0 <= off && off + 5 <= body.len() && length_at(body, off + 1) <= DEFAULT_MAX_MESSAGE_BYTES {
        lemma_frame_errors(body, off + 5 + length_at(body, off + 1));
    }
}

/// A request is refused with an error, never with the code of success; and where
/// the status is to tell of it, it does.
pub proof fn law_refusals_are_errors(
    url: Seq<char>,
    headers: HeaderView,
    body: Seq<u8>,
    methods: Seq<MethodSpec>,
    reg: ServerRegistry,
)
    ensures
        match answer(url, headers, body, methods, reg) {
            Answer::Refused(f) => {
                &&& 0 < f.error().code <= 16
                &&& match f {
                    Refusal::Unary(_, status) => 400 <= status < 600,
                    Refusal::Stream(_, _) => true,
                }
            },
            Answer::Handed(_) => true,
        },
{
    lemma_frame_errors(body, 0);
    crate::codes::law_statuses_are_failures(5);
    crate::codes::law_statuses_are_failures(8);
    crate::codes::law_statuses_are_failures(12);
    crate::codes::law_statuses_are_failures(13);
}

/// A unary call that is handled is answered with a whole response, whatever its
/// handler comes to.
pub proof fn law_unary_replies_are_whole(
    outcome: OutcomeView,
    wants_gzip: bool,
    kind: ContentKind,
    response: HeaderView,
    trailing: HeaderView,
)
    ensures
        is_whole(unary_reply(outcome, wants_gzip, kind, response, trailing)),
{
    match outcome {
        OutcomeView::Failure(e) => {
            crate::codes::law_statuses_are_failures(e.code);
        },
        OutcomeView::Answer(_) => {},
    }
}

/// Only a method that is listed as handled is handed a call, and what it is
/// handed is a call of that method, in a codec that the request names, with the
/// headers of the request.
pub proof fn law_calls_are_handled(
    url: Seq<char>,
    headers: HeaderView,
    body: Seq<u8>,
    methods: Seq<MethodSpec>,
    reg: ServerRegistry,
)
    ensures
        match answer(url, headers, body, methods, reg) {
            Answer::Handed(call) => {
                let m = method_for(methods, before_first(url, '?'));
                &&& m is Some
                &&& call.name == m->0.name@
                &&& call.server_stream == m->0.server_stream
                &&& is_listed(
                    if call.server_stream {
                        reg.stream@
                    } else {
                        reg.unary@
                    },
                    call.name,
                )
                &&& kind_of(header_or_empty(headers, "content-type"@)) == Some(call.kind)
                &&& call.headers == headers
                &&& body.len() <= DEFAULT_MAX_MESSAGE_BYTES
            },
            Answer::Refused(_) => true,
        },
{
}

/// A body that is the one frame of a message counts as one frame, and the
/// message is read from it.
pub proof fn law_stream_request_reads_back(flags: u8, message: Seq<u8>)
    requires
        message.len() <= DEFAULT_MAX_MESSAGE_BYTES,
    ensures
        ({
            let body = crate::framing::frame_bytes(flags, message);
            &&& frames_from(body, 0) == Ok::<int, ErrorView>(1)
            &&& has_frame(body)
            &&& frame_payload(body) == message
            &&& body[0] == flags
        }),
{
    let body = crate::framing::frame_bytes(flags, message);
    crate::framing::law_frame_reads_back(flags, message, Seq::empty());
    assert(body + Seq::<u8>::empty() =~= body);
    assert(body.len() == 5 + message.len());
    assert(frames_from(body, 5 + length_at(body, 1)) == Ok::<int, ErrorView>(0));
}

/// The frames of messages, with flags of any kind.
pub open spec fn framed(flags: Seq<u8>, messages: Seq<Seq<u8>>) -> Seq<Seq<u8>> {
    Seq::new(messages.len(), |i: int| crate::framing::frame_bytes(flags[i], messages[i]))
}

proof fn lemma_frames_counted(before: Seq<u8>, flags: Seq<u8>, messages: Seq<Seq<u8>>)
    requires
        flags.len() == messages.len(),
        forall|i: int|
            0 <= i < messages.len() ==> (#[trigger] messages[i]).len()
                <= DEFAULT_MAX_MESSAGE_BYTES,
    ensures
        frames_from(before + concatenated(framed(flags, messages)), before.len() as int) == Ok::<
            int,
            ErrorView,
        >(messages.len() as int),
    decreases messages.len(),
{
    let frames = framed(flags, messages);
    let body = before + concatenated(frames);
    let off = before.len() as int;
    if messages.len() == 0 {
        assert(body.len() == off);
    } else {
        let m = messages[0];
        let f = crate::framing::frame_bytes(flags[0], m);
        let rest = concatenated(frames.drop_first());
        assert(frames[0] == f);
        assert(frames.drop_first() =~= framed(flags.drop_first(), messages.drop_first()));
        assert(f.len() == 5 + m.len());
        assert(body =~= (before + seq![flags[0]]) + crate::framing::length_bytes(m.len() as int) + (
        m + rest));
        crate::framing::law_length_reads_back(
            m.len() as int,
            before + seq![flags[0]],
            m + rest,
        );
        assert(length_at(body, off + 1) == m.len());
        assert(body =~= (before + f) + rest);
        assert forall|i: int| 0 <= i < messages.drop_first().len() implies (
        #[trigger] messages.drop_first()[i]).len() <= DEFAULT_MAX_MESSAGE_BYTES by {
            assert(messages.drop_first()[i] == messages[i + 1]);
        }
        lemma_frames_counted(before + f, flags.drop_first(), messages.drop_first());
    }
}

/// A body that is made of the frames of messages, one after the other, counts as
/// many frames as there are messages.
pub proof fn law_frames_are_counted(flags: Seq<u8>, messages: Seq<Seq<u8>>)
    requires
        flags.len() == messages.len(),
        forall|i: int|
            0 <= i < messages.len() ==> (#[trigger] messages[i]).len()
                <= DEFAULT_MAX_MESSAGE_BYTES,
    ensures
        frames_from(concatenated(framed(flags, messages)), 0) == Ok::<int, ErrorView>(
            messages.len() as int,
        ),
{
    let none = Seq::<u8>::empty();
    lemma_frames_counted(none, flags, messages);
    assert(none + concatenated(framed(flags, messages)) =~= concatenated(framed(flags, messages)));
}

/// A stream request whose message is framed as a client frames it, with nothing
/// in its headers that is refused, is handed to its handler with that message.
pub proof fn law_stream_message_reaches_handler(
    name: Seq<char>,
    kind: ContentKind,
    headers: HeaderView,
    message: Seq<u8>,
)
    requires
        message.len() <= DEFAULT_MAX_MESSAGE_BYTES,
        encoding_in(headers, "connect-content-encoding"@).len() == 0,
    ensures
        stream_verdict(
            name,
            kind,
            headers,
            crate::framing::frame_bytes(0, message),
            true,
        ) == Verdict::Admitted(
            CallView {
                name,
                server_stream: true,
                body: message,
                kind,
                headers,
                wants_gzip: accepts_gzip(headers),
            },
            false,
        ),
{
    law_stream_request_reads_back(0, message);
}

/// Whether nothing about a request is refused before its method is looked for: the
/// version of the protocol and the verb are not given, or are `1` and `POST`, and
/// the body has at most four megabytes.
pub open spec fn is_ordinary(headers: HeaderView, size: int) -> bool {
    &&& match first_of(headers, "connect-protocol-version"@) {
        Some(v) => v.len() == 0 || v == "1"@,
        None => true,
    }
    &&& match first_of(headers, ":method"@) {
        Some(v) => v.len() == 0 || v == "POST"@,
        None => true,
    }
    &&& size <= 4194304
}

/// The compression that a header names, in lower case and trimmed; empty where the
/// header is not there.
pub open spec fn named_encoding(headers: HeaderView, name: Seq<char>) -> Seq<char> {
    match first_of(headers, name) {
        Some(v) => lower_case(trimmed(v)),
        None => Seq::empty(),
    }
}

proof fn lemma_named_encoding(headers: HeaderView, name: Seq<char>)
    ensures
        encoding_in(headers, name) == named_encoding(headers, name),
{
    if first_of(headers, name) is None {
        let none = Seq::<char>::empty();
        assert(trimmed(none) =~= none);
        assert(vstd::utf8::is_ascii_chars(none));
        crate::text::law_lowered(none);
        assert(lower_case(none) =~= none);
    }
}

/// Whether a method has a handler among those that are named.
pub open spec fn has_handler(names: Seq<String>, name: Seq<char>) -> bool {
    exists|i: int| 0 <= i < names.len() && (#[trigger] names[i])@ == name
}

proof fn lemma_has_handler(names: Seq<String>, name: Seq<char>)
    ensures
        is_listed(names, name) == has_handler(names, name),
{
    if has_handler(names, name) {
        let i = choose|i: int| 0 <= i < names.len() && (#[trigger] names[i])@ == name;
        assert(texts(names)[i] == name);
    }
    if is_listed(names, name) {
        let i = choose|i: int| 0 <= i < texts(names).len() && texts(names)[i] == name;
        assert(names[i]@ == name);
    }
}

/// A stream call that nothing speaks against reaches its handler, in either codec:
/// the request is an ordinary one, its path is that of a stream method which has a
/// handler, its content type is that of a stream, it names no compression or a
/// known one, and its body is one frame. The handler is given the message, plain
/// where the frame is compressed, with the codec and the headers of the request.
pub proof fn law_stream_call_is_handed(
    url: Seq<char>,
    headers: HeaderView,
    methods: Seq<MethodSpec>,
    reg: ServerRegistry,
    m: MethodSpec,
    kind: ContentKind,
    flags: u8,
    payload: Seq<u8>,
    message: Seq<u8>,
)
    requires
        is_ordinary(headers, payload.len() as int + 5),
        method_for(methods, before_first(url, '?')) == Some(m),
        m.server_stream,
        kind_of(header_or_empty(headers, "content-type"@)) == Some(kind),
        is_stream_type(header_or_empty(headers, "content-type"@)),
        has_handler(reg.stream@, m.name@),
        named_encoding(headers, "connect-content-encoding"@).len() == 0 || named_encoding(
            headers,
            "connect-content-encoding"@,
        ) == "identity"@ || named_encoding(headers, "connect-content-encoding"@) == "gzip"@,
        flags % 2 == 0 ==> message == payload,
        flags % 2 == 1 ==> gunzipped(payload) == Some(message),
    ensures
        answer(url, headers, crate::framing::frame_bytes(flags, payload), methods, reg)
            == Answer::Handed(
            CallView {
                name: m.name@,
                server_stream: true,
                body: message,
                kind,
                headers,
                wants_gzip: accepts_gzip(headers),
            },
        ),
{
    lemma_named_encoding(headers, "connect-content-encoding"@);
    lemma_has_handler(reg.stream@, m.name@);
    law_stream_request_reads_back(flags, payload);
    assert(crate::framing::frame_bytes(flags, payload).len() == payload.len() + 5);
}

/// A unary call that nothing speaks against reaches its handler, in either codec:
/// the request is an ordinary one, its path is that of a unary method which has a
/// handler, its content type is not that of a stream, and it names no compression
/// or gzip. The handler is given the whole body, plain where it is compressed, with
/// the codec and the headers of the request.
pub proof fn law_unary_call_is_handed(
    url: Seq<char>,
    headers: HeaderView,
    body: Seq<u8>,
    methods: Seq<MethodSpec>,
    reg: ServerRegistry,
    m: MethodSpec,
    kind: ContentKind,
    message: Seq<u8>,
)
    requires
        is_ordinary(headers, body.len() as int),
        method_for(methods, before_first(url, '?')) == Some(m),
        !m.server_stream,
        kind_of(header_or_empty(headers, "content-type"@)) == Some(kind),
        !is_stream_type(header_or_empty(headers, "content-type"@)),
        has_handler(reg.unary@, m.name@),
        named_encoding(headers, "content-encoding"@).len() == 0 || named_encoding(
            headers,
            "content-encoding"@,
        ) == "gzip"@,
        named_encoding(headers, "content-encoding"@).len() == 0 || body.len() == 0 ==> message
            == body,
        named_encoding(headers, "content-encoding"@).len() > 0 && body.len() > 0 ==> gunzipped(body)
            == Some(message),
    ensures
        answer(url, headers, body, methods, reg) == Answer::Handed(
            CallView {
                name: m.name@,
                server_stream: false,
                body: message,
                kind,
                headers,
                wants_gzip: accepts_gzip(headers),
            },
        ),
{
    lemma_named_encoding(headers, "content-encoding"@);
    lemma_has_handler(reg.unary@, m.name@);
    reveal_strlit("gzip");
    assert("gzip"@.len() == 4);
}

/// What a handler is given is the message of the request, all of it and nothing
/// else: the body of a unary call, plain where it is compressed; of a stream call
/// what stands behind the head of the one frame, plain where the frame is
/// compressed.
pub proof fn law_handed_message_is_whole(
    url: Seq<char>,
    headers: HeaderView,
    body: Seq<u8>,
    methods: Seq<MethodSpec>,
    reg: ServerRegistry,
    call: CallView,
)
    requires
        answer(url, headers, body, methods, reg) == Answer::Handed(call),
    ensures
        is_ordinary(headers, body.len() as int),
        call.wants_gzip == accepts_gzip(headers),
        call.headers == headers,
        !call.server_stream ==> {
            let encoding = named_encoding(headers, "content-encoding"@);
            &&& encoding.len() == 0 || encoding == "gzip"@
            &&& encoding.len() == 0 || body.len() == 0 ==> call.body == body
            &&& encoding.len() > 0 && body.len() > 0 ==> gunzipped(body) == Some(call.body)
        },
        call.server_stream ==> {
            &&& body.len() >= 5
            &&& body.len() == 5 + body[1] * 0x1000000 + body[2] * 0x10000 + body[3] * 0x100
                + body[4]
            &&& body[0] % 2 == 0 ==> call.body == body.skip(5)
            &&& body[0] % 2 == 1 ==> gunzipped(body.skip(5)) == Some(call.body)
        },
{
    lemma_named_encoding(headers, "content-encoding"@);
    reveal_strlit("gzip");
    assert("gzip"@.len() == 4);
    if call.server_stream {
        let next = 5 + length_at(body, 1);
        lemma_frames_are_many(body, next);
        assert(frames_from(body, 0) == Ok::<int, ErrorView>(1));
        assert(frames_from(body, next) == Ok::<int, ErrorView>(0));
        assert(frame_payload(body) =~= body.skip(5));
    }
}

proof fn lemma_frames_are_many(body: Seq<u8>, off: int)
    ensures
        match frames_from(body, off) {
            Ok(n) => n >= 0 && (n == 0 && off >= 0 ==> off >= body.len()),
            Err(_) => true,
        },
    decreases
            if off < body.len() {
                body.len() - off
            } else {
                0
            },
{
    if 0 <= off && off + 5 <= body.len() && length_at(body, off + 1) <= DEFAULT_MAX_MESSAGE_BYTES {
        lemma_frames_are_many(body, off + 5 + length_at(body, off + 1));
    }
}

/// A request that is not an ordinary one is refused, whatever it asks for, and the
/// version is looked at before the verb, and the verb before the size.
pub proof fn law_early_refusals(
    url: Seq<char>,
    headers: HeaderView,
    body: Seq<u8>,
    methods: Seq<MethodSpec>,
    reg: ServerRegistry,
)
    ensures
        ({
            let a = answer(url, headers, body, methods, reg);
            let version = first_of(headers, "connect-protocol-version"@);
            let verb = first_of(headers, ":method"@);
            let other_version = version is Some && version->0.len() > 0 && version->0 != "1"@;
            let other_verb = verb is Some && verb->0.len() > 0 && verb->0 != "POST"@;
            &&& other_version ==> a == Answer::Refused(
                Refusal::Unary(
                    ErrorView {
                        code: 12,
                        message: "unsupported connect-protocol-version: "@ + version->0,
                        details: Seq::empty(),
                    },
                    501,
                ),
            )
            &&& !other_version && other_verb ==> a == Answer::Refused(
                Refusal::Unary(
                    ErrorView {
                        code: 2,
                        message: "method "@ + verb->0 + " not allowed"@,
                        details: Seq::empty(),
                    },
                    405,
                ),
            )
            &&& !other_version && !other_verb && body.len() > 4194304 ==> a == Answer::Refused(
                Refusal::Unary(
                    ErrorView {
                        code: 8,
                        message: "request too large"@,
                        details: Seq::empty(),
                    },
                    429,
                ),
            )
            &&& is_ordinary(headers, body.len() as int) <==> early_refusal(
                headers,
                body.len() as int,
            ) is None
        }),
{
}

/// An ordinary request is refused where its path, up to a question mark, is that of
/// no method, and where its content type is not supported or has not the shape of
/// the method.
pub proof fn law_unknown_requests_are_refused(
    url: Seq<char>,
    headers: HeaderView,
    body: Seq<u8>,
    methods: Seq<MethodSpec>,
    reg: ServerRegistry,
)
    requires
        is_ordinary(headers, body.len() as int),
    ensures
        ({
            let a = answer(url, headers, body, methods, reg);
            let m = method_for(methods, before_first(url, '?'));
            let ct = match first_of(headers, "content-type"@) {
                Some(v) => v,
                None => Seq::empty(),
            };
            &&& m is None ==> a == Answer::Refused(
                Refusal::Unary(
                    ErrorView { code: 12, message: "unimplemented"@, details: Seq::empty() },
                    404,
                ),
            )
            &&& m is Some && (kind_of(ct) is None || is_stream_type(ct) != m->0.server_stream)
                ==> a == Answer::Refused(
                Refusal::Unary(
                    ErrorView {
                        code: 2,
                        message: "unsupported content-type: "@ + ct,
                        details: Seq::empty(),
                    },
                    415,
                ),
            )
        }),
{
}

/// Whether a request comes as far as the handler of a method: it is an ordinary
/// one, and its path and its content type are those of the method.
pub open spec fn reaches_method(
    url: Seq<char>,
    headers: HeaderView,
    body: Seq<u8>,
    methods: Seq<MethodSpec>,
    m: MethodSpec,
    kind: ContentKind,
) -> bool {
    &&& is_ordinary(headers, body.len() as int)
    &&& method_for(methods, before_first(url, '?')) == Some(m)
    &&& kind_of(header_or_empty(headers, "content-type"@)) == Some(kind)
    &&& is_stream_type(header_or_empty(headers, "content-type"@)) == m.server_stream
}

/// A call of a unary method is refused where the method has no handler, where the
/// compression is not known, and where the body cannot be decompressed, each with
/// its own error, and else it is handed on.
pub proof fn law_unary_refusals(
    url: Seq<char>,
    headers: HeaderView,
    body: Seq<u8>,
    methods: Seq<MethodSpec>,
    reg: ServerRegistry,
    m: MethodSpec,
    kind: ContentKind,
)
    requires
        reaches_method(url, headers, body, methods, m, kind),
        !m.server_stream,
    ensures
        ({
            let a = answer(url, headers, body, methods, reg);
            let encoding = named_encoding(headers, "content-encoding"@);
            let handled = has_handler(reg.unary@, m.name@);
            let known = encoding.len() == 0 || encoding == "gzip"@;
            let corrupt = encoding.len() > 0 && body.len() > 0 && gunzipped(body) is None;
            &&& !handled ==> a == Answer::Refused(
                Refusal::Unary(
                    ErrorView { code: 5, message: "method not found"@, details: Seq::empty() },
                    404,
                ),
            )
            &&& handled && !known ==> a == Answer::Refused(
                Refusal::Unary(
                    ErrorView {
                        code: 12,
                        message: "unsupported content-encoding: "@ + encoding,
                        details: Seq::empty(),
                    },
                    501,
                ),
            )
            &&& handled && known && corrupt ==> a == Answer::Refused(
                Refusal::Unary(
                    ErrorView { code: 13, message: "corrupt gzip data"@, details: Seq::empty() },
                    500,
                ),
            )
            &&& handled && known && !corrupt ==> a is Handed
        }),
{
    lemma_named_encoding(headers, "content-encoding"@);
    lemma_has_handler(reg.unary@, m.name@);
    reveal_strlit("gzip");
    assert("gzip"@.len() == 4);
}

/// A call of a stream method is refused on the end of a stream, in the codec of the
/// request: where the method has no handler, where the compression is not known,
/// where the body holds no frame, a cut one or more than one, and where the message
/// cannot be decompressed. Else it is handed on.
pub proof fn law_stream_refusals(
    url: Seq<char>,
    headers: HeaderView,
    body: Seq<u8>,
    methods: Seq<MethodSpec>,
    reg: ServerRegistry,
    m: MethodSpec,
    kind: ContentKind,
)
    requires
        reaches_method(url, headers, body, methods, m, kind),
        m.server_stream,
    ensures
        ({
            let a = answer(url, headers, body, methods, reg);
            let encoding = named_encoding(headers, "connect-content-encoding"@);
            let handled = has_handler(reg.stream@, m.name@);
            let known = encoding.len() == 0 || encoding == "identity"@ || encoding == "gzip"@;
            let size = body[1] * 0x1000000 + body[2] * 0x10000 + body[3] * 0x100 + body[4];
            &&& !handled ==> a == stream_refused(12, "no handler"@, kind)
            &&& handled && !known ==> a == stream_refused(
                12,
                "unsupported content-encoding: "@ + encoding,
                kind,
            )
            &&& handled && known && body.len() == 0 ==> a == stream_refused(
                12,
                "missing request message"@,
                kind,
            )
            &&& handled && known && 0 < body.len() < 5 ==> a == stream_refused(
                13,
                "truncated frame header"@,
                kind,
            )
            &&& handled && known && body.len() >= 5 && size > 4194304 ==> a == stream_refused(
                8,
                "frame too large"@,
                kind,
            )
            &&& handled && known && body.len() >= 5 && size <= 4194304 && body.len() < 5 + size
                ==> a == stream_refused(13, "stream request: truncated frame"@, kind)
            &&& handled && known && body.len() >= 5 && body.len() > 5 + size ==> a is Refused
                && a->Refused_0 is Stream
            &&& handled && known && body.len() >= 5 && body.len() == 5 + size && body[0] % 2 == 1
                && gunzipped(body.skip(5)) is None ==> a == stream_refused(
                13,
                "corrupt gzip data"@,
                kind,
            )
            &&& handled && known && body.len() >= 5 && body.len() == 5 + size && (body[0] % 2 == 0
                || gunzipped(body.skip(5)) is Some) ==> a is Handed
        }),
{
    lemma_named_encoding(headers, "connect-content-encoding"@);
    lemma_has_handler(reg.stream@, m.name@);
    if body.len() >= 5 {
        let next = 5 + length_at(body, 1);
        lemma_frames_are_many(body, next);
        if next >= body.len() {
            assert(frames_from(body, next) == Ok::<int, ErrorView>(0));
        }
        if next == body.len() {
            assert(frame_payload(body) =~= body.skip(5));
        }
    }
}

/// The answer to a stream call that is refused.
pub open spec fn stream_refused(code: int, message: Seq<char>, kind: ContentKind) -> Answer {
    Answer::Refused(
        Refusal::Stream(ErrorView { code, message, details: Seq::empty() }, kind),
    )
}

/// A body that holds more than one whole frame is refused for that.
pub proof fn law_many_messages_are_refused(
    url: Seq<char>,
    headers: HeaderView,
    methods: Seq<MethodSpec>,
    reg: ServerRegistry,
    m: MethodSpec,
    kind: ContentKind,
    flags: Seq<u8>,
    messages: Seq<Seq<u8>>,
)
    requires
        reaches_method(url, headers, concatenated(framed(flags, messages)), methods, m, kind),
        m.server_stream,
        has_handler(reg.stream@, m.name@),
        first_of(headers, "connect-content-encoding"@) is None,
        flags.len() == messages.len() > 1,
        forall|i: int| 0 <= i < messages.len() ==> (#[trigger] messages[i]).len() <= 4194304,
    ensures
        answer(url, headers, concatenated(framed(flags, messages)), methods, reg) == stream_refused(
            12,
            "server-stream request must contain exactly one message"@,
            kind,
        ),
{
    lemma_named_encoding(headers, "connect-content-encoding"@);
    lemma_has_handler(reg.stream@, m.name@);
    law_frames_are_counted(flags, messages);
}

/// A client is told that a method has no handler just where that is so: every
/// request that is refused with those words is for a method that is not named in
/// the registry.
pub proof fn law_no_handler_means_none(
    url: Seq<char>,
    headers: HeaderView,
    body: Seq<u8>,
    methods: Seq<MethodSpec>,
    reg: ServerRegistry,
    f: Refusal,
)
    requires
        answer(url, headers, body, methods, reg) == Answer::Refused(f),
    ensures
        f is Stream && f.error().message == "no handler"@ ==> {
            let m = method_for(methods, before_first(url, '?'));
            m is Some && m->0.server_stream && !has_handler(reg.stream@, m->0.name@)
        },
        f is Unary && f.error().message == "method not found"@ ==> {
            let m = method_for(methods, before_first(url, '?'));
            m is Some && !m->0.server_stream && !has_handler(reg.unary@, m->0.name@)
        },
{
    reveal_strlit("no handler");
    reveal_strlit("method not found");
    reveal_strlit("unsupported content-encoding: ");
    reveal_strlit("unsupported content-type: ");
    reveal_strlit("unsupported connect-protocol-version: ");
    reveal_strlit("method ");
    reveal_strlit(" not allowed");
    reveal_strlit("POST");
    reveal_strlit("request too large");
    reveal_strlit("unimplemented");
    reveal_strlit("missing request message");
    reveal_strlit("server-stream request must contain exactly one message");
    reveal_strlit("stream request: truncated frame");
    reveal_strlit("corrupt gzip data");
    reveal_strlit("truncated frame header");
    reveal_strlit("frame too large");
    lemma_frame_messages(body, 0);
    let m = method_for(methods, before_first(url, '?'));
    if m is Some {
        lemma_has_handler(reg.stream@, m->0.name@);
        lemma_has_handler(reg.unary@, m->0.name@);
    }
    let message = f.error().message;
    if f is Stream && message == "no handler"@ {
        assert(message[0] == 'n');
    }
    if f is Unary && message == "method not found"@ {
        let verb = header_or_empty(headers, ":method"@);
        let other = "method "@ + verb + " not allowed"@;
        assert(other[other.len() - 1] == 'd');
        assert(message[15] == 'd');
        assert(other.len() == 19 + verb.len());
        assert(message.len() == 16);
        assert(message[0] == 'm');
        assert(message[6] == ' ');
    }
}

proof fn lemma_frame_messages(body: Seq<u8>, off: int)
    ensures
        match frames_from(body, off) {
            Ok(_) => true,
            Err(e) => e.message == "truncated frame header"@ || e.message == "frame too large"@,
        },
    decreases
            if off < body.len() {
                body.len() - off
            } else {
                0
            },
{
    if 0 <= off && off + 5 <= body.len() && length_at(body, off + 1) <= DEFAULT_MAX_MESSAGE_BYTES {
        lemma_frame_messages(body, off + 5 + length_at(body, off + 1));
    }
}

/// A list of encodings has gzip in it just where one of the two lists has that it
/// is put together from with a comma; a list without a comma has it just where it
/// is `gzip`, with white space around it or none.
pub proof fn law_encoding_lists(a: Seq<char>, b: Seq<char>)
    ensures
        names_gzip(a.push(',') + b) == (names_gzip(a) || names_gzip(b)),
        !a.contains(',') ==> names_gzip(a) == (trimmed(a) == "gzip"@),
{
    let whole = parts(a.push(',') + b, ',');
    let pa = parts(a, ',');
    let pb = parts(b, ',');
    lemma_parts_joined(a, b);
    if names_gzip(a) {
        let i = choose|i: int| 0 <= i < pa.len() && trimmed(#[trigger] pa[i]) == "gzip"@;
        assert(whole[i] == pa[i]);
    }
    if names_gzip(b) {
        let i = choose|i: int| 0 <= i < pb.len() && trimmed(#[trigger] pb[i]) == "gzip"@;
        assert(whole[i + pa.len()] == pb[i]);
    }
    if names_gzip(a.push(',') + b) {
        let i = choose|i: int| 0 <= i < whole.len() && trimmed(#[trigger] whole[i]) == "gzip"@;
        if i < pa.len() {
            assert(pa[i] == whole[i]);
        } else {
            assert(pb[i - pa.len()] == whole[i]);
        }
    }
    if !a.contains(',') {
        lemma_one_part(a);
        assert(trimmed(pa[0]) == trimmed(a));
    }
}

proof fn lemma_parts_joined(a: Seq<char>, b: Seq<char>)
    ensures
        parts(a.push(',') + b, ',') == parts(a, ',') + parts(b, ','),
        parts(b, ',').len() > 0,
    decreases b.len(),
{
    let s = a.push(',') + b;
    if b.len() == 0 {
        assert(s =~= a.push(','));
        assert(s.drop_last() =~= a);
        assert(parts(s, ',') =~= parts(a, ',') + parts(b, ','));
    } else {
        let t = b.drop_last();
        lemma_parts_joined(a, t);
        assert(s.drop_last() =~= a.push(',') + t);
        assert(s.last() == b.last());
        assert(parts(s, ',') =~= parts(a, ',') + parts(b, ','));
    }
}

proof fn lemma_one_part(a: Seq<char>)
    requires
        !a.contains(','),
    ensures
        parts(a, ',') == seq![a],
    decreases a.len(),
{
    if a.len() > 0 {
        let t = a.drop_last();
        if t.contains(',') {
            let i = choose|i: int| 0 <= i < t.len() && t[i] == ',';
            assert(a[i] == ',');
        }
        lemma_one_part(t);
        assert(a[a.len() - 1] != ',');
        assert(t.push(a.last()) =~= a);
        assert(parts(a, ',') =~= seq![a]);
    } else {
        assert(a =~= Seq::empty());
        assert(parts(a, ',') =~= seq![a]);
    }
}

/// A client can read gzip just where one of the values of the header that says so
/// has it; where the header is not there, it cannot.
pub proof fn law_gzip_is_accepted(headers: HeaderView)
    ensures
        !headers.dom().contains("connect-accept-encoding"@) ==> !accepts_gzip(headers),
        headers.dom().contains("connect-accept-encoding"@) ==> (accepts_gzip(headers) <==> exists|
            i: int,
        |
            0 <= i < headers["connect-accept-encoding"@].len() && names_gzip(
                #[trigger] headers["connect-accept-encoding"@][i],
            )),
{
}

/// A message that is not compressed is handed on whatever comes of decompressing
/// it; one that is compressed is handed on as what it was decompressed to, with
/// nothing else of the call changed, and refused where that failed.
pub proof fn law_unpacking(call: CallView, plain: Option<Seq<u8>>)
    ensures
        settled(Verdict::Admitted(call, false), plain) == Answer::Handed(call),
        plain is Some ==> settled(Verdict::Admitted(call, true), plain) == Answer::Handed(
            CallView {
                name: call.name,
                server_stream: call.server_stream,
                body: plain->0,
                kind: call.kind,
                headers: call.headers,
                wants_gzip: call.wants_gzip,
            },
        ),
        plain is None && call.server_stream ==> settled(Verdict::Admitted(call, true), plain)
            == stream_refused(13, "corrupt gzip data"@, call.kind),
        plain is None && !call.server_stream ==> settled(Verdict::Admitted(call, true), plain)
            == Answer::Refused(
            Refusal::Unary(
                ErrorView { code: 13, message: "corrupt gzip data"@, details: Seq::empty() },
                500,
            ),
        ),
        forall|f: Refusal| #[trigger]
            settled(Verdict::Refused(f), plain) == Answer::Refused(f),
{
}

proof fn lemma_frames_shift(before: Seq<u8>, rest: Seq<u8>, off: int)
    requires
        off >= 0,
    ensures
        frames_from(before + rest, before.len() + off) == frames_from(rest, off),
    decreases
            if off < rest.len() {
                rest.len() - off
            } else {
                0
            },
{
    let body = before + rest;
    let at = before.len() + off;
    if off + 5 <= rest.len() {
        assert(length_at(body, at + 1) == length_at(rest, off + 1));
        if length_at(rest, off + 1) <= DEFAULT_MAX_MESSAGE_BYTES {
            lemma_frames_shift(before, rest, off + 5 + length_at(rest, off + 1));
        }
    }
}

/// A frame before others counts one more, and hides no error of theirs. A body that
/// ends within its first frame counts one; none is counted in an empty body, and a
/// head that is cut, or announces more than four megabytes, is an error.
pub proof fn law_counting_frames(flags: u8, message: Seq<u8>, rest: Seq<u8>, body: Seq<u8>)
    requires
        message.len() <= 4194304,
    ensures
        frames_from(crate::framing::frame_bytes(flags, message) + rest, 0) == match frames_from(
            rest,
            0,
        ) {
            Ok(n) => Ok::<int, ErrorView>(n + 1),
            Err(e) => Err(e),
        },
        ({
            let size = body[1] * 0x1000000 + body[2] * 0x10000 + body[3] * 0x100 + body[4];
            &&& body.len() == 0 ==> frames_from(body, 0) == Ok::<int, ErrorView>(0)
            &&& 0 < body.len() < 5 ==> frames_from(body, 0) == Err::<int, ErrorView>(
                ErrorView { code: 13, message: "truncated frame header"@, details: Seq::empty() },
            )
            &&& body.len() >= 5 && size > 4194304 ==> frames_from(body, 0) == Err::<int, ErrorView>(
                ErrorView { code: 8, message: "frame too large"@, details: Seq::empty() },
            )
            &&& 5 <= body.len() <= 5 + size && size <= 4194304 ==> frames_from(body, 0) == Ok::<
                int,
                ErrorView,
            >(1)
        }),
{
    let f = crate::framing::frame_bytes(flags, message);
    let all = f + rest;
    crate::framing::law_frame_reads_back(flags, message, rest);
    assert(f.len() == 5 + message.len());
    lemma_frames_shift(f, rest, 0);
    if body.len() >= 5 && body.len() <= 5 + length_at(body, 1) {
        assert(frames_from(body, 5 + length_at(body, 1)) == Ok::<int, ErrorView>(0));
    }
}

/// A body that goes on behind its first frame is refused: for the error of what
/// follows where there is one, else for holding more than one message.
pub proof fn law_more_than_one_frame(
    url: Seq<char>,
    headers: HeaderView,
    methods: Seq<MethodSpec>,
    reg: ServerRegistry,
    m: MethodSpec,
    kind: ContentKind,
    flags: u8,
    message: Seq<u8>,
    rest: Seq<u8>,
)
    requires
        reaches_method(
            url,
            headers,
            crate::framing::frame_bytes(flags, message) + rest,
            methods,
            m,
            kind,
        ),
        m.server_stream,
        has_handler(reg.stream@, m.name@),
        first_of(headers, "connect-content-encoding"@) is None,
        rest.len() > 0,
    ensures
        answer(url, headers, crate::framing::frame_bytes(flags, message) + rest, methods, reg)
            == match frames_from(rest, 0) {
            Err(e) => stream_refused(e.code, e.message, kind),
            Ok(_) => stream_refused(
                12,
                "server-stream request must contain exactly one message"@,
                kind,
            ),
        },
{
    lemma_named_encoding(headers, "connect-content-encoding"@);
    lemma_has_handler(reg.stream@, m.name@);
    assert(crate::framing::frame_bytes(flags, message).len() == 5 + message.len());
    law_counting_frames(flags, message, rest, rest);
    lemma_frames_are_many(rest, 0);
    lemma_frame_details(rest, 0);
}

proof fn lemma_frame_details(body: Seq<u8>, off: int)
    ensures
        match frames_from(body, off) {
            Ok(_) => true,
            Err(e) => e.details == Seq::<crate::message::DetailView>::empty(),
        },
    decreases
            if off < body.len() {
                body.len() - off
            } else {
                0
            },
{
    if 0 <= off && off + 5 <= body.len() && length_at(body, off + 1) <= DEFAULT_MAX_MESSAGE_BYTES {
        lemma_frame_details(body, off + 5 + length_at(body, off + 1));
    }
}

/// What is returned and written for an answer: a call that is handed on is returned
/// with nothing set on its response and nothing written, and a refusal is written,
/// behind what was written before, with no call returned.
pub proof fn law_answers_are_followed(
    a: Answer,
    r: Option<Call>,
    before: Seq<EventView>,
    after: Seq<EventView>,
)
    requires
        follows_answer(a, r, before, after),
    ensures
        match a {
            Answer::Handed(call) => {
                &&& r is Some && after == before
                &&& r->0.name@ == call.name
                &&& r->0.server_stream == call.server_stream
                &&& r->0.body@ == call.body
                &&& r->0.wants_gzip == call.wants_gzip
                &&& r->0.context.kind == call.kind
                &&& r->0.context.headers@ == call.headers
                &&& r->0.context.response@.dom() == Set::<Seq<char>>::empty()
                &&& r->0.context.trailing@.dom() == Set::<Seq<char>>::empty()
            },
            Answer::Refused(f) => {
                let reply = match f {
                    Refusal::Unary(e, status) => error_reply(e, status),
                    Refusal::Stream(e, kind) => stream_failure(e, kind),
                };
                r is None && after == before + reply
            },
        },
{
}

/// A call that is admitted is returned as it is, with nothing written and nothing
/// set on its response; a refusal is written, with no call returned.
pub proof fn law_verdicts_are_followed(
    v: Verdict,
    r: Option<Admitted>,
    before: Seq<EventView>,
    after: Seq<EventView>,
)
    requires
        follows_verdict(v, r, before, after),
    ensures
        match v {
            Verdict::Admitted(call, compressed) => {
                &&& r is Some && after == before
                &&& r->0.compressed == compressed
                &&& r->0.call@ == call
                &&& r->0.call.context.response@.dom() == Set::<Seq<char>>::empty()
                &&& r->0.call.context.trailing@.dom() == Set::<Seq<char>>::empty()
            },
            Verdict::Refused(f) => {
                let reply = match f {
                    Refusal::Unary(e, status) => error_reply(e, status),
                    Refusal::Stream(e, kind) => stream_failure(e, kind),
                };
                r is None && after == before + reply
            },
        },
{
}

} // verus!
