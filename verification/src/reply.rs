//! Responses as they are written: a status, headers, and then the body or the
//! frames of a stream.
use crate::content::{content_type_for, type_for, ContentKind};
use crate::context::HandlerContext;
use crate::codes::{http_status, status_of_code};
use crate::framing::{frame, frame_bytes, frame_compressed};
use crate::gzip::{gunzipped, gzip_compress, gzipped, COMPRESS_MIN_BYTES, ENCODING_GZIP};
use crate::headers::{values_of, HeaderView, Headers};
use crate::json::json_text;
use crate::message::{ErrorView, RPCError};
use crate::trailers::{is_trailer_name, merge_response_headers, merged, mux_trailers, muxed};
use crate::wire_error::{
    body_error, carried_end, carried_error, encode_end_stream_meta, encode_error_json, end_error,
    end_metadata, end_payload, error_of, error_tree, no_error,
};
use vstd::prelude::*;

verus! {

/// One thing that is written to a response.
#[derive(Debug)]
pub enum WriteEvent {
    Status(u16),
    Header(Headers),
    Frame(Vec<u8>),
}

/// One thing that is written, as plain values.
pub enum EventView {
    Status(int),
    Header(HeaderView),
    Frame(Seq<u8>),
}

impl View for WriteEvent {
    type V = EventView;

    open spec fn view(&self) -> EventView {
        match self {
            WriteEvent::Status(code) => EventView::Status(*code as int),
            WriteEvent::Header(h) => EventView::Header(h@),
            WriteEvent::Frame(b) => EventView::Frame(b@),
        }
    }
}

/// The views of a list of events.
pub open spec fn event_views(v: Seq<WriteEvent>) -> Seq<EventView> {
    v.map_values(|e: WriteEvent| e@)
}

/// A sink that responses are pushed into.
pub trait ResponseWriter {
    /// Sets the HTTP status, before the first frame.
    fn status(&mut self, code: u16);

    /// Sets the response headers, before the first frame.
    fn header(&mut self, headers: Headers);

    /// Writes one frame of a stream, or the body of a unary response.
    fn write_frame(&mut self, payload: Vec<u8>) -> (r: Result<(), RPCError>);
}

/// A sink that keeps what is written, in order.
#[derive(Debug)]
pub struct ResponseRecord {
    pub events: Vec<WriteEvent>,
}

impl View for ResponseRecord {
    type V = Seq<EventView>;

    open spec fn view(&self) -> Seq<EventView> {
        event_views(self.events@)
    }
}

impl ResponseWriter for ResponseRecord {
    fn status(&mut self, code: u16)
        ensures
            final(self)@ == old(self)@.push(EventView::Status(code as int)),
    {
        self.put(WriteEvent::Status(code));
    }

    fn header(&mut self, headers: Headers)
        ensures
            final(self)@ == old(self)@.push(EventView::Header(headers@)),
    {
        self.put(WriteEvent::Header(headers));
    }

    fn write_frame(&mut self, payload: Vec<u8>) -> (r: Result<(), RPCError>)
        ensures
            final(self)@ == old(self)@.push(EventView::Frame(payload@)),
            r is Ok,
    {
        self.put(WriteEvent::Frame(payload));
        Ok(())
    }
}

impl ResponseRecord {
    /// A record of nothing.
    pub fn new() -> (r: ResponseRecord)
        ensures
            r@ == Seq::<EventView>::empty(),
    {
        let r = ResponseRecord { events: Vec::new() };
        assert(r@ =~= Seq::empty());
        r
    }

    fn put(&mut self, e: WriteEvent)
        ensures
            final(self)@ == old(self)@.push(e@),
    {
        let ghost before = self.events@;
        self.events.push(e);
        assert(event_views(self.events@) =~= event_views(before).push(e@));
    }

    /// Hands out what was written and keeps none of it.
    pub fn take(&mut self) -> (events: Vec<WriteEvent>)
        ensures
            event_views(events@) == old(self)@,
            final(self)@ == Seq::<EventView>::empty(),
    {
        let mut events: Vec<WriteEvent> = Vec::new();
        core::mem::swap(&mut events, &mut self.events);
        assert(self@ =~= Seq::empty());
        events
    }
}

// ---- errors ----

/// Headers that hold a content type and nothing else.
pub open spec fn typed(content_type: Seq<char>) -> HeaderView {
    map!["content-type"@ => seq![content_type]]
}

fn typed_headers(content_type: &str) -> (h: Headers)
    ensures
        h@ == typed(content_type@),
{
    let mut h = Headers::new();
    h.set("content-type", content_type);
    assert(h@ =~= typed(content_type@));
    h
}

/// The response that carries an error of a unary call, or of a request that no
/// method was found for.
pub open spec fn error_reply(e: ErrorView, status: int) -> Seq<EventView> {
    seq![
        EventView::Status(status),
        EventView::Header(typed("application/json"@)),
        EventView::Frame(json_text(error_tree(e))),
    ]
}

/// The response that carries an error of a stream: the status is 200 and the
/// error rides on the frame that ends the stream.
pub open spec fn stream_failure(e: ErrorView, kind: ContentKind) -> Seq<EventView> {
    seq![
        EventView::Status(200),
        EventView::Header(typed(type_for(true, kind))),
        EventView::Frame(frame_bytes(2, end_payload(e, Map::empty()))),
    ]
}

/// Writes an error with a status of its own. A client reads it from the body.
pub fn write_error_status(w: &mut ResponseRecord, e: &RPCError, status: u16)
    ensures
        final(w)@ == old(w)@ + error_reply(e@, status as int),
        body_error(json_text(error_tree(e@))) == carried_error(e@),
{
    let ghost before = w@;
    w.status(status);
    w.header(typed_headers("application/json"));
    let body = encode_error_json(e.code, &e.message, &e.details);
    assert(error_of(e.code as int, e.message@, e.details@) == e@);
    let _ = w.write_frame(body);
    assert(w@ =~= before + error_reply(e@, status as int));
}

/// Writes an error with the status of its code.
pub fn write_error(w: &mut ResponseRecord, e: &RPCError)
    ensures
        final(w)@ == old(w)@ + error_reply(e@, status_of_code(e.code as int)),
        body_error(json_text(error_tree(e@))) == carried_error(e@),
{
    write_error_status(w, e, http_status(e.code));
}

/// Ends a stream that has not begun with an error, in the given codec.
pub fn stream_fail_kind(w: &mut ResponseRecord, e: &RPCError, kind: ContentKind)
    ensures
        final(w)@ == old(w)@ + stream_failure(e@, kind),
        end_error(end_payload(e@, Map::empty())) == carried_end(e@),
        end_metadata(end_payload(e@, Map::empty())) == Map::<Seq<char>, Seq<Seq<char>>>::empty(),
{
    let ghost before = w@;
    w.status(200);
    w.header(typed_headers(content_type_for(true, kind)));
    let payload = encode_end_stream_meta(e.code, &e.message, &e.details, &Headers::new());
    assert(error_of(e.code as int, e.message@, e.details@) == e@);
    let _ = w.write_frame(frame(&payload, true));
    assert(w@ =~= before + stream_failure(e@, kind));
}

/// Ends a stream that has not begun with an error, in the protobuf codec.
pub fn stream_fail(w: &mut ResponseRecord, e: &RPCError)
    ensures
        final(w)@ == old(w)@ + stream_failure(e@, ContentKind::Proto),
        end_error(end_payload(e@, Map::empty())) == carried_end(e@),
        end_metadata(end_payload(e@, Map::empty())) == Map::<Seq<char>, Seq<Seq<char>>>::empty(),
{
    stream_fail_kind(w, e, ContentKind::Proto);
}

// ---- unary responses ----

/// The headers of a unary answer: the compression where there is one, then the
/// trailers, then what the handler has set; the content type comes last and
/// stands alone.
pub open spec fn answer_headers(
    compressed: bool,
    kind: ContentKind,
    response: HeaderView,
    trailing: HeaderView,
) -> HeaderView {
    let base = if compressed {
        map!["content-encoding"@ => seq![ENCODING_GZIP@]]
    } else {
        Map::empty()
    };
    merged(muxed(base, trailing), response).insert("content-type"@, seq![type_for(false, kind)])
}

/// The response to a unary call that was answered with `body`.
pub open spec fn answer_reply(
    body: Seq<u8>,
    compressed: bool,
    kind: ContentKind,
    response: HeaderView,
    trailing: HeaderView,
) -> Seq<EventView> {
    seq![
        EventView::Status(200),
        EventView::Header(answer_headers(compressed, kind, response, trailing)),
        EventView::Frame(body),
    ]
}

/// The response to a unary call that its handler has failed.
pub open spec fn failure_reply(e: ErrorView, response: HeaderView, trailing: HeaderView) -> Seq<
    EventView,
> {
    seq![
        EventView::Status(status_of_code(e.code)),
        EventView::Header(muxed(merged(typed("application/json"@), response), trailing)),
        EventView::Frame(json_text(error_tree(e))),
    ]
}

/// The outcome of a unary handler, as plain values.
pub enum OutcomeView {
    Answer(Seq<u8>),
    Failure(ErrorView),
}

/// The view of the outcome of a unary handler.
pub open spec fn outcome_view(r: Result<Vec<u8>, RPCError>) -> OutcomeView {
    match r {
        Ok(b) => OutcomeView::Answer(b@),
        Err(e) => OutcomeView::Failure(e@),
    }
}

/// Whether an answer of that size is compressed for a client that can read it.
pub open spec fn is_worth_compressing(wants_gzip: bool, size: int) -> bool {
    wants_gzip && size >= COMPRESS_MIN_BYTES
}

/// The response to a unary call.
pub open spec fn unary_reply(
    outcome: OutcomeView,
    wants_gzip: bool,
    kind: ContentKind,
    response: HeaderView,
    trailing: HeaderView,
) -> Seq<EventView> {
    match outcome {
        OutcomeView::Answer(b) => if is_worth_compressing(wants_gzip, b.len() as int) {
            answer_reply(gzipped(b), true, kind, response, trailing)
        } else {
            answer_reply(b, false, kind, response, trailing)
        },
        OutcomeView::Failure(e) => failure_reply(e, response, trailing),
    }
}

/// Writes the answer of a unary call, as it goes over the wire.
pub fn write_answer(w: &mut ResponseRecord, ctx: &HandlerContext, body: Vec<u8>, compressed: bool)
    ensures
        final(w)@ == old(w)@ + answer_reply(
            body@,
            compressed,
            ctx.kind,
            ctx.response@,
            ctx.trailing@,
        ),
{
    let ghost before = w@;
    w.status(200);
    let mut base = Headers::new();
    if compressed {
        base.set("content-encoding", ENCODING_GZIP);
        assert(base@ =~= map!["content-encoding"@ => seq![ENCODING_GZIP@]]);
    }
    let mut headers = merge_response_headers(
        mux_trailers(&base, ctx.trailers()),
        ctx.response_headers(),
    );
    headers.set("content-type", content_type_for(false, ctx.kind));
    w.header(headers);
    let _ = w.write_frame(body);
    assert(w@ =~= before + answer_reply(
        body@,
        compressed,
        ctx.kind,
        ctx.response@,
        ctx.trailing@,
    ));
}

/// Writes the error of a unary call that its handler has failed.
pub fn write_failure(w: &mut ResponseRecord, ctx: &HandlerContext, e: &RPCError)
    ensures
        final(w)@ == old(w)@ + failure_reply(e@, ctx.response@, ctx.trailing@),
        body_error(json_text(error_tree(e@))) == carried_error(e@),
{
    let ghost before = w@;
    w.status(http_status(e.code));
    let headers = merge_response_headers(
        typed_headers("application/json"),
        ctx.response_headers(),
    );
    w.header(mux_trailers(&headers, ctx.trailers()));
    let body = encode_error_json(e.code, &e.message, &e.details);
    assert(error_of(e.code as int, e.message@, e.details@) == e@);
    let _ = w.write_frame(body);
    assert(w@ =~= before + failure_reply(e@, ctx.response@, ctx.trailing@));
}

/// Writes the response to a unary call from what its handler came to. An answer
/// is compressed where the client can read that and it is worth it; what a client
/// decompresses is the answer, and the error that it reads from the body is the
/// one that survives the wire.
pub fn finish_unary(
    w: &mut ResponseRecord,
    ctx: &HandlerContext,
    wants_gzip: bool,
    result: Result<Vec<u8>, RPCError>,
)
    ensures
        final(w)@ == old(w)@ + unary_reply(
            outcome_view(result),
            wants_gzip,
            ctx.kind,
            ctx.response@,
            ctx.trailing@,
        ),
        match result {
            Ok(b) => is_worth_compressing(wants_gzip, b@.len() as int) ==> gunzipped(gzipped(b@))
                == Some(b@),
            Err(e) => body_error(json_text(error_tree(e@))) == carried_error(e@),
        },
{
    match result {
        Ok(out) => {
            if wants_gzip && out.len() >= COMPRESS_MIN_BYTES {
                let z = gzip_compress(&out);
                write_answer(w, ctx, z, true);
            } else {
                write_answer(w, ctx, out, false);
            }
        },
        Err(e) => {
            write_failure(w, ctx, &e);
        },
    }
}

// ---- streams ----

/// The response to a stream call while it is written.
#[derive(Debug)]
pub struct StreamReply {
    pub kind: ContentKind,
    pub wants_gzip: bool,
    /// Whether the headers are written.
    pub applied: bool,
    /// Whether the frame that ends the stream is written.
    pub ended: bool,
}

/// The frame of a message of a stream.
pub open spec fn message_frame(p: Seq<u8>, wants_gzip: bool) -> Seq<u8> {
    if is_worth_compressing(wants_gzip, p.len() as int) {
        frame_bytes(1, gzipped(p))
    } else {
        frame_bytes(0, p)
    }
}

/// Whether a frame carries a message: as it is, or compressed.
pub open spec fn carries(f: Seq<u8>, p: Seq<u8>) -> bool {
    ||| f == frame_bytes(0, p)
    ||| exists|z: Seq<u8>| #![trigger frame_bytes(1, z)] f == frame_bytes(1, z) && gunzipped(z)
        == Some(p)
}

/// The headers of a stream: the content type, and what the handler has set.
pub open spec fn stream_headers(kind: ContentKind, response: HeaderView) -> HeaderView {
    merged(typed(type_for(true, kind)), response)
}

/// The error that the outcome of a stream handler comes to.
pub open spec fn outcome_error(result: Result<(), RPCError>) -> ErrorView {
    match result {
        Ok(_) => no_error(),
        Err(e) => e@,
    }
}

impl StreamReply {
    /// The headers, where they are not written yet.
    pub open spec fn pending(&self, response: HeaderView) -> Seq<EventView> {
        if self.applied {
            Seq::empty()
        } else {
            seq![EventView::Header(stream_headers(self.kind, response))]
        }
    }

    /// What is written for a message: nothing once the stream has ended.
    pub open spec fn emit_events(&self, response: HeaderView, p: Seq<u8>) -> Seq<EventView> {
        if self.ended {
            Seq::empty()
        } else {
            self.pending(response) + seq![EventView::Frame(message_frame(p, self.wants_gzip))]
        }
    }

    /// The reply once a message is written.
    pub open spec fn after_emit(&self) -> StreamReply {
        if self.ended {
            *self
        } else {
            StreamReply { applied: true, ..*self }
        }
    }

    /// What is written when the handler has come to `e`, no error where its code
    /// is 0: the headers where they are not written yet, and the frame that ends
    /// the stream where it is not.
    pub open spec fn finish_events(
        &self,
        response: HeaderView,
        e: ErrorView,
        trailing: HeaderView,
    ) -> Seq<EventView> {
        self.pending(response) + if self.ended {
            Seq::empty()
        } else {
            seq![EventView::Frame(frame_bytes(2, end_payload(e, trailing)))]
        }
    }

    /// Begins a stream. The status is 200 whatever comes.
    pub fn begin(w: &mut ResponseRecord, kind: ContentKind, wants_gzip: bool) -> (r: StreamReply)
        ensures
            final(w)@ == old(w)@.push(EventView::Status(200)),
            r == (StreamReply { kind, wants_gzip, applied: false, ended: false }),
    {
        w.status(200);
        StreamReply { kind, wants_gzip, applied: false, ended: false }
    }

    fn apply(&mut self, w: &mut ResponseRecord, ctx: &HandlerContext)
        ensures
            final(w)@ == old(w)@ + old(self).pending(ctx.response@),
            *final(self) == (StreamReply { applied: true, ..*old(self) }),
    {
        let ghost before = w@;
        let ghost pending = self.pending(ctx.response@);
        if !self.applied {
            self.applied = true;
            w.header(
                merge_response_headers(
                    typed_headers(content_type_for(true, self.kind)),
                    ctx.response_headers(),
                ),
            );
        }
        assert(w@ =~= before + pending);
    }

    /// Writes one message, at once; the first one brings the headers with it. A
    /// message that comes after the end is dropped.
    pub fn emit(&mut self, w: &mut ResponseRecord, ctx: &HandlerContext, p: Vec<u8>)
        ensures
            final(w)@ == old(w)@ + old(self).emit_events(ctx.response@, p@),
            *final(self) == old(self).after_emit(),
            !old(self).ended ==> carries(message_frame(p@, old(self).wants_gzip), p@),
    {
        let ghost start = w@;
        let ghost events = self.emit_events(ctx.response@, p@);
        if self.ended {
            assert(w@ =~= start + events);
            return;
        }
        self.apply(w, ctx);
        let ghost before = w@;
        if self.wants_gzip && p.len() >= COMPRESS_MIN_BYTES {
            let f = frame_compressed(&p);
            assert(f@.skip(5) =~= gzipped(p@));
            let _ = w.write_frame(f);
        } else {
            let _ = w.write_frame(frame(&p, false));
        }
        assert(w@ =~= before + seq![EventView::Frame(message_frame(p@, self.wants_gzip))]);
        assert(w@ =~= start + events);
    }

    /// Ends the stream with what the handler came to and the trailers that it has
    /// set. A stream ends once. What a client reads from the last frame is the
    /// error that survives the wire, and the trailers.
    pub fn finish(
        &mut self,
        w: &mut ResponseRecord,
        ctx: &HandlerContext,
        result: Result<(), RPCError>,
    )
        ensures
            final(w)@ == old(w)@ + old(self).finish_events(
                ctx.response@,
                outcome_error(result),
                ctx.trailing@,
            ),
            *final(self) == (StreamReply { applied: true, ended: true, ..*old(self) }),
            !old(self).ended ==> {
                let payload = end_payload(outcome_error(result), ctx.trailing@);
                &&& end_error(payload) == carried_end(outcome_error(result))
                &&& end_metadata(payload) == ctx.trailing@
            },
    {
        let ghost start = w@;
        let ghost events = self.finish_events(ctx.response@, outcome_error(result), ctx.trailing@);
        self.apply(w, ctx);
        if self.ended {
            assert(w@ =~= start + events);
            return;
        }
        self.ended = true;
        let payload = match &result {
            Err(e) => {
                assert(error_of(e.code as int, e.message@, e.details@) == e@);
                encode_end_stream_meta(e.code, &e.message, &e.details, ctx.trailers())
            },
            Ok(_) => {
                let none: Vec<crate::message::ErrorDetail> = Vec::new();
                proof {
                    reveal_strlit("");
                    assert(error_of(0, ""@, none@).details =~= no_error().details);
                    assert(""@ =~= Seq::<char>::empty());
                }
                encode_end_stream_meta(0, "", &none, ctx.trailers())
            },
        };
        let _ = w.write_frame(frame(&payload, true));
        assert(w@ =~= start + events);
    }
}

// ---- laws ----

/// A message, with the headers that its handler had set when it came.
pub struct Emission {
    pub response: HeaderView,
    pub message: Seq<u8>,
}

/// The reply once the messages are written.
pub open spec fn after_emissions(r: StreamReply, emissions: Seq<Emission>) -> StreamReply
    decreases emissions.len(),
{
    if emissions.len() == 0 {
        r
    } else {
        after_emissions(r, emissions.drop_last()).after_emit()
    }
}

/// What is written for messages, in order.
pub open spec fn emission_events(r: StreamReply, emissions: Seq<Emission>) -> Seq<EventView>
    decreases emissions.len(),
{
    if emissions.len() == 0 {
        Seq::empty()
    } else {
        let last = emissions.last();
        emission_events(r, emissions.drop_last()) + after_emissions(
            r,
            emissions.drop_last(),
        ).emit_events(last.response, last.message)
    }
}

/// The frames of messages, as they are written to a response.
pub open spec fn emission_frames(emissions: Seq<Emission>, wants_gzip: bool) -> Seq<EventView> {
    emissions.map_values(|e: Emission| EventView::Frame(message_frame(e.message, wants_gzip)))
}

proof fn lemma_emissions(r: StreamReply, emissions: Seq<Emission>)
    requires
        !r.ended,
    ensures
        after_emissions(r, emissions) == if emissions.len() == 0 {
            r
        } else {
            (StreamReply { applied: true, ..r })
        },
        emission_events(r, emissions) == if emissions.len() == 0 {
            Seq::empty()
        } else {
            r.pending(emissions[0].response) + emission_frames(emissions, r.wants_gzip)
        },
    decreases emissions.len(),
{
    if emissions.len() > 0 {
        let fewer = emissions.drop_last();
        lemma_emissions(r, fewer);
        let frames = emission_frames(emissions, r.wants_gzip);
        assert(frames =~= emission_frames(fewer, r.wants_gzip).push(
            EventView::Frame(message_frame(emissions.last().message, r.wants_gzip)),
        ));
        assert(emission_events(r, emissions) =~= r.pending(emissions[0].response) + frames);
    }
}

/// The response of a stream call is one response: the status, then the headers as
/// they stood when the first message came, or at the end where none came, then the
/// messages in order, and then the frame that ends the stream, once.
pub proof fn law_stream_is_one_response(
    kind: ContentKind,
    wants_gzip: bool,
    emissions: Seq<Emission>,
    response: HeaderView,
    e: ErrorView,
    trailing: HeaderView,
)
    ensures
        ({
            let begun = StreamReply { kind, wants_gzip, applied: false, ended: false };
            let first = if emissions.len() > 0 {
                emissions[0].response
            } else {
                response
            };
            seq![EventView::Status(200)] + emission_events(begun, emissions) + after_emissions(
                begun,
                emissions,
            ).finish_events(response, e, trailing) == seq![
                EventView::Status(200),
                EventView::Header(stream_headers(kind, first)),
            ] + emission_frames(emissions, wants_gzip) + seq![
                EventView::Frame(frame_bytes(2, end_payload(e, trailing))),
            ]
        }),
{
    let begun = StreamReply { kind, wants_gzip, applied: false, ended: false };
    lemma_emissions(begun, emissions);
    let end = seq![EventView::Frame(frame_bytes(2, end_payload(e, trailing)))];
    let frames = emission_frames(emissions, wants_gzip);
    let status = seq![EventView::Status(200)];
    let finish = after_emissions(begun, emissions).finish_events(response, e, trailing);
    if emissions.len() == 0 {
        assert(status + emission_events(begun, emissions) + finish =~= seq![
            EventView::Status(200),
            EventView::Header(stream_headers(kind, response)),
        ] + frames + end);
    } else {
        let first = emissions[0].response;
        assert(status + emission_events(begun, emissions) + finish =~= seq![
            EventView::Status(200),
            EventView::Header(stream_headers(kind, first)),
        ] + frames + end);
    }
}

/// A message of a stream is compressed just where the client can read that and it
/// has at least a kilobyte; else its frame holds it as it is.
pub proof fn law_message_frames(p: Seq<u8>, wants_gzip: bool)
    ensures
        !wants_gzip ==> message_frame(p, wants_gzip) == frame_bytes(0, p),
        p.len() < 1024 ==> message_frame(p, wants_gzip) == frame_bytes(0, p),
        wants_gzip && p.len() >= 1024 ==> message_frame(p, wants_gzip) == frame_bytes(
            1,
            gzipped(p),
        ),
{
}

/// The answer of a unary call is compressed just where the client can read that and
/// it has at least a kilobyte; else the body of the response is the answer. The
/// headers say that it is compressed just where it is.
pub proof fn law_answers_are_compressed(
    b: Seq<u8>,
    wants_gzip: bool,
    kind: ContentKind,
    response: HeaderView,
    trailing: HeaderView,
)
    ensures
        ({
            let events = unary_reply(OutcomeView::Answer(b), wants_gzip, kind, response, trailing);
            let headers = events[1]->Header_0;
            &&& events.len() == 3
            &&& events[0] == EventView::Status(200)
            &&& events[1] is Header
            &&& wants_gzip && b.len() >= 1024 ==> {
                &&& events[2] == EventView::Frame(gzipped(b))
                &&& headers.dom().contains("content-encoding"@)
                &&& headers["content-encoding"@] == seq!["gzip"@] + values_of(
                    response,
                    "content-encoding"@,
                )
            }
            &&& !wants_gzip || b.len() < 1024 ==> {
                &&& events[2] == EventView::Frame(b)
                &&& headers.dom().contains("content-encoding"@) == response.dom().contains(
                    "content-encoding"@,
                )
                &&& values_of(headers, "content-encoding"@) == values_of(
                    response,
                    "content-encoding"@,
                )
            }
        }),
{
    let compressed = wants_gzip && b.len() >= 1024;
    lemma_fixed_names();
    law_answer_headers(b, compressed, kind, response, trailing, "content-encoding"@);
}

proof fn lemma_fixed_names()
    ensures
        !is_trailer_name("content-type"@),
        !is_trailer_name("content-encoding"@),
        "content-type"@ != "content-encoding"@,
{
    reveal_strlit("trailer-");
    reveal_strlit("content-type");
    reveal_strlit("content-encoding");
    assert("trailer-"@[0] != "content-type"@.subrange(0, 8)[0]);
    assert("trailer-"@[0] != "content-encoding"@.subrange(0, 8)[0]);
    assert("content-type"@.len() != "content-encoding"@.len());
}

/// Every header that a handler has set goes out with its answer, compressed or not,
/// with all its values and in their order: alone, or behind the values that the
/// name has from the compression or from a trailer. A trailer goes out under its
/// name with a prefix. The content type alone is that of the codec, whatever the
/// handler has set, and no other name goes out.
pub proof fn law_answer_headers(
    body: Seq<u8>,
    compressed: bool,
    kind: ContentKind,
    response: HeaderView,
    trailing: HeaderView,
    k: Seq<char>,
)
    ensures
        ({
            let events = answer_reply(body, compressed, kind, response, trailing);
            let headers = events[1]->Header_0;
            let trails = is_trailer_name(k) && trailing.dom().contains(k.skip(8));
            let tells = compressed && k == "content-encoding"@;
            &&& events.len() == 3
            &&& events[0] == EventView::Status(200)
            &&& events[1] is Header
            &&& events[2] == EventView::Frame(body)
            &&& k == "content-type"@ ==> headers.dom().contains(k) && headers[k] == seq![
                type_for(false, kind),
            ]
            &&& k != "content-type"@ ==> {
                &&& headers.dom().contains(k) <==> response.dom().contains(k) || trails || tells
                &&& response.dom().contains(k) && !trails && !tells ==> headers[k] == response[k]
                &&& trails ==> headers[k] == trailing[k.skip(8)] + values_of(response, k)
                &&& tells ==> headers[k] == seq!["gzip"@] + values_of(response, k)
            }
        }),
{
    lemma_fixed_names();
    let base = if compressed {
        map!["content-encoding"@ => seq![ENCODING_GZIP@]]
    } else {
        Map::<Seq<char>, Seq<Seq<char>>>::empty()
    };
    let all = muxed(base, trailing);
    let headers = answer_headers(compressed, kind, response, trailing);
    let trails = is_trailer_name(k) && trailing.dom().contains(k.skip(8));
    let tells = compressed && k == "content-encoding"@;
    let none = Seq::<Seq<char>>::empty();
    if k != "content-type"@ && headers.dom().contains(k) {
        assert(headers[k] == values_of(all, k) + values_of(response, k));
        if trails {
            assert(values_of(all, k) =~= trailing[k.skip(8)]);
        } else if tells {
            assert(values_of(all, k) =~= seq!["gzip"@]);
        } else {
            assert(values_of(all, k) =~= none);
            assert(none + values_of(response, k) =~= values_of(response, k));
        }
    }
}

/// The error of a handler goes out with the status of its code and the document of
/// the error, and with every header and trailer that the handler has set: the
/// content type of an error comes first under its name, a trailer behind a header
/// that has its name. No other name goes out.
pub proof fn law_failure_headers(
    e: ErrorView,
    response: HeaderView,
    trailing: HeaderView,
    k: Seq<char>,
)
    ensures
        ({
            let events = failure_reply(e, response, trailing);
            let headers = events[1]->Header_0;
            let trails = is_trailer_name(k) && trailing.dom().contains(k.skip(8));
            &&& events.len() == 3
            &&& events[0] == EventView::Status(status_of_code(e.code))
            &&& events[1] is Header
            &&& events[2] == EventView::Frame(json_text(error_tree(e)))
            &&& headers.dom().contains(k) <==> response.dom().contains(k) || trails || k
                == "content-type"@
            &&& k == "content-type"@ ==> headers[k] == seq!["application/json"@] + values_of(
                response,
                k,
            )
            &&& k != "content-type"@ && response.dom().contains(k) && !trails ==> headers[k]
                == response[k]
            &&& trails ==> headers[k] == values_of(response, k) + trailing[k.skip(8)]
        }),
{
    lemma_fixed_names();
    let base = merged(typed("application/json"@), response);
    let headers = muxed(base, trailing);
    let trails = is_trailer_name(k) && trailing.dom().contains(k.skip(8));
    let none = Seq::<Seq<char>>::empty();
    if headers.dom().contains(k) {
        if k == "content-type"@ {
            assert(headers[k] =~= seq!["application/json"@] + values_of(response, k));
        } else {
            assert(values_of(base, k) =~= values_of(response, k));
            if trails {
                assert(headers[k] =~= values_of(response, k) + trailing[k.skip(8)]);
            } else {
                assert(headers[k] =~= values_of(response, k));
            }
        }
    }
}

/// The headers of a stream are those that its handler has set, and the content type
/// of the stream, which comes first under its name.
pub proof fn law_stream_headers(kind: ContentKind, response: HeaderView, k: Seq<char>)
    ensures
        stream_headers(kind, response).dom().contains(k) <==> response.dom().contains(k) || k
            == "content-type"@,
        k == "content-type"@ ==> stream_headers(kind, response)[k] == seq![type_for(true, kind)]
            + values_of(response, k),
        k != "content-type"@ && response.dom().contains(k) ==> stream_headers(kind, response)[k]
            == response[k],
{
    let none = Seq::<Seq<char>>::empty();
    if k != "content-type"@ && response.dom().contains(k) {
        assert(values_of(typed(type_for(true, kind)), k) =~= none);
        assert(none + response[k] =~= response[k]);
    }
}

/// The outcome of a unary call decides its response: an error makes a response with
/// the status and the document of the error, whatever the client can read.
pub proof fn law_failures_are_not_compressed(
    e: ErrorView,
    wants_gzip: bool,
    kind: ContentKind,
    response: HeaderView,
    trailing: HeaderView,
)
    ensures
        ({
            let events = unary_reply(OutcomeView::Failure(e), wants_gzip, kind, response, trailing);
            &&& events.len() == 3
            &&& events[0] == EventView::Status(status_of_code(e.code))
            &&& events[1] == failure_reply(e, response, trailing)[1]
            &&& events[2] == EventView::Frame(json_text(error_tree(e)))
        }),
{
}

/// An error that is written before a call is made goes out with the status that it
/// is given and the document of the error; one of a stream with the status 200 and
/// the error on the frame that ends the stream. Either has its content type for
/// its only header.
pub proof fn law_error_replies(e: ErrorView, status: int, kind: ContentKind, k: Seq<char>)
    ensures
        ({
            let events = error_reply(e, status);
            let headers = events[1]->Header_0;
            &&& events.len() == 3
            &&& events[0] == EventView::Status(status)
            &&& events[1] is Header
            &&& headers.dom().contains(k) <==> k == "content-type"@
            &&& headers["content-type"@] == seq!["application/json"@]
            &&& events[2] == EventView::Frame(json_text(error_tree(e)))
        }),
        ({
            let events = stream_failure(e, kind);
            let headers = events[1]->Header_0;
            &&& events.len() == 3
            &&& events[0] == EventView::Status(200)
            &&& events[1] is Header
            &&& headers.dom().contains(k) <==> k == "content-type"@
            &&& headers["content-type"@] == seq![type_for(true, kind)]
            &&& events[2] == EventView::Frame(frame_bytes(2, end_payload(e, Map::empty())))
        }),
{
}

/// A message is written as one frame, behind the headers where they are not written
/// yet; a stream that has ended takes no message and does not end again.
pub proof fn law_stream_steps(
    r: StreamReply,
    response: HeaderView,
    p: Seq<u8>,
    e: ErrorView,
    trailing: HeaderView,
)
    ensures
        !r.ended && r.applied ==> r.emit_events(response, p) == seq![
            EventView::Frame(message_frame(p, r.wants_gzip)),
        ],
        !r.ended && !r.applied ==> r.emit_events(response, p) == seq![
            EventView::Header(stream_headers(r.kind, response)),
            EventView::Frame(message_frame(p, r.wants_gzip)),
        ],
        !r.ended ==> r.after_emit() == (StreamReply {
            kind: r.kind,
            wants_gzip: r.wants_gzip,
            applied: true,
            ended: false,
        }),
        r.ended ==> r.emit_events(response, p).len() == 0 && r.after_emit() == r,
        r.ended && r.applied ==> r.finish_events(response, e, trailing).len() == 0,
        !r.ended && r.applied ==> r.finish_events(response, e, trailing) == seq![
            EventView::Frame(frame_bytes(2, end_payload(e, trailing))),
        ],
        !r.ended && !r.applied ==> r.finish_events(response, e, trailing) == seq![
            EventView::Header(stream_headers(r.kind, response)),
            EventView::Frame(frame_bytes(2, end_payload(e, trailing))),
        ],
{
    let none = Seq::<EventView>::empty();
    let f = seq![EventView::Frame(message_frame(p, r.wants_gzip))];
    let z = seq![EventView::Frame(frame_bytes(2, end_payload(e, trailing)))];
    assert(none + f =~= f);
    assert(none + z =~= z);
    if !r.ended && !r.applied {
        let h = EventView::Header(stream_headers(r.kind, response));
        assert(seq![h] + f =~= seq![h, f[0]]);
        assert(seq![h] + z =~= seq![h, z[0]]);
    }
}

/// What is written is seen as it is, in order, and so is what a handler comes to.
pub proof fn law_event_views(
    v: Seq<WriteEvent>,
    i: int,
    b: Vec<u8>,
    e: RPCError,
)
    ensures
        event_views(v).len() == v.len(),
        0 <= i < v.len() ==> {
            &&& v[i] is Status ==> event_views(v)[i] == EventView::Status(v[i]->Status_0 as int)
            &&& v[i] is Header ==> event_views(v)[i] == EventView::Header(v[i]->Header_0@)
            &&& v[i] is Frame ==> event_views(v)[i] == EventView::Frame(v[i]->Frame_0@)
        },
        outcome_view(Ok(b)) == OutcomeView::Answer(b@),
        outcome_view(Err(e)) == OutcomeView::Failure(e@),
        outcome_error(Ok(())).code == 0,
        outcome_error(Err(e)) == e@,
{
}

} // verus!
