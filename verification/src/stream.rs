//! The client side of a stream: frames are put together from the chunks in which
//! they arrive, and read until the one that ends the stream.
use crate::content::ContentKind;
use crate::framing::{
    frame_bytes, frame_payload, frame_rest, has_frame, is_compressed, is_end,
    law_frame_ignores_later_bytes, law_frame_reads_back, read_length,
};
use crate::gzip::{bytes_view, corrupt_gzip, gunzip, gunzipped};
use crate::headers::{HeaderView, Headers};
use crate::message::{error_view, plain_error, ErrorDetail, ErrorView, RPCError};
use crate::reply::{
    after_emissions, carries, emission_events, emission_frames, law_stream_is_one_response,
    message_frame, Emission, EventView, StreamReply,
};
use crate::wire_error::{
    carried_end, decode_end_stream, end_error, end_metadata, end_payload, error_of,
};
use vstd::prelude::*;

verus! {

/// A stream that is read.
#[derive(Debug)]
pub struct StreamDecoder {
    /// What has arrived and is not read yet.
    pub buf: Vec<u8>,
    /// The error that the stream has come to.
    pub err: Option<RPCError>,
    /// Whether the frame that ends the stream is read.
    pub ended: bool,
    /// The metadata of the frame that ends the stream.
    pub trailers: Headers,
}

/// A stream that is read, as plain values.
pub struct DecoderView {
    pub buf: Seq<u8>,
    pub err: Option<ErrorView>,
    pub ended: bool,
    pub trailers: HeaderView,
}

impl View for StreamDecoder {
    type V = DecoderView;

    open spec fn view(&self) -> DecoderView {
        DecoderView {
            buf: self.buf@,
            err: error_view(self.err),
            ended: self.ended,
            trailers: self.trailers@,
        }
    }
}

/// What reading on comes to.
#[derive(Debug)]
pub enum StreamStep {
    /// A message.
    Message(Vec<u8>),
    /// There is no further message.
    Done,
    /// The next frame is not all there.
    More,
}

/// What reading on comes to, as plain values.
pub enum StepView {
    Message(Seq<u8>),
    Done,
    More,
}

impl View for StreamStep {
    type V = StepView;

    open spec fn view(&self) -> StepView {
        match self {
            StreamStep::Message(m) => StepView::Message(m@),
            StreamStep::Done => StepView::Done,
            StreamStep::More => StepView::More,
        }
    }
}

/// The stream before anything has arrived.
pub open spec fn fresh() -> DecoderView {
    DecoderView { buf: Seq::empty(), err: None, ended: false, trailers: Map::empty() }
}

/// The stream once more bytes have arrived.
pub open spec fn fed(d: DecoderView, chunk: Seq<u8>) -> DecoderView {
    DecoderView { buf: d.buf + chunk, ..d }
}

/// What the frame that ends a stream leaves behind: its error, where it carries
/// one, and its metadata.
pub open spec fn closed_by(d: DecoderView, error: ErrorView, metadata: HeaderView) -> DecoderView {
    DecoderView {
        err: if error.code != 0 {
            Some(error)
        } else {
            d.err
        },
        ended: true,
        trailers: metadata,
        ..d
    }
}

/// What a frame comes to whose payload was decompressed to `plain`: an error
/// where it could not be, never the compressed bytes.
pub open spec fn taken(d: DecoderView, flags: u8, plain: Option<Seq<u8>>) -> (StepView, DecoderView) {
    match plain {
        None => (StepView::Done, DecoderView { err: Some(corrupt_gzip()), ..d }),
        Some(p) => if is_end(flags) {
            (StepView::Done, closed_by(d, end_error(p), end_metadata(p)))
        } else {
            (StepView::Message(p), d)
        },
    }
}

/// The payload of the first frame, decompressed where it is compressed.
pub open spec fn plain_payload(buf: Seq<u8>) -> Option<Seq<u8>> {
    if is_compressed(buf[0]) {
        gunzipped(frame_payload(buf))
    } else {
        Some(frame_payload(buf))
    }
}

/// What reading on comes to, and the stream after it.
pub open spec fn next_step(d: DecoderView) -> (StepView, DecoderView) {
    if d.ended {
        (StepView::Done, d)
    } else if !has_frame(d.buf) {
        (StepView::More, d)
    } else {
        taken(DecoderView { buf: frame_rest(d.buf), ..d }, d.buf[0], plain_payload(d.buf))
    }
}

/// The error of a stream that has no further bytes: inside a frame, or before the
/// frame that ends it.
pub open spec fn cut_off(d: DecoderView) -> DecoderView {
    if d.buf.len() > 0 {
        DecoderView { err: Some(plain_error(13, "truncated frame at end of stream"@)), ..d }
    } else if !d.ended {
        DecoderView { err: Some(plain_error(13, "stream ended without END frame"@)), ..d }
    } else {
        d
    }
}

impl StreamDecoder {
    /// A stream of which nothing has arrived.
    pub fn new() -> (r: StreamDecoder)
        ensures
            r@ == fresh(),
    {
        let r = StreamDecoder { buf: Vec::new(), err: None, ended: false, trailers: Headers::new() };
        assert(r@.buf =~= Seq::empty());
        r
    }

    /// Takes a chunk that has arrived. A frame may be split anywhere.
    pub fn feed(&mut self, chunk: &[u8])
        ensures
            final(self)@ == fed(old(self)@, chunk@),
    {
        let ghost before = self.buf@;
        self.buf.extend_from_slice(chunk);
        assert(self.buf@ =~= before + chunk@);
    }

    /// Ends the stream with the contents of its last frame.
    pub fn close_with(
        &mut self,
        code: i32,
        message: String,
        details: Vec<ErrorDetail>,
        metadata: Headers,
    )
        ensures
            final(self)@ == closed_by(
                old(self)@,
                error_of(code as int, message@, details@),
                metadata@,
            ),
    {
        self.ended = true;
        self.trailers = metadata;
        if code != 0 {
            self.err = Some(RPCError { code, message, details });
        }
    }

    /// Takes a frame that is off the buffer, with what its payload was
    /// decompressed to.
    pub fn take_frame(&mut self, flags: u8, plain: Option<Vec<u8>>) -> (r: StreamStep)
        ensures
            (r@, final(self)@) == taken(old(self)@, flags, bytes_view(plain)),
    {
        match plain {
            None => {
                self.err = Some(RPCError::new(13, "corrupt gzip data"));
                StreamStep::Done
            },
            Some(p) => {
                if flags / 2 % 2 == 1 {
                    let (code, message, details, metadata) = decode_end_stream(&p);
                    self.close_with(code, message, details, metadata);
                    StreamStep::Done
                } else {
                    StreamStep::Message(p)
                }
            },
        }
    }

    /// Reads on: the next message, if it is all there.
    pub fn step(&mut self) -> (r: StreamStep)
        ensures
            (r@, final(self)@) == next_step(old(self)@),
    {
        if self.ended {
            return StreamStep::Done;
        }
        if self.buf.len() < 5 {
            return StreamStep::More;
        }
        let flags = self.buf[0];
        let len = read_length(&self.buf, 1) as usize;
        if self.buf.len() - 5 < len {
            return StreamStep::More;
        }
        let ghost whole = self.buf@;
        let payload = vstd::slice::slice_to_vec(
            vstd::slice::slice_subrange(self.buf.as_slice(), 5, 5 + len),
        );
        let rest = self.buf.split_off(5 + len);
        self.buf = rest;
        assert(payload@ =~= frame_payload(whole));
        assert(self.buf@ =~= frame_rest(whole));
        let plain = if flags % 2 == 1 {
            gunzip(&payload)
        } else {
            Some(payload)
        };
        self.take_frame(flags, plain)
    }

    /// Ends the stream with an error of the connection.
    pub fn fail(&mut self, message: &str)
        ensures
            final(self)@ == (DecoderView { err: Some(plain_error(13, message@)), ..old(self)@ }),
    {
        self.err = Some(RPCError::new(13, message));
    }

    /// Takes the end of the connection.
    pub fn finish(&mut self)
        ensures
            final(self)@ == cut_off(old(self)@),
    {
        if self.buf.len() > 0 {
            self.fail("truncated frame at end of stream");
        } else if !self.ended {
            self.fail("stream ended without END frame");
        }
    }

    /// The error that the stream has come to.
    pub fn last_error(&self) -> (r: Option<RPCError>)
        ensures
            error_view(r) == self@.err,
    {
        match &self.err {
            Some(e) => Some(e.clone()),
            None => None,
        }
    }
}

// ---- laws ----

/// A stream read as far as it goes: the messages, what stopped the reading, and
/// the stream after it.
pub struct Run {
    pub messages: Seq<Seq<u8>>,
    pub stop: StepView,
    pub rest: DecoderView,
}

/// Reads a stream as far as it goes.
pub open spec fn run(d: DecoderView) -> Run
    decreases d.buf.len(),
{
    let (step, rest) = next_step(d);
    match step {
        StepView::Message(m) => if rest.buf.len() < d.buf.len() {
            let later = run(rest);
            Run { messages: seq![m] + later.messages, ..later }
        } else {
            Run { messages: Seq::empty(), stop: step, rest }
        },
        _ => Run { messages: Seq::empty(), stop: step, rest },
    }
}

/// Reading a message takes it off the buffer: reading on comes to an end.
pub proof fn law_reading_advances(d: DecoderView)
    ensures
        next_step(d).0 is Message ==> next_step(d).1.buf.len() < d.buf.len(),
        !(run(d).stop is Message),
    decreases d.buf.len(),
{
    if next_step(d).0 is Message {
        assert(frame_rest(d.buf).len() < d.buf.len());
        law_reading_advances(next_step(d).1);
    }
}

proof fn lemma_step_ignores_later_bytes(d: DecoderView, later: Seq<u8>)
    requires
        !(next_step(d).0 is More),
    ensures
        next_step(fed(d, later)).0 == next_step(d).0,
        next_step(fed(d, later)).1 == fed(next_step(d).1, later),
{
    if !d.ended {
        law_frame_ignores_later_bytes(d.buf, later);
    }
}

/// However a stream is cut into chunks, the same is read from it: reading what
/// has arrived and then the rest comes to the same as reading all of it at once.
pub proof fn law_chunks_make_no_difference(d: DecoderView, later: Seq<u8>)
    ensures
        run(d).stop is More ==> {
            let second = run(fed(run(d).rest, later));
            &&& run(fed(d, later)).messages == run(d).messages + second.messages
            &&& run(fed(d, later)).stop == second.stop
            &&& run(fed(d, later)).rest == second.rest
        },
        run(d).stop is Done ==> {
            &&& run(fed(d, later)).messages == run(d).messages
            &&& run(fed(d, later)).stop == run(d).stop
            &&& run(fed(d, later)).rest == fed(run(d).rest, later)
        },
    decreases d.buf.len(),
{
    let (step, rest) = next_step(d);
    match step {
        StepView::More => {
            assert(run(d).rest == d);
            assert(run(d).messages + run(fed(d, later)).messages =~= run(fed(d, later)).messages);
        },
        StepView::Done => {
            lemma_step_ignores_later_bytes(d, later);
        },
        StepView::Message(m) => {
            law_reading_advances(d);
            lemma_step_ignores_later_bytes(d, later);
            law_reading_advances(fed(d, later));
            law_chunks_make_no_difference(rest, later);
            if run(d).stop is More {
                let second = run(fed(run(rest).rest, later));
                assert(seq![m] + (run(rest).messages + second.messages) =~= (seq![m] + run(
                    rest,
                ).messages) + second.messages);
            }
        },
    }
}

/// The bytes of frames, one after the other.
pub open spec fn concatenated(frames: Seq<Seq<u8>>) -> Seq<u8>
    decreases frames.len(),
{
    if frames.len() == 0 {
        Seq::empty()
    } else {
        frames[0] + concatenated(frames.drop_first())
    }
}

/// Puts frames together, one after the other.
pub fn collect_frames(frames: &[Vec<u8>]) -> (out: Vec<u8>)
    ensures
        out@ == concatenated(frames@.map_values(|f: Vec<u8>| f@)),
{
    let ghost all = frames@.map_values(|f: Vec<u8>| f@);
    let mut out: Vec<u8> = Vec::new();
    let mut i: usize = 0;
    assert(all.skip(0) =~= all);
    assert(out@ + concatenated(all) =~= concatenated(all));
    while i < frames.len()
        invariant
            i <= frames@.len(),
            all == frames@.map_values(|f: Vec<u8>| f@),
            out@ + concatenated(all.skip(i as int)) == concatenated(all),
        decreases frames@.len() - i,
    {
        let ghost before = out@;
        let ghost rest = all.skip(i as int);
        out.extend_from_slice(&frames[i]);
        proof {
            assert(rest[0] == frames@[i as int]@);
            assert(rest.drop_first() =~= all.skip(i + 1));
            assert(out@ =~= before + rest[0]);
            assert(out@ + concatenated(all.skip(i + 1)) =~= before + (rest[0] + concatenated(
                all.skip(i + 1),
            )));
        }
        i += 1;
    }
    assert(out@ + concatenated(all.skip(i as int)) =~= out@);
    out
}

/// Whether the frames carry the messages, in order, in payloads that the length
/// field can hold.
pub open spec fn all_carried(frames: Seq<Seq<u8>>, messages: Seq<Seq<u8>>) -> bool {
    &&& frames.len() == messages.len()
    &&& forall|i: int|
        0 <= i < frames.len() ==> carries(#[trigger] frames[i], messages[i]) && frames[i].len()
            < 0x1_0000_0005
}

/// A frame that carries a message is read as that message, and what follows is
/// left.
pub proof fn law_message_reads_back(d: DecoderView, f: Seq<u8>, p: Seq<u8>, after: Seq<u8>)
    requires
        carries(f, p),
        f.len() < 0x1_0000_0005,
        !d.ended,
        d.buf == f + after,
    ensures
        next_step(d) == (StepView::Message(p), DecoderView { buf: after, ..d }),
{
    if f == frame_bytes(0, p) {
        assert(f.len() == 5 + p.len());
        law_frame_reads_back(0, p, after);
    } else {
        let z = choose|z: Seq<u8>|
            #![trigger frame_bytes(1, z)]
            f == frame_bytes(1, z) && gunzipped(z) == Some(p);
        assert(f.len() == 5 + z.len());
        law_frame_reads_back(1, z, after);
    }
}

proof fn lemma_run_message(d: DecoderView, f: Seq<u8>, p: Seq<u8>, after: Seq<u8>)
    requires
        carries(f, p),
        f.len() < 0x1_0000_0005,
        !d.ended,
        d.buf == f + after,
    ensures
        ({
            let later = run(DecoderView { buf: after, ..d });
            &&& run(d).messages == seq![p] + later.messages
            &&& run(d).stop == later.stop
            &&& run(d).rest == later.rest
        }),
{
    law_message_reads_back(d, f, p, after);
    law_reading_advances(d);
}

proof fn lemma_carried_tail(frames: Seq<Seq<u8>>, messages: Seq<Seq<u8>>)
    requires
        all_carried(frames, messages),
        frames.len() > 0,
    ensures
        all_carried(frames.drop_first(), messages.drop_first()),
        carries(frames[0], messages[0]),
        frames[0].len() < 0x1_0000_0005,
{
    let fs = frames.drop_first();
    let ms = messages.drop_first();
    assert(carries(frames[0], messages[0]));
    assert forall|i: int| 0 <= i < fs.len() implies carries(#[trigger] fs[i], ms[i])
        && fs[i].len() < 0x1_0000_0005 by {
        assert(carries(frames[i + 1], messages[i + 1]));
        assert(fs[i] == frames[i + 1] && ms[i] == messages[i + 1]);
    }
}

/// What a server writes to a stream is what a client reads from it: the messages
/// in order, then the error and the trailers that the last frame was given. Bytes
/// behind the last frame are not read.
pub proof fn law_stream_reads_back(
    d: DecoderView,
    frames: Seq<Seq<u8>>,
    messages: Seq<Seq<u8>>,
    end: Seq<u8>,
    after: Seq<u8>,
)
    requires
        all_carried(frames, messages),
        end.len() < 0x1_0000_0000,
        !d.ended,
        d.buf == concatenated(frames) + frame_bytes(2, end) + after,
    ensures
        run(d).messages == messages,
        run(d).stop is Done,
        run(d).rest == closed_by(
            DecoderView { buf: after, ..d },
            end_error(end),
            end_metadata(end),
        ),
    decreases frames.len(),
{
    let tail = frame_bytes(2, end) + after;
    if frames.len() == 0 {
        assert(d.buf =~= tail);
        law_frame_reads_back(2, end, after);
        assert(run(d).messages =~= messages);
    } else {
        let f = frames[0];
        let p = messages[0];
        let fs = frames.drop_first();
        let ms = messages.drop_first();
        let left = concatenated(fs) + frame_bytes(2, end) + after;
        assert(d.buf =~= f + left);
        lemma_carried_tail(frames, messages);
        lemma_run_message(d, f, p, left);
        law_stream_reads_back(DecoderView { buf: left, ..d }, fs, ms, end, after);
        assert(seq![p] + ms =~= messages);
    }
}

/// A stream that is cut off before its last frame is read as the messages that
/// are all there, and then comes to an error: no part of a message is handed out.
pub proof fn law_cut_off_stream_fails(
    d: DecoderView,
    frames: Seq<Seq<u8>>,
    messages: Seq<Seq<u8>>,
    partial: Seq<u8>,
)
    requires
        all_carried(frames, messages),
        !has_frame(partial),
        !d.ended,
        d.buf == concatenated(frames) + partial,
    ensures
        run(d).messages == messages,
        run(d).stop is More,
        run(d).rest == (DecoderView { buf: partial, ..d }),
        cut_off(run(d).rest).err is Some,
        cut_off(run(d).rest).err->0.code == 13,
    decreases frames.len(),
{
    if frames.len() == 0 {
        assert(d.buf =~= partial);
        assert(run(d).messages =~= messages);
    } else {
        let f = frames[0];
        let p = messages[0];
        let fs = frames.drop_first();
        let ms = messages.drop_first();
        let left = concatenated(fs) + partial;
        assert(d.buf =~= f + left);
        lemma_carried_tail(frames, messages);
        lemma_run_message(d, f, p, left);
        law_cut_off_stream_fails(DecoderView { buf: left, ..d }, fs, ms, partial);
        assert(seq![p] + ms =~= messages);
    }
}

/// Data that claims to be compressed and cannot be decompressed is never handed
/// out: the stream comes to an error.
pub proof fn law_corrupt_data_fails(d: DecoderView)
    requires
        !d.ended,
        has_frame(d.buf),
        is_compressed(d.buf[0]),
        gunzipped(frame_payload(d.buf)) is None,
    ensures
        run(d).messages == Seq::<Seq<u8>>::empty(),
        run(d).stop is Done,
        run(d).rest.err == Some(corrupt_gzip()),
{
}

/// The body of a response: the bytes of its frames.
pub open spec fn written(events: Seq<EventView>) -> Seq<u8>
    decreases events.len(),
{
    if events.len() == 0 {
        Seq::empty()
    } else {
        match events[0] {
            EventView::Frame(b) => b + written(events.drop_first()),
            _ => written(events.drop_first()),
        }
    }
}

/// Parts of a response that are written one after the other make up its body in
/// that order.
pub proof fn law_written_in_order(a: Seq<EventView>, b: Seq<EventView>)
    ensures
        written(a + b) == written(a) + written(b),
    decreases a.len(),
{
    if a.len() == 0 {
        assert(a + b =~= b);
        assert(written(a) + written(b) =~= written(b));
    } else {
        assert((a + b).drop_first() =~= a.drop_first() + b);
        law_written_in_order(a.drop_first(), b);
        match a[0] {
            EventView::Frame(f) => {
                assert(f + (written(a.drop_first()) + written(b)) =~= (f + written(a.drop_first()))
                    + written(b));
            },
            _ => {},
        }
    }
}

/// Frames as they are written to a response.
pub open spec fn frame_events(frames: Seq<Seq<u8>>) -> Seq<EventView> {
    frames.map_values(|f: Seq<u8>| EventView::Frame(f))
}

proof fn lemma_frames_written(frames: Seq<Seq<u8>>)
    ensures
        written(frame_events(frames)) == concatenated(frames),
    decreases frames.len(),
{
    if frames.len() > 0 {
        assert(frame_events(frames).drop_first() =~= frame_events(frames.drop_first()));
        lemma_frames_written(frames.drop_first());
    }
}

/// The response of a stream call whose handler has emitted the messages that the
/// frames carry, and has then come to `e` (no error where its code is 0).
pub open spec fn stream_response(
    headers: HeaderView,
    frames: Seq<Seq<u8>>,
    e: ErrorView,
    trailers: HeaderView,
) -> Seq<EventView> {
    seq![EventView::Status(200), EventView::Header(headers)] + frame_events(frames) + seq![
        EventView::Frame(frame_bytes(2, end_payload(e, trailers))),
    ]
}

/// A client that is sent the body of a stream response reads every message in
/// order, then the error that survives the wire, if there is one, and all the
/// trailers. What is asked of the last frame is what is ensured of it when it is
/// written.
pub proof fn law_stream_response_reads_back(
    headers: HeaderView,
    frames: Seq<Seq<u8>>,
    messages: Seq<Seq<u8>>,
    e: ErrorView,
    trailers: HeaderView,
)
    requires
        all_carried(frames, messages),
        end_payload(e, trailers).len() < 0x1_0000_0000,
        end_error(end_payload(e, trailers)) == carried_end(e),
        end_metadata(end_payload(e, trailers)) == trailers,
    ensures
        ({
            let body = written(stream_response(headers, frames, e, trailers));
            let r = run(fed(fresh(), body));
            &&& r.messages == messages
            &&& r.stop is Done
            &&& r.rest.ended
            &&& r.rest.buf.len() == 0
            &&& r.rest.trailers == trailers
            &&& r.rest.err == if carried_end(e).code != 0 {
                Some(carried_end(e))
            } else {
                None
            }
        }),
{
    let head = seq![EventView::Status(200), EventView::Header(headers)];
    let middle = frame_events(frames);
    let end = end_payload(e, trailers);
    let last = seq![EventView::Frame(frame_bytes(2, end))];
    law_written_in_order(head + middle, last);
    law_written_in_order(head, middle);
    lemma_frames_written(frames);
    assert(head.drop_first().drop_first() =~= Seq::<EventView>::empty());
    reveal_with_fuel(written, 3);
    assert(last.drop_first() =~= Seq::<EventView>::empty());
    let body = written(stream_response(headers, frames, e, trailers));
    let d = fed(fresh(), body);
    assert(d.buf =~= concatenated(frames) + frame_bytes(2, end) + Seq::<u8>::empty());
    law_stream_reads_back(d, frames, messages, end, Seq::empty());
}

/// Whether the messages were written to a stream in frames that carry them, with
/// payloads that the length field can hold.
pub open spec fn all_framed(emissions: Seq<Emission>, wants_gzip: bool) -> bool {
    forall|i: int|
        0 <= i < emissions.len() ==> carries(
            message_frame((#[trigger] emissions[i]).message, wants_gzip),
            emissions[i].message,
        ) && message_frame(emissions[i].message, wants_gzip).len() < 0x1_0000_0005
}

/// From handler to caller: whatever a handler emits, and whatever it then comes
/// to, is what the client reads from the body of the response. Every message
/// arrives, in order; then the error, as far as it survives the wire, and the
/// trailers. What is asked of the frames is what is ensured of them when they are
/// written.
pub proof fn law_handler_reaches_client(
    kind: ContentKind,
    wants_gzip: bool,
    emissions: Seq<Emission>,
    response: HeaderView,
    e: ErrorView,
    trailing: HeaderView,
)
    requires
        all_framed(emissions, wants_gzip),
        end_payload(e, trailing).len() < 0x1_0000_0000,
        end_error(end_payload(e, trailing)) == carried_end(e),
        end_metadata(end_payload(e, trailing)) == trailing,
    ensures
        ({
            let begun = StreamReply { kind, wants_gzip, applied: false, ended: false };
            let events = seq![EventView::Status(200)] + emission_events(begun, emissions)
                + after_emissions(begun, emissions).finish_events(response, e, trailing);
            let r = run(fed(fresh(), written(events)));
            &&& r.messages == emissions.map_values(|x: Emission| x.message)
            &&& r.stop is Done
            &&& r.rest.ended
            &&& r.rest.trailers == trailing
            &&& r.rest.err == if carried_end(e).code != 0 {
                Some(carried_end(e))
            } else {
                None
            }
        }),
{
    let frames = emissions.map_values(|x: Emission| message_frame(x.message, wants_gzip));
    let messages = emissions.map_values(|x: Emission| x.message);
    let first = if emissions.len() > 0 {
        emissions[0].response
    } else {
        response
    };
    law_stream_is_one_response(kind, wants_gzip, emissions, response, e, trailing);
    assert(emission_frames(emissions, wants_gzip) =~= frame_events(frames));
    assert forall|i: int| 0 <= i < frames.len() implies carries(#[trigger] frames[i], messages[i])
        && frames[i].len() < 0x1_0000_0005 by {
        assert(frames[i] == message_frame(emissions[i].message, wants_gzip));
    }
    law_stream_response_reads_back(
        crate::reply::stream_headers(kind, first),
        frames,
        messages,
        e,
        trailing,
    );
}

/// Reading on, step by step: nothing is read behind the end; a frame is waited for
/// until it is all there; a frame that is there is taken off whole. Where it cannot
/// be decompressed the stream has failed; where it is the last one its error and
/// its metadata are kept; else its message is handed out, and nothing but the
/// buffer changes.
pub proof fn law_steps(d: DecoderView)
    ensures
        ({
            let (step, after) = next_step(d);
            let b = d.buf;
            let size = b[1] * 0x1000000 + b[2] * 0x10000 + b[3] * 0x100 + b[4];
            let whole = b.len() >= 5 && b.len() >= 5 + size;
            let payload = b.subrange(5, 5 + size);
            let plain = if b[0] % 2 == 1 {
                gunzipped(payload)
            } else {
                Some(payload)
            };
            let left = b.skip(5 + size);
            &&& d.ended ==> step is Done && after == d
            &&& !d.ended && !whole ==> step is More && after == d
            &&& !d.ended && whole && plain is None ==> step is Done && after == (DecoderView {
                buf: left,
                err: Some(
                    ErrorView { code: 13, message: "corrupt gzip data"@, details: Seq::empty() },
                ),
                ended: false,
                trailers: d.trailers,
            })
            &&& !d.ended && whole && plain is Some && b[0] / 2 % 2 == 1 ==> {
                &&& step is Done
                &&& after.buf == left
                &&& after.ended
                &&& after.trailers == end_metadata(plain->0)
                &&& end_error(plain->0).code != 0 ==> after.err == Some(end_error(plain->0))
                &&& end_error(plain->0).code == 0 ==> after.err == d.err
            }
            &&& !d.ended && whole && plain is Some && b[0] / 2 % 2 == 0 ==> {
                &&& step == StepView::Message(plain->0)
                &&& after == (DecoderView {
                    buf: left,
                    err: d.err,
                    ended: false,
                    trailers: d.trailers,
                })
            }
        }),
{
}

/// A connection that ends within a frame, or before the last one, has failed; one
/// that ends behind it has not. Nothing but the error changes.
pub proof fn law_end_of_connection(d: DecoderView)
    ensures
        ({
            let after = cut_off(d);
            &&& after.buf == d.buf && after.ended == d.ended && after.trailers == d.trailers
            &&& d.buf.len() > 0 ==> after.err == Some(
                ErrorView {
                    code: 13,
                    message: "truncated frame at end of stream"@,
                    details: Seq::empty(),
                },
            )
            &&& d.buf.len() == 0 && !d.ended ==> after.err == Some(
                ErrorView {
                    code: 13,
                    message: "stream ended without END frame"@,
                    details: Seq::empty(),
                },
            )
            &&& d.buf.len() == 0 && d.ended ==> after == d
        }),
{
}

/// What arrives comes behind what is there, and changes nothing else; a stream
/// begins with nothing.
pub proof fn law_arrivals(d: DecoderView, chunk: Seq<u8>)
    ensures
        fed(d, chunk).buf == d.buf + chunk,
        fed(d, chunk).err == d.err,
        fed(d, chunk).ended == d.ended,
        fed(d, chunk).trailers == d.trailers,
        fresh().buf.len() == 0,
        fresh().err is None,
        !fresh().ended,
        fresh().trailers.dom() == Set::<Seq<char>>::empty(),
{
}

/// The last frame leaves its error, where it has one, and its metadata, and what is
/// not read yet stays.
pub proof fn law_closing(d: DecoderView, error: ErrorView, metadata: HeaderView)
    ensures
        closed_by(d, error, metadata).ended,
        closed_by(d, error, metadata).buf == d.buf,
        closed_by(d, error, metadata).trailers == metadata,
        error.code != 0 ==> closed_by(d, error, metadata).err == Some(error),
        error.code == 0 ==> closed_by(d, error, metadata).err == d.err,
{
}

/// A frame that is off the buffer, by its flags and what its payload was
/// decompressed to: data that could not be decompressed fails the stream, the last
/// frame ends it, and any other is a message, which is handed out whole.
pub proof fn law_frames_are_taken(d: DecoderView, flags: u8, plain: Option<Seq<u8>>)
    ensures
        ({
            let (step, after) = taken(d, flags, plain);
            &&& plain is None ==> {
                &&& step is Done
                &&& after.err == Some(
                    ErrorView { code: 13, message: "corrupt gzip data"@, details: Seq::empty() },
                )
                &&& after.buf == d.buf && after.ended == d.ended && after.trailers == d.trailers
            }
            &&& plain is Some && flags & 2 == 0 ==> step == StepView::Message(plain->0) && after == d
            &&& plain is Some && flags & 2 != 0 ==> {
                &&& step is Done
                &&& after.ended
                &&& after.buf == d.buf
                &&& after.trailers == end_metadata(plain->0)
                &&& after.err == if end_error(plain->0).code != 0 {
                    Some(end_error(plain->0))
                } else {
                    d.err
                }
            }
        }),
{
    crate::framing::law_flags(flags);
}

/// One more frame comes behind the others.
pub proof fn law_frames_in_order(frames: Seq<Seq<u8>>, f: Seq<u8>)
    ensures
        concatenated(frames.push(f)) == concatenated(frames) + f,
        concatenated(Seq::empty()).len() == 0,
    decreases frames.len(),
{
    let all = frames.push(f);
    if frames.len() == 0 {
        assert(all.drop_first() =~= Seq::empty());
        reveal_with_fuel(concatenated, 2);
        assert(concatenated(all) =~= concatenated(frames) + f);
    } else {
        assert(all.drop_first() =~= frames.drop_first().push(f));
        law_frames_in_order(frames.drop_first(), f);
        assert(concatenated(all) =~= concatenated(frames) + f);
    }
}

/// A stream is seen as it is, and so is what reading on comes to.
pub proof fn law_decoder_views(d: StreamDecoder, step: StreamStep)
    ensures
        d@.buf == d.buf@,
        d@.ended == d.ended,
        d@.trailers == d.trailers@,
        d.err is Some ==> d@.err == Some(d.err->0@),
        d.err is None ==> d@.err is None,
        step is Message ==> step@ == StepView::Message(step->Message_0@),
        step is Done <==> step@ is Done,
        step is More <==> step@ is More,
{
}

} // verus!
