//! The server side around dispatch: which methods have handlers, and what is
//! read off a request before it is dispatched.
use crate::headers::{first_of, HeaderView, Headers};
use crate::incoming::{last_headers, last_view, request_headers, request_view, RawHeader};
use crate::message::{ErrorView, MethodSpec, Request};
use crate::reply::{EventView, WriteEvent};
use crate::text::{same_text, starts_with, texts};
use vstd::prelude::*;

verus! {

/// The names of the methods that have a handler, by the shape of the call.
#[derive(Debug)]
pub struct ServerRegistry {
    pub unary: Vec<String>,
    pub stream: Vec<String>,
}

/// Whether a list of names has `name`.
pub open spec fn is_listed(names: Seq<String>, name: Seq<char>) -> bool {
    texts(names).contains(name)
}

fn lists(names: &Vec<String>, name: &str) -> (r: bool)
    ensures
        r == is_listed(names@, name@),
{
    let mut i: usize = 0;
    while i < names.len()
        invariant
            i <= names@.len(),
            forall|j: int| 0 <= j < i ==> #[trigger] texts(names@)[j] != name@,
        decreases names@.len() - i,
    {
        if same_text(&names[i], name) {
            assert(texts(names@)[i as int] == name@);
            return true;
        }
        i += 1;
    }
    false
}

impl ServerRegistry {
    /// Whether a unary method has a handler.
    pub fn has_unary(&self, name: &str) -> (r: bool)
        ensures
            r == is_listed(self.unary@, name@),
    {
        lists(&self.unary, name)
    }

    /// Whether a stream method has a handler.
    pub fn has_stream(&self, name: &str) -> (r: bool)
        ensures
            r == is_listed(self.stream@, name@),
    {
        lists(&self.stream, name)
    }
}

/// The place of the first method with that path; the number of methods where
/// there is none.
pub open spec fn method_place(methods: Seq<MethodSpec>, path: Seq<char>) -> int
    decreases methods.len(),
{
    if methods.len() == 0 || methods[0].path@ == path {
        0
    } else {
        1 + method_place(methods.drop_first(), path)
    }
}

/// The first method with that path.
pub open spec fn method_for(methods: Seq<MethodSpec>, path: Seq<char>) -> Option<MethodSpec> {
    let at = method_place(methods, path);
    if at < methods.len() {
        Some(methods[at])
    } else {
        None
    }
}

proof fn lemma_method_place(methods: Seq<MethodSpec>, path: Seq<char>, k: int)
    requires
        0 <= k <= methods.len(),
        forall|j: int| 0 <= j < k ==> (#[trigger] methods[j]).path@ != path,
        k == methods.len() || methods[k].path@ == path,
    ensures
        method_place(methods, path) == k,
    decreases methods.len(),
{
    if k > 0 {
        assert(methods[0].path@ != path);
        let t = methods.drop_first();
        assert forall|j: int| 0 <= j < k - 1 implies (#[trigger] t[j]).path@ != path by {
            assert(t[j] == methods[j + 1]);
        }
        lemma_method_place(t, path, k - 1);
    }
}

/// Finds the first method with a path.
pub fn find_method<'a>(methods: &'a [MethodSpec], path: &str) -> (r: Option<&'a MethodSpec>)
    ensures
        match r {
            Some(m) => method_for(methods@, path@) == Some(*m),
            None => method_for(methods@, path@) is None,
        },
{
    let mut i: usize = 0;
    while i < methods.len()
        invariant
            i <= methods@.len(),
            forall|j: int| 0 <= j < i ==> (#[trigger] methods@[j]).path@ != path@,
        decreases methods@.len() - i,
    {
        if same_text(&methods[i].path, path) {
            proof {
                lemma_method_place(methods@, path@, i as int);
            }
            return Some(&methods[i]);
        }
        i += 1;
    }
    proof {
        lemma_method_place(methods@, path@, i as int);
    }
    None
}

/// Whether the response to a request for that path is a stream; a path that no
/// method has is answered with one body.
pub fn is_stream_path(methods: &[MethodSpec], path: &str) -> (r: bool)
    ensures
        r == match method_for(methods@, path@) {
            Some(m) => m.server_stream,
            None => false,
        },
{
    match find_method(methods, path) {
        Some(m) => m.server_stream,
        None => false,
    }
}

/// The codec of a request by name: `json` where its content type begins with
/// `application/json`, else `proto`.
pub open spec fn codec_name(req: Request) -> Seq<char> {
    match first_of(req.headers@, "content-type"@) {
        Some(ct) => if "application/json"@.is_prefix_of(ct) {
            "json"@
        } else {
            "proto"@
        },
        None => "proto"@,
    }
}

/// Names the codec of a request.
pub fn content_kind(req: &Request) -> (r: String)
    ensures
        r@ == codec_name(*req),
{
    match req.headers.first("content-type") {
        Some(ct) => {
            if starts_with(ct, "application/json") {
                return "json".to_owned();
            }
        },
        None => {},
    }
    "proto".to_owned()
}

/// Makes the request that is dispatched from what has arrived: every header line
/// counts.
pub fn received_request(url: String, method: String, raw: &[RawHeader], body: Vec<u8>) -> (r:
    Request)
    ensures
        r.url == url,
        r.method == method,
        r.headers@ == request_view(raw@),
        r.body == Some(body),
{
    Request { url, method, headers: request_headers(raw), body: Some(body) }
}

/// Makes the request that is dispatched from what has arrived: of each header the
/// last line counts.
pub fn routed_request(path: String, method: String, raw: &[RawHeader], body: Vec<u8>) -> (r: Request)
    ensures
        r.url == path,
        r.method == method,
        r.headers@ == last_view(raw@),
        r.body == Some(body),
{
    Request { url: path, method, headers: last_headers(raw), body: Some(body) }
}

// ---- a response on its way out ----

/// The head of a response that is written while it is sent: the status and the
/// headers as they stand. Frames are not kept.
#[derive(Debug)]
pub struct LiveHead {
    pub status: u16,
    pub headers: Headers,
}

/// The head of a response, as plain values.
pub struct HeadView {
    pub status: int,
    pub headers: HeaderView,
}

impl View for LiveHead {
    type V = HeadView;

    open spec fn view(&self) -> HeadView {
        HeadView { status: self.status as int, headers: self.headers@ }
    }
}

/// The head of a response of which nothing is written.
pub open spec fn blank_head() -> HeadView {
    HeadView { status: 200, headers: Map::empty() }
}

/// The head once something more is written.
pub open spec fn head_with(h: HeadView, e: EventView) -> HeadView {
    match e {
        EventView::Status(status) => HeadView { status, ..h },
        EventView::Header(headers) => HeadView { headers, ..h },
        EventView::Frame(_) => h,
    }
}

impl LiveHead {
    /// The head of a response of which nothing is written.
    pub fn new() -> (r: LiveHead)
        ensures
            r@ == blank_head(),
    {
        LiveHead { status: 200, headers: Headers::new() }
    }

    /// Takes what is written. A frame is handed back, to be sent at once.
    pub fn take(&mut self, e: WriteEvent) -> (r: Option<Vec<u8>>)
        ensures
            final(self)@ == head_with(old(self)@, e@),
            match e {
                WriteEvent::Frame(b) => r == Some(b),
                _ => r is None,
            },
    {
        match e {
            WriteEvent::Status(status) => {
                self.status = status;
                None
            },
            WriteEvent::Header(headers) => {
                self.headers = headers;
                None
            },
            WriteEvent::Frame(b) => Some(b),
        }
    }
}

/// The head of a response once the events are written.
pub open spec fn head_after(events: Seq<EventView>) -> HeadView
    decreases events.len(),
{
    if events.len() == 0 {
        blank_head()
    } else {
        head_with(head_after(events.drop_last()), events.last())
    }
}

/// The frames that are handed on while the events are written.
pub open spec fn sent_after(events: Seq<EventView>) -> Seq<Seq<u8>>
    decreases events.len(),
{
    if events.len() == 0 {
        Seq::empty()
    } else {
        match events.last() {
            EventView::Frame(b) => sent_after(events.drop_last()).push(b),
            _ => sent_after(events.drop_last()),
        }
    }
}

/// Whether events make up a response: a status, headers, and then frames only.
pub open spec fn is_response(events: Seq<EventView>) -> bool {
    &&& events.len() >= 2
    &&& events[0] is Status
    &&& events[1] is Header
    &&& forall|i: int| 2 <= i < events.len() ==> (#[trigger] events[i]) is Frame
}

/// A response can be returned as soon as its first frame is there: from its headers
/// on the status and the headers stay as they are, and every frame is handed on
/// when it is written, in order. None waits for a later one.
pub proof fn law_head_is_settled(events: Seq<EventView>, k: int)
    requires
        is_response(events),
        2 <= k <= events.len(),
    ensures
        head_after(events.take(k)) == (HeadView {
            status: events[0]->Status_0,
            headers: events[1]->Header_0,
        }),
        sent_after(events.take(k)) == Seq::new(
            (k - 2) as nat,
            |i: int| events[i + 2]->Frame_0,
        ),
    decreases k,
{
    let now = events.take(k);
    assert(now.drop_last() =~= events.take(k - 1));
    assert(now.last() == events[k - 1]);
    if k == 2 {
        reveal_with_fuel(head_after, 3);
        reveal_with_fuel(sent_after, 3);
        assert(now.drop_last().drop_last() =~= Seq::<EventView>::empty());
        assert(sent_after(now) =~= Seq::new(0, |i: int| events[i + 2]->Frame_0));
    } else {
        law_head_is_settled(events, k - 1);
        assert(events[k - 1] is Frame);
        assert(sent_after(now) =~= Seq::new((k - 2) as nat, |i: int| events[i + 2]->Frame_0));
    }
}

/// What a stream call writes is a response.
pub proof fn law_streams_are_responses(
    headers: HeaderView,
    frames: Seq<Seq<u8>>,
    e: ErrorView,
    trailers: HeaderView,
)
    ensures
        is_response(crate::stream::stream_response(headers, frames, e, trailers)),
{
}

/// What a unary call or a refusal writes is a response.
pub proof fn law_whole_replies_are_responses(events: Seq<EventView>)
    requires
        crate::dispatch::is_whole(events),
    ensures
        is_response(events),
{
}

/// A name is listed just where it stands in the list.
pub proof fn law_listed(names: Seq<String>, name: Seq<char>)
    ensures
        is_listed(names, name) <==> exists|i: int|
            0 <= i < names.len() && (#[trigger] names[i])@ == name,
{
    if is_listed(names, name) {
        let i = choose|i: int| 0 <= i < texts(names).len() && texts(names)[i] == name;
        assert(names[i]@ == name);
    }
    if exists|i: int| 0 <= i < names.len() && (#[trigger] names[i])@ == name {
        let i = choose|i: int| 0 <= i < names.len() && (#[trigger] names[i])@ == name;
        assert(texts(names)[i] == name);
    }
}

/// The method that is found is the first with the path, and one is found wherever
/// there is one.
pub proof fn law_first_method_with_path(methods: Seq<MethodSpec>, path: Seq<char>, k: int)
    requires
        0 <= k <= methods.len(),
        forall|j: int| 0 <= j < k ==> (#[trigger] methods[j]).path@ != path,
        k < methods.len() ==> methods[k].path@ == path,
    ensures
        k < methods.len() ==> method_for(methods, path) == Some(methods[k]),
        k == methods.len() ==> method_for(methods, path) is None,
{
    lemma_method_place(methods, path, k);
}

/// A request is named a JSON one just where its first content type begins with that
/// of JSON.
pub proof fn law_codec_name(req: Request)
    ensures
        ({
            let ct = first_of(req.headers@, "content-type"@);
            &&& ct is Some && "application/json"@.is_prefix_of(ct->0) ==> codec_name(req) == "json"@
            &&& ct is None || !"application/json"@.is_prefix_of(ct->0) ==> codec_name(req)
                == "proto"@
        }),
{
}

/// The last status and the last headers that are written are those of the response,
/// and a frame changes neither.
pub proof fn law_last_head_counts(events: Seq<EventView>, e: EventView)
    ensures
        ({
            let before = head_after(events);
            let after = head_after(events.push(e));
            &&& e is Status ==> after.status == e->Status_0 && after.headers == before.headers
            &&& e is Header ==> after.headers == e->Header_0 && after.status == before.status
            &&& e is Frame ==> after == before
            &&& head_after(Seq::empty()).status == 200
            &&& head_after(Seq::empty()).headers == Map::<Seq<char>, Seq<Seq<char>>>::empty()
        }),
        e is Frame ==> sent_after(events.push(e)) == sent_after(events).push(e->Frame_0),
        !(e is Frame) ==> sent_after(events.push(e)) == sent_after(events),
{
    assert(events.push(e).drop_last() =~= events);
}

/// The head of a response is seen with its status and its headers.
pub proof fn law_head_views(h: LiveHead)
    ensures
        h@.status == h.status,
        h@.headers == h.headers@,
{
}

} // verus!
