//! Interceptors: what rewrites a request before it is sent, whichever client
//! sends it.
use crate::deadline::{time_limit, with_deadline_set, with_timeout};
use crate::headers::{lemma_walk, lemma_walked, restricted, HeaderView, Headers};
use crate::message::{RPCError, Request};
use crate::text::{copy_texts, joined};
use vstd::prelude::*;

verus! {

/// Attaches fixed metadata to every call.
#[derive(Debug)]
pub struct MetadataInterceptor(pub Headers);

/// Attaches a deadline to every call.
#[derive(Debug)]
pub struct TimeoutInterceptor(pub u64);

/// Attaches a deadline to every call, and limits the time that the call is given
/// here.
#[derive(Debug)]
pub struct DeadlineInterceptor(pub u64);

/// Whether a request differs from another in its headers at most.
pub open spec fn same_but_headers(a: Request, b: Request) -> bool {
    a.url == b.url && a.method == b.method && a.body == b.body
}

/// Whether an interceptor has let a request pass, with these headers.
pub open spec fn passed(r: Result<Request, RPCError>, req: Request, headers: HeaderView) -> bool {
    r is Ok && same_but_headers(r->Ok_0, req) && r->Ok_0.headers@ == headers
}

/// The headers of a request with metadata added: what the request has stays.
pub open spec fn with_metadata(headers: HeaderView, metadata: HeaderView) -> HeaderView {
    metadata.union_prefer_right(headers)
}

impl MetadataInterceptor {
    /// Adds the metadata that the request does not have.
    pub fn intercept(&self, req: Request) -> (r: Result<Request, RPCError>)
        ensures
            passed(r, req, with_metadata(req.headers@, self.0@)),
    {
        let mut headers = req.headers;
        let ghost given = headers@;
        let n = self.0.len();
        let ghost names = self.0.names();
        let mut i: usize = 0;
        proof {
            lemma_walked(self.0@, names);
            assert(with_metadata(given, Map::empty()) =~= given);
        }
        while i < n
            invariant
                i <= n == names.len(),
                names == self.0.names(),
                crate::headers::ascending(names),
                names.to_set() == self.0@.dom(),
                headers@ == with_metadata(given, restricted(self.0@, names.take(i as int))),
            decreases n - i,
        {
            let name = self.0.name_at(i);
            let ghost part = restricted(self.0@, names.take(i as int));
            proof {
                lemma_walk(self.0@, names, i as int);
            }
            if !headers.contains_key(name) {
                headers.insert(name.clone(), copy_texts(self.0.values_at(i)));
            }
            assert(headers@ =~= with_metadata(given, part.insert(name@, self.0@[name@])));
            i += 1;
        }
        Ok(Request { url: req.url, method: req.method, headers, body: req.body })
    }
}

impl TimeoutInterceptor {
    /// Sets the deadline; 0 sets none.
    pub fn intercept(&self, req: Request) -> (r: Result<Request, RPCError>)
        ensures
            passed(r, req, with_deadline_set(req.headers@, self.0 as nat)),
    {
        Ok(with_timeout(req, self.0))
    }
}

impl DeadlineInterceptor {
    /// Sets the deadline; 0 sets none.
    pub fn intercept(&self, req: Request) -> (r: Result<Request, RPCError>)
        ensures
            passed(r, req, with_deadline_set(req.headers@, self.0 as nat)),
    {
        Ok(with_timeout(req, self.0))
    }

    /// The time that a call is given before it is cut short.
    pub fn limit(&self) -> (r: Option<u64>)
        ensures
            r == if self.0 == 0 {
                None
            } else {
                Some(self.0)
            },
    {
        time_limit(self.0)
    }
}

/// Which client a call goes through.
#[derive(Clone, Copy, Debug, PartialEq, Eq, Structural)]
pub enum Mode {
    /// The client with a connection pool.
    Auto,
    /// The client with a connection for every request.
    Hyper,
}

/// An interceptor that every connection may be given.
#[derive(Debug)]
pub enum Standard {
    Metadata(MetadataInterceptor),
    Timeout(TimeoutInterceptor),
}

/// The header by which a token is sent.
pub open spec fn token_metadata(token: Seq<char>) -> HeaderView {
    map!["authorization"@ => seq!["Bearer "@ + token]]
}

/// What the standard interceptors for a token and a deadline do to headers: an
/// empty token and a deadline of 0 do nothing.
pub open spec fn standard_headers(
    headers: HeaderView,
    token: Seq<char>,
    timeout_ms: nat,
) -> HeaderView {
    let signed = if token.len() > 0 {
        with_metadata(headers, token_metadata(token))
    } else {
        headers
    };
    with_deadline_set(signed, timeout_ms)
}

impl Standard {
    /// What the interceptor does to headers.
    pub open spec fn rewritten(&self, headers: HeaderView) -> HeaderView {
        match self {
            Standard::Metadata(m) => with_metadata(headers, m.0@),
            Standard::Timeout(t) => with_deadline_set(headers, t.0 as nat),
        }
    }

    /// Rewrites a request.
    pub fn intercept(&self, req: Request) -> (r: Result<Request, RPCError>)
        ensures
            passed(r, req, self.rewritten(req.headers@)),
    {
        match self {
            Standard::Metadata(m) => m.intercept(req),
            Standard::Timeout(t) => t.intercept(req),
        }
    }
}

/// What a chain of interceptors does to headers, the first of them first.
pub open spec fn chain_headers(chain: Seq<Standard>, headers: HeaderView) -> HeaderView
    decreases chain.len(),
{
    if chain.len() == 0 {
        headers
    } else {
        chain.last().rewritten(chain_headers(chain.drop_last(), headers))
    }
}

/// The interceptors for a token and a deadline: none for an empty token, none for
/// a deadline of 0. They do not depend on the client.
pub fn standard_interceptors(token: &str, timeout_ms: u64) -> (r: Vec<Standard>)
    ensures
        forall|h: HeaderView| #[trigger]
            chain_headers(r@, h) == standard_headers(h, token@, timeout_ms as nat),
        r@.len() == (if token@.len() > 0 {
            1int
        } else {
            0
        }) + (if timeout_ms > 0 {
            1int
        } else {
            0
        }),
{
    let mut r: Vec<Standard> = Vec::new();
    if !token.is_empty() {
        let mut metadata = Headers::new();
        metadata.set("authorization", &joined("Bearer ", token));
        assert(metadata@ =~= token_metadata(token@));
        let ghost before = r@;
        r.push(Standard::Metadata(MetadataInterceptor(metadata)));
        assert(r@.drop_last() =~= before);
    }
    let ghost signed = r@;
    assert forall|h: HeaderView| #[trigger] chain_headers(signed, h) == standard_headers(
        h,
        token@,
        0,
    ) by {
        reveal_with_fuel(chain_headers, 2);
    }
    if timeout_ms > 0 {
        r.push(Standard::Timeout(TimeoutInterceptor(timeout_ms)));
        assert(r@.drop_last() =~= signed);
    }
    assert forall|h: HeaderView| #[trigger] chain_headers(r@, h) == standard_headers(
        h,
        token@,
        timeout_ms as nat,
    ) by {
        assert(chain_headers(signed, h) == standard_headers(h, token@, 0));
    }
    r
}

/// Runs a request through a chain of interceptors.
pub fn run_chain(chain: &Vec<Standard>, req: Request) -> (r: Result<Request, RPCError>)
    ensures
        passed(r, req, chain_headers(chain@, req.headers@)),
{
    let ghost given = req;
    let mut cur = req;
    let mut i: usize = 0;
    assert(chain@.take(0) =~= Seq::empty());
    while i < chain.len()
        invariant
            i <= chain@.len(),
            same_but_headers(cur, given),
            cur.headers@ == chain_headers(chain@.take(i as int), given.headers@),
        decreases chain@.len() - i,
    {
        assert(chain@.take(i + 1).drop_last() =~= chain@.take(i as int));
        match chain[i].intercept(cur) {
            Ok(next) => {
                cur = next;
            },
            Err(e) => {
                return Err(e);
            },
        }
        i += 1;
    }
    assert(chain@.take(i as int) =~= chain@);
    Ok(cur)
}

// ---- laws ----

/// Metadata never replaces a header that the request has.
pub proof fn law_request_headers_win(headers: HeaderView, metadata: HeaderView, name: Seq<char>)
    ensures
        headers.dom().contains(name) ==> with_metadata(headers, metadata).dom().contains(name)
            && with_metadata(headers, metadata)[name] == headers[name],
        !headers.dom().contains(name) && metadata.dom().contains(name) ==> with_metadata(
            headers,
            metadata,
        ).dom().contains(name) && with_metadata(headers, metadata)[name] == metadata[name],
{
}

/// The token and the deadline that a connection is made with reach the server
/// with every call, unless the call has a token of its own; no other header is
/// touched.
pub proof fn law_standard_headers(headers: HeaderView, token: Seq<char>, timeout_ms: nat)
    requires
        timeout_ms <= u64::MAX,
    ensures
        ({
            let sent = standard_headers(headers, token, timeout_ms);
            &&& token.len() > 0 && !headers.dom().contains("authorization"@)
                ==> crate::headers::first_of(sent, "authorization"@) == Some("Bearer "@ + token)
            &&& timeout_ms > 0 ==> crate::deadline::deadline_in(sent) == timeout_ms
            &&& forall|k: Seq<char>|
                k != "authorization"@ && k != crate::deadline::HEADER_TIMEOUT@ ==> (
                #[trigger] sent.dom().contains(k) == headers.dom().contains(k))
            &&& forall|k: Seq<char>|
                k != "authorization"@ && k != crate::deadline::HEADER_TIMEOUT@
                    && headers.dom().contains(k) ==> #[trigger] sent[k] == headers[k]
        }),
{
    reveal_strlit("authorization");
    reveal_strlit("connect-timeout-ms");
    assert("authorization"@.len() != "connect-timeout-ms"@.len());
    let signed = if token.len() > 0 {
        with_metadata(headers, token_metadata(token))
    } else {
        headers
    };
    crate::deadline::law_deadline_reads_back(signed, timeout_ms);
}

// ---- a call through a chain ----

/// What is to be done next in a call that runs through interceptors, with what it
/// is to be done on. `T` is what the call is answered with.
#[derive(Debug)]
pub enum ChainStep<T> {
    /// The interceptor at that place is to rewrite the request.
    Intercept(usize, Request),
    /// The request is to be sent.
    Send(Request),
    /// The interceptor at that place is to see the request and the answer.
    Observe(usize, Request, T),
    /// The call is over.
    Return(Result<T, RPCError>),
}

/// The step to the interceptor at a place, or to the sending where there is none.
pub open spec fn intercept_or_send<T>(count: usize, i: int, req: Request) -> ChainStep<T> {
    if i < count {
        ChainStep::Intercept(i as usize, req)
    } else {
        ChainStep::Send(req)
    }
}

/// The step to the observer at a place, or to the end where there is none.
pub open spec fn observe_or_return<T>(count: usize, i: int, req: Request, answer: T) -> ChainStep<
    T,
> {
    if i < count {
        ChainStep::Observe(i as usize, req, answer)
    } else {
        ChainStep::Return(Ok(answer))
    }
}

/// The step after an interceptor: an error ends the call; a request goes on to the
/// next interceptor, and from the last one to the sending.
pub open spec fn after_intercept<T>(count: usize, i: usize, r: Result<Request, RPCError>) -> ChainStep<
    T,
> {
    match r {
        Err(e) => ChainStep::Return(Err(e)),
        Ok(req) => intercept_or_send(count, i + 1, req),
    }
}

/// The step after the sending: an error ends the call; an answer goes on to the
/// observers, where the call has any.
pub open spec fn after_send<T>(
    count: usize,
    observed: bool,
    req: Request,
    r: Result<T, RPCError>,
) -> ChainStep<T> {
    match r {
        Err(e) => ChainStep::Return(Err(e)),
        Ok(answer) => if observed {
            observe_or_return(count, 0, req, answer)
        } else {
            ChainStep::Return(Ok(answer))
        },
    }
}

/// Begins a call through `count` interceptors.
pub fn chain_begun<T>(count: usize, req: Request) -> (r: ChainStep<T>)
    ensures
        r == intercept_or_send::<T>(count, 0, req),
{
    if count > 0 {
        ChainStep::Intercept(0, req)
    } else {
        ChainStep::Send(req)
    }
}

/// Goes on with what the interceptor at place `i` came to.
pub fn chain_intercepted<T>(count: usize, i: usize, result: Result<Request, RPCError>) -> (r:
    ChainStep<T>)
    ensures
        r == after_intercept::<T>(count, i, result),
{
    match result {
        Err(e) => ChainStep::Return(Err(e)),
        Ok(req) => if count > 0 && i < count - 1 {
            ChainStep::Intercept(i + 1, req)
        } else {
            ChainStep::Send(req)
        },
    }
}

/// Goes on with what the sending of `req` came to. A unary call is `observed`, a
/// stream is not.
pub fn chain_sent<T>(
    count: usize,
    observed: bool,
    req: Request,
    result: Result<T, RPCError>,
) -> (r: ChainStep<T>)
    ensures
        r == after_send(count, observed, req, result),
{
    match result {
        Err(e) => ChainStep::Return(Err(e)),
        Ok(answer) => if observed && count > 0 {
            ChainStep::Observe(0, req, answer)
        } else {
            ChainStep::Return(Ok(answer))
        },
    }
}

/// Goes on once the interceptor at place `i` has seen the answer.
pub fn chain_observed<T>(count: usize, i: usize, req: Request, answer: T) -> (r: ChainStep<T>)
    ensures
        r == observe_or_return(count, i + 1, req, answer),
{
    if count > 0 && i < count - 1 {
        ChainStep::Observe(i + 1, req, answer)
    } else {
        ChainStep::Return(Ok(answer))
    }
}

/// Something that is done in a call through a chain.
pub enum ChainEvent<T> {
    Intercepted(int, Request),
    Sent(Request),
    Observed(int, Request, T),
}

/// The interceptors of a chain and the transport behind it: what the interceptor
/// at a place makes of a request, and what a request is answered with.
pub struct ChainParts<T> {
    pub intercept: spec_fn(int, Request) -> Result<Request, RPCError>,
    pub send: spec_fn(Request) -> Result<T, RPCError>,
}

/// How many steps a call has before it at most.
pub open spec fn steps_left<T>(count: usize, step: ChainStep<T>) -> int {
    match step {
        ChainStep::Intercept(i, _) => count + 3 + if i < count {
            count - i
        } else {
            0
        },
        ChainStep::Send(_) => count + 2,
        ChainStep::Observe(i, _, _) => 1 + if i < count {
            count - i
        } else {
            0
        },
        ChainStep::Return(_) => 0,
    }
}

/// What is done in a call from a step on, and what the call comes to.
pub open spec fn chain_run<T>(
    count: usize,
    observed: bool,
    parts: ChainParts<T>,
    step: ChainStep<T>,
) -> (Seq<ChainEvent<T>>, Result<T, RPCError>)
    decreases steps_left(count, step),
{
    match step {
        ChainStep::Intercept(i, req) => {
            let next = after_intercept::<T>(count, i, (parts.intercept)(i as int, req));
            let later = chain_run(count, observed, parts, next);
            (seq![ChainEvent::Intercepted(i as int, req)] + later.0, later.1)
        },
        ChainStep::Send(req) => {
            let next = after_send(count, observed, req, (parts.send)(req));
            let later = chain_run(count, observed, parts, next);
            (seq![ChainEvent::Sent(req)] + later.0, later.1)
        },
        ChainStep::Observe(i, req, answer) => {
            let next = observe_or_return(count, i + 1, req, answer);
            let later = chain_run(count, observed, parts, next);
            (seq![ChainEvent::Observed(i as int, req, answer)] + later.0, later.1)
        },
        ChainStep::Return(r) => (Seq::empty(), r),
    }
}

/// What the first `k` interceptors make of a request, each of what the one before
/// it made; the first error stands.
pub open spec fn rewritten_by<T>(parts: ChainParts<T>, req: Request, k: int) -> Result<
    Request,
    RPCError,
>
    decreases k,
{
    if k <= 0 {
        Ok(req)
    } else {
        match rewritten_by(parts, req, k - 1) {
            Ok(q) => (parts.intercept)(k - 1, q),
            Err(e) => Err(e),
        }
    }
}

/// How many of the first `k` interceptors are asked: all up to the first that
/// fails, and that one.
pub open spec fn asked<T>(parts: ChainParts<T>, req: Request, k: int) -> int
    decreases k,
{
    if k <= 0 {
        0
    } else if rewritten_by(parts, req, k - 1) is Ok {
        k
    } else {
        asked(parts, req, k - 1)
    }
}

/// The interceptors at the places from `from` up to, not including, `to` are asked,
/// each with what the ones before it made of the request.
pub open spec fn interceptions<T>(parts: ChainParts<T>, req: Request, from: int, to: int) -> Seq<
    ChainEvent<T>,
> {
    Seq::new(
        if from <= to {
            (to - from) as nat
        } else {
            0
        },
        |i: int| ChainEvent::Intercepted(from + i, rewritten_by(parts, req, from + i)->Ok_0),
    )
}

/// The interceptors at the places from `from` on see the request that was sent and
/// its answer.
pub open spec fn observations<T>(count: usize, req: Request, answer: T, from: int) -> Seq<
    ChainEvent<T>,
> {
    Seq::new(
        if from <= count {
            (count - from) as nat
        } else {
            0
        },
        |i: int| ChainEvent::Observed(from + i, req, answer),
    )
}

/// What is done once the interceptors have made `q` of the request.
pub open spec fn sending<T>(count: usize, observed: bool, parts: ChainParts<T>, q: Request) -> Seq<
    ChainEvent<T>,
> {
    seq![ChainEvent::Sent(q)] + match (parts.send)(q) {
        Ok(answer) => if observed {
            observations(count, q, answer, 0)
        } else {
            Seq::empty()
        },
        Err(_) => Seq::empty(),
    }
}

proof fn lemma_asked<T>(parts: ChainParts<T>, req: Request, i: int, k: int)
    requires
        0 <= i <= k,
        rewritten_by(parts, req, i) is Err,
    ensures
        rewritten_by(parts, req, k) == rewritten_by(parts, req, i),
        asked(parts, req, k) == asked(parts, req, i),
    decreases k,
{
    if i < k {
        lemma_asked(parts, req, i, k - 1);
    }
}

proof fn lemma_observations<T>(
    count: usize,
    observed: bool,
    parts: ChainParts<T>,
    req: Request,
    answer: T,
    i: int,
)
    requires
        0 <= i <= count,
    ensures
        chain_run(count, observed, parts, observe_or_return(count, i, req, answer)) == (
            observations(count, req, answer, i),
            Ok::<T, RPCError>(answer),
        ),
    decreases count - i,
{
    let step = observe_or_return(count, i, req, answer);
    let (events, r) = chain_run(count, observed, parts, step);
    if i < count {
        lemma_observations(count, observed, parts, req, answer, i + 1);
        assert(events =~= observations(count, req, answer, i));
    } else {
        assert(events =~= observations(count, req, answer, i));
    }
}

proof fn lemma_sending<T>(count: usize, observed: bool, parts: ChainParts<T>, q: Request)
    ensures
        chain_run(count, observed, parts, ChainStep::Send(q)) == (
            sending(count, observed, parts, q),
            (parts.send)(q),
        ),
{
    reveal_with_fuel(chain_run, 2);
    match (parts.send)(q) {
        Ok(answer) => {
            lemma_observations(count, observed, parts, q, answer, 0);
        },
        Err(_) => {},
    }
    let (events, r) = chain_run(count, observed, parts, ChainStep::Send(q));
    assert(events =~= sending(count, observed, parts, q));
}

proof fn lemma_chain<T>(
    count: usize,
    observed: bool,
    parts: ChainParts<T>,
    req: Request,
    i: int,
)
    requires
        0 <= i <= count,
        rewritten_by(parts, req, i) is Ok,
    ensures
        ({
            let q = rewritten_by(parts, req, i)->Ok_0;
            let run = chain_run(count, observed, parts, intercept_or_send(count, i, q));
            let head = interceptions(parts, req, i, asked(parts, req, count as int));
            match rewritten_by(parts, req, count as int) {
                Ok(last) => run.0 == head + sending(count, observed, parts, last) && run.1 == (
                parts.send)(last),
                Err(e) => run.0 == head && run.1 == Err::<T, RPCError>(e),
            }
        }),
    decreases count - i,
{
    reveal_with_fuel(chain_run, 2);
    let n = count as int;
    let q = rewritten_by(parts, req, i)->Ok_0;
    let run = chain_run(count, observed, parts, intercept_or_send(count, i, q));
    let head = interceptions(parts, req, i, asked(parts, req, n));
    if i == n {
        lemma_sending(count, observed, parts, q);
        lemma_asked_all(parts, req, n);
        assert(head =~= Seq::empty());
        assert(run.0 =~= head + sending(count, observed, parts, q));
    } else {
        let r = (parts.intercept)(i, q);
        assert(rewritten_by(parts, req, i + 1) == r);
        assert(asked(parts, req, i + 1) == i + 1);
        let first = seq![ChainEvent::<T>::Intercepted(i, q)];
        match r {
            Ok(_) => {
                lemma_chain(count, observed, parts, req, i + 1);
                lemma_asked_past(parts, req, i + 1, n);
                let tail = interceptions(parts, req, i + 1, asked(parts, req, n));
                assert(head =~= first + tail);
                match rewritten_by(parts, req, n) {
                    Ok(last) => {
                        assert(run.0 =~= head + sending(count, observed, parts, last));
                    },
                    Err(_) => {
                        assert(run.0 =~= head);
                    },
                }
            },
            Err(_) => {
                lemma_asked(parts, req, i + 1, n);
                assert(head =~= first);
                assert(run.0 =~= first);
            },
        }
    }
}

proof fn lemma_asked_all<T>(parts: ChainParts<T>, req: Request, k: int)
    requires
        0 <= k,
        rewritten_by(parts, req, k) is Ok,
    ensures
        asked(parts, req, k) == k,
{
}

proof fn lemma_asked_past<T>(parts: ChainParts<T>, req: Request, i: int, k: int)
    requires
        0 <= i <= k,
        rewritten_by(parts, req, i) is Ok,
    ensures
        asked(parts, req, k) >= i,
    decreases k,
{
    if i < k {
        lemma_asked_past(parts, req, i, k - 1);
    } else {
        lemma_asked_all(parts, req, k);
    }
}

/// A call through a chain goes in order: the interceptors are asked one after the
/// other, each with what the one before it made of the request. The first error
/// ends the call: no later interceptor is asked, nothing is sent and nothing is
/// observed. Else what the last interceptor made is sent, once; and where that is
/// answered and the call is observed, the interceptors see that request and its
/// answer, in the same order. The call comes to that error, or to what the request
/// was answered with.
pub proof fn law_chain_in_order<T>(
    count: usize,
    observed: bool,
    parts: ChainParts<T>,
    req: Request,
)
    ensures
        ({
            let run = chain_run(count, observed, parts, intercept_or_send(count, 0, req));
            let asking = interceptions(parts, req, 0, asked(parts, req, count as int));
            match rewritten_by(parts, req, count as int) {
                Ok(q) => run.0 == asking + sending(count, observed, parts, q) && run.1 == (
                parts.send)(q),
                Err(e) => run.0 == asking && run.1 == Err::<T, RPCError>(e),
            }
        }),
{
    lemma_chain(count, observed, parts, req, 0);
}

/// Metadata adds the names that the request does not have, and no others; a request
/// that passes keeps its URL, its verb and its body.
pub proof fn law_metadata_is_added(
    headers: HeaderView,
    metadata: HeaderView,
    name: Seq<char>,
    r: Result<Request, RPCError>,
    req: Request,
)
    ensures
        with_metadata(headers, metadata).dom().contains(name) <==> headers.dom().contains(name)
            || metadata.dom().contains(name),
        passed(r, req, headers) <==> r is Ok && r->Ok_0.url == req.url && r->Ok_0.method
            == req.method && r->Ok_0.body == req.body && r->Ok_0.headers@ == headers,
{
}

/// A connection without a token sends none, and without a deadline sets none: the
/// request keeps its own. A token of the request is never replaced, and a deadline
/// of the connection is.
pub proof fn law_standard_headers_keep(headers: HeaderView, token: Seq<char>, timeout_ms: nat)
    ensures
        ({
            let sent = standard_headers(headers, token, timeout_ms);
            let auth = "authorization"@;
            let time = "connect-timeout-ms"@;
            let values = |m: HeaderView, k: Seq<char>| crate::headers::values_of(m, k);
            &&& token.len() == 0 || headers.dom().contains(auth) ==> values(sent, auth) == values(
                headers,
                auth,
            ) && sent.dom().contains(auth) == headers.dom().contains(auth)
            &&& token.len() > 0 && !headers.dom().contains(auth) ==> values(sent, auth) == seq![
                "Bearer "@ + token,
            ]
            &&& timeout_ms == 0 ==> values(sent, time) == values(headers, time)
                && sent.dom().contains(time) == headers.dom().contains(time)
            &&& timeout_ms > 0 ==> values(sent, time) == seq![crate::decimal::decimal(timeout_ms)]
        }),
{
    reveal_strlit("authorization");
    reveal_strlit("connect-timeout-ms");
    assert("authorization"@.len() != "connect-timeout-ms"@.len());
}

/// Each interceptor of a chain rewrites what those before it have made: metadata is
/// added, a deadline is set.
pub proof fn law_chain_rewrites(chain: Seq<Standard>, s: Standard, headers: HeaderView)
    ensures
        chain_headers(Seq::empty(), headers) == headers,
        s is Metadata ==> chain_headers(chain.push(s), headers) == with_metadata(
            chain_headers(chain, headers),
            s->Metadata_0.0@,
        ),
        s is Timeout ==> chain_headers(chain.push(s), headers) == with_deadline_set(
            chain_headers(chain, headers),
            s->Timeout_0.0 as nat,
        ),
{
    assert(chain.push(s).drop_last() =~= chain);
}

/// Step by step: the interceptors are asked in order and then the request is sent;
/// the answer of a call that is observed is shown to each of them in order and then
/// returned. The first error ends the call.
pub proof fn law_chain_steps<T>(count: usize, i: usize, req: Request, answer: T, e: RPCError)
    requires
        i < count,
    ensures
        intercept_or_send::<T>(count, 0, req) == ChainStep::<T>::Intercept(0, req),
        intercept_or_send::<T>(0, 0, req) == ChainStep::<T>::Send(req),
        i + 1 < count ==> after_intercept::<T>(count, i, Ok(req)) == ChainStep::<T>::Intercept(
            (i + 1) as usize,
            req,
        ),
        i + 1 == count ==> after_intercept::<T>(count, i, Ok(req)) == ChainStep::<T>::Send(req),
        after_intercept::<T>(count, i, Err(e)) == ChainStep::<T>::Return(Err(e)),
        after_send(count, true, req, Ok(answer)) == ChainStep::Observe(0, req, answer),
        after_send(0, true, req, Ok(answer)) == ChainStep::Return(Ok(answer)),
        after_send(count, false, req, Ok(answer)) == ChainStep::Return(Ok(answer)),
        after_send::<T>(count, true, req, Err(e)) == ChainStep::<T>::Return(Err(e)),
        after_send::<T>(count, false, req, Err(e)) == ChainStep::<T>::Return(Err(e)),
        i + 1 < count ==> observe_or_return(count, i + 1, req, answer) == ChainStep::Observe(
            (i + 1) as usize,
            req,
            answer,
        ),
        i + 1 == count ==> observe_or_return(count, i + 1, req, answer) == ChainStep::Return(
            Ok(answer),
        ),
{
}

} // verus!
