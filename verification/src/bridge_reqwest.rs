//! The client that leaves connections to a pool: what it asks the pool for, and
//! how it reads a response.
use crate::client::{
    body_or_empty, err_box, error_in_body, is_failure, new_response, read_error, Outgoing,
};
use crate::headers::{HeaderView, Headers};
use crate::incoming::{last_headers, last_view, RawHeader};
use crate::message::{body_bytes, error_view, plain_error, ErrorView, RPCError, Request, Response};
use crate::outgoing::{is_walk, lines, lines_of, push_line, push_lines, LineView};
use crate::text::{cut_trailing, joined, starts_with, without_trailing};
use crate::trailers::{demuxed_headers, demuxed_trailers};
use vstd::prelude::*;

verus! {

/// A client of the server at `base`.
#[derive(Debug)]
pub struct ReqwestTransport {
    pub base: String,
}

/// Whether a URL stands for itself, on any server.
pub open spec fn is_absolute(url: Seq<char>) -> bool {
    "http://"@.is_prefix_of(url) || "https://"@.is_prefix_of(url)
}

fn absolute(url: &str) -> (r: bool)
    ensures
        r == is_absolute(url@),
{
    starts_with(url, "http://") || starts_with(url, "https://")
}

impl ReqwestTransport {
    /// A client of the server at `base`.
    pub fn new(base: String) -> (r: ReqwestTransport)
        ensures
            r.base == base,
    {
        ReqwestTransport { base }
    }

    /// The URL of a path on the server; an absolute URL as it is.
    pub fn url(&self, path: &str) -> (r: String)
        ensures
            r@ == if is_absolute(path@) {
                path@
            } else {
                self.base@ + path@
            },
    {
        if absolute(path) {
            path.to_owned()
        } else {
            joined(&self.base, path)
        }
    }
}

/// The URL of a path on a server, whose base may end in slashes.
pub open spec fn joined_url(base: Seq<char>, path: Seq<char>) -> Seq<char> {
    if is_absolute(path) {
        path
    } else {
        without_trailing(base, '/') + path
    }
}

/// Joins a base and a path.
pub fn join(base: &str, path: &str) -> (r: String)
    ensures
        r@ == joined_url(base@, path@),
{
    if absolute(path) {
        path.to_owned()
    } else {
        joined(&cut_trailing(base, '/'), path)
    }
}

/// The header lines of a request: the headers of the caller, then a content type.
pub open spec fn sent_lines(
    names: Seq<Seq<char>>,
    headers: HeaderView,
    content_type: Seq<char>,
) -> Seq<LineView> {
    lines_of(names, headers).push(("content-type"@, content_type))
}

/// Makes the request that is sent, with the content type of the call.
pub fn outgoing(base: &str, req: Request, content_type: &str) -> (r: Outgoing)
    ensures
        r.method == req.method,
        r.target@ == joined_url(base@, req.url@),
        lines(r.headers@) == sent_lines(req.headers.names(), req.headers@, content_type@),
        is_walk(req.headers.names(), req.headers@),
        r.body@ == body_bytes(req.body),
{
    let target = join(base, &req.url);
    let mut headers: Vec<(String, String)> = Vec::new();
    let ghost none = lines(headers@);
    push_lines(&mut headers, &req.headers);
    assert(none + lines_of(req.headers.names(), req.headers@) =~= lines_of(
        req.headers.names(),
        req.headers@,
    ));
    push_line(&mut headers, "content-type", content_type);
    Outgoing { method: req.method, target, headers, body: body_or_empty(req.body) }
}

/// Makes the request of a unary call that is sent.
pub fn unary_request(base: &str, req: Request) -> (r: Outgoing)
    ensures
        r.method == req.method,
        r.target@ == joined_url(base@, req.url@),
        lines(r.headers@) == sent_lines(req.headers.names(), req.headers@, "application/proto"@),
        is_walk(req.headers.names(), req.headers@),
        r.body@ == body_bytes(req.body),
{
    outgoing(base, req, "application/proto")
}

/// Makes the request of a stream call that is sent.
pub fn stream_request(base: &str, req: Request) -> (r: Outgoing)
    ensures
        r.method == req.method,
        r.target@ == joined_url(base@, req.url@),
        lines(r.headers@) == sent_lines(
            req.headers.names(),
            req.headers@,
            "application/connect+proto"@,
        ),
        is_walk(req.headers.names(), req.headers@),
        r.body@ == body_bytes(req.body),
{
    outgoing(base, req, "application/connect+proto")
}

/// The body of a unary response whose reading came to `read`, the bytes or the
/// words of an error. A body that cannot be read is an error only where the status
/// tells of none; else it counts as empty.
pub fn body_or_error(status: u16, read: Result<Vec<u8>, String>) -> (r: Result<Vec<u8>, RPCError>)
    ensures
        match read {
            Ok(body) => r == Ok::<Vec<u8>, RPCError>(body),
            Err(e) => if is_failure(status as int) {
                r is Ok && r->Ok_0@ == Seq::<u8>::empty()
            } else {
                r is Err && r->Err_0@ == plain_error(13, e@)
            },
        },
{
    match read {
        Ok(body) => Ok(body),
        Err(e) => if status >= 300 {
            Ok(Vec::new())
        } else {
            Err(err_box(e))
        },
    }
}

/// The error of a unary response: none where its status tells of none.
pub open spec fn response_error(status: int, body: Seq<u8>) -> Option<ErrorView> {
    if is_failure(status) {
        Some(error_in_body(status, body))
    } else {
        None
    }
}

/// Reads a unary response.
pub fn read_response(status: u16, raw: &[RawHeader], body: Vec<u8>) -> (r: Response)
    ensures
        r.status == status,
        r.body == body,
        r.headers@ == demuxed_headers(last_view(raw@)),
        r.trailers@ == demuxed_trailers(last_view(raw@)),
        error_view(r.error) == response_error(status as int, body@),
{
    let error: Option<RPCError> = if status >= 300 {
        Some(read_error(status, &body))
    } else {
        None
    };
    let received: Headers = last_headers(raw);
    new_response(status, &received, body, error)
}

/// A path is put behind the base, whose slashes at the end are dropped, all of them
/// and nothing else; a URL with a scheme stands for itself.
pub proof fn law_urls(base: Seq<char>, path: Seq<char>)
    ensures
        "http://"@.is_prefix_of(path) || "https://"@.is_prefix_of(path) ==> joined_url(base, path)
            == path,
        !"http://"@.is_prefix_of(path) && !"https://"@.is_prefix_of(path) ==> {
            let url = joined_url(base, path);
            let n = url.len() - path.len();
            &&& 0 <= n <= base.len()
            &&& url.skip(n) == path
            &&& url.take(n) == base.take(n)
            &&& forall|i: int| n <= i < base.len() ==> #[trigger] base[i] == '/'
            &&& n > 0 ==> base[n - 1] != '/'
        },
        is_absolute(path) <==> "http://"@.is_prefix_of(path) || "https://"@.is_prefix_of(path),
{
    crate::text::law_without_trailing(base, '/');
    let cut = without_trailing(base, '/');
    let n = cut.len() as int;
    assert((cut + path).skip(n) =~= path);
    assert((cut + path).take(n) =~= base.take(n));
}

/// A request is sent with every line of the caller as it is, and then the content
/// type of the call.
pub proof fn law_sent_lines(
    names: Seq<Seq<char>>,
    headers: HeaderView,
    content_type: Seq<char>,
    i: int,
)
    ensures
        ({
            let sent = sent_lines(names, headers, content_type);
            let own = lines_of(names, headers);
            &&& sent.len() == own.len() + 1
            &&& 0 <= i < own.len() ==> sent[i] == own[i]
            &&& sent.last() == ("content-type"@, content_type)
        }),
{
}

/// A response fails just where its status is 300 or more: with the error in its
/// body, and where it carries none with the code that the status stands for.
pub proof fn law_response_errors(status: int, body: Seq<u8>)
    ensures
        ({
            let r = response_error(status, body);
            let carried = crate::wire_error::body_error(body);
            &&& status < 300 <==> r is None
            &&& status >= 300 && carried.code != 0 ==> r == Some(carried)
            &&& status >= 300 && carried.code == 0 ==> r == Some(
                ErrorView {
                    code: crate::codes::code_of_status(status),
                    message: crate::text::read_lossy(body),
                    details: Seq::empty(),
                },
            )
        }),
{
}

} // verus!
