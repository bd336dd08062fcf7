//! The client that speaks HTTP/1.1 over a connection of its own: where it
//! connects, what it sends, and how it reads a response.
use crate::client::{
    body_or_empty, err_box, error_in_body, error_or_bare, is_failure, new_response, Outgoing,
};
use crate::decimal::{decimal, parsed_signed, read_signed, write_u64};
use crate::headers::{first_of, HeaderView, Headers};
use crate::incoming::{response_headers, response_view, RawHeader};
use crate::message::{body_bytes, error_view, plain_error, ErrorView, RPCError, Request, Response};
use crate::outgoing::{
    has_in_any_case, has_name, is_walk, lines, lines_of, push_line, push_lines, LineView,
};
use crate::text::joined;
use crate::trailers::{demuxed_headers, demuxed_trailers};
use crate::wire_error::{body_error, decode_error_json, text_or_empty};
use vstd::prelude::*;

verus! {

/// A client that connects for every request.
#[derive(Debug)]
pub struct HyperClient {
    pub base: String,
}

impl HyperClient {
    /// A client of the server at `base`.
    pub fn new(base: String) -> (r: HyperClient)
        ensures
            r.base == base,
    {
        HyperClient { base }
    }

    /// The URL of a path on the server.
    pub fn url(&self, path: &str) -> (r: String)
        ensures
            r@ == self.base@ + path@,
    {
        joined(&self.base, path)
    }
}

// ---- the parts of a URL ----

/// The parts of a URL that a client needs.
#[derive(Debug)]
pub struct UriParts {
    pub host: Option<String>,
    pub port: Option<u16>,
    /// The path and the query.
    pub target: Option<String>,
}

/// The parts of a URL, as plain values.
pub struct UriView {
    pub host: Option<Seq<char>>,
    pub port: Option<u16>,
    pub target: Option<Seq<char>>,
}

/// The view of a text that may be absent.
pub open spec fn text_view(s: Option<String>) -> Option<Seq<char>> {
    match s {
        Some(s) => Some(s@),
        None => None,
    }
}

impl View for UriParts {
    type V = UriView;

    open spec fn view(&self) -> UriView {
        UriView {
            host: text_view(self.host),
            port: self.port,
            target: text_view(self.target),
        }
    }
}

/// What `http::Uri` reads from a URL, or the words of its error.
pub uninterp spec fn parsed_uri(url: Seq<char>) -> Result<UriView, Seq<char>>;

/// The view of what was read from a URL.
pub open spec fn uri_result(r: Result<UriParts, String>) -> Result<UriView, Seq<char>> {
    match r {
        Ok(p) => Ok(p@),
        Err(e) => Err(e@),
    }
}

/// Reads a URL as an `http::Uri`: its `host`, `port_u16` and `path_and_query`, or
/// the words of the error that parsing it gives. All of it is a function of the
/// text alone, and has a name only.
#[verifier::external_body]
fn parse_uri(url: &str) -> (r: Result<UriParts, String>)
    ensures
        uri_result(r) == parsed_uri(url@),
{
    let u = url.parse::<http::Uri>().map_err(|e| e.to_string())?;
    Ok(
        UriParts {
            host: u.host().map(|h| h.to_string()),
            port: u.port_u16(),
            target: u.path_and_query().map(|t| t.as_str().to_string()),
        },
    )
}

/// The host in a URL that was read; empty where there is none.
pub open spec fn host_in(r: Result<UriView, Seq<char>>) -> Seq<char> {
    match r {
        Ok(p) => text_or_empty(p.host),
        Err(_) => Seq::empty(),
    }
}

/// The host in a URL that was read.
pub fn host_or_empty(r: Result<UriParts, String>) -> (host: String)
    ensures
        host@ == host_in(uri_result(r)),
{
    match r {
        Ok(UriParts { host: Some(h), .. }) => h,
        _ => String::new(),
    }
}

/// The host of a URL.
pub fn host_of(url: &str) -> (host: String)
    ensures
        host@ == host_in(parsed_uri(url@)),
{
    host_or_empty(parse_uri(url))
}

/// The path and query in a URL that was read: `/` where it has none, the URL as
/// it is where it could not be read.
pub open spec fn origin_in(url: Seq<char>, r: Result<UriView, Seq<char>>) -> Seq<char> {
    match r {
        Ok(p) => match p.target {
            Some(t) => t,
            None => "/"@,
        },
        Err(_) => url,
    }
}

/// The path and query in a URL that was read.
pub fn origin_or_slash(url: &str, r: Result<UriParts, String>) -> (target: String)
    ensures
        target@ == origin_in(url@, uri_result(r)),
{
    match r {
        Ok(p) => match p.target {
            Some(t) => t,
            None => "/".to_owned(),
        },
        Err(_) => url.to_owned(),
    }
}

/// The target of a request for a URL.
pub fn origin_form(url: &str) -> (target: String)
    ensures
        target@ == origin_in(url@, parsed_uri(url@)),
{
    origin_or_slash(url, parse_uri(url))
}

/// The address in a URL that was read: its host and its port, 80 where it has
/// none. An error where it could not be read or has no host.
pub open spec fn address_in(r: Result<UriView, Seq<char>>) -> Result<Seq<char>, ErrorView> {
    match r {
        Err(e) => Err(plain_error(13, e)),
        Ok(p) => match p.host {
            None => Err(plain_error(13, "no host"@)),
            Some(h) => Ok(
                h + ":"@ + decimal(
                    match p.port {
                        Some(port) => port as nat,
                        None => 80,
                    },
                ),
            ),
        },
    }
}

/// The view of an address.
pub open spec fn address_view(r: Result<String, RPCError>) -> Result<Seq<char>, ErrorView> {
    match r {
        Ok(a) => Ok(a@),
        Err(e) => Err(e@),
    }
}

/// The address in a URL that was read.
pub fn address_or_error(r: Result<UriParts, String>) -> (address: Result<String, RPCError>)
    ensures
        address_view(address) == address_in(uri_result(r)),
{
    match r {
        Err(e) => Err(err_box(e)),
        Ok(p) => match p.host {
            None => Err(RPCError::new(13, "no host")),
            Some(h) => {
                let port: u16 = match p.port {
                    Some(port) => port,
                    None => 80,
                };
                Ok(joined(&joined(&h, ":"), &write_u64(port as u64)))
            },
        },
    }
}

/// The address to connect to for a URL.
pub fn address_of(url: &str) -> (address: Result<String, RPCError>)
    ensures
        address_view(address) == address_in(parsed_uri(url@)),
{
    address_or_error(parse_uri(url))
}

// ---- the request ----

/// The header lines of a request: the host, then the headers of the caller, then
/// a content type, but only where the caller has given none.
pub open spec fn sent_lines(
    host: Seq<char>,
    names: Seq<Seq<char>>,
    headers: HeaderView,
    default_type: Seq<char>,
) -> Seq<LineView> {
    let given = seq![("host"@, host)] + lines_of(names, headers);
    if has_in_any_case(headers, "content-type"@) {
        given
    } else {
        given.push(("content-type"@, default_type))
    }
}

fn send_lines(host: &str, headers: &Headers, default_type: &str) -> (r: Vec<(String, String)>)
    ensures
        lines(r@) == sent_lines(host@, headers.names(), headers@, default_type@),
        is_walk(headers.names(), headers@),
{
    let mut r: Vec<(String, String)> = Vec::new();
    assert(lines(r@) =~= Seq::empty());
    push_line(&mut r, "host", host);
    assert(lines(r@) =~= seq![("host"@, host@)]);
    push_lines(&mut r, headers);
    if !has_name(headers, "content-type") {
        push_line(&mut r, "content-type", default_type);
    }
    r
}

/// Makes the request that is sent from what was read from its URL.
pub fn outgoing_to(
    req: Request,
    host: &str,
    target: String,
    default_type: &str,
) -> (r: Outgoing)
    ensures
        r.method == req.method,
        r.target == target,
        lines(r.headers@) == sent_lines(
            host@,
            req.headers.names(),
            req.headers@,
            default_type@,
        ),
        is_walk(req.headers.names(), req.headers@),
        r.body@ == body_bytes(req.body),
{
    let headers = send_lines(host, &req.headers, default_type);
    Outgoing { method: req.method, target, headers, body: body_or_empty(req.body) }
}

/// Makes the request of a unary call that is sent.
pub fn unary_request(req: Request) -> (r: Outgoing)
    ensures
        r.method == req.method,
        r.target@ == origin_in(req.url@, parsed_uri(req.url@)),
        lines(r.headers@) == sent_lines(
            host_in(parsed_uri(req.url@)),
            req.headers.names(),
            req.headers@,
            "application/proto"@,
        ),
        is_walk(req.headers.names(), req.headers@),
        r.body@ == body_bytes(req.body),
{
    let host = host_of(&req.url);
    let target = origin_form(&req.url);
    outgoing_to(req, &host, target, "application/proto")
}

/// Makes the request of a stream call that is sent.
pub fn stream_request(req: Request) -> (r: Outgoing)
    ensures
        r.method == req.method,
        r.target@ == origin_in(req.url@, parsed_uri(req.url@)),
        lines(r.headers@) == sent_lines(
            host_in(parsed_uri(req.url@)),
            req.headers.names(),
            req.headers@,
            "application/connect+proto"@,
        ),
        is_walk(req.headers.names(), req.headers@),
        r.body@ == body_bytes(req.body),
{
    let host = host_of(&req.url);
    let target = origin_form(&req.url);
    outgoing_to(req, &host, target, "application/connect+proto")
}

// ---- the response ----

/// The code that a header carries.
pub open spec fn header_code(headers: HeaderView) -> Option<int> {
    match first_of(headers, "connect-code"@) {
        Some(s) => parsed_signed(s, i32::MIN as int, i32::MAX as int),
        None => None,
    }
}

/// The error of a unary response: none where its status tells of none. A code in
/// the headers comes first, with the message beside it and the details from the
/// body; then an error in the body; else the code goes by the status.
pub open spec fn response_error(status: int, headers: HeaderView, body: Seq<u8>) -> Option<
    ErrorView,
> {
    if !is_failure(status) {
        None
    } else {
        match header_code(headers) {
            Some(code) => Some(
                ErrorView {
                    code,
                    message: text_or_empty(first_of(headers, "connect-error"@)),
                    details: body_error(body).details,
                },
            ),
            None => Some(error_in_body(status, body)),
        }
    }
}

/// Reads the error of a unary response.
pub fn read_response_error(status: u16, headers: &Headers, body: &[u8]) -> (r: Option<RPCError>)
    ensures
        error_view(r) == response_error(status as int, headers@, body@),
{
    if status < 300 {
        return None;
    }
    let decoded = decode_error_json(body);
    let code = match headers.first("connect-code") {
        Some(s) => read_signed(s, -2147483648, 2147483647),
        None => None,
    };
    match code {
        Some(c) => {
            let message = match headers.first("connect-error") {
                Some(m) => m.clone(),
                None => String::new(),
            };
            Some(RPCError { code: c as i32, message, details: decoded.2 })
        },
        None => Some(error_or_bare(status, body, decoded)),
    }
}

/// Reads a unary response.
pub fn read_response(status: u16, raw: &[RawHeader], body: Vec<u8>) -> (r: Response)
    ensures
        r.status == status,
        r.body == body,
        r.headers@ == demuxed_headers(response_view(raw@)),
        r.trailers@ == demuxed_trailers(response_view(raw@)),
        error_view(r.error) == response_error(status as int, response_view(raw@), body@),
{
    let received = response_headers(raw);
    let error = read_response_error(status, &received, &body);
    new_response(status, &received, body, error)
}

/// Where the headers carry no code, the error of a response is the one that any
/// client reads from its status and its body.
pub proof fn law_clients_agree(status: int, headers: HeaderView, body: Seq<u8>)
    requires
        header_code(headers) is None,
    ensures
        response_error(status, headers, body) == crate::bridge_reqwest::response_error(
            status,
            body,
        ),
{
}

/// The address of a URL is its host and its port, 80 where it has none; a URL
/// without a host, or that cannot be read, has no address.
pub proof fn law_addresses(p: UriView, e: Seq<char>)
    ensures
        address_in(Err(e)) == Err::<Seq<char>, ErrorView>(
            ErrorView { code: 13, message: e, details: Seq::empty() },
        ),
        p.host is None ==> address_in(Ok(p)) == Err::<Seq<char>, ErrorView>(
            ErrorView { code: 13, message: "no host"@, details: Seq::empty() },
        ),
        p.host is Some && p.port is Some ==> address_in(Ok(p)) == Ok::<Seq<char>, ErrorView>(
            p.host->0 + ":"@ + decimal(p.port->0 as nat),
        ),
        p.host is Some && p.port is None ==> address_in(Ok(p)) == Ok::<Seq<char>, ErrorView>(
            p.host->0 + ":80"@,
        ),
{
    if p.host is Some && p.port is None {
        reveal_strlit(":");
        reveal_strlit(":80");
        reveal_strlit("0123456789");
        crate::decimal::law_digits(8, 0, 10);
        crate::decimal::law_digits(0, 8, 10);
        assert(decimal(80) =~= seq!['8', '0']);
        assert(p.host->0 + ":"@ + decimal(80) =~= p.host->0 + ":80"@);
    }
}

/// The host that is sent is that of the URL, and empty where there is none; the
/// target is its path and query, a slash where it has none, and the URL itself
/// where it cannot be read.
pub proof fn law_targets(url: Seq<char>, p: UriView, e: Seq<char>)
    ensures
        p.host is Some ==> host_in(Ok(p)) == p.host->0,
        p.host is None ==> host_in(Ok(p)).len() == 0,
        host_in(Err(e)).len() == 0,
        p.target is Some ==> origin_in(url, Ok(p)) == p.target->0,
        p.target is None ==> origin_in(url, Ok(p)) == "/"@,
        origin_in(url, Err(e)) == url,
{
}

/// A request is sent with the host first, then every line of the caller as it is;
/// a content type comes last, and only where the caller has given none, in
/// whatever case.
pub proof fn law_sent_lines(
    host: Seq<char>,
    names: Seq<Seq<char>>,
    headers: HeaderView,
    default_type: Seq<char>,
    i: int,
)
    ensures
        ({
            let sent = sent_lines(host, names, headers, default_type);
            let own = lines_of(names, headers);
            let given = has_in_any_case(headers, "content-type"@);
            &&& sent[0] == ("host"@, host)
            &&& 0 <= i < own.len() ==> sent[i + 1] == own[i]
            &&& given ==> sent.len() == own.len() + 1
            &&& !given ==> sent.len() == own.len() + 2 && sent.last() == (
                "content-type"@,
                default_type,
            )
        }),
{
}

/// A response fails just where its status is 300 or more. A code in the headers
/// that is a number then decides, with the message beside it, empty where there is
/// none, and the details of the body; else the body decides, and where it carries
/// no error the status.
pub proof fn law_response_errors(status: int, headers: HeaderView, body: Seq<u8>)
    ensures
        ({
            let r = response_error(status, headers, body);
            let text = first_of(headers, "connect-code"@);
            let code = parsed_signed(text->0, -0x8000_0000, 0x7fff_ffff);
            let told = text is Some && code is Some;
            let message = first_of(headers, "connect-error"@);
            &&& status < 300 <==> r is None
            &&& status >= 300 && told ==> r->0.code == code->0
            &&& status >= 300 && told && message is Some ==> r->0.message == message->0
            &&& status >= 300 && told && message is None ==> r->0.message.len() == 0
            &&& status >= 300 && told ==> r->0.details == body_error(body).details
            &&& status >= 300 && !told && body_error(body).code != 0 ==> r == Some(body_error(body))
            &&& status >= 300 && !told && body_error(body).code == 0 ==> r == Some(
                ErrorView {
                    code: crate::codes::code_of_status(status),
                    message: crate::text::read_lossy(body),
                    details: Seq::empty(),
                },
            )
        }),
{
}

/// What is read from a URL is seen as it is, and so is an address or its error.
pub proof fn law_uri_views(p: UriParts, text: String, e: RPCError)
    ensures
        p@.port == p.port,
        p.host is Some ==> p@.host == Some(p.host->0@),
        p.host is None ==> p@.host is None,
        p.target is Some ==> p@.target == Some(p.target->0@),
        p.target is None ==> p@.target is None,
        uri_result(Ok(p)) == Ok::<UriView, Seq<char>>(p@),
        uri_result(Err(text)) == Err::<UriView, Seq<char>>(text@),
        address_view(Ok(text)) == Ok::<Seq<char>, ErrorView>(text@),
        address_view(Err(e)) == Err::<Seq<char>, ErrorView>(e@),
{
}

} // verus!
