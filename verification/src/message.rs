//! The values that a call is made of: requests, responses, errors and the
//! descriptions of methods.
use crate::headers::Headers;
use crate::text::joined;
use vstd::prelude::*;

verus! {

/// A structured error detail. `type_` is the wire "type" (a type URL); `value`
/// is opaque bytes, typically an encoded protobuf message.
#[derive(Debug, PartialEq)]
pub struct ErrorDetail {
    pub type_: String,
    pub value: Vec<u8>,
}

/// An error detail as plain sequences.
pub struct DetailView {
    pub type_: Seq<char>,
    pub value: Seq<u8>,
}

impl View for ErrorDetail {
    type V = DetailView;

    open spec fn view(&self) -> DetailView {
        DetailView { type_: self.type_@, value: self.value@ }
    }
}

impl Clone for ErrorDetail {
    fn clone(&self) -> (r: ErrorDetail)
        ensures
            r@ == self@,
    {
        let value = self.value.clone();
        assert(value@ =~= self.value@);
        ErrorDetail { type_: self.type_.clone(), value }
    }
}

/// The views of a list of details.
pub open spec fn detail_views(v: Seq<ErrorDetail>) -> Seq<DetailView> {
    v.map_values(|d: ErrorDetail| d@)
}

/// A copy of a list of details.
pub fn copy_details(v: &Vec<ErrorDetail>) -> (out: Vec<ErrorDetail>)
    ensures
        detail_views(out@) == detail_views(v@),
{
    let mut out: Vec<ErrorDetail> = Vec::new();
    let mut i: usize = 0;
    while i < v.len()
        invariant
            i <= v@.len(),
            out@.len() == i,
            forall|j: int| 0 <= j < i ==> (#[trigger] out@[j])@ == v@[j]@,
        decreases v@.len() - i,
    {
        out.push(v[i].clone());
        i += 1;
    }
    assert(detail_views(out@) =~= detail_views(v@));
    out
}

/// An error with a Connect code.
#[derive(Debug)]
pub struct RPCError {
    pub code: i32,
    pub message: String,
    /// Optional structured details, opaque to the wire layer.
    pub details: Vec<ErrorDetail>,
}

/// An error as plain values.
pub struct ErrorView {
    pub code: int,
    pub message: Seq<char>,
    pub details: Seq<DetailView>,
}

impl View for RPCError {
    type V = ErrorView;

    open spec fn view(&self) -> ErrorView {
        ErrorView {
            code: self.code as int,
            message: self.message@,
            details: detail_views(self.details@),
        }
    }
}

/// The error with a code and a message and no details.
pub open spec fn plain_error(code: int, message: Seq<char>) -> ErrorView {
    ErrorView { code, message, details: Seq::empty() }
}

/// The view of an error that may be absent.
pub open spec fn error_view(e: Option<RPCError>) -> Option<ErrorView> {
    match e {
        Some(e) => Some(e@),
        None => None,
    }
}

impl Clone for RPCError {
    fn clone(&self) -> (r: RPCError)
        ensures
            r@ == self@,
    {
        RPCError {
            code: self.code,
            message: self.message.clone(),
            details: copy_details(&self.details),
        }
    }
}

impl Default for RPCError {
    fn default() -> (r: RPCError)
        ensures
            r@ == plain_error(0, Seq::empty()),
    {
        let r = RPCError { code: 0, message: String::new(), details: Vec::new() };
        assert(r@.details =~= Seq::empty());
        r
    }
}

impl RPCError {
    /// An error without details.
    pub fn new(code: i32, message: &str) -> (r: RPCError)
        ensures
            r@ == plain_error(code as int, message@),
    {
        let r = RPCError { code, message: message.to_owned(), details: Vec::new() };
        assert(r@.details =~= Seq::empty());
        r
    }

    /// The same error with the given details in place of those that it has.
    pub fn with_details(self, details: Vec<ErrorDetail>) -> (r: RPCError)
        ensures
            r.code == self.code,
            r.message == self.message,
            r.details == details,
    {
        RPCError { code: self.code, message: self.message, details }
    }

    /// The error in words, with its code; the details are left out.
    pub fn to_text(&self) -> (out: String)
        ensures
            out@ == "easyrpc: code="@ + crate::decimal::signed_decimal(self.code as int) + " "@
                + self.message@,
    {
        let head = joined("easyrpc: code=", &crate::decimal::write_i64(self.code as i64));
        joined(&joined(&head, " "), &self.message)
    }
}

/// A request.
#[derive(Debug)]
pub struct Request {
    pub url: String,
    pub method: String,
    pub headers: Headers,
    pub body: Option<Vec<u8>>,
}

/// The bytes of a body; none where there is no body.
pub open spec fn body_bytes(body: Option<Vec<u8>>) -> Seq<u8> {
    match body {
        Some(b) => b@,
        None => Seq::empty(),
    }
}

/// A response.
#[derive(Debug)]
pub struct Response {
    pub status: u16,
    pub headers: Headers,
    pub body: Vec<u8>,
    pub trailers: Headers,
    pub error: Option<RPCError>,
}

/// What is known of a method: its names, its path and its shape.
#[derive(Debug)]
pub struct MethodSpec {
    pub service: String,
    pub name: String,
    pub path: String,
    pub http_method: String,
    pub client_stream: bool,
    pub server_stream: bool,
    pub body: String,
}

impl Clone for MethodSpec {
    fn clone(&self) -> (r: MethodSpec)
        ensures
            r == *self,
    {
        MethodSpec {
            service: self.service.clone(),
            name: self.name.clone(),
            path: self.path.clone(),
            http_method: self.http_method.clone(),
            client_stream: self.client_stream,
            server_stream: self.server_stream,
            body: self.body.clone(),
        }
    }
}

impl Clone for Request {
    fn clone(&self) -> (r: Request)
        ensures
            r.url == self.url,
            r.method == self.method,
            r.headers@ == self.headers@,
            body_bytes(r.body) == body_bytes(self.body),
            r.body is Some == self.body is Some,
    {
        let body = match &self.body {
            Some(b) => Some(vstd::slice::slice_to_vec(b)),
            None => None,
        };
        Request {
            url: self.url.clone(),
            method: self.method.clone(),
            headers: self.headers.clone(),
            body,
        }
    }
}

impl Clone for Response {
    fn clone(&self) -> (r: Response)
        ensures
            r.status == self.status,
            r.headers@ == self.headers@,
            r.body@ == self.body@,
            r.trailers@ == self.trailers@,
            error_view(r.error) == error_view(self.error),
    {
        Response {
            status: self.status,
            headers: self.headers.clone(),
            body: vstd::slice::slice_to_vec(&self.body),
            trailers: self.trailers.clone(),
            error: match &self.error {
                Some(e) => Some(e.clone()),
                None => None,
            },
        }
    }
}

/// An error without details has the code and the message that it is made of, all of
/// it.
pub proof fn law_plain_error(code: int, message: Seq<char>)
    ensures
        plain_error(code, message).code == code,
        plain_error(code, message).message == message,
        plain_error(code, message).details.len() == 0,
{
}

/// The body of a request is its bytes where it has one, and empty where it has none.
pub proof fn law_body_bytes(b: Vec<u8>)
    ensures
        body_bytes(Some(b)) == b@,
        body_bytes(None).len() == 0,
{
}

/// An error is seen with its code, its message and every detail, each with its type
/// and its value; an error that may be absent is seen just where it is there.
pub proof fn law_error_views(e: RPCError, i: int)
    ensures
        e@.code == e.code,
        e@.message == e.message@,
        e@.details.len() == e.details@.len(),
        0 <= i < e.details@.len() ==> e@.details[i].type_ == e.details@[i].type_@
            && e@.details[i].value == e.details@[i].value@,
        error_view(Some(e)) == Some(e@),
        error_view(None) is None,
{
}

} // verus!
