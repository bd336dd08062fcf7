//! What a handler is told of a call, and what it sets besides its answer.
use crate::content::ContentKind;
use crate::deadline::{deadline_in, deadline_of};
use crate::headers::{first_of, with_values, Headers};
use vstd::prelude::*;

verus! {

/// The headers of a request and the deadline in them.
#[derive(Debug)]
pub struct RequestContext {
    pub headers: Headers,
    /// The deadline in milliseconds (0 = none).
    pub deadline_ms: u64,
}

impl Default for RequestContext {
    fn default() -> (r: RequestContext)
        ensures
            r.headers@ == Map::<Seq<char>, Seq<Seq<char>>>::empty(),
            r.deadline_ms == 0,
    {
        RequestContext { headers: Headers::new(), deadline_ms: 0 }
    }
}

impl Clone for RequestContext {
    fn clone(&self) -> (r: RequestContext)
        ensures
            r.headers@ == self.headers@,
            r.deadline_ms == self.deadline_ms,
    {
        RequestContext { headers: self.headers.clone(), deadline_ms: self.deadline_ms }
    }
}

impl RequestContext {
    /// The context of a request with these headers.
    pub fn new(headers: Headers) -> (r: RequestContext)
        ensures
            r.headers == headers,
            r.deadline_ms == deadline_in(headers@),
    {
        let deadline_ms = deadline_of(&headers);
        RequestContext { headers, deadline_ms }
    }

    /// The first value of a header.
    pub fn header(&self, name: &str) -> (r: Option<&str>)
        ensures
            match r {
                Some(v) => first_of(self.headers@, name@) == Some(v@),
                None => first_of(self.headers@, name@) is None,
            },
    {
        match self.headers.first(name) {
            Some(v) => Some(v.as_str()),
            None => None,
        }
    }
}

/// A call as its handler sees it: the request headers and the codec, and the
/// headers and trailers that the handler sets on the response.
#[derive(Debug)]
pub struct HandlerContext {
    pub headers: Headers,
    pub kind: ContentKind,
    /// The response headers that the handler has set.
    pub response: Headers,
    /// The trailers that the handler has set.
    pub trailing: Headers,
}

impl Clone for HandlerContext {
    fn clone(&self) -> (r: HandlerContext)
        ensures
            r.headers@ == self.headers@,
            r.kind == self.kind,
            r.response@ == self.response@,
            r.trailing@ == self.trailing@,
    {
        HandlerContext {
            headers: self.headers.clone(),
            kind: self.kind,
            response: self.response.clone(),
            trailing: self.trailing.clone(),
        }
    }
}

impl HandlerContext {
    /// The context of a call with these headers, in the protobuf codec, with
    /// nothing set on the response.
    pub fn new(headers: Headers) -> (r: HandlerContext)
        ensures
            r.headers == headers,
            r.kind == ContentKind::Proto,
            r.response@ == Map::<Seq<char>, Seq<Seq<char>>>::empty(),
            r.trailing@ == Map::<Seq<char>, Seq<Seq<char>>>::empty(),
    {
        HandlerContext {
            headers,
            kind: ContentKind::Proto,
            response: Headers::new(),
            trailing: Headers::new(),
        }
    }

    /// Adds a value to a response header.
    pub fn set_header(&mut self, name: &str, value: &str)
        ensures
            final(self).response@ == with_values(old(self).response@, name@, seq![value@]),
            final(self).trailing@ == old(self).trailing@,
            final(self).headers == old(self).headers,
            final(self).kind == old(self).kind,
    {
        self.response.push(name, value);
    }

    /// Adds a value to a trailer.
    pub fn set_trailer(&mut self, name: &str, value: &str)
        ensures
            final(self).trailing@ == with_values(old(self).trailing@, name@, seq![value@]),
            final(self).response@ == old(self).response@,
            final(self).headers == old(self).headers,
            final(self).kind == old(self).kind,
    {
        self.trailing.push(name, value);
    }

    /// The response headers that were set.
    pub fn response_headers(&self) -> (r: &Headers)
        ensures
            r@ == self.response@,
    {
        &self.response
    }

    /// The trailers that were set.
    pub fn trailers(&self) -> (r: &Headers)
        ensures
            r@ == self.trailing@,
    {
        &self.trailing
    }
}

} // verus!
