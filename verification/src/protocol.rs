//! The protocol in one place: the values that a call is made of, the wire, and
//! the interceptors.
use crate::text::joined;
use vstd::prelude::*;

pub use crate::base64::{b64_decode, b64_encode};
pub use crate::codes::{code_from_string, code_to_string, connect_from_status, http_status};
pub use crate::content::{
    content_kind_of, content_type_for, is_stream_content_type, ContentKind, CONTENT_TYPE_STREAM,
    CONTENT_TYPE_UNARY,
};
pub use crate::context::HandlerContext;
pub use crate::deadline::{parse_timeout, with_timeout, HEADER_TIMEOUT};
pub use crate::dispatch::{CONNECT_PROTOCOL_VERSION, HEADER_PROTOCOL_VERSION};
pub use crate::framing::{frame, frame_compressed, read_frame, DEFAULT_MAX_MESSAGE_BYTES};
pub use crate::gzip::{
    gzip_compress, gzip_decompress, gzip_decompress_strict, COMPRESS_MIN_BYTES, ENCODING_GZIP,
    HEADER_ACCEPT_ENCODING,
};
pub use crate::headers::Headers;
pub use crate::interceptors::{MetadataInterceptor, TimeoutInterceptor};
pub use crate::message::{ErrorDetail, MethodSpec, RPCError, Request, Response};
pub use crate::trailers::{demux_trailers, mux_trailers};
pub use crate::wire_error::{
    decode_end_stream, decode_error_json, encode_end_stream, encode_end_stream_meta,
    encode_error_json,
};

verus! {

/// The path of a method.
pub open spec fn method_path(pkg: Seq<char>, svc: Seq<char>, method: Seq<char>) -> Seq<char> {
    "/"@ + pkg + "."@ + svc + "/"@ + method
}

/// Makes the path of a method.
pub fn url_for(pkg: &str, svc: &str, method: &str) -> (r: String)
    ensures
        r@ == method_path(pkg@, svc@, method@),
{
    let service = joined(&joined(&joined("/", pkg), "."), svc);
    joined(&joined(&service, "/"), method)
}

/// A path names the package and the service, with a dot between them, and then the
/// method, each behind a slash.
pub proof fn law_method_paths(pkg: Seq<char>, svc: Seq<char>, method: Seq<char>)
    ensures
        ({
            let path = method_path(pkg, svc, method);
            let at = pkg.len() as int;
            let dot = at + 2 + svc.len();
            &&& path.len() == pkg.len() + svc.len() + method.len() + 3
            &&& path[0] == '/'
            &&& path.subrange(1, at + 1) == pkg
            &&& path[at + 1] == '.'
            &&& path.subrange(at + 2, dot) == svc
            &&& path[dot] == '/'
            &&& path.skip(dot + 1) == method
        }),
{
    reveal_strlit("/");
    reveal_strlit(".");
    let path = method_path(pkg, svc, method);
    let at = pkg.len() as int;
    let dot = at + 2 + svc.len();
    assert(path.subrange(1, at + 1) =~= pkg);
    assert(path.subrange(at + 2, dot) =~= svc);
    assert(path.skip(dot + 1) =~= method);
}

} // verus!
