//! Content types: the codec that they name, and whether they announce a stream.
use crate::text::{cut_before_first, same_text, starts_with, trim};
use vstd::prelude::*;

verus! {

/// The content type of a unary message.
pub const CONTENT_TYPE_UNARY: &'static str = "application/proto";

/// The content type of a stream of messages.
pub const CONTENT_TYPE_STREAM: &'static str = "application/connect+proto";

/// How messages are written.
#[derive(Clone, Copy, Debug, PartialEq, Eq, Structural)]
pub enum ContentKind {
    Proto,
    Json,
}

/// The media type that a content type names, without its parameters.
pub open spec fn media_type(content_type: Seq<char>) -> Seq<char> {
    crate::text::trimmed(crate::text::before_first(content_type, ';'))
}

/// The codec of a content type: the protobuf one where none is named, none where
/// the type is not supported.
pub open spec fn kind_of(content_type: Seq<char>) -> Option<ContentKind> {
    let m = media_type(content_type);
    if m == ""@ || m == CONTENT_TYPE_UNARY@ || m == CONTENT_TYPE_STREAM@ {
        Some(ContentKind::Proto)
    } else if m == "application/json"@ || m == "application/connect+json"@ {
        Some(ContentKind::Json)
    } else {
        None
    }
}

/// Whether a content type announces a stream.
pub open spec fn is_stream_type(content_type: Seq<char>) -> bool {
    "application/connect+"@.is_prefix_of(media_type(content_type))
}

/// The content type of messages in a codec.
pub open spec fn type_for(stream: bool, kind: ContentKind) -> Seq<char> {
    match kind {
        ContentKind::Proto => if stream {
            CONTENT_TYPE_STREAM@
        } else {
            CONTENT_TYPE_UNARY@
        },
        ContentKind::Json => if stream {
            "application/connect+json"@
        } else {
            "application/json"@
        },
    }
}

/// Content type to codec.
pub fn content_kind_of(content_type: &str) -> (r: Option<ContentKind>)
    ensures
        r == kind_of(content_type@),
{
    let m = trim(&cut_before_first(content_type, ';'));
    if same_text(&m, "") || same_text(&m, CONTENT_TYPE_UNARY) || same_text(&m, CONTENT_TYPE_STREAM) {
        Some(ContentKind::Proto)
    } else if same_text(&m, "application/json") || same_text(&m, "application/connect+json") {
        Some(ContentKind::Json)
    } else {
        None
    }
}

/// Tests a content type for the shape of a stream.
pub fn is_stream_content_type(content_type: &str) -> (r: bool)
    ensures
        r == is_stream_type(content_type@),
{
    starts_with(&trim(&cut_before_first(content_type, ';')), "application/connect+")
}

/// Codec to content type.
pub fn content_type_for(stream: bool, kind: ContentKind) -> (r: &'static str)
    ensures
        r@ == type_for(stream, kind),
{
    match kind {
        ContentKind::Proto => if stream {
            CONTENT_TYPE_STREAM
        } else {
            CONTENT_TYPE_UNARY
        },
        ContentKind::Json => if stream {
            "application/connect+json"
        } else {
            "application/json"
        },
    }
}

/// The content type that is written for a codec is read as that codec, and as a
/// stream just where it was written for one.
pub proof fn law_content_type_reads_back(stream: bool, kind: ContentKind)
    ensures
        kind_of(type_for(stream, kind)) == Some(kind),
        is_stream_type(type_for(stream, kind)) == stream,
{
    reveal_strlit("");
    reveal_strlit("application/proto");
    reveal_strlit("application/connect+proto");
    reveal_strlit("application/json");
    reveal_strlit("application/connect+json");
    reveal_strlit("application/connect+");
    let t = type_for(stream, kind);
    lemma_plain_media_type(t);
    let p = "application/connect+"@;
    assert("application/proto"@[12] != "application/json"@[12]);
    assert("application/connect+json"@[20] != "application/connect+proto"@[20]);
    assert("application/json"@.len() < "application/connect+proto"@.len());
    if stream {
        assert(t.subrange(0, p.len() as int) =~= p);
    }
}

proof fn lemma_plain_media_type(t: Seq<char>)
    requires
        t.len() > 0,
        forall|i: int| 0 <= i < t.len() ==> #[trigger] t[i] != ';',
        !crate::text::is_white_space(t[0]),
        !crate::text::is_white_space(t.last()),
    ensures
        media_type(t) == t,
{
    crate::text::lemma_first_place(t, ';', t.len() as int);
    assert(t.take(t.len() as int) == t);
}

/// What stands behind a semicolon in a content type says nothing about the codec or
/// the shape.
pub proof fn law_parameters_are_ignored(t: Seq<char>, parameters: Seq<char>)
    requires
        !t.contains(';'),
    ensures
        kind_of(t.push(';') + parameters) == kind_of(t),
        is_stream_type(t.push(';') + parameters) == is_stream_type(t),
{
    let s = t.push(';') + parameters;
    assert forall|i: int| 0 <= i < t.len() implies #[trigger] s[i] != ';' by {
        assert(t[i] == s[i]);
        assert(t.contains(t[i]));
    }
    assert forall|i: int| 0 <= i < t.len() implies #[trigger] t[i] != ';' by {
        assert(t.contains(t[i]));
    }
    crate::text::lemma_first_place(s, ';', t.len() as int);
    crate::text::lemma_first_place(t, ';', t.len() as int);
    assert(s.take(t.len() as int) =~= t);
    assert(t.take(t.len() as int) =~= t);
}

/// Four media types are supported, and no type at all, which is read as protobuf;
/// whatever begins like one of the two stream types has the shape of a stream.
pub proof fn law_supported_types(content_type: Seq<char>)
    ensures
        ({
            let m = crate::text::trimmed(crate::text::before_first(content_type, ';'));
            let kind = kind_of(content_type);
            &&& kind == Some(ContentKind::Proto) <==> m.len() == 0 || m == "application/proto"@ || m
                == "application/connect+proto"@
            &&& kind == Some(ContentKind::Json) <==> m == "application/json"@ || m
                == "application/connect+json"@
            &&& is_stream_type(content_type) <==> m.len() >= 20 && m.take(20)
                == "application/connect+"@
        }),
{
    reveal_strlit("");
    reveal_strlit("application/proto");
    reveal_strlit("application/connect+proto");
    reveal_strlit("application/json");
    reveal_strlit("application/connect+json");
    reveal_strlit("application/connect+");
    let m = media_type(content_type);
    assert(m.len() == 0 ==> m =~= ""@);
    assert("application/proto"@[12] != "application/json"@[12]);
    assert("application/connect+json"@[20] != "application/connect+proto"@[20]);
    assert("application/json"@.len() < "application/connect+proto"@.len());
    assert("application/proto"@.len() == 17 && "application/connect+proto"@.len() == 25);
    assert("application/json"@.len() == 16 && "application/connect+json"@.len() == 24);
    assert("application/connect+"@.len() == 20);
    if m.len() >= 20 {
        assert(m.take(20) =~= m.subrange(0, 20));
    }
}

/// The content type that is written says how: the codec by its name, with a prefix
/// where the messages are those of a stream.
pub proof fn law_written_types(kind: ContentKind)
    ensures
        ({
            let codec = if kind == ContentKind::Proto {
                "proto"@
            } else {
                "json"@
            };
            &&& type_for(false, kind) == "application/"@ + codec
            &&& type_for(true, kind) == "application/connect+"@ + codec
        }),
{
    reveal_strlit("proto");
    reveal_strlit("json");
    reveal_strlit("application/");
    reveal_strlit("application/connect+");
    reveal_strlit("application/proto");
    reveal_strlit("application/connect+proto");
    reveal_strlit("application/json");
    reveal_strlit("application/connect+json");
    assert("application/"@ + "proto"@ =~= "application/proto"@);
    assert("application/"@ + "json"@ =~= "application/json"@);
    assert("application/connect+"@ + "proto"@ =~= "application/connect+proto"@);
    assert("application/connect+"@ + "json"@ =~= "application/connect+json"@);
}

} // verus!
