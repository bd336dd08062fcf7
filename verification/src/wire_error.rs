//! Errors on the wire: the JSON body of a failed unary call and the JSON payload
//! of the frame that ends a stream.
use crate::base64::{b64_bytes, b64_decode, b64_encode, b64_text};
use crate::codes::{code_from_string, code_name, code_of_name, code_to_string};
use crate::headers::{HeaderView, Headers};
use crate::json::{
    json_text, members_tree, parse_json, parsed_json, push_member, textual, write_json, Json,
    JsonTree,
};
use crate::message::{detail_views, DetailView, ErrorDetail, ErrorView};
use crate::text::texts;
use vstd::prelude::*;
use vstd::utf8::encode_utf8;

verus! {

// ---- the shape of the documents ----

/// The document of one detail.
pub open spec fn detail_tree(d: DetailView) -> JsonTree {
    JsonTree::Object(
        map!["type"@ => JsonTree::Text(d.type_), "value"@ => JsonTree::Text(b64_text(d.value))],
    )
}

/// The document of a list of details.
pub open spec fn details_tree(details: Seq<DetailView>) -> JsonTree {
    JsonTree::Array(details.map_values(|d: DetailView| detail_tree(d)))
}

/// The members of the document of an error: its code by name, its message, and
/// its details where it has any.
pub open spec fn error_members(e: ErrorView) -> Map<Seq<char>, JsonTree> {
    let head = map![
        "code"@ => JsonTree::Text(code_name(e.code)),
        "message"@ => JsonTree::Text(e.message),
    ];
    if e.details.len() > 0 {
        head.insert("details"@, details_tree(e.details))
    } else {
        head
    }
}

/// The document of an error.
pub open spec fn error_tree(e: ErrorView) -> JsonTree {
    JsonTree::Object(error_members(e))
}

/// The document of a list of texts.
pub open spec fn texts_tree(v: Seq<Seq<char>>) -> JsonTree {
    JsonTree::Array(v.map_values(|s: Seq<char>| JsonTree::Text(s)))
}

/// The document of a header map.
pub open spec fn metadata_tree(m: HeaderView) -> JsonTree {
    JsonTree::Object(Map::new(|k: Seq<char>| m.dom().contains(k), |k: Seq<char>| texts_tree(m[k])))
}

/// The members of the document that ends a stream: the error where the code is
/// not 0, the metadata where there is any.
pub open spec fn end_members(e: ErrorView, metadata: HeaderView) -> Map<Seq<char>, JsonTree> {
    let error = if e.code != 0 {
        map!["error"@ => error_tree(e)]
    } else {
        Map::empty()
    };
    if metadata == Map::<Seq<char>, Seq<Seq<char>>>::empty() {
        error
    } else {
        error.insert("metadata"@, metadata_tree(metadata))
    }
}

/// The document that ends a stream.
pub open spec fn end_tree(e: ErrorView, metadata: HeaderView) -> JsonTree {
    JsonTree::Object(end_members(e, metadata))
}

/// The payload that ends a stream: the document, or nothing where the end is
/// clean and there is no metadata.
pub open spec fn end_payload(e: ErrorView, metadata: HeaderView) -> Seq<u8> {
    if e.code == 0 && metadata == Map::<Seq<char>, Seq<Seq<char>>>::empty() {
        Seq::empty()
    } else {
        json_text(end_tree(e, metadata))
    }
}

/// The error that the reader of the end of a stream sees.
pub open spec fn carried_end(e: ErrorView) -> ErrorView {
    if e.code == 0 {
        no_error()
    } else {
        carried_error(e)
    }
}

// ---- reading the documents ----

/// A text, empty where there is none.
pub open spec fn text_or_empty(s: Option<Seq<char>>) -> Seq<char> {
    match s {
        Some(s) => s,
        None => Seq::empty(),
    }
}

/// The detail that a document holds: none where its type or its value is
/// missing, empty or not text, or where the value is no base64 text.
pub open spec fn detail_from(t: JsonTree) -> Option<DetailView> {
    let type_ = text_or_empty(t.member_text("type"@));
    let value = text_or_empty(t.member_text("value"@));
    if type_.len() == 0 || value.len() == 0 {
        None
    } else {
        match b64_bytes(encode_utf8(value)) {
            Some(bytes) => Some(DetailView { type_, value: bytes }),
            None => None,
        }
    }
}

/// The details that a list of documents holds, without those that hold none.
pub open spec fn details_in(v: Seq<JsonTree>) -> Seq<DetailView>
    decreases v.len(),
{
    if v.len() == 0 {
        Seq::empty()
    } else {
        let head = details_in(v.drop_last());
        match detail_from(v.last()) {
            Some(d) => head.push(d),
            None => head,
        }
    }
}

/// The details in the member `details`.
pub open spec fn details_from(t: JsonTree) -> Seq<DetailView> {
    match t.member("details"@) {
        Some(JsonTree::Array(v)) => details_in(v),
        _ => Seq::empty(),
    }
}

/// No error.
pub open spec fn no_error() -> ErrorView {
    crate::message::plain_error(0, Seq::empty())
}

/// The error that a document stands for; a document whose `code` is not text
/// stands for none.
pub open spec fn error_from(t: JsonTree) -> ErrorView {
    match t.member_text("code"@) {
        Some(name) => ErrorView {
            code: code_of_name(name),
            message: text_or_empty(t.member_text("message"@)),
            details: details_from(t),
        },
        None => no_error(),
    }
}

/// The texts in a list of documents, without what is not text.
pub open spec fn texts_in(v: Seq<JsonTree>) -> Seq<Seq<char>>
    decreases v.len(),
{
    if v.len() == 0 {
        Seq::empty()
    } else {
        let head = texts_in(v.drop_last());
        match v.last() {
            JsonTree::Text(s) => head.push(s),
            _ => head,
        }
    }
}

/// The header map in the member `metadata`: its members that are arrays, with
/// the texts in them.
pub open spec fn metadata_from(t: JsonTree) -> HeaderView {
    match t.member("metadata"@) {
        Some(JsonTree::Object(m)) => Map::new(
            |k: Seq<char>| m.dom().contains(k) && m[k] is Array,
            |k: Seq<char>| texts_in(m[k]->Array_0),
        ),
        _ => Map::empty(),
    }
}

/// The error that the end of a stream stands for: none where the document has no
/// member `error`; the code 2 where that member has no code.
pub open spec fn end_error_from(t: JsonTree) -> ErrorView {
    match t.member("error"@) {
        None => no_error(),
        Some(e) => ErrorView {
            code: match e.member_text("code"@) {
                Some(name) => code_of_name(name),
                None => 2,
            },
            message: text_or_empty(e.member_text("message"@)),
            details: details_from(e),
        },
    }
}

/// The error in the body of a failed unary call; none where the body is empty
/// or is no JSON document.
pub open spec fn body_error(body: Seq<u8>) -> ErrorView {
    match parsed_json(body) {
        Some(t) => if body.len() == 0 {
            no_error()
        } else {
            error_from(t)
        },
        None => no_error(),
    }
}

/// The error in the payload that ends a stream; none where the payload is empty
/// or is no JSON document.
pub open spec fn end_error(payload: Seq<u8>) -> ErrorView {
    match parsed_json(payload) {
        Some(t) => if payload.len() == 0 {
            no_error()
        } else {
            end_error_from(t)
        },
        None => no_error(),
    }
}

/// The metadata in the payload that ends a stream.
pub open spec fn end_metadata(payload: Seq<u8>) -> HeaderView {
    match parsed_json(payload) {
        Some(t) => if payload.len() == 0 {
            Map::empty()
        } else {
            metadata_from(t)
        },
        None => Map::empty(),
    }
}

// ---- what the wire keeps ----

/// Whether a detail survives the wire.
pub open spec fn is_carried(d: DetailView) -> bool {
    d.type_.len() > 0 && d.value.len() > 0
}

/// The details that survive the wire: those with a type and a value.
pub open spec fn carried(details: Seq<DetailView>) -> Seq<DetailView> {
    details.filter(|d: DetailView| is_carried(d))
}

/// The code that survives the wire.
pub open spec fn carried_code(code: int) -> int {
    if 0 <= code <= 16 {
        code
    } else {
        2
    }
}

/// The error that survives the wire.
pub open spec fn carried_error(e: ErrorView) -> ErrorView {
    ErrorView { code: carried_code(e.code), message: e.message, details: carried(e.details) }
}

proof fn lemma_member_names()
    ensures
        "code"@ != "message"@,
        "code"@ != "details"@,
        "message"@ != "details"@,
        "type"@ != "value"@,
        "error"@ != "metadata"@,
{
    reveal_strlit("code");
    reveal_strlit("message");
    reveal_strlit("details");
    reveal_strlit("type");
    reveal_strlit("value");
    reveal_strlit("error");
    reveal_strlit("metadata");
    assert("code"@.len() != "message"@.len());
    assert("code"@.len() != "details"@.len());
    assert("message"@[0] != "details"@[0]);
    assert("type"@.len() != "value"@.len());
    assert("error"@.len() != "metadata"@.len());
}

proof fn lemma_detail_reads_back(d: DetailView)
    ensures
        is_carried(d) ==> detail_from(detail_tree(d)) == Some(d),
        !is_carried(d) ==> detail_from(detail_tree(d)) is None,
{
    lemma_member_names();
    crate::base64::law_b64_round_trip(d.value);
    let t = detail_tree(d);
    assert(t.member_text("type"@) == Some(d.type_));
    assert(t.member_text("value"@) == Some(b64_text(d.value)));
    assert(b64_text(d.value).len() == 0 <==> d.value.len() == 0);
}

proof fn lemma_details_read_back(details: Seq<DetailView>)
    ensures
        details_in(details_tree(details)->Array_0) == carried(details),
    decreases details.len(),
{
    let v = details_tree(details)->Array_0;
    reveal(Seq::filter);
    if details.len() > 0 {
        let head = details.drop_last();
        lemma_details_read_back(head);
        assert(v.drop_last() =~= details_tree(head)->Array_0);
        assert(v.last() == detail_tree(details.last()));
        lemma_detail_reads_back(details.last());
    }
}

/// The document of an error is read as the error that survives the wire.
pub proof fn law_error_document_reads_back(e: ErrorView)
    ensures
        error_from(error_tree(e)) == carried_error(e),
{
    lemma_member_names();
    crate::codes::law_code_names_read_back(e.code);
    let t = error_tree(e);
    assert(t.member_text("code"@) == Some(code_name(e.code)));
    assert(t.member_text("message"@) == Some(e.message));
    lemma_error_details(e);
}

proof fn lemma_error_details(e: ErrorView)
    ensures
        details_from(error_tree(e)) == carried(e.details),
{
    lemma_member_names();
    lemma_details_read_back(e.details);
    let t = error_tree(e);
    if e.details.len() > 0 {
        assert(t.member("details"@) == Some(details_tree(e.details)));
    } else {
        assert(t.member("details"@) is None);
        reveal(Seq::filter);
        assert(carried(e.details) =~= Seq::empty());
    }
}

proof fn lemma_texts_read_back(v: Seq<Seq<char>>)
    ensures
        texts_in(texts_tree(v)->Array_0) == v,
    decreases v.len(),
{
    let t = texts_tree(v)->Array_0;
    if v.len() == 0 {
        assert(texts_in(t) =~= v);
    } else {
        lemma_texts_read_back(v.drop_last());
        assert(t.drop_last() =~= texts_tree(v.drop_last())->Array_0);
        assert(t.last() == JsonTree::Text(v.last()));
        assert(texts_in(t) =~= v);
    }
}

/// The document that ends a stream is read as the error that survives the wire
/// and as the metadata, all of it; a clean end keeps neither message nor details.
pub proof fn law_end_document_reads_back(e: ErrorView, metadata: HeaderView)
    ensures
        end_error_from(end_tree(e, metadata)) == carried_end(e),
        metadata_from(end_tree(e, metadata)) == metadata,
{
    lemma_member_names();
    crate::codes::law_code_names_read_back(e.code);
    let t = end_tree(e, metadata);
    if e.code != 0 {
        assert(t.member("error"@) == Some(error_tree(e)));
        let u = error_tree(e);
        assert(u.member_text("code"@) == Some(code_name(e.code)));
        assert(u.member_text("message"@) == Some(e.message));
        lemma_error_details(e);
    } else {
        assert(t.member("error"@) is None);
    }
    if metadata == Map::<Seq<char>, Seq<Seq<char>>>::empty() {
        assert(t.member("metadata"@) is None);
    } else {
        assert(t.member("metadata"@) == Some(metadata_tree(metadata)));
        let m = metadata_tree(metadata)->Object_0;
        assert forall|k: Seq<char>| m.dom().contains(k) implies texts_in(
            (#[trigger] m[k])->Array_0,
        ) == metadata[k] by {
            lemma_texts_read_back(metadata[k]);
        }
        assert(metadata_from(t) =~= metadata);
    }
}

proof fn lemma_textual(e: ErrorView, metadata: HeaderView)
    ensures
        textual(error_tree(e), 127),
        textual(end_tree(e, metadata), 127),
{
    lemma_error_textual(e, 127);
    lemma_error_textual(e, 126);
    let m = end_members(e, metadata);
    lemma_member_names();
    assert forall|k: Seq<char>| m.dom().contains(k) implies textual(#[trigger] m[k], 126) by {
        if k == "metadata"@ {
            let md = metadata_tree(metadata)->Object_0;
            assert forall|n: Seq<char>| md.dom().contains(n) implies textual(
                #[trigger] md[n],
                125,
            ) by {
                let vs = texts_tree(metadata[n])->Array_0;
                assert forall|i: int| 0 <= i < vs.len() implies textual(#[trigger] vs[i], 124) by {}
            }
        }
    }
}

proof fn lemma_error_textual(e: ErrorView, depth: nat)
    requires
        depth > 10,
    ensures
        textual(error_tree(e), depth),
{
    lemma_member_names();
    let m = error_members(e);
    let d1 = (depth - 1) as nat;
    let d2 = (depth - 2) as nat;
    let d3 = (depth - 3) as nat;
    assert forall|k: Seq<char>| m.dom().contains(k) implies textual(#[trigger] m[k], d1) by {
        if k == "details"@ {
            let v = details_tree(e.details)->Array_0;
            assert forall|i: int| 0 <= i < v.len() implies textual(#[trigger] v[i], d2) by {
                let om = detail_tree(e.details[i])->Object_0;
                assert forall|n: Seq<char>| om.dom().contains(n) implies textual(
                    #[trigger] om[n],
                    d3,
                ) by {}
            }
        }
    }
}

// ---- writing ----

/// The error that a code, a message and a list of details make.
pub open spec fn error_of(code: int, message: Seq<char>, details: Seq<ErrorDetail>) -> ErrorView {
    ErrorView { code, message, details: detail_views(details) }
}

/// The document of a list of details.
pub fn wire_details(details: &[ErrorDetail]) -> (r: Json)
    ensures
        r.tree() == details_tree(detail_views(details@)),
{
    let mut out: Vec<Json> = Vec::new();
    let mut i: usize = 0;
    while i < details.len()
        invariant
            i <= details@.len(),
            out@.len() == i,
            forall|j: int|
                0 <= j < i ==> (#[trigger] out@[j]).tree() == detail_tree(details@[j]@),
        decreases details@.len() - i,
    {
        let mut v: Vec<(String, Json)> = Vec::new();
        push_member(&mut v, "type", Json::Text(details[i].type_.clone()));
        push_member(&mut v, "value", Json::Text(b64_encode(&details[i].value)));
        let d = Json::Object(v);
        assert(d.tree()->Object_0 =~= detail_tree(details@[i as int]@)->Object_0);
        out.push(d);
        i += 1;
    }
    let r = Json::Array(out);
    assert(r.tree()->Array_0 =~= details_tree(detail_views(details@))->Array_0);
    r
}

/// The document of an error.
pub fn error_to_json(code: i32, message: &str, details: &[ErrorDetail]) -> (r: Json)
    ensures
        r.tree() == error_tree(error_of(code as int, message@, details@)),
{
    let mut v: Vec<(String, Json)> = Vec::new();
    push_member(&mut v, "code", Json::Text(code_to_string(code).to_owned()));
    push_member(&mut v, "message", Json::Text(message.to_owned()));
    if details.len() > 0 {
        push_member(&mut v, "details", wire_details(details));
    }
    let ghost e = error_of(code as int, message@, details@);
    assert(e.details.len() == details@.len());
    assert(members_tree(v@) =~= error_members(e));
    Json::Object(v)
}

fn texts_to_json(v: &Vec<String>) -> (r: Json)
    ensures
        r.tree() == texts_tree(texts(v@)),
{
    let mut out: Vec<Json> = Vec::new();
    let mut i: usize = 0;
    while i < v.len()
        invariant
            i <= v@.len(),
            out@.len() == i,
            forall|j: int| 0 <= j < i ==> (#[trigger] out@[j]).tree() == JsonTree::Text(v@[j]@),
        decreases v@.len() - i,
    {
        out.push(Json::Text(v[i].clone()));
        i += 1;
    }
    let r = Json::Array(out);
    assert(r.tree()->Array_0 =~= texts_tree(texts(v@))->Array_0);
    r
}

/// The document of a header map.
pub fn metadata_to_json(m: &Headers) -> (r: Json)
    ensures
        r.tree() == metadata_tree(m@),
{
    let mut v: Vec<(String, Json)> = Vec::new();
    let n = m.len();
    let ghost names = m.names();
    let mut i: usize = 0;
    while i < n
        invariant
            i <= n,
            n == names.len(),
            names == m.names(),
            forall|k: Seq<char>|
                members_tree(v@).dom().contains(k) <==> names.take(i as int).contains(k),
            forall|k: Seq<char>|
                members_tree(v@).dom().contains(k) ==> #[trigger] members_tree(v@)[k]
                    == texts_tree(m@[k]),
        decreases n - i,
    {
        let name = m.name_at(i);
        push_member(&mut v, name.as_str(), texts_to_json(m.values_at(i)));
        proof {
            let earlier = names.take(i as int);
            let now = names.take(i + 1);
            assert(now == earlier.push(names[i as int]));
            assert forall|k: Seq<char>|
                members_tree(v@).dom().contains(k) <==> now.contains(k) by {
                if earlier.contains(k) {
                    let j = choose|j: int| 0 <= j < earlier.len() && earlier[j] == k;
                    assert(now[j] == k);
                }
                if now.contains(k) {
                    let j = choose|j: int| 0 <= j < now.len() && now[j] == k;
                    if j < i {
                        assert(earlier[j] == k);
                    }
                }
                assert(now[i as int] == name@);
            }
        }
        i += 1;
    }
    assert(names.take(i as int) == names);
    assert(members_tree(v@) =~= metadata_tree(m@)->Object_0) by {
        assert forall|k: Seq<char>| names.contains(k) <==> m@.dom().contains(k) by {
            assert(names.to_set().contains(k) <==> m@.dom().contains(k));
        }
    }
    Json::Object(v)
}

/// The document that ends a stream.
pub fn end_to_json(code: i32, message: &str, details: &[ErrorDetail], metadata: &Headers) -> (r:
    Json)
    ensures
        r.tree() == end_tree(error_of(code as int, message@, details@), metadata@),
{
    let mut v: Vec<(String, Json)> = Vec::new();
    if code != 0 {
        push_member(&mut v, "error", error_to_json(code, message, details));
    }
    if !metadata.is_empty() {
        push_member(&mut v, "metadata", metadata_to_json(metadata));
    }
    assert(members_tree(v@) =~= end_members(error_of(code as int, message@, details@), metadata@));
    Json::Object(v)
}

/// Encodes the body of a failed unary call. What is decoded from it is the error
/// that survives the wire.
pub fn encode_error_json(code: i32, message: &str, details: &[ErrorDetail]) -> (out: Vec<u8>)
    ensures
        out@ == json_text(error_tree(error_of(code as int, message@, details@))),
        body_error(out@) == carried_error(error_of(code as int, message@, details@)),
{
    proof {
        let e = error_of(code as int, message@, details@);
        lemma_textual(e, Map::empty());
        law_error_document_reads_back(e);
    }
    write_json(error_to_json(code, message, details))
}

/// Encodes the payload that ends a stream: empty where the end is clean and there
/// is no metadata. What is decoded from it is the error that survives the wire,
/// and the metadata.
pub fn encode_end_stream_meta(
    code: i32,
    message: &str,
    details: &[ErrorDetail],
    metadata: &Headers,
) -> (out: Vec<u8>)
    ensures
        ({
            let e = error_of(code as int, message@, details@);
            &&& out@ == end_payload(e, metadata@)
            &&& end_error(out@) == carried_end(e)
            &&& end_metadata(out@) == metadata@
        }),
{
    if code == 0 && metadata.is_empty() {
        return Vec::new();
    }
    proof {
        let e = error_of(code as int, message@, details@);
        lemma_textual(e, metadata@);
        law_end_document_reads_back(e, metadata@);
    }
    write_json(end_to_json(code, message, details, metadata))
}

/// Encodes the payload that ends a stream, without metadata: a clean end is
/// empty.
pub fn encode_end_stream(code: i32, message: &str, details: &[ErrorDetail]) -> (out: Vec<u8>)
    ensures
        ({
            let e = error_of(code as int, message@, details@);
            &&& out@ == end_payload(e, Map::empty())
            &&& end_error(out@) == carried_end(e)
            &&& end_metadata(out@) == Map::<Seq<char>, Seq<Seq<char>>>::empty()
        }),
{
    encode_end_stream_meta(code, message, details, &Headers::new())
}

// ---- reading ----

/// A copy of a text that may be absent; empty where it is.
fn owned_or_empty(s: Option<&String>) -> (r: String)
    ensures
        r@ == text_or_empty(
            match s {
                Some(s) => Some(s@),
                None => None,
            },
        ),
{
    match s {
        Some(s) => s.clone(),
        None => String::new(),
    }
}

fn detail_from_json(j: &Json) -> (r: Option<ErrorDetail>)
    ensures
        match r {
            Some(d) => detail_from(j.tree()) == Some(d@),
            None => detail_from(j.tree()) is None,
        },
{
    let type_ = owned_or_empty(j.member_text("type"));
    let value = owned_or_empty(j.member_text("value"));
    if type_.as_str().is_empty() || value.as_str().is_empty() {
        return None;
    }
    match b64_decode(&value) {
        Some(bytes) => Some(ErrorDetail { type_, value: bytes }),
        None => None,
    }
}

/// The details in the member `details` of a document. An entry that holds none
/// is skipped.
pub fn parse_wire_details(j: &Json) -> (out: Vec<ErrorDetail>)
    ensures
        detail_views(out@) == details_from(j.tree()),
{
    let mut out: Vec<ErrorDetail> = Vec::new();
    assert(detail_views(out@) =~= Seq::empty());
    match j.member("details") {
        Some(Json::Array(v)) => {
            let ghost whole = Json::Array(*v).tree()->Array_0;
            let mut i: usize = 0;
            while i < v.len()
                invariant
                    i <= v@.len(),
                    whole.len() == v@.len(),
                    forall|k: int| 0 <= k < v@.len() ==> #[trigger] whole[k] == v@[k].tree(),
                    detail_views(out@) == details_in(whole.take(i as int)),
                decreases v@.len() - i,
            {
                assert(whole.take(i + 1).drop_last() == whole.take(i as int));
                assert(whole.take(i + 1).last() == v@[i as int].tree());
                let ghost before = out@;
                match detail_from_json(&v[i]) {
                    Some(d) => {
                        out.push(d);
                        assert(detail_views(out@) =~= detail_views(before).push(d@));
                    },
                    None => {},
                }
                i += 1;
            }
            assert(whole.take(i as int) == whole);
        },
        _ => {},
    }
    out
}

/// The error that a document stands for.
pub fn error_from_json(j: &Json) -> (r: (i32, String, Vec<ErrorDetail>))
    ensures
        error_of(r.0 as int, r.1@, r.2@) == error_from(j.tree()),
{
    match j.member_text("code") {
        Some(name) => (
            code_from_string(name),
            owned_or_empty(j.member_text("message")),
            parse_wire_details(j),
        ),
        None => nothing_wrong(),
    }
}

fn nothing_wrong() -> (r: (i32, String, Vec<ErrorDetail>))
    ensures
        error_of(r.0 as int, r.1@, r.2@) == no_error(),
{
    let r = (0, String::new(), Vec::new());
    assert(detail_views(r.2@) =~= Seq::empty());
    r
}

fn texts_from(v: &Vec<Json>) -> (out: Vec<String>)
    ensures
        texts(out@) == texts_in(Json::Array(*v).tree()->Array_0),
{
    let mut out: Vec<String> = Vec::new();
    let ghost whole = Json::Array(*v).tree()->Array_0;
    assert(texts(out@) =~= Seq::empty());
    let mut i: usize = 0;
    while i < v.len()
        invariant
            i <= v@.len(),
            whole.len() == v@.len(),
            forall|k: int| 0 <= k < v@.len() ==> #[trigger] whole[k] == v@[k].tree(),
            texts(out@) == texts_in(whole.take(i as int)),
        decreases v@.len() - i,
    {
        assert(whole.take(i + 1).drop_last() == whole.take(i as int));
        assert(whole.take(i + 1).last() == v@[i as int].tree());
        match &v[i] {
            Json::Text(s) => {
                proof {
                    crate::text::lemma_texts_push(out@, *s);
                }
                out.push(s.clone());
            },
            _ => {},
        }
        i += 1;
    }
    assert(whole.take(i as int) == whole);
    out
}

/// The header map in the member `metadata` of a document.
pub fn metadata_from_json(j: &Json) -> (r: Headers)
    ensures
        r@ == metadata_from(j.tree()),
{
    let mut r = Headers::new();
    match j.member("metadata") {
        Some(o) => match o {
            Json::Object(v) => {
                let ghost m = members_tree(v@);
                let ghost want = metadata_from(j.tree());
                assert(j.tree().member("metadata"@) == Some(JsonTree::Object(m)));
                let mut i: usize = 0;
                while i < v.len()
                    invariant
                        i <= v@.len(),
                        o == Json::Object(*v),
                        m == members_tree(v@),
                        want == metadata_from(j.tree()),
                        j.tree().member("metadata"@) == Some(JsonTree::Object(m)),
                        forall|k: Seq<char>|
                            r@.dom().contains(k) <==> want.dom().contains(k) && named(
                                v@.take(i as int),
                                k,
                            ),
                        forall|k: Seq<char>| #[trigger]
                            r@.dom().contains(k) ==> r@[k] == want[k],
                    decreases v@.len() - i,
                {
                    let name = &v[i].0;
                    let ghost held = r@;
                    proof {
                        lemma_named_push(v@, i as int);
                        lemma_named(v@, name@);
                        assert(v@[i as int].0@ == name@);
                        assert(m.dom().contains(name@));
                        assert(want.dom().contains(name@) == (m[name@] is Array));
                        assert(o.tree() == JsonTree::Object(m));
                    }
                    match o.member(name.as_str()) {
                        Some(Json::Array(a)) => {
                            assert(Json::Array(*a).tree() == m[name@]);
                            r.insert(name.clone(), texts_from(a));
                        },
                        Some(other) => {
                            assert(other.tree() == m[name@]);
                        },
                        None => {},
                    }
                    proof {
                        assert forall|k: Seq<char>|
                            r@.dom().contains(k) <==> want.dom().contains(k) && named(
                                v@.take(i + 1),
                                k,
                            ) by {
                            assert(named(v@.take(i + 1), k) <==> named(v@.take(i as int), k) || k
                                == name@);
                            assert(held.dom().contains(k) <==> want.dom().contains(k) && named(
                                v@.take(i as int),
                                k,
                            ));
                        }
                    }
                    i += 1;
                }
                proof {
                    assert(v@.take(i as int) == v@);
                    assert forall|k: Seq<char>| want.dom().contains(k) implies named(v@, k) by {
                        lemma_named(v@, k);
                    }
                    assert(r@ =~= want);
                }
            },
            _ => {
                assert(r@ =~= metadata_from(j.tree()));
            },
        },
        None => {},
    }
    r
}

spec fn named(v: Seq<(String, Json)>, k: Seq<char>) -> bool {
    exists|i: int| 0 <= i < v.len() && (#[trigger] v[i]).0@ == k
}

proof fn lemma_named_push(v: Seq<(String, Json)>, i: int)
    requires
        0 <= i < v.len(),
    ensures
        forall|k: Seq<char>|
            named(v.take(i + 1), k) <==> named(v.take(i), k) || v[i].0@ == k,
{
    assert forall|k: Seq<char>|
        named(v.take(i + 1), k) <==> named(v.take(i), k) || v[i].0@ == k by {
        if named(v.take(i + 1), k) {
            let j = choose|j: int| 0 <= j < i + 1 && (#[trigger] v.take(i + 1)[j]).0@ == k;
            if j < i {
                assert(v.take(i)[j].0@ == k);
            }
        }
        if named(v.take(i), k) {
            let j = choose|j: int| 0 <= j < i && (#[trigger] v.take(i)[j]).0@ == k;
            assert(v.take(i + 1)[j].0@ == k);
        }
        assert(v.take(i + 1)[i] == v[i]);
    }
}

proof fn lemma_named(v: Seq<(String, Json)>, k: Seq<char>)
    ensures
        members_tree(v).dom().contains(k) <==> named(v, k),
    decreases v.len(),
{
    if v.len() > 0 {
        let t = v.drop_last();
        lemma_named(t, k);
        if named(t, k) {
            let j = choose|j: int| 0 <= j < t.len() && (#[trigger] t[j]).0@ == k;
            assert(v[j].0@ == k);
        }
        if named(v, k) && v[v.len() - 1].0@ != k {
            let j = choose|j: int| 0 <= j < v.len() && (#[trigger] v[j]).0@ == k;
            assert(t[j].0@ == k);
        }
    }
}

/// The error and the metadata that the end of a stream stands for.
pub fn end_from_json(j: &Json) -> (r: (i32, String, Vec<ErrorDetail>, Headers))
    ensures
        error_of(r.0 as int, r.1@, r.2@) == end_error_from(j.tree()),
        r.3@ == metadata_from(j.tree()),
{
    let metadata = metadata_from_json(j);
    match j.member("error") {
        None => {
            let (code, message, details) = nothing_wrong();
            (code, message, details, metadata)
        },
        Some(e) => {
            let code = match e.member_text("code") {
                Some(name) => code_from_string(name),
                None => 2,
            };
            (code, owned_or_empty(e.member_text("message")), parse_wire_details(e), metadata)
        },
    }
}

/// Decodes the body of a failed unary call: the code, the message and the
/// details. The code is 0 where the body is no error body.
pub fn decode_error_json(body: &[u8]) -> (r: (i32, String, Vec<ErrorDetail>))
    ensures
        error_of(r.0 as int, r.1@, r.2@) == body_error(body@),
{
    if body.len() == 0 {
        return nothing_wrong();
    }
    match parse_json(body) {
        Some(j) => error_from_json(&j),
        None => nothing_wrong(),
    }
}

/// Decodes the payload that ends a stream: the code, the message, the details and
/// the metadata. The code is 0 where the end is clean; a payload that cannot be
/// read is a clean end.
pub fn decode_end_stream(payload: &[u8]) -> (r: (i32, String, Vec<ErrorDetail>, Headers))
    ensures
        error_of(r.0 as int, r.1@, r.2@) == end_error(payload@),
        r.3@ == end_metadata(payload@),
{
    if payload.len() > 0 {
        match parse_json(payload) {
            Some(j) => {
                return end_from_json(&j);
            },
            None => {},
        }
    }
    let (code, message, details) = nothing_wrong();
    (code, message, details, Headers::new())
}

// ---- laws ----

/// What the wire keeps of an error: its message, all of it, a code from 0 to 16,
/// any other as 2, and the details that have a type and a value, in order. A clean
/// end keeps nothing.
pub proof fn law_what_survives(e: ErrorView)
    ensures
        carried_error(e).message == e.message,
        0 <= e.code <= 16 ==> carried_error(e).code == e.code,
        !(0 <= e.code <= 16) ==> carried_error(e).code == 2,
        carried_error(e).details == e.details.filter(
            |d: DetailView| d.type_.len() > 0 && d.value.len() > 0,
        ),
        e.code != 0 ==> carried_end(e) == carried_error(e),
        e.code == 0 ==> carried_end(e).code == 0 && carried_end(e).message.len() == 0 && carried_end(
            e,
        ).details.len() == 0,
{
    let f = |d: DetailView| is_carried(d);
    let g = |d: DetailView| d.type_.len() > 0 && d.value.len() > 0;
    assert(f =~= g);
}

/// The document of an error has its code by name, its message and, where it has
/// details, a list with one entry for each, and no other member.
pub proof fn law_error_document(e: ErrorView, k: Seq<char>)
    ensures
        ({
            let t = error_tree(e);
            let m = t->Object_0;
            &&& t is Object
            &&& m.dom().contains(k) <==> k == "code"@ || k == "message"@ || (k == "details"@
                && e.details.len() > 0)
            &&& m["code"@] == JsonTree::Text(code_name(e.code))
            &&& m["message"@] == JsonTree::Text(e.message)
            &&& e.details.len() > 0 ==> m["details"@] is Array && m["details"@]->Array_0.len()
                == e.details.len()
            &&& forall|i: int|
                0 <= i < e.details.len() ==> #[trigger] m["details"@]->Array_0[i] == JsonTree::Object(
                    map![
                        "type"@ => JsonTree::Text(e.details[i].type_),
                        "value"@ => JsonTree::Text(b64_text(e.details[i].value)),
                    ],
                )
        }),
{
    lemma_member_names();
}

/// The document that ends a stream has the error where the code is not 0 and the
/// metadata where there is any, and no other member; where there is neither, the
/// payload is empty and not a document.
pub proof fn law_end_document(e: ErrorView, metadata: HeaderView, k: Seq<char>, i: int)
    ensures
        ({
            let none = metadata.dom() == Set::<Seq<char>>::empty();
            let t = end_tree(e, metadata);
            let m = t->Object_0;
            &&& t is Object
            &&& m.dom().contains(k) <==> (k == "error"@ && e.code != 0) || (k == "metadata"@ && !none)
            &&& e.code != 0 ==> m["error"@] == error_tree(e)
            &&& e.code == 0 && none ==> end_payload(e, metadata).len() == 0
            &&& e.code != 0 || !none ==> end_payload(e, metadata) == json_text(t)
            &&& !none ==> {
                let md = m["metadata"@]->Object_0;
                &&& m["metadata"@] is Object
                &&& md.dom().contains(k) <==> metadata.dom().contains(k)
                &&& metadata.dom().contains(k) ==> md[k] is Array && md[k]->Array_0.len()
                    == metadata[k].len()
                &&& metadata.dom().contains(k) && 0 <= i < metadata[k].len() ==> md[k]->Array_0[i]
                    == JsonTree::Text(metadata[k][i])
            }
        }),
{
    lemma_member_names();
    let empty = Map::<Seq<char>, Seq<Seq<char>>>::empty();
    if metadata.dom() == Set::<Seq<char>>::empty() {
        assert(metadata =~= empty);
    } else {
        assert(metadata != empty);
    }
}

/// An entry in a list of details is read where it has a type and a value that are
/// text and not empty and the value is base64; else it is passed over, and the
/// entries around it are read all the same.
pub proof fn law_details_are_read(v: Seq<JsonTree>, t: JsonTree)
    ensures
        details_in(Seq::empty()).len() == 0,
        ({
            let type_ = t.member_text("type"@);
            let value = t.member_text("value"@);
            let bytes = b64_bytes(encode_utf8(value->0));
            let whole = type_ is Some && type_->0.len() > 0 && value is Some && value->0.len() > 0
                && bytes is Some;
            &&& whole ==> details_in(v.push(t)) == details_in(v).push(
                DetailView { type_: type_->0, value: bytes->0 },
            )
            &&& !whole ==> details_in(v.push(t)) == details_in(v)
        }),
{
    assert(v.push(t).drop_last() =~= v);
}

/// A document whose code is text is read as an error: the code by its name, the
/// message where that is text and empty where it is not, and the details where they
/// are a list. One whose code is not text is read as no error.
pub proof fn law_error_document_is_read(t: JsonTree)
    ensures
        ({
            let code = t.member_text("code"@);
            let message = t.member_text("message"@);
            let details = t.member("details"@);
            let e = error_from(t);
            &&& code is None ==> e.code == 0 && e.message.len() == 0 && e.details.len() == 0
            &&& code is Some ==> e.code == code_of_name(code->0)
            &&& code is Some && message is Some ==> e.message == message->0
            &&& code is Some && message is None ==> e.message.len() == 0
            &&& code is Some && details is Some && details->0 is Array ==> e.details == details_in(
                details->0->Array_0,
            )
            &&& code is Some && (details is None || !(details->0 is Array)) ==> e.details.len() == 0
        }),
{
}

/// The document that ends a stream is read as no error where it has none, and as an
/// error where it has one, with the code 2 where that names none.
pub proof fn law_end_document_is_read(t: JsonTree)
    ensures
        ({
            let error = t.member("error"@);
            let e = end_error_from(t);
            let code = error->0.member_text("code"@);
            let message = error->0.member_text("message"@);
            let details = error->0.member("details"@);
            &&& error is None ==> e.code == 0 && e.message.len() == 0 && e.details.len() == 0
            &&& error is Some && code is Some ==> e.code == code_of_name(code->0)
            &&& error is Some && code is None ==> e.code == 2
            &&& error is Some && message is Some ==> e.message == message->0
            &&& error is Some && message is None ==> e.message.len() == 0
            &&& error is Some && details is Some && details->0 is Array ==> e.details == details_in(
                details->0->Array_0,
            )
            &&& error is Some && (details is None || !(details->0 is Array)) ==> e.details.len()
                == 0
        }),
{
}

/// The metadata of a document are its members that are lists, each with the texts
/// in it, in order; what is not text is passed over.
pub proof fn law_metadata_is_read(t: JsonTree, k: Seq<char>, v: Seq<JsonTree>, x: JsonTree)
    ensures
        ({
            let metadata = t.member("metadata"@);
            let m = metadata->0->Object_0;
            let got = metadata_from(t);
            &&& metadata is None || !(metadata->0 is Object) ==> !got.dom().contains(k)
            &&& metadata is Some && metadata->0 is Object ==> {
                &&& got.dom().contains(k) <==> m.dom().contains(k) && m[k] is Array
                &&& got.dom().contains(k) ==> got[k] == texts_in(m[k]->Array_0)
            }
        }),
        texts_in(Seq::empty()).len() == 0,
        x is Text ==> texts_in(v.push(x)) == texts_in(v).push(x->Text_0),
        !(x is Text) ==> texts_in(v.push(x)) == texts_in(v),
{
    assert(v.push(x).drop_last() =~= v);
}

/// A body that is no document carries no error, nor does an empty one, nor such a
/// payload at the end of a stream; any other carries what its document stands for.
pub proof fn law_bodies_are_documents(body: Seq<u8>)
    ensures
        body.len() == 0 || parsed_json(body) is None ==> {
            &&& body_error(body).code == 0 && body_error(body).details.len() == 0
            &&& end_error(body).code == 0 && end_error(body).details.len() == 0
            &&& end_metadata(body).dom() == Set::<Seq<char>>::empty()
        },
        body.len() > 0 && parsed_json(body) is Some ==> {
            &&& body_error(body) == error_from(parsed_json(body)->0)
            &&& end_error(body) == end_error_from(parsed_json(body)->0)
            &&& end_metadata(body) == metadata_from(parsed_json(body)->0)
        },
{
}

/// A member that an error document need not have says nothing about the error.
pub proof fn law_other_members_are_ignored(m: Map<Seq<char>, JsonTree>, k: Seq<char>, x: JsonTree)
    requires
        k != "code"@,
        k != "message"@,
        k != "details"@,
    ensures
        error_from(JsonTree::Object(m.insert(k, x))) == error_from(JsonTree::Object(m)),
{
    let a = JsonTree::Object(m);
    let b = JsonTree::Object(m.insert(k, x));
    assert(a.member("code"@) == b.member("code"@));
    assert(a.member("message"@) == b.member("message"@));
    assert(a.member("details"@) == b.member("details"@));
}

/// An error that is put together has the code, the message and the details that it
/// is given, all of them.
pub proof fn law_error_of(code: int, message: Seq<char>, details: Seq<ErrorDetail>, i: int)
    ensures
        error_of(code, message, details).code == code,
        error_of(code, message, details).message == message,
        error_of(code, message, details).details.len() == details.len(),
        0 <= i < details.len() ==> error_of(code, message, details).details[i] == details[i]@,
{
}

} // verus!
