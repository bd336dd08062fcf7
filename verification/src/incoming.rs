//! Header lines as they arrive, and the header maps that are made of them.
use crate::headers::{with_values, HeaderView, Headers};
use crate::outgoing::{gathered, is_walk, law_lines_are_gathered, lines_of, LineView};
use crate::text::{ascii_lowered, from_utf8_lossy, read_lossy, to_ascii_lowercase};
use vstd::prelude::*;
use vstd::utf8::encode_utf8;

verus! {

/// A header line: a name and the bytes of a value.
#[derive(Debug)]
pub struct RawHeader {
    pub name: String,
    pub value: Vec<u8>,
}

/// Whether a byte of a header value is a printable ASCII character or a tab.
pub open spec fn is_visible(b: u8) -> bool {
    32 <= b < 127 || b == 9
}

/// The text of a header value, where every byte of it is visible.
pub open spec fn visible(value: Seq<u8>) -> Option<Seq<char>> {
    if forall|i: int| 0 <= i < value.len() ==> is_visible(#[trigger] value[i]) {
        Some(value.map_values(|b: u8| b as char))
    } else {
        None
    }
}

/// Reads a header value as text.
pub fn visible_text(value: &[u8]) -> (r: Option<String>)
    ensures
        match r {
            Some(s) => visible(value@) == Some(s@),
            None => visible(value@) is None,
        },
{
    let mut out = String::new();
    let mut i: usize = 0;
    while i < value.len()
        invariant
            i <= value@.len(),
            forall|j: int| 0 <= j < i ==> is_visible(#[trigger] value@[j]),
            out@ == value@.take(i as int).map_values(|b: u8| b as char),
        decreases value@.len() - i,
    {
        let b = value[i];
        if !((32 <= b && b < 127) || b == 9) {
            assert(!is_visible(value@[i as int]));
            return None;
        }
        out.push(b as char);
        assert(out@ =~= value@.take(i + 1).map_values(|b: u8| b as char));
        i += 1;
    }
    assert(value@.take(i as int) =~= value@);
    Some(out)
}

/// A text that may be absent, empty where it is.
pub open spec fn visible_or_empty(value: Seq<u8>) -> Seq<char> {
    match visible(value) {
        Some(s) => s,
        None => Seq::empty(),
    }
}

/// The headers of a request, as handlers see them: every line counts, under its
/// name in lower case; a value that is not visible text is empty.
pub open spec fn request_view(raw: Seq<RawHeader>) -> HeaderView
    decreases raw.len(),
{
    if raw.len() == 0 {
        Map::empty()
    } else {
        with_values(
            request_view(raw.drop_last()),
            ascii_lowered(raw.last().name@),
            seq![visible_or_empty(raw.last().value@)],
        )
    }
}

/// The headers of a response, as a client sees them: every line counts, under its
/// name in lower case, its value read as text whatever it holds.
pub open spec fn response_view(raw: Seq<RawHeader>) -> HeaderView
    decreases raw.len(),
{
    if raw.len() == 0 {
        Map::empty()
    } else {
        with_values(
            response_view(raw.drop_last()),
            ascii_lowered(raw.last().name@),
            seq![read_lossy(raw.last().value@)],
        )
    }
}

/// Header lines of which only the last of each name counts, and none whose value
/// is not visible text.
pub open spec fn last_view(raw: Seq<RawHeader>) -> HeaderView
    decreases raw.len(),
{
    if raw.len() == 0 {
        Map::empty()
    } else {
        let earlier = last_view(raw.drop_last());
        match visible(raw.last().value@) {
            Some(s) => earlier.insert(raw.last().name@, seq![s]),
            None => earlier,
        }
    }
}

/// Collects the headers of a request.
pub fn request_headers(raw: &[RawHeader]) -> (h: Headers)
    ensures
        h@ == request_view(raw@),
{
    let mut h = Headers::new();
    let mut i: usize = 0;
    assert(raw@.take(0) =~= Seq::empty());
    while i < raw.len()
        invariant
            i <= raw@.len(),
            h@ == request_view(raw@.take(i as int)),
        decreases raw@.len() - i,
    {
        let value = match visible_text(&raw[i].value) {
            Some(s) => s,
            None => String::new(),
        };
        h.push(&to_ascii_lowercase(&raw[i].name), &value);
        assert(raw@.take(i + 1).drop_last() =~= raw@.take(i as int));
        assert(raw@.take(i + 1).last() == raw@[i as int]);
        i += 1;
    }
    assert(raw@.take(i as int) =~= raw@);
    h
}

/// Collects the headers of a response.
pub fn response_headers(raw: &[RawHeader]) -> (h: Headers)
    ensures
        h@ == response_view(raw@),
{
    let mut h = Headers::new();
    let mut i: usize = 0;
    assert(raw@.take(0) =~= Seq::empty());
    while i < raw.len()
        invariant
            i <= raw@.len(),
            h@ == response_view(raw@.take(i as int)),
        decreases raw@.len() - i,
    {
        let value = from_utf8_lossy(&raw[i].value);
        h.push(&to_ascii_lowercase(&raw[i].name), &value);
        assert(raw@.take(i + 1).drop_last() =~= raw@.take(i as int));
        assert(raw@.take(i + 1).last() == raw@[i as int]);
        i += 1;
    }
    assert(raw@.take(i as int) =~= raw@);
    h
}

/// Collects header lines, the last of each name.
pub fn last_headers(raw: &[RawHeader]) -> (h: Headers)
    ensures
        h@ == last_view(raw@),
{
    let mut h = Headers::new();
    let mut i: usize = 0;
    assert(raw@.take(0) =~= Seq::empty());
    while i < raw.len()
        invariant
            i <= raw@.len(),
            h@ == last_view(raw@.take(i as int)),
        decreases raw@.len() - i,
    {
        assert(raw@.take(i + 1).drop_last() =~= raw@.take(i as int));
        assert(raw@.take(i + 1).last() == raw@[i as int]);
        match visible_text(&raw[i].value) {
            Some(s) => {
                h.set(&raw[i].name, &s);
            },
            None => {},
        }
        i += 1;
    }
    assert(raw@.take(i as int) =~= raw@);
    h
}

// ---- laws ----

/// Whether the lines that arrive are those that were sent, in visible text.
pub open spec fn arrived(raw: Seq<RawHeader>, sent: Seq<LineView>) -> bool {
    &&& raw.len() == sent.len()
    &&& forall|i: int|
        0 <= i < raw.len() ==> (#[trigger] raw[i]).name@ == sent[i].0 && visible(raw[i].value@)
            == Some(sent[i].1)
}

proof fn lemma_request_gathers(raw: Seq<RawHeader>, sent: Seq<LineView>)
    requires
        arrived(raw, sent),
    ensures
        request_view(raw) == gathered(sent),
    decreases raw.len(),
{
    if raw.len() > 0 {
        assert(raw[raw.len() - 1].name@ == sent[raw.len() - 1].0);
        assert forall|i: int| 0 <= i < raw.drop_last().len() implies (
        #[trigger] raw.drop_last()[i]).name@ == sent.drop_last()[i].0 && visible(
            raw.drop_last()[i].value@,
        ) == Some(sent.drop_last()[i].1) by {
            assert(raw[i].name@ == sent[i].0);
        }
        lemma_request_gathers(raw.drop_last(), sent.drop_last());
    }
}

/// The headers that a client sends are the headers that a handler sees, where
/// their names are in lower case, none of them is without a value, and the values
/// arrive as visible text.
pub proof fn law_request_headers_arrive(
    names: Seq<Seq<char>>,
    m: HeaderView,
    raw: Seq<RawHeader>,
)
    requires
        is_walk(names, m),
        forall|n: Seq<char>|
            #![trigger m.dom().contains(n)]
            m.dom().contains(n) ==> ascii_lowered(n) == n && m[n].len() > 0,
        arrived(raw, lines_of(names, m)),
    ensures
        request_view(raw) == m,
{
    lemma_request_gathers(raw, lines_of(names, m));
    law_lines_are_gathered(names, m);
}

/// Whether the lines that arrive are those that were sent, in UTF-8.
pub open spec fn arrived_encoded(raw: Seq<RawHeader>, sent: Seq<LineView>) -> bool {
    &&& raw.len() == sent.len()
    &&& forall|i: int|
        0 <= i < raw.len() ==> (#[trigger] raw[i]).name@ == sent[i].0 && raw[i].value@
            == encode_utf8(sent[i].1)
}

proof fn lemma_response_gathers(raw: Seq<RawHeader>, sent: Seq<LineView>)
    requires
        arrived_encoded(raw, sent),
    ensures
        response_view(raw) == gathered(sent),
    decreases raw.len(),
{
    if raw.len() > 0 {
        let last = raw.len() - 1;
        assert(raw[last].name@ == sent[last].0);
        vstd::utf8::encode_utf8_valid_utf8(sent[last].1);
        vstd::utf8::encode_utf8_decode_utf8(sent[last].1);
        assert forall|i: int| 0 <= i < raw.drop_last().len() implies (
        #[trigger] raw.drop_last()[i]).name@ == sent.drop_last()[i].0 && raw.drop_last()[i].value@
            == encode_utf8(sent.drop_last()[i].1) by {
            assert(raw[i].name@ == sent[i].0);
        }
        lemma_response_gathers(raw.drop_last(), sent.drop_last());
    }
}

/// The headers that a server sends are the headers that a client sees, trailers
/// among them, where their names are in lower case and none of them is without a
/// value.
pub proof fn law_response_headers_arrive(
    names: Seq<Seq<char>>,
    m: HeaderView,
    raw: Seq<RawHeader>,
)
    requires
        is_walk(names, m),
        forall|n: Seq<char>|
            #![trigger m.dom().contains(n)]
            m.dom().contains(n) ==> ascii_lowered(n) == n && m[n].len() > 0,
        arrived_encoded(raw, lines_of(names, m)),
    ensures
        response_view(raw) == m,
{
    lemma_response_gathers(raw, lines_of(names, m));
    law_lines_are_gathered(names, m);
}

/// A value is text just where each of its bytes is a printable ASCII character or a
/// tab, and is then those characters.
pub proof fn law_visible(value: Seq<u8>, i: int)
    ensures
        0 <= i < value.len() && !(32 <= value[i] <= 126 || value[i] == 9) ==> visible(value) is None,
        (forall|j: int|
            0 <= j < value.len() ==> 32 <= #[trigger] value[j] <= 126 || value[j] == 9)
            ==> visible(value) is Some,
        visible(value) is Some ==> visible(value)->0.len() == value.len(),
        visible(value) is Some && 0 <= i < value.len() ==> visible(value)->0[i] as int
            == value[i] as int,
{
    if 0 <= i < value.len() && !(32 <= value[i] <= 126 || value[i] == 9) {
        assert(!is_visible(value[i]));
    }
    if visible(value) is Some && 0 <= i < value.len() {
        assert(is_visible(value[i]));
    }
}

/// One more line of a request adds its value behind those of its name, whatever
/// its case, and touches no other name; a value that is not text is added as an
/// empty one.
pub proof fn law_request_line(raw: Seq<RawHeader>, line: RawHeader, k: Seq<char>)
    ensures
        ({
            let before = request_view(raw);
            let after = request_view(raw.push(line));
            let name = ascii_lowered(line.name@);
            let value = if visible(line.value@) is Some {
                visible(line.value@)->0
            } else {
                Seq::empty()
            };
            &&& after.dom() == before.dom().insert(name)
            &&& after[name] == crate::headers::values_of(before, name).push(value)
            &&& k != name && before.dom().contains(k) ==> after[k] == before[k]
            &&& request_view(Seq::empty()).dom() == Set::<Seq<char>>::empty()
        }),
{
    let before = request_view(raw);
    let name = ascii_lowered(line.name@);
    let had = crate::headers::values_of(before, name);
    let value = visible_or_empty(line.value@);
    assert(raw.push(line).drop_last() =~= raw);
    assert(had + seq![value] =~= had.push(value));
    assert(request_view(raw.push(line)).dom() =~= before.dom().insert(name));
}

/// One more line of a response adds its value behind those of its name, whatever
/// its case, and touches no other name.
pub proof fn law_response_line(raw: Seq<RawHeader>, line: RawHeader, k: Seq<char>)
    ensures
        ({
            let before = response_view(raw);
            let after = response_view(raw.push(line));
            let name = ascii_lowered(line.name@);
            &&& after.dom() == before.dom().insert(name)
            &&& after[name] == crate::headers::values_of(before, name).push(
                read_lossy(line.value@),
            )
            &&& k != name && before.dom().contains(k) ==> after[k] == before[k]
            &&& response_view(Seq::empty()).dom() == Set::<Seq<char>>::empty()
        }),
{
    let before = response_view(raw);
    let name = ascii_lowered(line.name@);
    let had = crate::headers::values_of(before, name);
    assert(raw.push(line).drop_last() =~= raw);
    assert(had + seq![read_lossy(line.value@)] =~= had.push(read_lossy(line.value@)));
    assert(response_view(raw.push(line)).dom() =~= before.dom().insert(name));
}

/// Where the last line of a name counts, one more line takes the place of what its
/// name has, and one whose value is not text changes nothing.
pub proof fn law_last_line(raw: Seq<RawHeader>, line: RawHeader, k: Seq<char>)
    ensures
        ({
            let before = last_view(raw);
            let after = last_view(raw.push(line));
            let value = visible(line.value@);
            &&& value is None ==> after == before
            &&& value is Some ==> {
                &&& after.dom() == before.dom().insert(line.name@)
                &&& after[line.name@] == seq![value->0]
                &&& k != line.name@ && before.dom().contains(k) ==> after[k] == before[k]
            }
            &&& last_view(Seq::empty()).dom() == Set::<Seq<char>>::empty()
        }),
{
    assert(raw.push(line).drop_last() =~= raw);
    if visible(line.value@) is Some {
        assert(last_view(raw.push(line)).dom() =~= last_view(raw).dom().insert(line.name@));
    }
}

} // verus!
