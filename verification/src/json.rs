//! JSON documents as trees, and the calls that read and write their text.
use crate::text::same_text;
use vstd::prelude::*;

verus! {

/// A JSON document.
#[derive(Debug)]
pub enum Json {
    Null,
    Bool(bool),
    Number(serde_json::Number),
    Text(String),
    Array(Vec<Json>),
    /// The members of an object. Of several with one name the last counts.
    Object(Vec<(String, Json)>),
}

/// A JSON document as a mathematical tree.
pub enum JsonTree {
    Null,
    Bool(bool),
    Number(serde_json::Number),
    Text(Seq<char>),
    Array(Seq<JsonTree>),
    Object(Map<Seq<char>, JsonTree>),
}

/// `serde_json::Number`, which is carried through and never looked into.
#[verifier::external_type_specification]
#[verifier::external_body]
pub struct ExNumber(serde_json::Number);

/// `serde_json::Value`, whose contents are named by `value_tree`.
#[verifier::external_type_specification]
#[verifier::external_body]
pub struct ExValue(serde_json::Value);

/// `serde_json::Error`, which says only that a text is no JSON document.
#[verifier::external_type_specification]
#[verifier::external_body]
pub struct ExError(serde_json::Error);

impl Json {
    /// The tree of a document.
    pub open spec fn tree(self) -> JsonTree
        decreases self,
    {
        match self {
            Json::Null => JsonTree::Null,
            Json::Bool(b) => JsonTree::Bool(b),
            Json::Number(n) => JsonTree::Number(n),
            Json::Text(s) => JsonTree::Text(s@),
            Json::Array(v) => JsonTree::Array(
                Seq::new(
                    v@.len(),
                    |i: int|
                        if 0 <= i < v@.len() {
                            v@[i].tree()
                        } else {
                            JsonTree::Null
                        },
                ),
            ),
            Json::Object(v) => JsonTree::Object(members_tree(v@)),
        }
    }
}

/// The members of an object as a map.
pub open spec fn members_tree(v: Seq<(String, Json)>) -> Map<Seq<char>, JsonTree>
    decreases v,
{
    if v.len() == 0 {
        Map::empty()
    } else {
        members_tree(v.drop_last()).insert(v[v.len() - 1].0@, v[v.len() - 1].1.tree())
    }
}

pub proof fn lemma_members_push(v: Seq<(String, Json)>, e: (String, Json))
    ensures
        members_tree(v.push(e)) == members_tree(v).insert(e.0@, e.1.tree()),
{
    assert(v.push(e).drop_last() =~= v);
}

impl JsonTree {
    /// The member of that name, where the tree is an object that has it.
    pub open spec fn member(self, name: Seq<char>) -> Option<JsonTree> {
        match self {
            JsonTree::Object(m) => if m.dom().contains(name) {
                Some(m[name])
            } else {
                None
            },
            _ => None,
        }
    }

    /// The text, where the tree is one.
    pub open spec fn text(self) -> Option<Seq<char>> {
        match self {
            JsonTree::Text(s) => Some(s),
            _ => None,
        }
    }

    /// The text of the member of that name, where there is one and it is text.
    pub open spec fn member_text(self, name: Seq<char>) -> Option<Seq<char>> {
        match self.member(name) {
            Some(t) => t.text(),
            None => None,
        }
    }
}

/// Whether a tree is made of text, arrays and objects alone, nested at most
/// `depth` deep.
pub open spec fn textual(t: JsonTree, depth: nat) -> bool
    decreases depth,
{
    match t {
        JsonTree::Text(_) => true,
        JsonTree::Array(v) => depth > 0 && forall|i: int|
            0 <= i < v.len() ==> textual(#[trigger] v[i], (depth - 1) as nat),
        JsonTree::Object(m) => depth > 0 && forall|k: Seq<char>|
            m.dom().contains(k) ==> textual(#[trigger] m[k], (depth - 1) as nat),
        _ => false,
    }
}

/// Adds a member to an object.
pub fn push_member(v: &mut Vec<(String, Json)>, name: &str, value: Json)
    ensures
        members_tree(final(v)@) == members_tree(old(v)@).insert(name@, value.tree()),
{
    let ghost before = v@;
    let e = (name.to_owned(), value);
    proof {
        lemma_members_push(before, e);
    }
    v.push(e);
}

impl Json {
    /// The member of that name.
    pub fn member(&self, name: &str) -> (r: Option<&Json>)
        ensures
            match r {
                Some(j) => self.tree().member(name@) == Some(j.tree()),
                None => self.tree().member(name@) is None,
            },
    {
        match self {
            Json::Object(v) => {
                let mut i: usize = v.len();
                assert(v@.take(i as int) == v@);
                while i > 0
                    invariant
                        i <= v@.len(),
                        self.tree() == JsonTree::Object(members_tree(v@)),
                        members_tree(v@).dom().contains(name@) == members_tree(
                            v@.take(i as int),
                        ).dom().contains(name@),
                        members_tree(v@).dom().contains(name@) ==> members_tree(v@)[name@]
                            == members_tree(v@.take(i as int))[name@],
                    decreases i,
                {
                    let ghost cur = v@.take(i as int);
                    assert(cur.drop_last() == v@.take(i - 1));
                    i -= 1;
                    let (key, value) = &v[i];
                    assert(cur[cur.len() - 1] == v@[i as int]);
                    if same_text(key.as_str(), name) {
                        return Some(value);
                    }
                }
                assert(v@.take(0) == Seq::<(String, Json)>::empty());
                None
            },
            _ => None,
        }
    }

    /// The text, where the document is one.
    pub fn as_text(&self) -> (r: Option<&String>)
        ensures
            match r {
                Some(s) => self.tree().text() == Some(s@),
                None => self.tree().text() is None,
            },
    {
        match self {
            Json::Text(s) => Some(s),
            _ => None,
        }
    }

    /// The text of the member of that name.
    pub fn member_text(&self, name: &str) -> (r: Option<&String>)
        ensures
            match r {
                Some(s) => self.tree().member_text(name@) == Some(s@),
                None => self.tree().member_text(name@) is None,
            },
    {
        match self.member(name) {
            Some(j) => j.as_text(),
            None => None,
        }
    }
}

// ---- reading and writing the text of a document ----

/// What a `serde_json::Value` holds.
pub uninterp spec fn value_tree(v: serde_json::Value) -> JsonTree;

/// The document that `serde_json::from_slice` reads from bytes, if any.
pub uninterp spec fn parsed_json(text: Seq<u8>) -> Option<JsonTree>;

/// The bytes that `serde_json::to_vec` writes for a document.
pub uninterp spec fn json_text(t: JsonTree) -> Seq<u8>;

/// One level of a `serde_json::Value`.
enum ValueShape {
    Null,
    Bool(bool),
    Number(serde_json::Number),
    Text(String),
    Array(Vec<serde_json::Value>),
    Object(Vec<(String, serde_json::Value)>),
}

/// The members of an object, given as values, as a map.
spec fn value_members(v: Seq<(String, serde_json::Value)>) -> Map<Seq<char>, JsonTree>
    decreases v.len(),
{
    if v.len() == 0 {
        Map::empty()
    } else {
        value_members(v.drop_last()).insert(v.last().0@, value_tree(v.last().1))
    }
}

spec fn shape_tree(s: ValueShape) -> JsonTree {
    match s {
        ValueShape::Null => JsonTree::Null,
        ValueShape::Bool(b) => JsonTree::Bool(b),
        ValueShape::Number(n) => JsonTree::Number(n),
        ValueShape::Text(t) => JsonTree::Text(t@),
        ValueShape::Array(v) => JsonTree::Array(v@.map_values(|x: serde_json::Value| value_tree(x))),
        ValueShape::Object(v) => JsonTree::Object(value_members(v@)),
    }
}

/// Calls `serde_json::from_slice`: the document in the bytes, or an error where
/// the bytes are no document.
#[verifier::external_body]
fn value_from_slice(text: &[u8]) -> (r: Result<serde_json::Value, serde_json::Error>)
    ensures
        match r {
            Ok(v) => parsed_json(text@) == Some(value_tree(v)),
            Err(_) => parsed_json(text@) is None,
        },
{
    serde_json::from_slice(text)
}

/// Calls `serde_json::to_vec`, which fails on no `Value`: the text of the
/// document, which is never empty. `serde_json::from_slice` reads a text of at
/// most 127 nested levels, and reads strings, arrays and objects back as they were
/// written.
#[verifier::external_body]
fn value_to_vec(v: &serde_json::Value) -> (r: Result<Vec<u8>, serde_json::Error>)
    ensures
        match r {
            Ok(b) => {
                &&& b@ == json_text(value_tree(*v))
                &&& b@.len() > 0
                &&& textual(value_tree(*v), 127) ==> parsed_json(b@) == Some(value_tree(*v))
            },
            Err(_) => false,
        },
{
    serde_json::to_vec(v)
}

/// Takes one level of a `serde_json::Value` apart. The members of an object come
/// from `serde_json::Map::into_iter`, which gives every name once.
#[verifier::external_body]
fn shape_of(v: serde_json::Value) -> (r: ValueShape)
    ensures
        shape_tree(r) == value_tree(v),
        match r {
            ValueShape::Object(m) => forall|i: int, j: int|
                0 <= i < j < m@.len() ==> (#[trigger] m@[i]).0@ != (#[trigger] m@[j]).0@,
            _ => true,
        },
{
    match v {
        serde_json::Value::Null => ValueShape::Null,
        serde_json::Value::Bool(b) => ValueShape::Bool(b),
        serde_json::Value::Number(n) => ValueShape::Number(n),
        serde_json::Value::String(s) => ValueShape::Text(s),
        serde_json::Value::Array(a) => ValueShape::Array(a),
        serde_json::Value::Object(m) => ValueShape::Object(m.into_iter().collect()),
    }
}

/// Puts one level of a `serde_json::Value` together. The members of an object
/// are collected into a `serde_json::Map`, in which a later member replaces an
/// earlier one of its name.
#[verifier::external_body]
fn value_of(s: ValueShape) -> (r: serde_json::Value)
    ensures
        value_tree(r) == shape_tree(s),
{
    match s {
        ValueShape::Null => serde_json::Value::Null,
        ValueShape::Bool(b) => serde_json::Value::Bool(b),
        ValueShape::Number(n) => serde_json::Value::Number(n),
        ValueShape::Text(t) => serde_json::Value::String(t),
        ValueShape::Array(a) => serde_json::Value::Array(a),
        ValueShape::Object(m) => serde_json::Value::Object(m.into_iter().collect()),
    }
}

fn document_of(v: serde_json::Value) -> (r: Json)
    ensures
        r.tree() == value_tree(v),
    decreases value_tree(v),
{
    let ghost whole = value_tree(v);
    match shape_of(v) {
        ValueShape::Null => Json::Null,
        ValueShape::Bool(b) => Json::Bool(b),
        ValueShape::Number(n) => Json::Number(n),
        ValueShape::Text(t) => Json::Text(t),
        ValueShape::Array(a) => {
            let ghost items = a@;
            let mut out: Vec<Json> = Vec::new();
            for x in it: a
                invariant
                    it.seq() == items,
                    whole == value_tree(v),
                    whole == JsonTree::Array(items.map_values(|x: serde_json::Value| value_tree(x))),
                    out@.len() == it.index(),
                    forall|i: int|
                        0 <= i < out@.len() ==> (#[trigger] out@[i]).tree() == value_tree(items[i]),
            {
                assert(whole->Array_0[it.index()] == value_tree(x));
                out.push(document_of(x));
            }
            let r = Json::Array(out);
            assert(r.tree()->Array_0 =~= whole->Array_0);
            r
        },
        ValueShape::Object(m) => {
            let ghost items = m@;
            let mut out: Vec<(String, Json)> = Vec::new();
            for e in it: m
                invariant
                    it.seq() == items,
                    whole == value_tree(v),
                    whole == JsonTree::Object(value_members(items)),
                    forall|i: int, j: int|
                        0 <= i < j < items.len() ==> (#[trigger] items[i]).0@ != (
                        #[trigger] items[j]).0@,
                    out@.len() == it.index(),
                    members_tree(out@) == value_members(items.take(it.index())),
            {
                let ghost k = it.index();
                proof {
                    lemma_value_member(items, k);
                    assert(whole->Object_0[e.0@] == value_tree(e.1));
                    lemma_value_members_finite(items);
                    vstd::map::axiom_map_index_decreases_finite(whole->Object_0, e.0@);
                }
                let (name, x) = e;
                let ghost before = out@;
                out.push((name, document_of(x)));
                assert(out@.drop_last() == before);
                assert(items.take(k + 1).drop_last() == items.take(k));
            }
            assert(items.take(items.len() as int) == items);
            Json::Object(out)
        },
    }
}

proof fn lemma_value_members_finite(v: Seq<(String, serde_json::Value)>)
    ensures
        value_members(v).dom().finite(),
    decreases v.len(),
{
    if v.len() > 0 {
        lemma_value_members_finite(v.drop_last());
    }
}

proof fn lemma_value_member(v: Seq<(String, serde_json::Value)>, k: int)
    requires
        0 <= k < v.len(),
        forall|i: int, j: int| 0 <= i < j < v.len() ==> (#[trigger] v[i]).0@ != (#[trigger] v[j]).0@,
    ensures
        value_members(v).dom().contains(v[k].0@),
        value_members(v)[v[k].0@] == value_tree(v[k].1),
    decreases v.len(),
{
    if k < v.len() - 1 {
        lemma_value_member(v.drop_last(), k);
        assert(v.drop_last()[k] == v[k]);
        assert(v[k].0@ != v[v.len() - 1].0@);
    }
}

fn value_from(j: Json) -> (r: serde_json::Value)
    ensures
        value_tree(r) == j.tree(),
    decreases j,
{
    match j {
        Json::Null => value_of(ValueShape::Null),
        Json::Bool(b) => value_of(ValueShape::Bool(b)),
        Json::Number(n) => value_of(ValueShape::Number(n)),
        Json::Text(t) => value_of(ValueShape::Text(t)),
        Json::Array(a) => {
            let ghost items = a@;
            let mut out: Vec<serde_json::Value> = Vec::new();
            for x in it: a
                invariant
                    it.seq() == items,
                    j == Json::Array(a),
                    a@ == items,
                    out@.len() == it.index(),
                    forall|i: int|
                        0 <= i < out@.len() ==> value_tree(#[trigger] out@[i]) == items[i].tree(),
            {
                assert(x == a@[it.index()]);
                assert(decreases_to!(j => j->Array_0));
                assert(decreases_to!(a => a@));
                assert(decreases_to!(a@ => a@[it.index()]));
                out.push(value_from(x));
            }
            let s = ValueShape::Array(out);
            assert(shape_tree(s)->Array_0 =~= j.tree()->Array_0);
            value_of(s)
        },
        Json::Object(m) => {
            let ghost items = m@;
            let mut out: Vec<(String, serde_json::Value)> = Vec::new();
            for e in it: m
                invariant
                    it.seq() == items,
                    j == Json::Object(m),
                    m@ == items,
                    out@.len() == it.index(),
                    value_members(out@) == members_tree(items.take(it.index())),
            {
                let ghost k = it.index();
                assert(e == m@[k]);
                assert(decreases_to!(j => j->Object_0));
                assert(decreases_to!(m => m@));
                assert(decreases_to!(m@ => m@[k]));
                assert(decreases_to!(e => e.1));
                let (name, x) = e;
                let ghost before = out@;
                out.push((name, value_from(x)));
                assert(out@.drop_last() == before);
                assert(items.take(k + 1).drop_last() == items.take(k));
            }
            assert(items.take(items.len() as int) == items);
            value_of(ValueShape::Object(out))
        },
    }
}

/// Reads a document from its text.
pub fn parse_json(text: &[u8]) -> (r: Option<Json>)
    ensures
        match r {
            Some(j) => parsed_json(text@) == Some(j.tree()),
            None => parsed_json(text@) is None,
        },
{
    match value_from_slice(text) {
        Ok(v) => Some(document_of(v)),
        Err(_) => None,
    }
}

/// Writes the text of a document. A document of text, arrays and objects that
/// is nested at most 127 deep is read back as it was written.
pub fn write_json(j: Json) -> (text: Vec<u8>)
    ensures
        text@ == json_text(j.tree()),
        text@.len() > 0,
        textual(j.tree(), 127) ==> parsed_json(text@) == Some(j.tree()),
{
    match value_to_vec(&value_from(j)) {
        Ok(text) => text,
        Err(_) => Vec::new(),
    }
}

/// A member of an object is the one that was last given under its name, and only an
/// object has members.
pub proof fn law_members(v: Seq<(String, Json)>, e: (String, Json), name: Seq<char>, t: JsonTree)
    ensures
        ({
            let before = JsonTree::Object(members_tree(v));
            let after = JsonTree::Object(members_tree(v.push(e)));
            &&& e.0@ == name ==> after.member(name) == Some(e.1.tree())
            &&& e.0@ != name ==> after.member(name) == before.member(name)
        }),
        JsonTree::Object(members_tree(Seq::empty())).member(name) is None,
        !(t is Object) ==> t.member(name) is None,
        t is Text ==> t.text() == Some(t->Text_0),
        !(t is Text) ==> t.text() is None,
        t.member(name) is Some ==> t.member_text(name) == t.member(name)->0.text(),
        t.member(name) is None ==> t.member_text(name) is None,
{
    lemma_members_push(v, e);
}

} // verus!
