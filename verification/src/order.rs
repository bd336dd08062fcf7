//! The order of texts by their characters: the order in which header names are
//! kept.
use crate::text::chars_of;
use vstd::prelude::*;

verus! {

/// How one text stands to another.
#[derive(Clone, Copy, Debug, PartialEq, Eq, Structural)]
pub enum Place {
    Before,
    Same,
    After,
}

/// Whether `a` comes before `b`: at the first place where they differ, the
/// smaller character or the end of the text comes first.
pub open spec fn precedes(a: Seq<char>, b: Seq<char>) -> bool
    decreases a.len(),
{
    if b.len() == 0 {
        false
    } else if a.len() == 0 {
        true
    } else if a[0] != b[0] {
        a[0] < b[0]
    } else {
        precedes(a.drop_first(), b.drop_first())
    }
}

/// No text comes before itself.
pub proof fn law_precedes_irreflexive(a: Seq<char>)
    ensures
        !precedes(a, a),
    decreases a.len(),
{
    if a.len() > 0 {
        law_precedes_irreflexive(a.drop_first());
    }
}

/// The order is transitive.
pub proof fn law_precedes_transitive(a: Seq<char>, b: Seq<char>, c: Seq<char>)
    requires
        precedes(a, b),
        precedes(b, c),
    ensures
        precedes(a, c),
    decreases a.len(),
{
    if a.len() > 0 && b.len() > 0 && c.len() > 0 && a[0] == b[0] && b[0] == c[0] {
        law_precedes_transitive(a.drop_first(), b.drop_first(), c.drop_first());
    }
}

/// Of two different texts one comes before the other.
pub proof fn law_precedes_total(a: Seq<char>, b: Seq<char>)
    ensures
        a == b || precedes(a, b) || precedes(b, a),
    decreases a.len(),
{
    if a.len() > 0 && b.len() > 0 && a[0] == b[0] {
        law_precedes_total(a.drop_first(), b.drop_first());
        if a.drop_first() == b.drop_first() {
            assert(a =~= seq![a[0]] + a.drop_first());
            assert(b =~= seq![b[0]] + b.drop_first());
        }
    } else if a.len() == 0 && b.len() == 0 {
        assert(a =~= b);
    }
}

/// How `a` stands to `b` in the order of texts.
pub fn place_of(a: &str, b: &str) -> (r: Place)
    ensures
        r == Place::Before <==> precedes(a@, b@),
        r == Place::Same <==> a@ == b@,
        r == Place::After <==> precedes(b@, a@),
{
    let x = chars_of(a);
    let y = chars_of(b);
    let mut i: usize = 0;
    assert(x@.skip(0) == x@ && y@.skip(0) == y@);
    while i < x.len() && i < y.len() && x[i] == y[i]
        invariant
            i <= x@.len(),
            i <= y@.len(),
            x@.take(i as int) == y@.take(i as int),
            precedes(x@, y@) == precedes(x@.skip(i as int), y@.skip(i as int)),
            precedes(y@, x@) == precedes(y@.skip(i as int), x@.skip(i as int)),
        decreases x@.len() - i,
    {
        assert(x@.skip(i as int).drop_first() == x@.skip(i + 1));
        assert(y@.skip(i as int).drop_first() == y@.skip(i + 1));
        assert(x@.take(i + 1) == x@.take(i as int).push(x@[i as int]));
        assert(y@.take(i + 1) == y@.take(i as int).push(y@[i as int]));
        i += 1;
    }
    proof {
        law_precedes_irreflexive(x@);
    }
    if i == x.len() && i == y.len() {
        assert(x@.take(i as int) == x@ && y@.take(i as int) == y@);
        Place::Same
    } else if i == x.len() {
        Place::Before
    } else if i == y.len() {
        Place::After
    } else if x[i] < y[i] {
        assert(x@.skip(i as int)[0] == x@[i as int] && y@.skip(i as int)[0] == y@[i as int]);
        Place::Before
    } else {
        assert(x@.skip(i as int)[0] == x@[i as int] && y@.skip(i as int)[0] == y@[i as int]);
        Place::After
    }
}

/// Texts are ordered by the first character in which they differ, and a text comes
/// before every longer one that begins with it.
pub proof fn law_precedes_at_first_difference(
    head: Seq<char>,
    c: char,
    d: char,
    x: Seq<char>,
    y: Seq<char>,
)
    requires
        c < d,
    ensures
        precedes(head.push(c) + x, head.push(d) + y),
        !precedes(head.push(d) + y, head.push(c) + x),
        precedes(head, head.push(c) + x),
        !precedes(head.push(c) + x, head),
    decreases head.len(),
{
    let a = head.push(c) + x;
    let b = head.push(d) + y;
    if head.len() > 0 {
        let t = head.drop_first();
        law_precedes_at_first_difference(t, c, d, x, y);
        assert(a.drop_first() =~= t.push(c) + x);
        assert(b.drop_first() =~= t.push(d) + y);
    }
}

} // verus!
