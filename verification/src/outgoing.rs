//! Header lines as they are sent.
use crate::headers::{
    lemma_walk, lemma_walked, restricted, values_of, with_values, HeaderView, Headers,
};
use crate::text::{ascii_lowered, same_text_ignoring_ascii_case, texts};
use vstd::prelude::*;

verus! {

/// A header line, name and value.
pub type LineView = (Seq<char>, Seq<char>);

/// The lines that a list of pairs of strings holds.
pub open spec fn lines(v: Seq<(String, String)>) -> Seq<LineView> {
    v.map_values(|p: (String, String)| (p.0@, p.1@))
}

/// The lines of the headers with the given names, in order: one for each value.
pub open spec fn lines_of(names: Seq<Seq<char>>, m: HeaderView) -> Seq<LineView>
    decreases names.len(),
{
    if names.len() == 0 {
        Seq::empty()
    } else {
        lines_of(names.drop_last(), m) + m[names.last()].map_values(|v: Seq<char>| (names.last(), v))
    }
}

/// Whether `names` is the list of the names of `m`, each once, in their order.
pub open spec fn is_walk(names: Seq<Seq<char>>, m: HeaderView) -> bool {
    crate::headers::ascending(names) && names.to_set() == m.dom()
}

/// Adds the lines of a header map behind others.
pub fn push_lines(out: &mut Vec<(String, String)>, h: &Headers)
    ensures
        lines(final(out)@) == lines(old(out)@) + lines_of(h.names(), h@),
        is_walk(h.names(), h@),
{
    let n = h.len();
    let ghost names = h.names();
    let ghost start = lines(out@);
    let mut i: usize = 0;
    assert(start + lines_of(names.take(0), h@) =~= start);
    while i < n
        invariant
            i <= n == names.len(),
            names == h.names(),
            lines(out@) == start + lines_of(names.take(i as int), h@),
        decreases n - i,
    {
        let name = h.name_at(i);
        let values = h.values_at(i);
        let ghost earlier = lines(out@);
        let ghost vs = texts(values@);
        let mut j: usize = 0;
        assert(earlier + vs.take(0).map_values(|v: Seq<char>| (name@, v)) =~= earlier);
        while j < values.len()
            invariant
                j <= values@.len(),
                vs == texts(values@),
                lines(out@) == earlier + vs.take(j as int).map_values(|v: Seq<char>| (name@, v)),
            decreases values@.len() - j,
        {
            let ghost before = out@;
            let line = (name.clone(), values[j].clone());
            out.push(line);
            proof {
                assert(lines(out@) =~= lines(before).push((line.0@, line.1@)));
                assert(vs[j as int] == values@[j as int]@);
                assert(lines(out@) =~= earlier + vs.take(j + 1).map_values(
                    |v: Seq<char>| (name@, v),
                ));
            }
            j += 1;
        }
        proof {
            assert(vs.take(j as int) =~= vs);
            assert(names.take(i + 1).drop_last() =~= names.take(i as int));
            assert(names.take(i + 1).last() == name@);
            assert(lines(out@) =~= start + lines_of(names.take(i + 1), h@));
        }
        i += 1;
    }
    assert(names.take(i as int) =~= names);
}

/// Adds one line behind others.
pub fn push_line(out: &mut Vec<(String, String)>, name: &str, value: &str)
    ensures
        lines(final(out)@) == lines(old(out)@).push((name@, value@)),
{
    let ghost before = out@;
    out.push((name.to_owned(), value.to_owned()));
    assert(lines(out@) =~= lines(before).push((name@, value@)));
}

/// Whether a header map has the name in some case.
pub open spec fn has_in_any_case(m: HeaderView, name: Seq<char>) -> bool {
    exists|k: Seq<char>| #[trigger] m.dom().contains(k) && ascii_lowered(k) == ascii_lowered(name)
}

/// Looks for a name in any case.
pub fn has_name(h: &Headers, name: &str) -> (r: bool)
    ensures
        r == has_in_any_case(h@, name@),
{
    let n = h.len();
    let ghost names = h.names();
    let mut i: usize = 0;
    while i < n
        invariant
            i <= n == names.len(),
            names == h.names(),
            names.to_set() == h@.dom(),
            forall|j: int|
                0 <= j < i ==> ascii_lowered(#[trigger] names[j]) != ascii_lowered(name@),
        decreases n - i,
    {
        if same_text_ignoring_ascii_case(h.name_at(i), name) {
            return true;
        }
        i += 1;
    }
    proof {
        if has_in_any_case(h@, name@) {
            let k = choose|k: Seq<char>| #[trigger]
                h@.dom().contains(k) && ascii_lowered(k) == ascii_lowered(name@);
            assert(names.to_set().contains(k));
            let j = choose|j: int| 0 <= j < names.len() && names[j] == k;
            assert(ascii_lowered(names[j]) != ascii_lowered(name@));
        }
    }
    false
}

// ---- laws ----

/// The header map that a reader puts together from lines: every line counts,
/// under its name in lower case.
pub open spec fn gathered(ls: Seq<LineView>) -> HeaderView
    decreases ls.len(),
{
    if ls.len() == 0 {
        Map::empty()
    } else {
        with_values(gathered(ls.drop_last()), ascii_lowered(ls.last().0), seq![ls.last().1])
    }
}

proof fn lemma_gather_values(ls: Seq<LineView>, name: Seq<char>, vs: Seq<Seq<char>>)
    requires
        vs.len() > 0,
        ascii_lowered(name) == name,
    ensures
        gathered(ls + vs.map_values(|v: Seq<char>| (name, v))) == with_values(
            gathered(ls),
            name,
            vs,
        ),
    decreases vs.len(),
{
    let all = ls + vs.map_values(|v: Seq<char>| (name, v));
    let fewer = vs.drop_last();
    assert(all.drop_last() =~= ls + fewer.map_values(|v: Seq<char>| (name, v)));
    assert(all.last() == (name, vs.last()));
    if fewer.len() == 0 {
        assert(ls + fewer.map_values(|v: Seq<char>| (name, v)) =~= ls);
        assert(seq![vs.last()] =~= vs);
    } else {
        lemma_gather_values(ls, name, fewer);
        let have = values_of(gathered(ls), name);
        assert((have + fewer) + seq![vs.last()] =~= have + vs);
        let m = with_values(gathered(ls), name, fewer);
        assert(with_values(m, name, seq![vs.last()]) =~= with_values(gathered(ls), name, vs));
    }
}

proof fn lemma_gather_walk(names: Seq<Seq<char>>, m: HeaderView, k: int)
    requires
        is_walk(names, m),
        0 <= k <= names.len(),
        forall|n: Seq<char>|
            #![trigger m.dom().contains(n)]
            m.dom().contains(n) ==> ascii_lowered(n) == n && m[n].len() > 0,
    ensures
        gathered(lines_of(names.take(k), m)) == restricted(m, names.take(k)),
    decreases k,
{
    if k == 0 {
        lemma_walked(m, names);
    } else {
        lemma_gather_walk(names, m, k - 1);
        lemma_walk(m, names, k - 1);
        let name = names[k - 1];
        let part = restricted(m, names.take(k - 1));
        assert(names.take(k).drop_last() =~= names.take(k - 1));
        lemma_gather_values(lines_of(names.take(k - 1), m), name, m[name]);
        assert(values_of(part, name) + m[name] =~= m[name]);
    }
}

/// A header map that is sent line by line is put together again as it was, where
/// its names are in lower case and none of them is without a value.
pub proof fn law_lines_are_gathered(names: Seq<Seq<char>>, m: HeaderView)
    requires
        is_walk(names, m),
        forall|n: Seq<char>|
            #![trigger m.dom().contains(n)]
            m.dom().contains(n) ==> ascii_lowered(n) == n && m[n].len() > 0,
    ensures
        gathered(lines_of(names, m)) == m,
{
    lemma_gather_walk(names, m, names.len() as int);
    lemma_walked(m, names);
    assert(names.take(names.len() as int) =~= names);
}

/// A header is sent as one line for each of its values, in their order, behind the
/// lines of the headers before it.
pub proof fn law_lines_of_a_header(
    names: Seq<Seq<char>>,
    m: HeaderView,
    name: Seq<char>,
    i: int,
)
    ensures
        ({
            let before = lines_of(names, m);
            let after = lines_of(names.push(name), m);
            &&& after.len() == before.len() + m[name].len()
            &&& after.take(before.len() as int) == before
            &&& 0 <= i < m[name].len() ==> after[before.len() + i] == (name, m[name][i])
            &&& lines_of(Seq::empty(), m).len() == 0
        }),
{
    let before = lines_of(names, m);
    assert(names.push(name).drop_last() =~= names);
    assert(lines_of(names.push(name), m).take(before.len() as int) =~= before);
}

/// Every header of a map is sent, each in one place: a walk has every name once.
pub proof fn law_walks_see_every_name(names: Seq<Seq<char>>, m: HeaderView, k: Seq<char>)
    requires
        is_walk(names, m),
    ensures
        m.dom().contains(k) <==> exists|i: int| 0 <= i < names.len() && names[i] == k,
        forall|i: int, j: int|
            0 <= i < j < names.len() ==> crate::order::precedes(
                #[trigger] names[i],
                #[trigger] names[j],
            ),
{
    assert(names.to_set().contains(k) <==> m.dom().contains(k));
}

/// A name is there in some case just where a name differs from it in the case of
/// ASCII letters at most.
pub proof fn law_name_in_any_case(m: HeaderView, name: Seq<char>, k: Seq<char>)
    ensures
        m.dom().contains(k) && ascii_lowered(k) == ascii_lowered(name) ==> has_in_any_case(m, name),
        (forall|n: Seq<char>| #[trigger]
            m.dom().contains(n) ==> ascii_lowered(n) != ascii_lowered(name)) ==> !has_in_any_case(
            m,
            name,
        ),
{
}

/// The lines of pairs of strings are the texts of the pairs, in order.
pub proof fn law_lines(v: Seq<(String, String)>, i: int)
    ensures
        lines(v).len() == v.len(),
        0 <= i < v.len() ==> lines(v)[i] == (v[i].0@, v[i].1@),
{
}

} // verus!
