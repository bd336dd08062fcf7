//! Header maps: every name once, with its values in order, kept in the order
//! of the names.
use crate::order::{place_of, Place};
use crate::text::copy_texts;
use vstd::prelude::*;

verus! {

/// A header map as a mathematical map from names to lists of values.
pub type HeaderView = Map<Seq<char>, Seq<Seq<char>>>;

/// Whether every text of the sequence comes before all that follow it.
pub open spec fn ascending(names: Seq<Seq<char>>) -> bool {
    forall|i: int, j: int|
        0 <= i < j < names.len() ==> crate::order::precedes(#[trigger] names[i], #[trigger] names[j])
}

/// The values of `name`, none where the map does not have it.
pub open spec fn values_of(m: HeaderView, name: Seq<char>) -> Seq<Seq<char>> {
    if m.dom().contains(name) {
        m[name]
    } else {
        Seq::empty()
    }
}

/// The first value of `name`.
pub open spec fn first_of(m: HeaderView, name: Seq<char>) -> Option<Seq<char>> {
    let vs = values_of(m, name);
    if vs.len() > 0 {
        Some(vs[0])
    } else {
        None
    }
}

/// `m` with `vs` added behind the values that `name` already has.
pub open spec fn with_values(m: HeaderView, name: Seq<char>, vs: Seq<Seq<char>>) -> HeaderView {
    m.insert(name, values_of(m, name) + vs)
}

/// The part of `m` that belongs to the given names.
pub open spec fn restricted(m: HeaderView, names: Seq<Seq<char>>) -> HeaderView {
    Map::new(|k: Seq<char>| m.dom().contains(k) && names.contains(k), |k: Seq<char>| m[k])
}

/// A walk over a map that has seen the first `i` names sees a new one next.
pub proof fn lemma_walk(m: HeaderView, names: Seq<Seq<char>>, i: int)
    requires
        ascending(names),
        names.to_set() == m.dom(),
        0 <= i < names.len(),
    ensures
        m.dom().contains(names[i]),
        !names.take(i).contains(names[i]),
        restricted(m, names.take(i + 1)) == restricted(m, names.take(i)).insert(
            names[i],
            m[names[i]],
        ),
{
    assert(names.contains(names[i]));
    if names.take(i).contains(names[i]) {
        let j = choose|j: int| 0 <= j < i && names.take(i)[j] == names[i];
        crate::order::law_precedes_irreflexive(names[i]);
        assert(crate::order::precedes(names[j], names[i]));
    }
    let a = names.take(i);
    let b = names.take(i + 1);
    assert forall|k: Seq<char>| b.contains(k) <==> a.contains(k) || k == names[i] by {
        if a.contains(k) {
            let j = choose|j: int| 0 <= j < a.len() && a[j] == k;
            assert(b[j] == k);
        }
        if b.contains(k) {
            let j = choose|j: int| 0 <= j < b.len() && b[j] == k;
            if j < i {
                assert(a[j] == k);
            }
        }
        assert(b[i] == names[i]);
    }
    assert(restricted(m, b) =~= restricted(m, a).insert(names[i], m[names[i]]));
}

/// A walk that has seen all names has seen the whole map; one that has seen none
/// has seen nothing.
pub proof fn lemma_walked(m: HeaderView, names: Seq<Seq<char>>)
    requires
        names.to_set() == m.dom(),
    ensures
        restricted(m, names.take(names.len() as int)) == m,
        restricted(m, names.take(0)) == Map::<Seq<char>, Seq<Seq<char>>>::empty(),
{
    assert(names.take(names.len() as int) == names);
    assert forall|k: Seq<char>| names.contains(k) <==> m.dom().contains(k) by {
        assert(names.to_set().contains(k) <==> m.dom().contains(k));
    }
    assert(restricted(m, names) =~= m);
    assert(restricted(m, names.take(0)) =~= Map::<Seq<char>, Seq<Seq<char>>>::empty());
}

spec fn names_in(s: Seq<(String, Vec<String>)>) -> Seq<Seq<char>> {
    s.map_values(|e: (String, Vec<String>)| e.0@)
}

spec fn map_of(s: Seq<(String, Vec<String>)>) -> HeaderView
    decreases s.len(),
{
    if s.len() == 0 {
        Map::empty()
    } else {
        map_of(s.drop_last()).insert(s.last().0@, crate::text::texts(s.last().1@))
    }
}

proof fn lemma_map_of(s: Seq<(String, Vec<String>)>)
    requires
        ascending(names_in(s)),
    ensures
        map_of(s).dom().finite(),
        map_of(s).dom() == names_in(s).to_set(),
        forall|i: int|
            0 <= i < s.len() ==> map_of(s)[(#[trigger] s[i]).0@] == crate::text::texts(s[i].1@),
    decreases s.len(),
{
    let names = names_in(s);
    if s.len() == 0 {
        assert(map_of(s).dom() =~= names.to_set());
    } else {
        let t = s.drop_last();
        assert(names_in(t) =~= names.drop_last());
        assert forall|i: int, j: int| 0 <= i < j < names_in(t).len() implies
            crate::order::precedes(#[trigger] names_in(t)[i], #[trigger] names_in(t)[j]) by {
            assert(names_in(t)[i] == names[i] && names_in(t)[j] == names[j]);
        }
        lemma_map_of(t);
        assert(names.last() == s.last().0@);
        assert forall|k: Seq<char>| map_of(s).dom().contains(k) <==> names.to_set().contains(k) by {
            if names_in(t).contains(k) {
                let i = choose|i: int| 0 <= i < names_in(t).len() && names_in(t)[i] == k;
                assert(names[i] == k);
            }
            if names.contains(k) {
                let i = choose|i: int| 0 <= i < names.len() && names[i] == k;
                if i < t.len() {
                    assert(names_in(t)[i] == k);
                }
            }
            assert(names[names.len() - 1] == s.last().0@);
        }
        assert(map_of(s).dom() =~= names.to_set());
        assert forall|i: int| 0 <= i < s.len() implies map_of(s)[(#[trigger] s[i]).0@]
            == crate::text::texts(s[i].1@) by {
            if i < t.len() {
                assert(t[i] == s[i]);
                assert(names[i] == s[i].0@);
                crate::order::law_precedes_irreflexive(s.last().0@);
            }
        }
    }
}

/// A header map. The names are kept in ascending order, each once.
#[derive(Debug, PartialEq)]
pub struct Headers {
    entries: Vec<(String, Vec<String>)>,
}

impl View for Headers {
    type V = HeaderView;

    closed spec fn view(&self) -> HeaderView {
        map_of(self.entries@)
    }
}

impl Headers {
    #[verifier::type_invariant]
    spec fn well_formed(&self) -> bool {
        ascending(names_in(self.entries@))
    }

    /// The names, in the order in which the map is walked.
    pub closed spec fn names(&self) -> Seq<Seq<char>> {
        names_in(self.entries@)
    }

    /// The empty map.
    pub fn new() -> (r: Headers)
        ensures
            r@ == Map::<Seq<char>, Seq<Seq<char>>>::empty(),
    {
        Headers { entries: Vec::new() }
    }

    /// The number of names.
    pub fn len(&self) -> (n: usize)
        ensures
            n == self.names().len(),
            self.names().to_set() == self@.dom(),
            ascending(self.names()),
            self@.dom().finite(),
    {
        proof {
            use_type_invariant(self);
            lemma_map_of(self.entries@);
        }
        self.entries.len()
    }

    /// Whether there is no name.
    pub fn is_empty(&self) -> (r: bool)
        ensures
            r == (self@ == Map::<Seq<char>, Seq<Seq<char>>>::empty()),
    {
        proof {
            use_type_invariant(self);
            lemma_map_of(self.entries@);
            if self.entries@.len() == 0 {
                assert(self@ =~= Map::<Seq<char>, Seq<Seq<char>>>::empty());
            } else {
                assert(names_in(self.entries@)[0] == self.entries@[0].0@);
                assert(names_in(self.entries@).contains(self.entries@[0].0@));
                assert(self@.dom().contains(self.entries@[0].0@));
            }
        }
        self.entries.len() == 0
    }

    /// The name at a place of the walk.
    pub fn name_at(&self, i: usize) -> (name: &String)
        requires
            i < self.names().len(),
        ensures
            name@ == self.names()[i as int],
            self@.dom().contains(name@),
    {
        proof {
            use_type_invariant(self);
            lemma_map_of(self.entries@);
            assert(names_in(self.entries@).contains(self.names()[i as int]));
        }
        &self.entries[i].0
    }

    /// The values at a place of the walk.
    pub fn values_at(&self, i: usize) -> (values: &Vec<String>)
        requires
            i < self.names().len(),
        ensures
            crate::text::texts(values@) == self@[self.names()[i as int]],
    {
        proof {
            use_type_invariant(self);
            lemma_map_of(self.entries@);
            assert(self.entries@[i as int].0@ == self.names()[i as int]);
        }
        &self.entries[i].1
    }

    /// The place of `name`, or the place where it belongs.
    fn locate(&self, name: &str) -> (r: (usize, bool))
        ensures
            r.0 <= self.entries@.len(),
            forall|j: int|
                0 <= j < r.0 ==> crate::order::precedes((#[trigger] self.entries@[j]).0@, name@),
            r.1 ==> r.0 < self.entries@.len() && self.entries@[r.0 as int].0@ == name@,
            !r.1 ==> forall|j: int|
                r.0 <= j < self.entries@.len() ==> crate::order::precedes(
                    name@,
                    (#[trigger] self.entries@[j]).0@,
                ),
            r.1 == self@.dom().contains(name@),
    {
        proof {
            use_type_invariant(self);
            lemma_map_of(self.entries@);
        }
        let ghost names = names_in(self.entries@);
        let mut i: usize = 0;
        while i < self.entries.len()
            invariant
                i <= self.entries@.len(),
                names == names_in(self.entries@),
                ascending(names),
                self@.dom() == names.to_set(),
                forall|j: int|
                    0 <= j < i ==> crate::order::precedes((#[trigger] self.entries@[j]).0@, name@),
            decreases self.entries@.len() - i,
        {
            match place_of(self.entries[i].0.as_str(), name) {
                Place::Before => {},
                Place::Same => {
                    assert(names[i as int] == name@);
                    return (i, true);
                },
                Place::After => {
                    proof {
                        assert forall|j: int| i <= j < self.entries@.len() implies
                            crate::order::precedes(name@, (#[trigger] self.entries@[j]).0@) by {
                            assert(names[i as int] == self.entries@[i as int].0@);
                            assert(names[j] == self.entries@[j].0@);
                            if i < j {
                                crate::order::law_precedes_transitive(
                                    name@,
                                    names[i as int],
                                    names[j],
                                );
                            }
                        }
                        crate::order::law_precedes_irreflexive(name@);
                        if names.contains(name@) {
                            let k = choose|k: int| 0 <= k < names.len() && names[k] == name@;
                            assert(self.entries@[k].0@ == name@);
                        }
                    }
                    return (i, false);
                },
            }
            i += 1;
        }
        proof {
            crate::order::law_precedes_irreflexive(name@);
            if names.contains(name@) {
                let k = choose|k: int| 0 <= k < names.len() && names[k] == name@;
                assert(self.entries@[k].0@ == name@);
            }
        }
        (i, false)
    }

    /// The values of `name`.
    pub fn get(&self, name: &str) -> (r: Option<&Vec<String>>)
        ensures
            match r {
                Some(vs) => self@.dom().contains(name@) && crate::text::texts(vs@) == self@[name@],
                None => !self@.dom().contains(name@),
            },
    {
        proof {
            use_type_invariant(self);
            lemma_map_of(self.entries@);
        }
        let (i, found) = self.locate(name);
        if found {
            Some(&self.entries[i].1)
        } else {
            None
        }
    }

    /// Whether the map has `name`.
    pub fn contains_key(&self, name: &str) -> (r: bool)
        ensures
            r == self@.dom().contains(name@),
    {
        self.locate(name).1
    }

    /// The first value of `name`.
    pub fn first(&self, name: &str) -> (r: Option<&String>)
        ensures
            match r {
                Some(v) => first_of(self@, name@) == Some(v@),
                None => first_of(self@, name@) is None,
            },
    {
        match self.get(name) {
            Some(vs) => {
                if vs.len() > 0 {
                    assert(crate::text::texts(vs@)[0] == vs@[0]@);
                    Some(&vs[0])
                } else {
                    None
                }
            },
            None => None,
        }
    }

    /// Sets the values of `name`, in place of those that it has.
    pub fn insert(&mut self, name: String, values: Vec<String>)
        ensures
            final(self)@ == old(self)@.insert(name@, crate::text::texts(values@)),
    {
        proof {
            use_type_invariant(&*self);
            lemma_map_of(self.entries@);
        }
        let ghost before = self.entries@;
        let (i, found) = self.locate(name.as_str());
        let mut e: Vec<(String, Vec<String>)> = Vec::new();
        core::mem::swap(&mut e, &mut self.entries);
        let ghost key = name@;
        let ghost vals = crate::text::texts(values@);
        if found {
            e.set(i, (name, values));
        } else {
            e.insert(i, (name, values));
        }
        proof {
            lemma_put(before, e@, i as int, found, key, vals);
        }
        self.entries = e;
    }

    /// Adds values behind those that `name` has.
    pub fn append(&mut self, name: &str, values: &Vec<String>)
        ensures
            final(self)@ == with_values(old(self)@, name@, crate::text::texts(values@)),
    {
        let mut vs: Vec<String> = match self.get(name) {
            Some(vs) => copy_texts(vs),
            None => Vec::new(),
        };
        let ghost have = crate::text::texts(vs@);
        assert(have =~= values_of(self@, name@));
        let mut i: usize = 0;
        while i < values.len()
            invariant
                i <= values@.len(),
                crate::text::texts(vs@) == have + crate::text::texts(values@.take(i as int)),
            decreases values@.len() - i,
        {
            let ghost held = vs@;
            vs.push(values[i].clone());
            proof {
                crate::text::lemma_texts_push(held, values@[i as int]);
                crate::text::lemma_texts_push(values@.take(i as int), values@[i as int]);
                assert(values@.take(i + 1) == values@.take(i as int).push(values@[i as int]));
                assert(crate::text::texts(vs@) =~= have + crate::text::texts(values@.take(i + 1)));
            }
            i += 1;
        }
        assert(values@.take(i as int) == values@);
        self.insert(name.to_owned(), vs);
    }

    /// Adds one value behind those that `name` has.
    pub fn push(&mut self, name: &str, value: &str)
        ensures
            final(self)@ == with_values(old(self)@, name@, seq![value@]),
    {
        let mut one: Vec<String> = Vec::new();
        one.push(value.to_owned());
        assert(crate::text::texts(one@) =~= seq![value@]);
        self.append(name, &one);
    }

    /// Sets the one value of `name`, in place of those that it has.
    pub fn set(&mut self, name: &str, value: &str)
        ensures
            final(self)@ == old(self)@.insert(name@, seq![value@]),
    {
        let mut one: Vec<String> = Vec::new();
        one.push(value.to_owned());
        assert(crate::text::texts(one@) =~= seq![value@]);
        self.insert(name.to_owned(), one);
    }
}

proof fn lemma_put(
    before: Seq<(String, Vec<String>)>,
    after: Seq<(String, Vec<String>)>,
    i: int,
    found: bool,
    key: Seq<char>,
    vals: Seq<Seq<char>>,
)
    requires
        ascending(names_in(before)),
        0 <= i <= before.len(),
        forall|j: int| 0 <= j < i ==> crate::order::precedes((#[trigger] before[j]).0@, key),
        found ==> i < before.len() && before[i].0@ == key && after == before.update(i, after[i]),
        !found ==> after == before.insert(i, after[i]),
        !found ==> forall|j: int|
            i <= j < before.len() ==> crate::order::precedes(key, (#[trigger] before[j]).0@),
        0 <= i < after.len(),
        after[i].0@ == key,
        crate::text::texts(after[i].1@) == vals,
    ensures
        ascending(names_in(after)),
        map_of(after) == map_of(before).insert(key, vals),
{
    let nb = names_in(before);
    let na = names_in(after);
    assert forall|j: int, k: int| 0 <= j < k < na.len() implies crate::order::precedes(
        #[trigger] na[j],
        #[trigger] na[k],
    ) by {
        if found {
            assert(na[j] == nb[j] && na[k] == nb[k]);
        } else {
            let jb = if j < i { j } else { j - 1 };
            let kb = if k < i { k } else { k - 1 };
            if j != i {
                assert(na[j] == before[jb].0@);
                assert(nb[jb] == before[jb].0@);
            }
            if k != i {
                assert(na[k] == before[kb].0@);
                assert(nb[kb] == before[kb].0@);
            }
        }
    }
    lemma_map_of(before);
    lemma_map_of(after);
    let want = map_of(before).insert(key, vals);
    assert forall|k: Seq<char>| map_of(after).dom().contains(k) <==> want.dom().contains(k) by {
        if na.contains(k) {
            let j = choose|j: int| 0 <= j < na.len() && na[j] == k;
            if j != i {
                let jb = if found || j < i { j } else { j - 1 };
                assert(nb[jb] == k);
                assert(nb.contains(k));
            }
        }
        if nb.contains(k) {
            let j = choose|j: int| 0 <= j < nb.len() && nb[j] == k;
            let ja = if found || j < i { j } else { j + 1 };
            assert(na[ja] == k || k == key);
            assert(na[i] == key);
        }
        assert(na[i] == key);
    }
    assert forall|k: Seq<char>| map_of(after).dom().contains(k) implies map_of(after)[k]
        == want[k] by {
        let j = choose|j: int| 0 <= j < na.len() && na[j] == k;
        assert(after[j].0@ == k);
        assert(after[i].0@ == key);
        if k != key {
            let jb = if found || j < i { j } else { j - 1 };
            assert(before[jb] == after[j]);
        }
    }
    assert(map_of(after) =~= want);
}

impl Default for Headers {
    fn default() -> (r: Headers)
        ensures
            r@ == Map::<Seq<char>, Seq<Seq<char>>>::empty(),
    {
        Headers::new()
    }
}

impl Clone for Headers {
    fn clone(&self) -> (r: Headers)
        ensures
            r@ == self@,
    {
        let mut r = Headers::new();
        let n = self.len();
        let mut i: usize = 0;
        proof {
            use_type_invariant(self);
            lemma_map_of(self.entries@);
            assert(self.entries@.take(0) == Seq::<(String, Vec<String>)>::empty());
        }
        while i < n
            invariant
                i <= n == self.entries@.len(),
                r@ == map_of(self.entries@.take(i as int)),
            decreases n - i,
        {
            let (name, values) = &self.entries[i];
            r.insert(name.clone(), copy_texts(values));
            i += 1;
            assert(self.entries@.take(i as int).drop_last() == self.entries@.take(i - 1));
        }
        assert(self.entries@.take(i as int) == self.entries@);
        r
    }
}

/// Values that are added to a name come behind those that it has, and no other name
/// is touched.
pub proof fn law_values_are_added(
    m: HeaderView,
    name: Seq<char>,
    vs: Seq<Seq<char>>,
    other: Seq<char>,
)
    ensures
        with_values(m, name, vs).dom() == m.dom().insert(name),
        m.dom().contains(name) ==> with_values(m, name, vs)[name] == m[name] + vs,
        !m.dom().contains(name) ==> with_values(m, name, vs)[name] == vs,
        other != name && m.dom().contains(other) ==> with_values(m, name, vs)[other] == m[other],
{
    assert(with_values(m, name, vs).dom() =~= m.dom().insert(name));
    assert(Seq::<Seq<char>>::empty() + vs =~= vs);
}

/// The first value of a name is there just where the name has a value, and is the
/// first of them.
pub proof fn law_first_value(m: HeaderView, name: Seq<char>)
    ensures
        m.dom().contains(name) && m[name].len() > 0 ==> first_of(m, name) == Some(m[name][0]),
        !m.dom().contains(name) || m[name].len() == 0 ==> first_of(m, name) is None,
        m.dom().contains(name) ==> values_of(m, name) == m[name],
        !m.dom().contains(name) ==> values_of(m, name).len() == 0,
{
}

/// Names that ascend come each before all that follow it.
pub proof fn law_ascending(names: Seq<Seq<char>>, i: int, j: int)
    requires
        ascending(names),
        0 <= i < j < names.len(),
    ensures
        crate::order::precedes(names[i], names[j]),
        names[i] != names[j],
{
    crate::order::law_precedes_irreflexive(names[i]);
}

} // verus!
