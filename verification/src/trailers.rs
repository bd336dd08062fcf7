//! Header maps that are joined: the headers that a handler sets, and trailers
//! that travel as headers with a prefix.
use crate::headers::{
    lemma_walk, lemma_walked, restricted, values_of, with_values, HeaderView, Headers,
};
use crate::text::{copy_texts, joined, starts_with, without_first};
use vstd::prelude::*;

verus! {

/// Both maps in one: under every name the values of `base`, then those of
/// `extra`.
pub open spec fn merged(base: HeaderView, extra: HeaderView) -> HeaderView {
    Map::new(
        |k: Seq<char>| base.dom().contains(k) || extra.dom().contains(k),
        |k: Seq<char>| values_of(base, k) + values_of(extra, k),
    )
}

/// Whether a header name is that of a trailer.
pub open spec fn is_trailer_name(name: Seq<char>) -> bool {
    "trailer-"@.is_prefix_of(name)
}

/// The trailers under the names that they travel by.
pub open spec fn as_headers(trailers: HeaderView) -> HeaderView {
    Map::new(
        |k: Seq<char>| is_trailer_name(k) && trailers.dom().contains(k.skip(8)),
        |k: Seq<char>| trailers[k.skip(8)],
    )
}

/// Headers and trailers in one map.
pub open spec fn muxed(headers: HeaderView, trailers: HeaderView) -> HeaderView {
    merged(headers, as_headers(trailers))
}

/// The headers in a map that holds both.
pub open spec fn demuxed_headers(m: HeaderView) -> HeaderView {
    Map::new(|k: Seq<char>| m.dom().contains(k) && !is_trailer_name(k), |k: Seq<char>| m[k])
}

/// The trailers in a map that holds both, under their own names.
pub open spec fn demuxed_trailers(m: HeaderView) -> HeaderView {
    Map::new(|k: Seq<char>| m.dom().contains("trailer-"@ + k), |k: Seq<char>| m["trailer-"@ + k])
}

proof fn lemma_merged_insert(base: HeaderView, extra: HeaderView, k: Seq<char>, vs: Seq<Seq<char>>)
    requires
        !extra.dom().contains(k),
    ensures
        merged(base, extra.insert(k, vs)) == with_values(merged(base, extra), k, vs),
{
    let a = merged(base, extra.insert(k, vs));
    let b = with_values(merged(base, extra), k, vs);
    assert(values_of(merged(base, extra), k) =~= values_of(base, k));
    assert(a =~= b);
}

proof fn lemma_merged_empty(base: HeaderView)
    ensures
        merged(base, Map::empty()) == base,
{
    assert forall|k: Seq<char>| base.dom().contains(k) implies merged(base, Map::empty())[k]
        == base[k] by {
        assert(values_of(base, k) + values_of(Map::empty(), k) =~= base[k]);
    }
    assert(merged(base, Map::empty()) =~= base);
}

/// A name with the prefix of a trailer is that of a trailer, and comes apart
/// again.
pub proof fn lemma_prefixed(name: Seq<char>)
    ensures
        is_trailer_name("trailer-"@ + name),
        ("trailer-"@ + name).skip(8) == name,
        is_trailer_name(name) ==> "trailer-"@ + name.skip(8) == name,
        "trailer-"@.len() == 8,
{
    reveal_strlit("trailer-");
    let p = "trailer-"@;
    assert((p + name).subrange(0, 8) =~= p);
    assert((p + name).skip(8) =~= name);
    if is_trailer_name(name) {
        assert(name.subrange(0, 8) == p);
        assert(p + name.skip(8) =~= name);
    }
}

/// Adds the headers that a handler has set to a base map: the values of the base
/// stay in front.
pub fn merge_response_headers(base: Headers, extra: &Headers) -> (r: Headers)
    ensures
        r@ == merged(base@, extra@),
{
    let mut r = base;
    let n = extra.len();
    let ghost names = extra.names();
    let mut i: usize = 0;
    proof {
        lemma_walked(extra@, names);
        lemma_merged_empty(base@);
    }
    while i < n
        invariant
            i <= n == names.len(),
            names == extra.names(),
            crate::headers::ascending(names),
            names.to_set() == extra@.dom(),
            r@ == merged(base@, restricted(extra@, names.take(i as int))),
        decreases n - i,
    {
        proof {
            lemma_walk(extra@, names, i as int);
            lemma_merged_insert(
                base@,
                restricted(extra@, names.take(i as int)),
                names[i as int],
                extra@[names[i as int]],
            );
        }
        r.append(extra.name_at(i), extra.values_at(i));
        i += 1;
    }
    r
}

/// Puts trailers among headers, under names with a prefix.
pub fn mux_trailers(headers: &Headers, trailers: &Headers) -> (r: Headers)
    ensures
        r@ == muxed(headers@, trailers@),
{
    let mut r = headers.clone();
    let n = trailers.len();
    let ghost names = trailers.names();
    let mut i: usize = 0;
    proof {
        lemma_walked(trailers@, names);
        lemma_merged_empty(headers@);
        assert(as_headers(Map::empty()) =~= Map::<Seq<char>, Seq<Seq<char>>>::empty());
    }
    while i < n
        invariant
            i <= n == names.len(),
            names == trailers.names(),
            crate::headers::ascending(names),
            names.to_set() == trailers@.dom(),
            r@ == muxed(headers@, restricted(trailers@, names.take(i as int))),
        decreases n - i,
    {
        proof {
            let name = names[i as int];
            let part = restricted(trailers@, names.take(i as int));
            lemma_walk(trailers@, names, i as int);
            lemma_prefixed(name);
            assert forall|k: Seq<char>| is_trailer_name(k) && k.skip(8) == name implies k
                == "trailer-"@ + name by {
                lemma_prefixed(k);
            }
            assert(as_headers(part.insert(name, trailers@[name])) =~= as_headers(part).insert(
                "trailer-"@ + name,
                trailers@[name],
            ));
            lemma_merged_insert(
                headers@,
                as_headers(part),
                "trailer-"@ + name,
                trailers@[name],
            );
        }
        r.append(&joined("trailer-", trailers.name_at(i)), trailers.values_at(i));
        i += 1;
    }
    r
}

/// Parts headers from the trailers among them.
pub fn demux_trailers(m: &Headers) -> (r: (Headers, Headers))
    ensures
        r.0@ == demuxed_headers(m@),
        r.1@ == demuxed_trailers(m@),
{
    let mut headers = Headers::new();
    let mut trailers = Headers::new();
    let n = m.len();
    let ghost names = m.names();
    let mut i: usize = 0;
    proof {
        lemma_walked(m@, names);
        let none = Map::<Seq<char>, Seq<Seq<char>>>::empty();
        assert(demuxed_headers(none) =~= none);
        assert(demuxed_trailers(none) =~= none);
    }
    while i < n
        invariant
            i <= n == names.len(),
            names == m.names(),
            crate::headers::ascending(names),
            names.to_set() == m@.dom(),
            headers@ == demuxed_headers(restricted(m@, names.take(i as int))),
            trailers@ == demuxed_trailers(restricted(m@, names.take(i as int))),
        decreases n - i,
    {
        let name = m.name_at(i);
        let values = copy_texts(m.values_at(i));
        let ghost part = restricted(m@, names.take(i as int));
        let ghost vs = m@[name@];
        proof {
            lemma_walk(m@, names, i as int);
            lemma_prefixed(name@);
            lemma_prefixed(name@.skip(8));
            assert forall|k: Seq<char>| "trailer-"@ + k == name@ implies k == name@.skip(8) by {
                lemma_prefixed(k);
            }
        }
        if starts_with(name, "trailer-") {
            trailers.insert(without_first(name, 8), values);
            assert(demuxed_headers(part.insert(name@, vs)) =~= demuxed_headers(part));
            assert(demuxed_trailers(part.insert(name@, vs)) =~= demuxed_trailers(part).insert(
                name@.skip(8),
                vs,
            ));
        } else {
            headers.insert(name.clone(), values);
            assert(demuxed_headers(part.insert(name@, vs)) =~= demuxed_headers(part).insert(
                name@,
                vs,
            ));
            assert forall|k: Seq<char>| "trailer-"@ + k != name@ by {
                lemma_prefixed(k);
            }
            assert(demuxed_trailers(part.insert(name@, vs)) =~= demuxed_trailers(part));
        }
        i += 1;
    }
    (headers, trailers)
}

/// Headers and trailers that were put in one map come apart as they were, where
/// no header bears the name of a trailer.
pub proof fn law_trailers_come_apart(headers: HeaderView, trailers: HeaderView)
    requires
        forall|k: Seq<char>| headers.dom().contains(k) ==> !is_trailer_name(k),
    ensures
        demuxed_headers(muxed(headers, trailers)) == headers,
        demuxed_trailers(muxed(headers, trailers)) == trailers,
{
    let m = muxed(headers, trailers);
    assert forall|k: Seq<char>| headers.dom().contains(k) implies demuxed_headers(m)[k]
        == headers[k] by {
        assert(values_of(headers, k) + values_of(as_headers(trailers), k) =~= headers[k]);
    }
    assert(demuxed_headers(m) =~= headers);
    let t = demuxed_trailers(m);
    assert forall|k: Seq<char>|
        (#[trigger] t.dom().contains(k) <==> trailers.dom().contains(k)) by {
        lemma_prefixed(k);
        assert(!headers.dom().contains("trailer-"@ + k));
    }
    assert forall|k: Seq<char>| #[trigger] t.dom().contains(k) implies t[k] == trailers[k] by {
        lemma_prefixed(k);
        let p = "trailer-"@ + k;
        assert(!headers.dom().contains(p));
        assert(values_of(headers, p) + values_of(as_headers(trailers), p) =~= trailers[k]);
    }
    assert(t =~= trailers);
}

/// In a merged map a name has the values of the first map and then those of the
/// second, and it is there just where one of them has it.
pub proof fn law_merged(base: HeaderView, extra: HeaderView, k: Seq<char>)
    ensures
        merged(base, extra).dom().contains(k) <==> base.dom().contains(k) || extra.dom().contains(k),
        base.dom().contains(k) && extra.dom().contains(k) ==> merged(base, extra)[k] == base[k]
            + extra[k],
        base.dom().contains(k) && !extra.dom().contains(k) ==> merged(base, extra)[k] == base[k],
        !base.dom().contains(k) && extra.dom().contains(k) ==> merged(base, extra)[k] == extra[k],
{
    let none = Seq::<Seq<char>>::empty();
    if base.dom().contains(k) && !extra.dom().contains(k) {
        assert(base[k] + none =~= base[k]);
    }
    if !base.dom().contains(k) && extra.dom().contains(k) {
        assert(none + extra[k] =~= extra[k]);
    }
}

/// A trailer travels with all its values, behind those of a header that has the
/// name which it travels by; any other header is not touched.
pub proof fn law_muxed(headers: HeaderView, trailers: HeaderView, k: Seq<char>)
    ensures
        ({
            let m = muxed(headers, trailers);
            let p = "trailer-"@ + k;
            &&& trailers.dom().contains(k) ==> m.dom().contains(p) && m[p] == values_of(headers, p)
                + trailers[k]
            &&& !("trailer-"@.is_prefix_of(k)) ==> (m.dom().contains(k) <==> headers.dom().contains(
                k,
            )) && values_of(m, k) == values_of(headers, k)
        }),
{
    lemma_prefixed(k);
    let m = muxed(headers, trailers);
    if trailers.dom().contains(k) {
        assert(values_of(as_headers(trailers), "trailer-"@ + k) =~= trailers[k]);
    }
    if !is_trailer_name(k) {
        assert(values_of(m, k) =~= values_of(headers, k));
    }
}

/// What is received is parted without a loss: every name that begins with the
/// prefix is a trailer under the rest of its name, every other name is a header,
/// and each keeps all its values.
pub proof fn law_demuxed(m: HeaderView, k: Seq<char>)
    ensures
        ({
            let p = "trailer-"@ + k;
            &&& demuxed_trailers(m).dom().contains(k) <==> m.dom().contains(p)
            &&& m.dom().contains(p) ==> demuxed_trailers(m)[k] == m[p]
            &&& !demuxed_headers(m).dom().contains(p)
            &&& !("trailer-"@.is_prefix_of(k)) ==> (demuxed_headers(m).dom().contains(k)
                <==> m.dom().contains(k))
            &&& !("trailer-"@.is_prefix_of(k)) && m.dom().contains(k) ==> demuxed_headers(m)[k]
                == m[k]
        }),
        muxed(demuxed_headers(m), demuxed_trailers(m)) == m,
{
    lemma_prefixed(k);
    let h = demuxed_headers(m);
    let t = demuxed_trailers(m);
    let back = muxed(h, t);
    assert forall|n: Seq<char>| (#[trigger] back.dom().contains(n) <==> m.dom().contains(n)) by {
        lemma_prefixed(n);
    }
    assert forall|n: Seq<char>| #[trigger] back.dom().contains(n) implies back[n] == m[n] by {
        lemma_prefixed(n);
        if is_trailer_name(n) {
            assert(values_of(h, n) + values_of(as_headers(t), n) =~= m[n]);
        } else {
            assert(values_of(h, n) + values_of(as_headers(t), n) =~= m[n]);
        }
    }
    assert(back =~= m);
}

} // verus!
