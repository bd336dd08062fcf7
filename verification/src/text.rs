//! Text as sequences of characters: building, comparing, trimming and cutting.
//! Everything here is stated over `Seq<char>`.
use vstd::prelude::*;
use vstd::string::StringExecFns;

verus! {

/// `String::push` appends one character at the end.
pub assume_specification[ String::push ](s: &mut String, c: char)
    ensures
        final(s)@ == old(s)@.push(c),
;

/// The texts held by a sequence of strings.
pub open spec fn texts(v: Seq<String>) -> Seq<Seq<char>> {
    v.map_values(|s: String| s@)
}

pub proof fn lemma_texts_push(v: Seq<String>, s: String)
    ensures
        texts(v.push(s)) == texts(v).push(s@),
{
    assert(texts(v.push(s)) =~= texts(v).push(s@));
}

/// The characters of a string, in order.
pub fn chars_of(s: &str) -> (out: Vec<char>)
    ensures
        out@ == s@,
{
    let mut out: Vec<char> = Vec::new();
    for c in it: s.chars()
        invariant
            out@ == it.seq().take(it.index()),
            it.seq() == s@,
    {
        out.push(c);
    }
    out
}

/// The string made of the characters from `from` up to, not including, `to`.
pub fn text_between(chars: &[char], from: usize, to: usize) -> (out: String)
    requires
        from <= to <= chars@.len(),
    ensures
        out@ == chars@.subrange(from as int, to as int),
{
    let mut out = String::new();
    let mut i: usize = from;
    while i < to
        invariant
            from <= i <= to <= chars@.len(),
            out@ == chars@.subrange(from as int, i as int),
        decreases to - i,
    {
        out.push(chars[i]);
        i += 1;
        assert(chars@.subrange(from as int, i as int) == chars@.subrange(
            from as int,
            i - 1,
        ).push(chars@[i - 1]));
    }
    out
}

/// Whether two strings hold the same characters.
pub fn same_text(a: &str, b: &str) -> (r: bool)
    ensures
        r == (a@ == b@),
{
    a.to_owned() == b.to_owned()
}

/// A copy of `s` followed by `t`.
pub fn joined(s: &str, t: &str) -> (out: String)
    ensures
        out@ == s@ + t@,
{
    let mut out = s.to_owned();
    out.append(t);
    out
}

/// A copy of a list of strings.
pub fn copy_texts(v: &Vec<String>) -> (out: Vec<String>)
    ensures
        texts(out@) == texts(v@),
{
    let mut out: Vec<String> = Vec::new();
    let mut i: usize = 0;
    while i < v.len()
        invariant
            i <= v@.len(),
            out@ == v@.take(i as int),
        decreases v@.len() - i,
    {
        out.push(v[i].clone());
        i += 1;
        assert(v@.take(i as int) == v@.take(i - 1).push(v@[i - 1]));
    }
    assert(v@.take(i as int) == v@);
    out
}

/// Whether `s` begins with `prefix`.
pub fn starts_with(s: &str, prefix: &str) -> (r: bool)
    ensures
        r == prefix@.is_prefix_of(s@),
{
    let a = chars_of(s);
    let p = chars_of(prefix);
    if p.len() > a.len() {
        return false;
    }
    let mut i: usize = 0;
    while i < p.len()
        invariant
            i <= p@.len() <= a@.len(),
            a@ == s@,
            p@ == prefix@,
            forall|j: int| 0 <= j < i ==> a@[j] == p@[j],
        decreases p@.len() - i,
    {
        if a[i] != p[i] {
            assert(p@[i as int] != a@.subrange(0, p@.len() as int)[i as int]);
            return false;
        }
        i += 1;
    }
    assert(p@ =~= a@.subrange(0, p@.len() as int));
    true
}

/// `s` without its first `n` characters.
pub fn without_first(s: &str, n: usize) -> (out: String)
    requires
        n <= s@.len(),
    ensures
        out@ == s@.skip(n as int),
{
    let a = chars_of(s);
    let out = text_between(&a, n, a.len());
    assert(s@.subrange(n as int, s@.len() as int) == s@.skip(n as int));
    out
}

// ---- white space ----

/// The characters with the Unicode `White_Space` property.
pub open spec fn is_white_space(c: char) -> bool {
    let n = c as u32;
    ||| 0x09 <= n <= 0x0d
    ||| n == 0x20
    ||| n == 0x85
    ||| n == 0xa0
    ||| n == 0x1680
    ||| 0x2000 <= n <= 0x200a
    ||| n == 0x2028
    ||| n == 0x2029
    ||| n == 0x202f
    ||| n == 0x205f
    ||| n == 0x3000
}

/// Tests a character for the `White_Space` property.
pub fn white_space(c: char) -> (r: bool)
    ensures
        r == is_white_space(c),
{
    let n: u32 = c as u32;
    (0x09 <= n && n <= 0x0d) || n == 0x20 || n == 0x85 || n == 0xa0 || n == 0x1680 || (0x2000 <= n
        && n <= 0x200a) || n == 0x2028 || n == 0x2029 || n == 0x202f || n == 0x205f || n == 0x3000
}

/// `s` without its leading white space.
pub open spec fn trimmed_start(s: Seq<char>) -> Seq<char>
    decreases s.len(),
{
    if s.len() > 0 && is_white_space(s[0]) {
        trimmed_start(s.drop_first())
    } else {
        s
    }
}

/// `s` without its trailing white space.
pub open spec fn trimmed_end(s: Seq<char>) -> Seq<char>
    decreases s.len(),
{
    if s.len() > 0 && is_white_space(s.last()) {
        trimmed_end(s.drop_last())
    } else {
        s
    }
}

/// `s` without the white space around it.
pub open spec fn trimmed(s: Seq<char>) -> Seq<char> {
    trimmed_end(trimmed_start(s))
}

/// Removes the white space around a text.
pub fn trim(s: &str) -> (out: String)
    ensures
        out@ == trimmed(s@),
{
    let a = chars_of(s);
    let mut i: usize = 0;
    assert(a@.skip(0) == a@);
    while i < a.len() && white_space(a[i])
        invariant
            i <= a@.len(),
            trimmed_start(a@) == trimmed_start(a@.skip(i as int)),
        decreases a@.len() - i,
    {
        assert(a@.skip(i as int).drop_first() == a@.skip(i + 1));
        i += 1;
    }
    let ghost rest = a@.skip(i as int);
    assert(i < a@.len() ==> rest[0] == a@[i as int]);
    assert(trimmed_start(a@) == rest);
    let mut j: usize = a.len();
    assert(a@.subrange(i as int, j as int) == rest);
    while j > i && white_space(a[j - 1])
        invariant
            i <= j <= a@.len(),
            trimmed_end(rest) == trimmed_end(a@.subrange(i as int, j as int)),
        decreases j,
    {
        let ghost cur = a@.subrange(i as int, j as int);
        assert(cur.drop_last() == a@.subrange(i as int, j - 1));
        assert(cur.last() == a@[j - 1]);
        j -= 1;
    }
    let ghost cur = a@.subrange(i as int, j as int);
    assert(j > i ==> cur.last() == a@[j - 1]);
    text_between(&a, i, j)
}

/// What `str::to_lowercase` makes of a text that is not all ASCII.
pub uninterp spec fn lowercased(s: Seq<char>) -> Seq<char>;

/// A text in lower case. On ASCII text the letters `A` to `Z` are lowered and
/// nothing else.
pub open spec fn lower_case(s: Seq<char>) -> Seq<char> {
    if vstd::utf8::is_ascii_chars(s) {
        ascii_lowered(s)
    } else {
        lowercased(s)
    }
}

/// Calls `str::to_lowercase`. On a text of ASCII characters it lowers the letters
/// `A` to `Z` and nothing else; on any other the result, a function of the text
/// alone, has a name only.
#[verifier::external_body]
pub(crate) fn to_lowercase(s: &str) -> (out: String)
    ensures
        vstd::utf8::is_ascii_chars(s@) ==> out@ == ascii_lowered(s@),
        !vstd::utf8::is_ascii_chars(s@) ==> out@ == lowercased(s@),
{
    s.to_lowercase()
}

/// What `String::from_utf8_lossy` makes of bytes that are not valid UTF-8.
pub uninterp spec fn utf8_lossy(bytes: Seq<u8>) -> Seq<char>;

/// Bytes read as text, whatever they hold.
pub open spec fn read_lossy(bytes: Seq<u8>) -> Seq<char> {
    if vstd::utf8::valid_utf8(bytes) {
        vstd::utf8::decode_utf8(bytes)
    } else {
        utf8_lossy(bytes)
    }
}

/// Calls `String::from_utf8_lossy`. Valid UTF-8 is read as the text that it
/// encodes; of other bytes the result, a function of the bytes alone, has a name
/// only.
#[verifier::external_body]
pub(crate) fn from_utf8_lossy(bytes: &[u8]) -> (out: String)
    ensures
        vstd::utf8::valid_utf8(bytes@) ==> out@ == vstd::utf8::decode_utf8(bytes@),
        !vstd::utf8::valid_utf8(bytes@) ==> out@ == utf8_lossy(bytes@),
{
    String::from_utf8_lossy(bytes).into_owned()
}

// ---- ASCII case ----

/// The lower-case form of an ASCII capital, any other character as it is.
pub open spec fn ascii_lower(c: char) -> char {
    if 'A' <= c && c <= 'Z' {
        (c as u8 + 32) as char
    } else {
        c
    }
}

/// A text with its ASCII capitals lowered.
pub open spec fn ascii_lowered(s: Seq<char>) -> Seq<char> {
    s.map_values(|c: char| ascii_lower(c))
}

/// Lowers the ASCII capitals of a text.
pub fn to_ascii_lowercase(s: &str) -> (out: String)
    ensures
        out@ == ascii_lowered(s@),
{
    let a = chars_of(s);
    let mut out = String::new();
    let mut i: usize = 0;
    while i < a.len()
        invariant
            i <= a@.len(),
            a@ == s@,
            out@ == ascii_lowered(a@.take(i as int)),
        decreases a@.len() - i,
    {
        let c = a[i];
        if 'A' <= c && c <= 'Z' {
            out.push((c as u8 + 32) as char);
        } else {
            out.push(c);
        }
        i += 1;
        assert(a@.take(i as int) == a@.take(i - 1).push(c));
    }
    assert(a@.take(i as int) == a@);
    out
}

/// Whether two texts differ at most in the case of ASCII letters.
pub fn same_text_ignoring_ascii_case(a: &str, b: &str) -> (r: bool)
    ensures
        r == (ascii_lowered(a@) == ascii_lowered(b@)),
{
    to_ascii_lowercase(a) == to_ascii_lowercase(b)
}

// ---- cutting ----

/// The place of the first `c` in `s`, or the length of `s` where it has none.
pub open spec fn first_place(s: Seq<char>, c: char) -> int
    decreases s.len(),
{
    if s.len() == 0 || s[0] == c {
        0
    } else {
        1 + first_place(s.drop_first(), c)
    }
}

/// The part of `s` before the first `c`; all of `s` where it has none.
pub open spec fn before_first(s: Seq<char>, c: char) -> Seq<char> {
    s.take(first_place(s, c))
}

pub proof fn lemma_first_place(s: Seq<char>, c: char, k: int)
    requires
        0 <= k <= s.len(),
        forall|j: int| 0 <= j < k ==> s[j] != c,
        k == s.len() || s[k] == c,
    ensures
        first_place(s, c) == k,
    decreases s.len(),
{
    if k > 0 {
        assert(s[0] != c);
        let t = s.drop_first();
        assert forall|j: int| 0 <= j < k - 1 implies t[j] != c by {
            assert(t[j] == s[j + 1]);
        }
        lemma_first_place(t, c, k - 1);
    }
}

/// Cuts a text at the first `c`.
pub fn cut_before_first(s: &str, c: char) -> (out: String)
    ensures
        out@ == before_first(s@, c),
{
    let a = chars_of(s);
    let mut i: usize = 0;
    while i < a.len() && a[i] != c
        invariant
            i <= a@.len(),
            a@ == s@,
            forall|j: int| 0 <= j < i ==> a@[j] != c,
        decreases a@.len() - i,
    {
        i += 1;
    }
    proof {
        lemma_first_place(s@, c, i as int);
    }
    text_between(&a, 0, i)
}

/// The part of `s` behind the last `c`; all of `s` where it has none.
pub open spec fn after_last(s: Seq<char>, c: char) -> Seq<char>
    decreases s.len(),
{
    if s.len() == 0 || s.last() == c {
        Seq::empty()
    } else {
        after_last(s.drop_last(), c).push(s.last())
    }
}

/// The part of a text behind the last `c`.
pub fn cut_after_last(s: &str, c: char) -> (out: String)
    ensures
        out@ == after_last(s@, c),
{
    let a = chars_of(s);
    let mut start: usize = 0;
    let mut i: usize = 0;
    while i < a.len()
        invariant
            start <= i <= a@.len(),
            a@ == s@,
            after_last(a@.take(i as int), c) == a@.subrange(start as int, i as int),
        decreases a@.len() - i,
    {
        assert(a@.take(i + 1).drop_last() == a@.take(i as int));
        assert(a@.take(i + 1).last() == a@[i as int]);
        if a[i] == c {
            start = i + 1;
        }
        i += 1;
        assert(after_last(a@.take(i as int), c) =~= a@.subrange(start as int, i as int));
    }
    assert(a@.take(i as int) == a@);
    text_between(&a, start, i)
}

/// `s` without the run of `c` at its end.
pub open spec fn without_trailing(s: Seq<char>, c: char) -> Seq<char>
    decreases s.len(),
{
    if s.len() > 0 && s.last() == c {
        without_trailing(s.drop_last(), c)
    } else {
        s
    }
}

/// Removes the run of `c` at the end of a text.
pub fn cut_trailing(s: &str, c: char) -> (out: String)
    ensures
        out@ == without_trailing(s@, c),
{
    let a = chars_of(s);
    let mut j: usize = a.len();
    assert(a@.take(j as int) == a@);
    while j > 0 && a[j - 1] == c
        invariant
            j <= a@.len(),
            a@ == s@,
            without_trailing(a@, c) == without_trailing(a@.take(j as int), c),
        decreases j,
    {
        assert(a@.take(j as int).drop_last() == a@.take(j - 1));
        assert(a@.take(j as int).last() == a@[j - 1]);
        j -= 1;
    }
    assert(j > 0 ==> a@.take(j as int).last() == a@[j - 1]);
    assert(a@.subrange(0, j as int) == a@.take(j as int));
    text_between(&a, 0, j)
}

/// The parts of `s` between the occurrences of `sep`, in order.
pub open spec fn parts(s: Seq<char>, sep: char) -> Seq<Seq<char>>
    decreases s.len(),
{
    if s.len() == 0 {
        seq![Seq::<char>::empty()]
    } else {
        let rest = parts(s.drop_last(), sep);
        if s.last() == sep {
            rest.push(Seq::empty())
        } else {
            rest.drop_last().push(rest.last().push(s.last()))
        }
    }
}

/// Splits a text at every `sep`.
pub fn split(s: &str, sep: char) -> (out: Vec<String>)
    ensures
        texts(out@) == parts(s@, sep),
{
    let a = chars_of(s);
    let mut out: Vec<String> = Vec::new();
    let mut cur = String::new();
    let mut i: usize = 0;
    assert(a@.take(0) == Seq::<char>::empty());
    assert(parts(a@.take(0), sep) =~= texts(out@).push(cur@));
    while i < a.len()
        invariant
            i <= a@.len(),
            a@ == s@,
            parts(a@.take(i as int), sep) == texts(out@).push(cur@),
        decreases a@.len() - i,
    {
        let c = a[i];
        let ghost before = texts(out@).push(cur@);
        assert(a@.take(i + 1).drop_last() == a@.take(i as int));
        assert(a@.take(i + 1).last() == c);
        assert(before.last() == cur@ && before.drop_last() == texts(out@));
        if c == sep {
            out.push(cur);
            cur = String::new();
            assert(texts(out@) =~= before);
        } else {
            cur.push(c);
        }
        i += 1;
    }
    assert(a@.take(i as int) == a@);
    out.push(cur);
    assert(texts(out@) =~= parts(s@, sep));
    out
}

// ---- laws ----

proof fn lemma_trimmed_start(s: Seq<char>) -> (a: int)
    ensures
        0 <= a <= s.len(),
        trimmed_start(s) == s.skip(a),
        forall|i: int| 0 <= i < a ==> is_white_space(#[trigger] s[i]),
        a < s.len() ==> !is_white_space(s[a]),
    decreases s.len(),
{
    if s.len() > 0 && is_white_space(s[0]) {
        let t = s.drop_first();
        let b = lemma_trimmed_start(t);
        assert(t.skip(b) =~= s.skip(b + 1));
        assert forall|i: int| 0 <= i < b + 1 implies is_white_space(#[trigger] s[i]) by {
            if i > 0 {
                assert(t[i - 1] == s[i]);
            }
        }
        b + 1
    } else {
        assert(s.skip(0) =~= s);
        0
    }
}

proof fn lemma_trimmed_end(s: Seq<char>) -> (b: int)
    ensures
        0 <= b <= s.len(),
        trimmed_end(s) == s.take(b),
        forall|i: int| b <= i < s.len() ==> is_white_space(#[trigger] s[i]),
        b > 0 ==> !is_white_space(s[b - 1]),
    decreases s.len(),
{
    if s.len() > 0 && is_white_space(s.last()) {
        let t = s.drop_last();
        let b = lemma_trimmed_end(t);
        assert(t.take(b) =~= s.take(b));
        assert forall|i: int| b <= i < s.len() implies is_white_space(#[trigger] s[i]) by {
            if i < t.len() {
                assert(t[i] == s[i]);
            }
        }
        b
    } else {
        assert(s.take(s.len() as int) =~= s);
        s.len() as int
    }
}

/// Trimming takes white space off both ends and nothing else: what is left is one
/// stretch of the text, with white space only around it and none at its ends.
pub proof fn law_trimmed(s: Seq<char>) -> (r: (int, int))
    ensures
        0 <= r.0 <= r.1 <= s.len(),
        trimmed(s) == s.subrange(r.0, r.1),
        forall|i: int| 0 <= i < r.0 || r.1 <= i < s.len() ==> is_white_space(#[trigger] s[i]),
        r.0 < r.1 ==> !is_white_space(s[r.0]) && !is_white_space(s[r.1 - 1]),
{
    let a = lemma_trimmed_start(s);
    let t = s.skip(a);
    let b = lemma_trimmed_end(t);
    assert(t.take(b) =~= s.subrange(a, a + b));
    assert forall|i: int| a + b <= i < s.len() implies is_white_space(#[trigger] s[i]) by {
        assert(t[i - a] == s[i]);
    }
    if b > 0 {
        assert(t[b - 1] == s[a + b - 1]);
        if a == s.len() {
            assert(t.len() == 0);
        }
    }
    (a, a + b)
}

/// A text without white space at its ends is trimmed to itself.
pub proof fn law_trimmed_keeps(s: Seq<char>)
    requires
        s.len() > 0 ==> !is_white_space(s[0]) && !is_white_space(s.last()),
    ensures
        trimmed(s) == s,
{
}

/// Cutting at the first `c` gives the longest beginning of the text without `c`.
pub proof fn law_before_first(s: Seq<char>, c: char)
    ensures
        ({
            let r = before_first(s, c);
            &&& r.len() <= s.len()
            &&& r == s.take(r.len() as int)
            &&& !r.contains(c)
            &&& r.len() < s.len() ==> s[r.len() as int] == c
        }),
    decreases s.len(),
{
    if s.len() > 0 && s[0] != c {
        let t = s.drop_first();
        law_before_first(t, c);
        let k = before_first(t, c).len() as int;
        lemma_first_place_bounds(t, c);
        assert(s.take(k + 1) =~= seq![s[0]] + t.take(k));
        let r = before_first(s, c);
        if r.contains(c) {
            let i = choose|i: int| 0 <= i < r.len() && r[i] == c;
            assert(t.take(k)[i - 1] == c);
        }
        if r.len() < s.len() {
            assert(t[k] == s[k + 1]);
        }
    }
}

proof fn lemma_first_place_bounds(s: Seq<char>, c: char)
    ensures
        0 <= first_place(s, c) <= s.len(),
    decreases s.len(),
{
    if s.len() > 0 && s[0] != c {
        lemma_first_place_bounds(s.drop_first(), c);
    }
}

/// Cutting behind the last `c` gives the longest end of the text without `c`.
pub proof fn law_after_last(s: Seq<char>, c: char)
    ensures
        ({
            let r = after_last(s, c);
            &&& r.len() <= s.len()
            &&& r == s.skip(s.len() - r.len())
            &&& !r.contains(c)
            &&& r.len() < s.len() ==> s[s.len() - r.len() - 1] == c
        }),
    decreases s.len(),
{
    if s.len() > 0 && s.last() != c {
        let t = s.drop_last();
        law_after_last(t, c);
        let q = after_last(t, c);
        let r = after_last(s, c);
        assert(r =~= s.skip(s.len() - r.len()));
        if r.contains(c) {
            let i = choose|i: int| 0 <= i < r.len() && r[i] == c;
            assert(q[i] == c);
        }
    } else {
        assert(after_last(s, c) =~= s.skip(s.len() as int));
    }
}

/// Cutting the run of `c` at the end takes off that run, all of it and nothing
/// else.
pub proof fn law_without_trailing(s: Seq<char>, c: char)
    ensures
        ({
            let r = without_trailing(s, c);
            &&& r.len() <= s.len()
            &&& r == s.take(r.len() as int)
            &&& forall|i: int| r.len() <= i < s.len() ==> #[trigger] s[i] == c
            &&& r.len() > 0 ==> r.last() != c
        }),
    decreases s.len(),
{
    if s.len() > 0 && s.last() == c {
        let t = s.drop_last();
        law_without_trailing(t, c);
        let r = without_trailing(t, c);
        assert(r =~= s.take(r.len() as int));
        assert forall|i: int| r.len() <= i < s.len() implies #[trigger] s[i] == c by {
            if i < t.len() {
                assert(t[i] == s[i]);
            }
        }
    } else {
        assert(s.take(s.len() as int) =~= s);
    }
}

/// Texts put together with `sep` between them.
pub open spec fn rejoined(v: Seq<Seq<char>>, sep: char) -> Seq<char>
    decreases v.len(),
{
    if v.len() == 0 {
        Seq::empty()
    } else if v.len() == 1 {
        v[0]
    } else {
        rejoined(v.drop_last(), sep).push(sep) + v.last()
    }
}

/// Splitting loses nothing: the parts, put together again, are the text, and no
/// part holds the separator.
pub proof fn law_parts_rejoin(s: Seq<char>, sep: char)
    ensures
        parts(s, sep).len() > 0,
        rejoined(parts(s, sep), sep) == s,
        forall|i: int| 0 <= i < parts(s, sep).len() ==> !(#[trigger] parts(s, sep)[i]).contains(sep),
    decreases s.len(),
{
    let p = parts(s, sep);
    if s.len() == 0 {
        assert(rejoined(p, sep) =~= s);
    } else {
        let t = s.drop_last();
        let q = parts(t, sep);
        law_parts_rejoin(t, sep);
        if s.last() == sep {
            assert(p.drop_last() =~= q);
            assert(rejoined(p, sep) =~= s);
            assert forall|i: int| 0 <= i < p.len() implies !(#[trigger] p[i]).contains(sep) by {
                if i < q.len() {
                    assert(p[i] == q[i]);
                }
            }
        } else {
            assert(p.drop_last() =~= q.drop_last());
            assert(p.last() == q.last().push(s.last()));
            assert(rejoined(p, sep) =~= rejoined(q, sep).push(s.last()));
            assert(rejoined(p, sep) =~= s);
            assert forall|i: int| 0 <= i < p.len() implies !(#[trigger] p[i]).contains(sep) by {
                if i < q.len() - 1 {
                    assert(p[i] == q[i]);
                } else {
                    let l = q[q.len() - 1];
                    assert(!l.contains(sep));
                    if p[i].contains(sep) {
                        let j = choose|j: int| 0 <= j < p[i].len() && p[i][j] == sep;
                        assert(l[j] == sep);
                    }
                }
            }
        }
    }
}

/// Lowering a text of ASCII characters lowers the letters `A` to `Z`, each in its
/// place, and keeps every other character.
pub proof fn law_lowered(s: Seq<char>)
    ensures
        ascii_lowered(s).len() == s.len(),
        forall|i: int|
            0 <= i < s.len() ==> #[trigger] ascii_lowered(s)[i] as int == s[i] as int + if 65
                <= s[i] as int <= 90 {
                32int
            } else {
                0
            },
        vstd::utf8::is_ascii_chars(s) ==> lower_case(s) == ascii_lowered(s),
{
}

/// The texts of strings are those of each string, in order, and bytes that encode a
/// text are read as that text.
pub proof fn law_texts(v: Seq<String>, i: int, s: Seq<char>)
    ensures
        texts(v).len() == v.len(),
        0 <= i < v.len() ==> texts(v)[i] == v[i]@,
        read_lossy(vstd::utf8::encode_utf8(s)) == s,
{
    vstd::utf8::encode_utf8_valid_utf8(s);
    vstd::utf8::encode_utf8_decode_utf8(s);
}

} // verus!
