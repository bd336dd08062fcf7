//! Base64 with the standard alphabet and padding.
use vstd::prelude::*;
use vstd::utf8::encode_utf8;

verus! {

/// The letter of the value `v`, which is below 64.
pub open spec fn b64_letter(v: int) -> char {
    if v < 26 {
        (65 + v) as char
    } else if v < 52 {
        (97 + v - 26) as char
    } else if v < 62 {
        (48 + v - 52) as char
    } else if v == 62 {
        '+'
    } else {
        '/'
    }
}

/// The value of a letter, given as its byte.
pub open spec fn b64_value(c: u8) -> Option<int> {
    if 65 <= c <= 90 {
        Some(c - 65)
    } else if 97 <= c <= 122 {
        Some(c - 97 + 26)
    } else if 48 <= c <= 57 {
        Some(c - 48 + 52)
    } else if c == 43 {
        Some(62)
    } else if c == 47 {
        Some(63)
    } else {
        None
    }
}

/// The byte at `i`, zero behind the end.
pub open spec fn byte_at(data: Seq<u8>, i: int) -> int {
    if 0 <= i < data.len() {
        data[i] as int
    } else {
        0
    }
}

/// The text of `data`: four letters for every group of three bytes, with `=`
/// where the last group is short.
pub open spec fn b64_text(data: Seq<u8>) -> Seq<char> {
    Seq::new(
        ((data.len() + 2) / 3 * 4) as nat,
        |p: int|
            {
                let i = p / 4 * 3;
                if p % 4 == 0 {
                    b64_letter(byte_at(data, i) / 4)
                } else if p % 4 == 1 {
                    b64_letter(byte_at(data, i) % 4 * 16 + byte_at(data, i + 1) / 16)
                } else if p % 4 == 2 {
                    if i + 1 < data.len() {
                        b64_letter(byte_at(data, i + 1) % 16 * 4 + byte_at(data, i + 2) / 64)
                    } else {
                        '='
                    }
                } else {
                    if i + 2 < data.len() {
                        b64_letter(byte_at(data, i + 2) % 64)
                    } else {
                        '='
                    }
                }
            },
    )
}

/// The place of the first `=`, or the length where there is none.
pub open spec fn pad_place(b: Seq<u8>) -> int
    decreases b.len(),
{
    if b.len() == 0 || b[0] == 61 {
        0
    } else {
        1 + pad_place(b.drop_first())
    }
}

/// The value of the letter at `i`.
pub open spec fn letter_at(b: Seq<u8>, i: int) -> int {
    b64_value(b[i]).unwrap()
}

/// The bytes that the first `n` letters of `b` hold: six bits each, eight to a
/// byte, with the bits that fill no byte left out.
pub open spec fn unpacked(b: Seq<u8>, n: int) -> Seq<u8> {
    Seq::new(
        (n * 3 / 4) as nat,
        |j: int|
            {
                let k = j / 3 * 4;
                if j % 3 == 0 {
                    (letter_at(b, k) * 4 + letter_at(b, k + 1) / 16) as u8
                } else if j % 3 == 1 {
                    (letter_at(b, k + 1) % 16 * 16 + letter_at(b, k + 2) / 4) as u8
                } else {
                    (letter_at(b, k + 2) % 4 * 64 + letter_at(b, k + 3)) as u8
                }
            },
    )
}

/// The bytes that a text holds: none where the length is no multiple of four or
/// where something else than a letter stands before the first `=`. What follows
/// the first `=` is not looked at.
pub open spec fn b64_bytes(b: Seq<u8>) -> Option<Seq<u8>> {
    let n = pad_place(b);
    if b.len() % 4 == 0 && (forall|i: int| 0 <= i < n ==> b64_value(#[trigger] b[i]) is Some) {
        Some(unpacked(b, n))
    } else {
        None
    }
}

fn letter(v: u8) -> (c: char)
    requires
        v < 64,
    ensures
        c == b64_letter(v as int),
{
    if v < 26 {
        (65 + v) as char
    } else if v < 52 {
        (97 + (v - 26)) as char
    } else if v < 62 {
        (48 + (v - 52)) as char
    } else if v == 62 {
        '+'
    } else {
        '/'
    }
}

fn value(c: u8) -> (r: Option<u8>)
    ensures
        match r {
            Some(v) => b64_value(c) == Some(v as int) && v < 64,
            None => b64_value(c) is None,
        },
{
    if 65 <= c && c <= 90 {
        Some(c - 65)
    } else if 97 <= c && c <= 122 {
        Some(c - 97 + 26)
    } else if 48 <= c && c <= 57 {
        Some(c - 48 + 52)
    } else if c == 43 {
        Some(62)
    } else if c == 47 {
        Some(63)
    } else {
        None
    }
}

/// Encodes bytes.
pub fn b64_encode(data: &[u8]) -> (out: String)
    ensures
        out@ == b64_text(data@),
{
    let mut out = String::new();
    let mut i: usize = 0;
    let n = data.len();
    while i < n
        invariant
            i % 3 == 0,
            i <= n + 2,
            n == data@.len(),
            out@.len() == i / 3 * 4,
            out@.len() <= b64_text(data@).len(),
            forall|p: int| 0 <= p < out@.len() ==> out@[p] == b64_text(data@)[p],
        decreases n + 3 - i,
    {
        let left = n - i;
        let a: u8 = data[i];
        let b: u8 = if left > 1 {
            data[i + 1]
        } else {
            0
        };
        let c: u8 = if left > 2 {
            data[i + 2]
        } else {
            0
        };
        assert(a == byte_at(data@, i as int));
        assert(b == byte_at(data@, i + 1));
        assert(c == byte_at(data@, i + 2));
        let ghost p0 = i / 3 * 4;
        assert(p0 / 4 * 3 == i && (p0 + 1) / 4 * 3 == i && (p0 + 2) / 4 * 3 == i && (p0 + 3) / 4 * 3
            == i);
        out.push(letter(a / 4));
        out.push(letter(a % 4 * 16 + b / 16));
        out.push(
            if left > 1 {
                letter(b % 16 * 4 + c / 64)
            } else {
                '='
            },
        );
        out.push(
            if left > 2 {
                letter(c % 64)
            } else {
                '='
            },
        );
        if left <= 3 {
            assert(out@ =~= b64_text(data@));
            return out;
        }
        i += 3;
    }
    assert(out@ =~= b64_text(data@));
    out
}

proof fn lemma_pad_place(b: Seq<u8>, k: int)
    requires
        0 <= k <= b.len(),
        forall|j: int| 0 <= j < k ==> b[j] != 61,
        k == b.len() || b[k] == 61,
    ensures
        pad_place(b) == k,
    decreases b.len(),
{
    if k > 0 {
        assert(b[0] != 61);
        let t = b.drop_first();
        assert forall|j: int| 0 <= j < k - 1 implies t[j] != 61 by {
            assert(t[j] == b[j + 1]);
        }
        lemma_pad_place(t, k - 1);
    }
}

proof fn lemma_pad_place_bounds(b: Seq<u8>)
    ensures
        0 <= pad_place(b) <= b.len(),
        forall|j: int| 0 <= j < pad_place(b) ==> b[j] != 61,
        pad_place(b) < b.len() ==> b[pad_place(b)] == 61,
    decreases b.len(),
{
    if b.len() > 0 && b[0] != 61 {
        let t = b.drop_first();
        lemma_pad_place_bounds(t);
        assert forall|j: int| 0 <= j < pad_place(b) implies b[j] != 61 by {
            if j > 0 {
                assert(b[j] == t[j - 1]);
            }
        }
    }
}

/// Decodes a text; a character outside the alphabet rejects the whole value.
pub fn b64_decode(s: &str) -> (r: Option<Vec<u8>>)
    ensures
        match r {
            Some(v) => b64_bytes(encode_utf8(s@)) == Some(v@),
            None => b64_bytes(encode_utf8(s@)) is None,
        },
{
    let b: &[u8] = s.as_bytes();
    let n = b.len();
    proof {
        lemma_pad_place_bounds(b@);
    }
    if n % 4 != 0 {
        return None;
    }
    let mut out: Vec<u8> = Vec::new();
    let mut held: u8 = 0;
    let mut i: usize = 0;
    while i < n
        invariant
            i <= n,
            n == b@.len(),
            n % 4 == 0,
            b@ == encode_utf8(s@),
            i <= pad_place(b@),
            pad_place(b@) <= b@.len(),
            forall|j: int| 0 <= j < pad_place(b@) ==> b@[j] != 61,
            pad_place(b@) < b@.len() ==> b@[pad_place(b@)] == 61,
            forall|j: int| 0 <= j < i ==> b64_value(#[trigger] b@[j]) is Some,
            i % 4 == 1 ==> held == letter_at(b@, i - 1),
            i % 4 == 2 ==> held == letter_at(b@, i - 1) % 16,
            i % 4 == 3 ==> held == letter_at(b@, i - 1) % 4,
            i % 4 == 1 ==> held < 64,
            out@ == unpacked(b@, i as int),
        decreases n - i,
    {
        let c = b[i];
        if c == 61 {
            assert(pad_place(b@) == i);
            return Some(out);
        }
        match value(c) {
            None => {
                assert(b64_value(b@[i as int]) is None);
                return None;
            },
            Some(v) => {
                assert(letter_at(b@, i as int) == v);
                if i % 4 == 0 {
                    held = v;
                } else if i % 4 == 1 {
                    out.push(held * 4 + v / 16);
                    held = v % 16;
                } else if i % 4 == 2 {
                    out.push(held * 16 + v / 4);
                    held = v % 4;
                } else {
                    out.push(held * 64 + v);
                }
                assert(out@ =~= unpacked(b@, i + 1));
            },
        }
        i += 1;
    }
    Some(out)
}

proof fn lemma_letter_value(v: int)
    requires
        0 <= v < 64,
    ensures
        b64_value(b64_letter(v) as u8) == Some(v),
        b64_letter(v) as u8 != 61,
        (b64_letter(v) as u32) < 128,
{
}

/// Decoding what was encoded gives the bytes back.
pub proof fn law_b64_round_trip(data: Seq<u8>)
    ensures
        b64_bytes(encode_utf8(b64_text(data))) == Some(data),
{
    let t = b64_text(data);
    let b = encode_utf8(t);
    let n = data.len() as int;
    let m = letter_count(n);
    lemma_text_bytes(data);
    assert forall|p: int| 0 <= p < m implies b[p] != 61 && b64_value(#[trigger] b[p]) is Some by {
        lemma_text_at(data, p);
        assert(b[p] == t[p] as u8);
    }
    if m < b.len() {
        lemma_text_at(data, m);
        assert(b[m] == t[m] as u8);
    }
    lemma_pad_place(b, m);
    assert forall|j: int| 0 <= j < n implies #[trigger] unpacked(b, m)[j] == data[j] by {
        lemma_unpacked_at(data, j);
    }
    assert(unpacked(b, m) =~= data);
}

/// The number of letters, without the padding, of `n` bytes.
spec fn letter_count(n: int) -> int {
    if n % 3 == 0 {
        n / 3 * 4
    } else {
        n / 3 * 4 + n % 3 + 1
    }
}

proof fn lemma_text_bytes(data: Seq<u8>)
    ensures
        ({
            let t = b64_text(data);
            let b = encode_utf8(t);
            &&& b.len() == t.len()
            &&& forall|p: int| 0 <= p < b.len() ==> #[trigger] b[p] == t[p] as u8
        }),
{
    let t = b64_text(data);
    assert forall|p: int| 0 <= p < t.len() implies '\0' <= #[trigger] t[p] <= '\u{7f}' by {
        lemma_text_at(data, p);
    }
    vstd::utf8::is_ascii_chars_encode_utf8(t);
}

/// The value that the letter at `p` of the text of `data` stands for.
spec fn sextet(data: Seq<u8>, p: int) -> int {
    let i = p / 4 * 3;
    if p % 4 == 0 {
        byte_at(data, i) / 4
    } else if p % 4 == 1 {
        byte_at(data, i) % 4 * 16 + byte_at(data, i + 1) / 16
    } else if p % 4 == 2 {
        byte_at(data, i + 1) % 16 * 4 + byte_at(data, i + 2) / 64
    } else {
        byte_at(data, i + 2) % 64
    }
}

/// Whether the letter at `p` of the text of `data` is padding.
spec fn padded(data: Seq<u8>, p: int) -> bool {
    let i = p / 4 * 3;
    (p % 4 == 2 && i + 1 >= data.len()) || (p % 4 == 3 && i + 2 >= data.len())
}

proof fn lemma_unpacked_at(data: Seq<u8>, j: int)
    requires
        0 <= j < data.len(),
    ensures
        unpacked(encode_utf8(b64_text(data)), letter_count(data.len() as int))[j] == data[j],
{
    let t = b64_text(data);
    let k = j / 3 * 4;
    lemma_text_bytes(data);
    assert(k + 3 < t.len());
    if j % 3 == 0 {
        lemma_letter_at(data, k);
        lemma_letter_at(data, k + 1);
        lemma_join_first(data, j);
    } else if j % 3 == 1 {
        lemma_letter_at(data, k + 1);
        lemma_letter_at(data, k + 2);
        lemma_join_second(data, j);
    } else {
        lemma_letter_at(data, k + 2);
        lemma_letter_at(data, k + 3);
        lemma_join_third(data, j);
    }
}

proof fn lemma_join_first(data: Seq<u8>, j: int)
    requires
        0 <= j < data.len(),
        j % 3 == 0,
    ensures
        sextet(data, j / 3 * 4) * 4 + sextet(data, j / 3 * 4 + 1) / 16 == data[j],
{
    let k = j / 3 * 4;
    assert(k / 4 * 3 == j && (k + 1) / 4 * 3 == j);
}

proof fn lemma_join_second(data: Seq<u8>, j: int)
    requires
        0 <= j < data.len(),
        j % 3 == 1,
    ensures
        sextet(data, j / 3 * 4 + 1) % 16 * 16 + sextet(data, j / 3 * 4 + 2) / 4 == data[j],
{
    let k = j / 3 * 4;
    assert((k + 1) / 4 * 3 == j - 1 && (k + 2) / 4 * 3 == j - 1);
}

proof fn lemma_join_third(data: Seq<u8>, j: int)
    requires
        0 <= j < data.len(),
        j % 3 == 2,
    ensures
        sextet(data, j / 3 * 4 + 2) % 4 * 64 + sextet(data, j / 3 * 4 + 3) == data[j],
{
    let k = j / 3 * 4;
    assert((k + 2) / 4 * 3 == j - 2 && (k + 3) / 4 * 3 == j - 2);
}

proof fn lemma_letter_at(data: Seq<u8>, p: int)
    requires
        0 <= p < b64_text(data).len(),
        !padded(data, p),
    ensures
        letter_at(encode_utf8(b64_text(data)), p) == sextet(data, p),
{
    lemma_text_bytes(data);
    lemma_text_at(data, p);
    assert(encode_utf8(b64_text(data))[p] == b64_text(data)[p] as u8);
}

proof fn lemma_text_at(data: Seq<u8>, p: int)
    requires
        0 <= p < b64_text(data).len(),
    ensures
        ({
            let t = b64_text(data);
            &&& (t[p] as u32) < 128
            &&& padded(data, p) ==> t[p] == '='
            &&& !padded(data, p) ==> b64_value(t[p] as u8) == Some(sextet(data, p)) && t[p] as u8
                != 61
        }),
{
    assert(0 <= sextet(data, p) < 64);
    lemma_letter_value(sextet(data, p));
}

/// The letters are those of the standard alphabet, in its order, and each is read
/// as its place there; no other byte is a letter.
pub proof fn law_b64_alphabet(v: int, c: u8)
    requires
        0 <= v < 64,
    ensures
        b64_letter(v) == "ABCDEFGHIJKLMNOPQRSTUVWXYZabcdefghijklmnopqrstuvwxyz0123456789+/"@[v],
        b64_value(c) == Some(v) <==> c as char == b64_letter(v),
        b64_value(c) is Some ==> 0 <= b64_value(c)->0 < 64,
{
    reveal_strlit("ABCDEFGHIJKLMNOPQRSTUVWXYZabcdefghijklmnopqrstuvwxyz0123456789+/");
    lemma_letter_value(v);
}

/// Every three bytes are written as four letters that hold the same 24 bits. Of a
/// last group of two bytes or one the missing bits are zero, and padding stands in
/// the place of the letters that hold none of its bytes.
pub proof fn law_b64_groups(data: Seq<u8>, g: int)
    requires
        0 <= g,
        3 * g < data.len(),
    ensures
        b64_text(data).len() % 4 == 0,
        3 * b64_text(data).len() <= 4 * (data.len() + 2) < 3 * b64_text(data).len() + 12,
        ({
            let t = b64_text(data);
            let at = 4 * g;
            let left = data.len() - 3 * g;
            let v = |i: int| b64_value(t[at + i] as u8)->0;
            &&& left >= 3 ==> v(0) * 0x40000 + v(1) * 0x1000 + v(2) * 0x40 + v(3) == data[3 * g]
                * 0x10000 + data[3 * g + 1] * 0x100 + data[3 * g + 2]
            &&& left == 2 ==> v(0) * 0x1000 + v(1) * 0x40 + v(2) == 4 * (data[3 * g] * 0x100
                + data[3 * g + 1]) && t[at + 3] == '='
            &&& left == 1 ==> v(0) * 0x40 + v(1) == 16 * data[3 * g] && t[at + 2] == '=' && t[at + 3]
                == '='
        }),
{
    let t = b64_text(data);
    let p = 4 * g;
    assert(p + 3 < t.len());
    assert(p / 4 * 3 == 3 * g && (p + 1) / 4 * 3 == 3 * g && (p + 2) / 4 * 3 == 3 * g && (p + 3) / 4
        * 3 == 3 * g);
    assert(p % 4 == 0 && (p + 1) % 4 == 1 && (p + 2) % 4 == 2 && (p + 3) % 4 == 3);
    lemma_text_at(data, p);
    lemma_text_at(data, p + 1);
    lemma_text_at(data, p + 2);
    lemma_text_at(data, p + 3);
}

/// A text whose length is no multiple of four holds nothing, and neither does one
/// with something else than a letter before the first `=`. What follows the first
/// `=` makes no difference.
pub proof fn law_b64_rejects(b: Seq<u8>, i: int, tail: Seq<u8>, other: Seq<u8>)
    ensures
        b.len() % 4 != 0 ==> b64_bytes(b) is None,
        0 <= i < b.len() && b[i] != 61 && b64_value(b[i]) is None && (forall|j: int|
            0 <= j < i ==> b[j] != 61) ==> b64_bytes(b) is None,
        (b.len() + 1 + tail.len()) % 4 == 0 && (b.len() + 1 + other.len()) % 4 == 0 ==> b64_bytes(
            b.push(61) + tail,
        ) == b64_bytes(b.push(61) + other),
{
    lemma_pad_place_bounds(b);
    if 0 <= i < b.len() && b[i] != 61 && b64_value(b[i]) is None && (forall|j: int|
        0 <= j < i ==> b[j] != 61) {
        assert(pad_place(b) > i);
        assert(b64_value(b[i]) is None);
    }
    let x = b.push(61) + tail;
    let y = b.push(61) + other;
    let n = pad_place(b);
    assert(x[b.len() as int] == 61 && y[b.len() as int] == 61);
    assert(forall|j: int| 0 <= j < b.len() ==> x[j] == b[j] && y[j] == b[j]);
    lemma_pad_place(x, n);
    lemma_pad_place(y, n);
    if (b.len() + 1 + tail.len()) % 4 == 0 && (b.len() + 1 + other.len()) % 4 == 0 {
        if forall|j: int| 0 <= j < n ==> b64_value(#[trigger] x[j]) is Some {
            assert forall|j: int| 0 <= j < n implies b64_value(#[trigger] y[j]) is Some by {
                assert(b64_value(x[j]) is Some);
            }
            assert(unpacked(x, n) =~= unpacked(y, n));
        } else {
            let j = choose|j: int| 0 <= j < n && b64_value(#[trigger] x[j]) is None;
            assert(b64_value(y[j]) is None);
        }
    }
}

/// Every four letters are read as the three bytes with the same 24 bits; of a last
/// group of three letters or two as many whole bytes are read as they hold, and a
/// single letter is read as nothing. `n` is the number of letters.
pub proof fn law_b64_reads_groups(b: Seq<u8>, n: int, g: int)
    requires
        b64_bytes(b) is Some,
        0 <= n <= b.len(),
        forall|j: int| 0 <= j < n ==> b[j] != 61,
        n < b.len() ==> b[n] == 61,
        0 <= g,
        4 * g < n,
    ensures
        ({
            let d = b64_bytes(b)->0;
            let v = |i: int| b64_value(b[4 * g + i])->0;
            let at = 3 * g;
            let left = n - 4 * g;
            &&& left >= 4 ==> d.len() >= at + 3 && d[at] * 0x10000 + d[at + 1] * 0x100 + d[at + 2]
                == v(0) * 0x40000 + v(1) * 0x1000 + v(2) * 0x40 + v(3)
            &&& left == 3 ==> d.len() == at + 2 && d[at] * 0x100 + d[at + 1] == (v(0) * 0x1000 + v(1)
                * 0x40 + v(2)) / 4
            &&& left == 2 ==> d.len() == at + 1 && d[at] == (v(0) * 0x40 + v(1)) / 16
            &&& left == 1 || left == 4 ==> d.len() == 3 * n / 4
        }),
{
    lemma_pad_place(b, n);
    let d = unpacked(b, n);
    let k = 4 * g;
    assert(b64_value(b[k]) is Some);
    assert(n > k + 1 ==> b64_value(b[k + 1]) is Some);
    assert(n > k + 2 ==> b64_value(b[k + 2]) is Some);
    assert(n > k + 3 ==> b64_value(b[k + 3]) is Some);
    assert((3 * g) / 3 * 4 == k && (3 * g + 1) / 3 * 4 == k && (3 * g + 2) / 3 * 4 == k);
    assert((3 * g) % 3 == 0 && (3 * g + 1) % 3 == 1 && (3 * g + 2) % 3 == 2);
}

} // verus!
