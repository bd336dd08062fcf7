//! Decimal numerals: writing integers and reading them back.
use crate::text::chars_of;
use vstd::prelude::*;

verus! {

/// The character of the digit `d`.
pub open spec fn digit_char(d: int) -> char {
    (48 + d) as char
}

/// Whether `c` is one of `0` to `9`.
pub open spec fn is_digit(c: char) -> bool {
    '0' <= c && c <= '9'
}

/// Whether `s` holds digits only.
pub open spec fn all_digits(s: Seq<char>) -> bool {
    forall|i: int| 0 <= i < s.len() ==> is_digit(#[trigger] s[i])
}

/// The number that a run of digits stands for.
pub open spec fn digits_value(s: Seq<char>) -> int
    decreases s.len(),
{
    if s.len() == 0 {
        0
    } else {
        digits_value(s.drop_last()) * 10 + (s.last() as int - 48)
    }
}

/// The shortest decimal numeral of `n`.
pub open spec fn decimal(n: nat) -> Seq<char>
    decreases n,
{
    if n < 10 {
        seq![digit_char(n as int)]
    } else {
        decimal(n / 10).push(digit_char((n % 10) as int))
    }
}

/// The decimal numeral of an integer, with a minus sign where it is negative.
pub open spec fn signed_decimal(n: int) -> Seq<char> {
    if n < 0 {
        seq!['-'] + decimal((-n) as nat)
    } else {
        decimal(n as nat)
    }
}

/// The number written in `s` as an optional plus sign and digits, where it is
/// at most `max`.
pub open spec fn parsed_unsigned(s: Seq<char>, max: int) -> Option<int> {
    let d = if s.len() > 0 && s[0] == '+' {
        s.drop_first()
    } else {
        s
    };
    if d.len() > 0 && all_digits(d) && digits_value(d) <= max {
        Some(digits_value(d))
    } else {
        None
    }
}

/// The number written in `s` as an optional sign and digits, where it lies
/// between `min` and `max`.
pub open spec fn parsed_signed(s: Seq<char>, min: int, max: int) -> Option<int> {
    let signed = s.len() > 0 && (s[0] == '+' || s[0] == '-');
    let d = if signed {
        s.drop_first()
    } else {
        s
    };
    let v = if signed && s[0] == '-' {
        -digits_value(d)
    } else {
        digits_value(d)
    };
    if d.len() > 0 && all_digits(d) && min <= v <= max {
        Some(v)
    } else {
        None
    }
}

proof fn lemma_digits_grow(s: Seq<char>, k: int)
    requires
        all_digits(s),
        0 <= k <= s.len(),
    ensures
        0 <= digits_value(s.take(k)) <= digits_value(s),
    decreases s.len(),
{
    if k < s.len() {
        let t = s.drop_last();
        assert(t.take(k) == s.take(k));
        lemma_digits_grow(t, k);
        assert(is_digit(s[s.len() - 1]));
    } else {
        assert(s.take(k) == s);
        if s.len() > 0 {
            let t = s.drop_last();
            lemma_digits_grow(t, t.len() as int);
            assert(t.take(t.len() as int) == t);
            assert(is_digit(s[s.len() - 1]));
        }
    }
}

/// A decimal numeral holds digits only, and stands for the number.
pub proof fn law_decimal_reads_back(n: nat)
    ensures
        decimal(n).len() > 0,
        all_digits(decimal(n)),
        digits_value(decimal(n)) == n,
    decreases n,
{
    if n < 10 {
        assert(decimal(n).drop_last() == Seq::<char>::empty());
        assert(decimal(n).last() == digit_char(n as int));
        assert(digits_value(decimal(n).drop_last()) == 0);
    } else {
        law_decimal_reads_back(n / 10);
        assert(decimal(n).drop_last() == decimal(n / 10));
        assert(decimal(n).last() == digit_char((n % 10) as int));
        assert forall|i: int| 0 <= i < decimal(n).len() implies is_digit(
            #[trigger] decimal(n)[i],
        ) by {
            if i < decimal(n / 10).len() {
                assert(decimal(n)[i] == decimal(n / 10)[i]);
            }
        }
    }
}

/// Reading a written unsigned number gives it back.
pub proof fn law_unsigned_reads_back(n: nat, max: int)
    requires
        n <= max,
    ensures
        parsed_unsigned(decimal(n), max) == Some(n as int),
{
    law_decimal_reads_back(n);
    assert(is_digit(decimal(n)[0]));
}

/// Reading a written signed number gives it back.
pub proof fn law_signed_reads_back(n: int, min: int, max: int)
    requires
        min <= n <= max,
    ensures
        parsed_signed(signed_decimal(n), min, max) == Some(n),
{
    if n < 0 {
        law_decimal_reads_back((-n) as nat);
        assert(signed_decimal(n).drop_first() == decimal((-n) as nat));
    } else {
        law_decimal_reads_back(n as nat);
        assert(is_digit(decimal(n as nat)[0]));
    }
}

/// Writes an unsigned number in decimal.
pub fn write_u64(n: u64) -> (out: String)
    ensures
        out@ == decimal(n as nat),
    decreases n,
{
    let d: u8 = (n % 10) as u8;
    let c = (48 + d) as char;
    if n < 10 {
        let mut out = String::new();
        out.push(c);
        out
    } else {
        let mut out = write_u64(n / 10);
        out.push(c);
        out
    }
}

/// Writes a signed number in decimal.
pub fn write_i64(n: i64) -> (out: String)
    ensures
        out@ == signed_decimal(n as int),
{
    if n < 0 {
        let m: u64 = (-(n + 1)) as u64 + 1;
        let digits = write_u64(m);
        proof {
            reveal_strlit("-");
            assert("-"@ == seq!['-']);
        }
        crate::text::joined("-", &digits)
    } else {
        write_u64(n as u64)
    }
}

/// Reads a run of digits that begins at `from`; none where it is empty, holds
/// anything else, or stands for more than a `u64` holds.
fn read_digits(a: &Vec<char>, from: usize) -> (r: Option<u64>)
    requires
        from <= a@.len(),
    ensures
        ({
            let d = a@.skip(from as int);
            if d.len() > 0 && all_digits(d) && digits_value(d) <= u64::MAX {
                r is Some && r->0 == digits_value(d)
            } else {
                r is None
            }
        }),
{
    let ghost d = a@.skip(from as int);
    if from == a.len() {
        return None;
    }
    let mut v: u64 = 0;
    let mut i: usize = from;
    while i < a.len()
        invariant
            from <= i <= a@.len(),
            d == a@.skip(from as int),
            d.len() > 0,
            all_digits(d.take(i - from)),
            v == digits_value(d.take(i - from)),
        decreases a@.len() - i,
    {
        let c = a[i];
        let ghost k = i - from;
        assert(d[k] == c);
        assert(d.take(k + 1).drop_last() == d.take(k));
        assert(d.take(k + 1).last() == c);
        if c < '0' || '9' < c {
            assert(!is_digit(d[k]));
            return None;
        }
        let digit: u64 = (c as u32 - 48) as u64;
        assert forall|j: int| 0 <= j < k + 1 implies is_digit(#[trigger] d.take(k + 1)[j]) by {
            if j < k {
                assert(d.take(k + 1)[j] == d.take(k)[j]);
            }
        }
        if v > (u64::MAX - digit) / 10 {
            proof {
                assert(digits_value(d.take(k + 1)) > u64::MAX);
                if all_digits(d) {
                    lemma_digits_grow(d, k + 1);
                }
            }
            return None;
        }
        v = v * 10 + digit;
        i += 1;
    }
    assert(d.take(i - from) == d);
    Some(v)
}

/// Reads an unsigned number: an optional plus sign, then digits.
pub fn read_u64(s: &str) -> (r: Option<u64>)
    ensures
        match parsed_unsigned(s@, u64::MAX as int) {
            Some(v) => r is Some && r->0 == v,
            None => r is None,
        },
{
    let a = chars_of(s);
    if a.len() > 0 && a[0] == '+' {
        assert(s@.skip(1) == s@.drop_first());
        read_digits(&a, 1)
    } else {
        assert(s@.skip(0) == s@);
        read_digits(&a, 0)
    }
}

/// Reads a signed number between `min` and `max`: an optional sign, then digits.
pub fn read_signed(s: &str, min: i64, max: i64) -> (r: Option<i64>)
    ensures
        match parsed_signed(s@, min as int, max as int) {
            Some(v) => r is Some && r->0 == v,
            None => r is None,
        },
{
    let a = chars_of(s);
    let signed = a.len() > 0 && (a[0] == '+' || a[0] == '-');
    let negative = signed && a[0] == '-';
    let from: usize = if signed {
        1
    } else {
        0
    };
    assert(s@.skip(1) == s@.drop_first() || s@.len() == 0);
    assert(s@.skip(0) == s@);
    let ghost d = a@.skip(from as int);
    proof {
        if all_digits(d) {
            lemma_digits_grow(d, 0);
        }
    }
    match read_digits(&a, from) {
        None => None,
        Some(m) => {
            let v: i128 = if negative {
                -(m as i128)
            } else {
                m as i128
            };
            if (min as i128) <= v && v <= (max as i128) {
                Some(v as i64)
            } else {
                None
            }
        },
    }
}

/// Reading a numeral digit by digit: one more digit makes ten times the number and
/// that digit, and anything else makes it no numeral.
pub proof fn law_digit_appended(s: Seq<char>, c: char, max: int)
    requires
        s.len() > 0,
        all_digits(s),
    ensures
        '0' <= c && c <= '9' && 10 * digits_value(s) + (c as int - 48) <= max
            ==> parsed_unsigned(s.push(c), max) == Some(10 * digits_value(s) + (c as int - 48)),
        '0' <= c && c <= '9' && 10 * digits_value(s) + (c as int - 48) > max ==> parsed_unsigned(
            s.push(c),
            max,
        ) is None,
        !('0' <= c && c <= '9') ==> parsed_unsigned(s.push(c), max) is None,
{
    let t = s.push(c);
    assert(t.drop_last() =~= s);
    assert(is_digit(s[0]));
    assert(t[0] == s[0]);
    if is_digit(c) {
        assert forall|i: int| 0 <= i < t.len() implies is_digit(#[trigger] t[i]) by {
            if i < s.len() {
                assert(t[i] == s[i]);
            }
        }
    } else {
        assert(!is_digit(t[s.len() as int]));
    }
}

/// A text that has anything but digits in it, behind one sign at most, is no
/// numeral; nor is one without digits.
pub proof fn law_no_numeral(s: Seq<char>, i: int, max: int)
    requires
        0 <= i < s.len(),
        !('0' <= s[i] && s[i] <= '9'),
        i > 0 || s.len() == 1 || (s[0] != '+' && s[0] != '-'),
    ensures
        parsed_unsigned(s, max) is None,
        forall|min: int| #[trigger] parsed_signed(s, min, max) is None,
        parsed_unsigned(Seq::empty(), max) is None,
{
    let d = s.drop_first();
    assert(!is_digit(s[i]));
    if i > 0 {
        assert(d[i - 1] == s[i]);
        assert(!is_digit(d[i - 1]));
    }
}

/// A minus sign before a numeral turns its number round, a plus sign does nothing.
pub proof fn law_signs(s: Seq<char>, v: int, min: int, max: int)
    requires
        all_digits(s),
        parsed_unsigned(s, max) == Some(v),
        min <= 0 <= v,
    ensures
        parsed_signed(s, min, max) == Some(v),
        parsed_signed(seq!['+'] + s, min, max) == Some(v),
        parsed_unsigned(seq!['+'] + s, max) == Some(v),
        -v >= min ==> parsed_signed(seq!['-'] + s, min, max) == Some(-v),
        -v < min ==> parsed_signed(seq!['-'] + s, min, max) is None,
        parsed_unsigned(seq!['-'] + s, max) is None,
{
    assert(s.len() > 0 ==> is_digit(s[0]));
    let p = seq!['+'] + s;
    let m = seq!['-'] + s;
    assert(p.drop_first() =~= s);
    assert(m.drop_first() =~= s);
    assert(!is_digit(m[0]));
}

/// A digit stands for its number, and a numeral is written as the numeral of the
/// tens and then the digit of the ones, with a minus sign before that of a negative
/// number.
pub proof fn law_digits(d: nat, tens: nat, max: int)
    requires
        d < 10 <= max,
    ensures
        ({
            let c = "0123456789"@[d as int];
            &&& decimal(d) == seq![c]
            &&& tens > 0 ==> decimal(10 * tens + d) == decimal(tens).push(c)
            &&& parsed_unsigned(seq![c], max) == Some(d as int)
            &&& signed_decimal(d as int) == decimal(d)
            &&& tens > 0 ==> signed_decimal(-(tens as int)) == seq!['-'] + decimal(tens)
        }),
{
    reveal_strlit("0123456789");
    let c = "0123456789"@[d as int];
    assert(c as int == 48 + d);
    assert(digit_char(d as int) == c);
    assert(seq![c].drop_last() =~= Seq::<char>::empty());
    reveal_with_fuel(digits_value, 2);
    assert(all_digits(seq![c]));
    if tens > 0 {
        assert((10 * tens + d) / 10 == tens);
        assert((10 * tens + d) % 10 == d);
    }
}

} // verus!
