//! Decimal text for octets: canonical rendering of a byte, and the shape
//! of the octet components accepted by the dotted-decimal parser.

use vstd::prelude::*;

verus! {

/// A decimal digit character.
pub open spec fn is_digit(c: char) -> bool {
    48 <= c as int && c as int <= 57
}

/// The numeric value of a decimal digit character.
pub open spec fn digit_val(c: char) -> int {
    c as int - 48
}

/// The character for a decimal digit value.
pub open spec fn digit_char(d: int) -> char {
    if d == 0 {
        '0'
    } else if d == 1 {
        '1'
    } else if d == 2 {
        '2'
    } else if d == 3 {
        '3'
    } else if d == 4 {
        '4'
    } else if d == 5 {
        '5'
    } else if d == 6 {
        '6'
    } else if d == 7 {
        '7'
    } else if d == 8 {
        '8'
    } else {
        '9'
    }
}

pub proof fn lemma_digit_char_val(d: int)
    requires
        0 <= d <= 9,
    ensures
        is_digit(digit_char(d)),
        digit_val(digit_char(d)) == d,
        digit_char(d) != '.',
        digit_char(d) != '+',
{
}

/// Every character of `s` is a decimal digit.
pub open spec fn all_digits(s: Seq<char>) -> bool {
    forall|i: int| 0 <= i < s.len() ==> is_digit(#[trigger] s[i])
}

/// The numeric value of a sequence of decimal digit characters.
pub open spec fn digits_value(s: Seq<char>) -> int
    decreases s.len(),
{
    if s.len() == 0 {
        0
    } else {
        digits_value(s.drop_last()) * 10 + digit_val(s.last())
    }
}

/// `s` without a single leading plus sign, if it carries one.
pub open spec fn strip_sign(s: Seq<char>) -> Seq<char> {
    if s.len() > 0 && s[0] == '+' {
        s.drop_first()
    } else {
        s
    }
}

/// Text accepted as one octet: an optional plus sign, then one or more
/// decimal digits (leading zeros allowed), of numeric value at most 255.
pub open spec fn valid_octet_text(s: Seq<char>) -> bool {
    let d = strip_sign(s);
    d.len() > 0 && all_digits(d) && digits_value(d) <= 255
}

/// The numeric value of octet text.
pub open spec fn octet_value(s: Seq<char>) -> int {
    digits_value(strip_sign(s))
}

/// The index of the first dot of `s`, or `s.len()` if there is none.
pub open spec fn first_dot(s: Seq<char>) -> int
    decreases s.len(),
{
    if s.len() == 0 {
        0
    } else if s[0] == '.' {
        0
    } else {
        1 + first_dot(s.drop_first())
    }
}

/// `s` split on dots: the sequence of maximal dot-free components, with a
/// component on each side of every dot. It is never empty, and the empty
/// text yields one empty component.
pub open spec fn split_dots(s: Seq<char>) -> Seq<Seq<char>>
    decreases s.len(),
{
    let i = first_dot(s);
    if 0 <= i < s.len() {
        seq![s.take(i)] + split_dots(s.skip(i + 1))
    } else {
        seq![s]
    }
}

/// The canonical decimal rendering of a byte: no sign, no leading zeros.
pub open spec fn dec_u8(v: u8) -> Seq<char> {
    if v < 10 {
        seq![digit_char(v as int)]
    } else if v < 100 {
        seq![digit_char(v as int / 10), digit_char(v as int % 10)]
    } else {
        seq![
            digit_char(v as int / 100),
            digit_char((v as int / 10) % 10),
            digit_char(v as int % 10),
        ]
    }
}

/// A position with no dot before it, and a dot or the end of `s` at it,
/// is the first dot index.
pub proof fn lemma_first_dot_at(s: Seq<char>, i: int)
    requires
        0 <= i <= s.len(),
        forall|j: int| 0 <= j < i ==> s[j] != '.',
        i == s.len() || s[i] == '.',
    ensures
        first_dot(s) == i,
    decreases s.len(),
{
    if s.len() == 0 {
    } else if s[0] == '.' {
    } else {
        assert(i > 0);
        let t = s.drop_first();
        assert forall|j: int| 0 <= j < i - 1 implies t[j] != '.' by {
            assert(t[j] == s[j + 1]);
        }
        lemma_first_dot_at(t, i - 1);
    }
}

/// Splitting dot-free text yields that text as the one component.
pub proof fn lemma_split_dots_single(s: Seq<char>)
    requires
        forall|j: int| 0 <= j < s.len() ==> s[j] != '.',
    ensures
        split_dots(s) == seq![s],
{
    lemma_first_dot_at(s, s.len() as int);
}

/// Splitting text that starts with a dot-free component and a dot yields
/// that component, then the split of the rest.
pub proof fn lemma_split_dots_prepend(x: Seq<char>, y: Seq<char>)
    requires
        forall|j: int| 0 <= j < x.len() ==> x[j] != '.',
    ensures
        split_dots(x + seq!['.'] + y) == seq![x] + split_dots(y),
{
    let s = x + seq!['.'] + y;
    assert forall|j: int| 0 <= j < x.len() implies s[j] != '.' by {
        assert(s[j] == x[j]);
    }
    assert(s[x.len() as int] == '.');
    lemma_first_dot_at(s, x.len() as int);
    assert(s.take(x.len() as int) =~= x);
    assert(s.skip(x.len() as int + 1) =~= y);
}

/// The value of a one-digit sequence.
pub proof fn lemma_digits_value1(a: char)
    ensures
        digits_value(seq![a]) == digit_val(a),
{
    assert(seq![a].drop_last() =~= Seq::<char>::empty());
    assert(digits_value(Seq::<char>::empty()) == 0);
}

/// The value of a two-digit sequence.
pub proof fn lemma_digits_value2(a: char, b: char)
    ensures
        digits_value(seq![a, b]) == digit_val(a) * 10 + digit_val(b),
{
    assert(seq![a, b].drop_last() =~= seq![a]);
    lemma_digits_value1(a);
}

/// The value of a three-digit sequence.
pub proof fn lemma_digits_value3(a: char, b: char, c: char)
    ensures
        digits_value(seq![a, b, c]) == (digit_val(a) * 10 + digit_val(b)) * 10 + digit_val(c),
{
    assert(seq![a, b, c].drop_last() =~= seq![a, b]);
    lemma_digits_value2(a, b);
}

/// The canonical decimal rendering of a byte is valid octet text of that
/// value: unsigned digits only, and no dot anywhere.
pub proof fn lemma_dec_u8(v: u8)
    ensures
        1 <= dec_u8(v).len() <= 3,
        forall|j: int| 0 <= j < dec_u8(v).len() ==> #[trigger] dec_u8(v)[j] != '.',
        strip_sign(dec_u8(v)) == dec_u8(v),
        all_digits(dec_u8(v)),
        digits_value(dec_u8(v)) == v,
        valid_octet_text(dec_u8(v)),
        octet_value(dec_u8(v)) == v,
{
    let n = v as int;
    if v < 10 {
        lemma_digit_char_val(n);
        lemma_digits_value1(digit_char(n));
    } else if v < 100 {
        lemma_digit_char_val(n / 10);
        lemma_digit_char_val(n % 10);
        lemma_digits_value2(digit_char(n / 10), digit_char(n % 10));
        assert((n / 10) * 10 + n % 10 == n) by (nonlinear_arith)
            requires
                n >= 0,
        ;
    } else {
        assert(n / 100 <= 9 && (n / 10) % 10 <= 9) by (nonlinear_arith)
            requires
                0 <= n <= 255,
        ;
        lemma_digit_char_val(n / 100);
        lemma_digit_char_val((n / 10) % 10);
        lemma_digit_char_val(n % 10);
        lemma_digits_value3(digit_char(n / 100), digit_char((n / 10) % 10), digit_char(n % 10));
        assert(((n / 100) * 10 + (n / 10) % 10) * 10 + n % 10 == n) by (nonlinear_arith)
            requires
                n >= 0,
        ;
    }
}

/// The single-character string for a decimal digit value.
pub fn digit_str(d: u8) -> (r: &'static str)
    requires
        d < 10,
    ensures
        r@ =~= seq![digit_char(d as int)],
{
    proof {
        reveal_strlit("0");
        reveal_strlit("1");
        reveal_strlit("2");
        reveal_strlit("3");
        reveal_strlit("4");
        reveal_strlit("5");
        reveal_strlit("6");
        reveal_strlit("7");
        reveal_strlit("8");
        reveal_strlit("9");
    }
    match d {
        0 => "0",
        1 => "1",
        2 => "2",
        3 => "3",
        4 => "4",
        5 => "5",
        6 => "6",
        7 => "7",
        8 => "8",
        _ => "9",
    }
}

/// The canonical decimal string of a byte.
pub fn octet_string(v: u8) -> (out: String)
    ensures
        out@ == dec_u8(v),
{
    proof {
        assert(v as int / 100 <= 9 && (v as int / 10) % 10 <= 9 && v as int / 10 <= 25)
            by (nonlinear_arith)
            requires
                0 <= v as int <= 255,
        ;
    }
    let mut out = String::new();
    if v >= 100 {
        out.append(digit_str(v / 100));
        out.append(digit_str((v / 10) % 10));
        out.append(digit_str(v % 10));
    } else if v >= 10 {
        out.append(digit_str(v / 10));
        out.append(digit_str(v % 10));
    } else {
        out.append(digit_str(v));
    }
    proof {
        assert(out@ =~= dec_u8(v));
    }
    out
}

/// The index of the first dot of `s` at or after `start`, or `n` (the
/// character length of `s`) if there is none.
pub fn scan_component(s: &str, start: usize, n: usize) -> (end: usize)
    requires
        n == s@.len(),
        start <= n,
    ensures
        start <= end <= n,
        first_dot(s@.skip(start as int)) == end - start,
        forall|j: int| start <= j < end ==> s@[j] != '.',
        end < n ==> s@[end as int] == '.',
{
    let mut i = start;
    while i < n && s.get_char(i) != '.'
        invariant
            n == s@.len(),
            start <= i <= n,
            forall|j: int| start <= j < i ==> s@[j] != '.',
        decreases n - i,
    {
        i += 1;
    }
    proof {
        let t = s@.skip(start as int);
        assert forall|j: int| 0 <= j < i - start implies t[j] != '.' by {
            assert(t[j] == s@[j + start]);
        }
        assert(i < n ==> t[i - start] == '.');
        lemma_first_dot_at(t, i - start);
    }
    i
}

/// The value of the octet text `s[start..end]`, or nothing if that text
/// is not a valid octet.
pub fn parse_octet_text(s: &str, start: usize, end: usize) -> (r: Option<u8>)
    requires
        start <= end <= s@.len(),
    ensures
        r == (if valid_octet_text(s@.subrange(start as int, end as int)) {
            Some(octet_value(s@.subrange(start as int, end as int)) as u8)
        } else {
            None::<u8>
        }),
{
    let ghost c = s@.subrange(start as int, end as int);
    let ds: usize = if start < end && s.get_char(start) == '+' {
        start + 1
    } else {
        start
    };
    proof {
        assert(strip_sign(c) =~= s@.subrange(ds as int, end as int));
    }
    let ghost dp = s@.subrange(ds as int, end as int);
    let mut i = ds;
    let mut val: u32 = 0;
    proof {
        assert(s@.subrange(ds as int, ds as int) =~= Seq::<char>::empty());
    }
    while i < end
        invariant
            start <= ds <= i <= end <= s@.len(),
            dp == s@.subrange(ds as int, end as int),
            c == s@.subrange(start as int, end as int),
            strip_sign(c) == dp,
            val <= 256,
            all_digits(s@.subrange(ds as int, i as int)),
            digits_value(s@.subrange(ds as int, i as int)) <= 255 ==> val == digits_value(
                s@.subrange(ds as int, i as int),
            ),
            digits_value(s@.subrange(ds as int, i as int)) > 255 ==> val == 256,
        decreases end - i,
    {
        let ch = s.get_char(i);
        let cv = ch as u32;
        if cv < 48 || cv > 57 {
            proof {
                assert(!is_digit(ch));
                assert(dp[i - ds] == ch);
                assert(!all_digits(dp));
            }
            return None;
        }
        let d = cv - 48;
        let grown = val * 10 + d;
        proof {
            let prev = s@.subrange(ds as int, i as int);
            let cur = s@.subrange(ds as int, i as int + 1);
            assert(cur.drop_last() =~= prev);
            assert(cur.last() == ch);
            assert(digits_value(cur) == digits_value(prev) * 10 + digit_val(ch));
        }
        val = if grown > 255 {
            256
        } else {
            grown
        };
        i += 1;
    }
    proof {
        assert(s@.subrange(ds as int, i as int) == dp);
    }
    if ds == end {
        proof {
            assert(strip_sign(c).len() == 0);
        }
        None
    } else if val <= 255 {
        Some(val as u8)
    } else {
        None
    }
}

} // verus!
