use vstd::prelude::*;
use crate::text::{chars_of, string_of};

verus! {

/// An ASCII decimal digit.
pub open spec fn is_digit(c: char) -> bool {
    '0' <= c && c <= '9'
}

/// The value of a decimal digit.
pub open spec fn digit_value(c: char) -> int {
    c as int - '0' as int
}

/// The value of a string of decimal digits, most significant first.
pub open spec fn digits_value(d: Seq<char>) -> int
    decreases d.len(),
{
    if d.len() == 0 {
        0
    } else {
        digits_value(d.drop_last()) * 10 + digit_value(d.last())
    }
}

/// Every character of `d` is a decimal digit.
pub open spec fn all_digits(d: Seq<char>) -> bool {
    forall|i: int| 0 <= i < d.len() ==> is_digit(#[trigger] d[i])
}

/// The digits that `u32::from_str` reads: `s` without one leading `+`.
pub open spec fn unsigned_body(s: Seq<char>) -> Seq<char> {
    if s.len() > 0 && s[0] == '+' {
        s.drop_first()
    } else {
        s
    }
}

/// What `s.parse::<u32>()` gives: an optional `+`, then one or more decimal
/// digits whose value fits in a `u32`; `None` for anything else.
pub open spec fn parse_u32_spec(s: Seq<char>) -> Option<u32> {
    let d = unsigned_body(s);
    if d.len() > 0 && all_digits(d) && digits_value(d) <= u32::MAX {
        Some(digits_value(d) as u32)
    } else {
        None
    }
}

proof fn lemma_digits_value_nonneg(d: Seq<char>)
    requires
        all_digits(d),
    ensures
        digits_value(d) >= 0,
    decreases d.len(),
{
    if d.len() > 0 {
        assert(all_digits(d.drop_last())) by {
            assert forall|i: int| 0 <= i < d.drop_last().len() implies is_digit(
                #[trigger] d.drop_last()[i],
            ) by {
                assert(d.drop_last()[i] == d[i]);
            }
        }
        lemma_digits_value_nonneg(d.drop_last());
        assert(is_digit(d[d.len() - 1]));
    }
}

/// Decimal value of the characters, as `str::parse::<u32>` reads them.
pub fn parse_u32_chars(s: &Vec<char>) -> (r: Option<u32>)
    ensures
        r == parse_u32_spec(s@),
{
    let mut start: usize = 0;
    if s.len() > 0 && s[0] == '+' {
        start = 1;
    }
    let ghost d = unsigned_body(s@);
    assert(d =~= s@.skip(start as int));
    if start == s.len() {
        return None;
    }
    let limit: u64 = 0x1_0000_0000;
    let mut acc: u64 = 0;
    let mut i: usize = start;
    while i < s.len()
        invariant
            start <= i <= s.len(),
            d == s@.skip(start as int),
            d == unsigned_body(s@),
            limit == 0x1_0000_0000,
            all_digits(s@.subrange(start as int, i as int)),
            acc <= limit,
            acc == if digits_value(s@.subrange(start as int, i as int)) < limit {
                digits_value(s@.subrange(start as int, i as int))
            } else {
                limit as int
            },
        decreases s.len() - i,
    {
        let c = s[i];
        let ghost pre = s@.subrange(start as int, i as int);
        let ghost next = s@.subrange(start as int, i + 1);
        assert(next.drop_last() =~= pre);
        assert(next.last() == c);
        if c < '0' || c > '9' {
            assert(d[i - start] == c);
            assert(!is_digit(d[i - start]));
            assert(!all_digits(d));
            return None;
        }
        assert(all_digits(next)) by {
            assert forall|k: int| 0 <= k < next.len() implies is_digit(#[trigger] next[k]) by {
                if k < pre.len() {
                    assert(next[k] == pre[k]);
                }
            }
        }
        proof {
            lemma_digits_value_nonneg(pre);
        }
        let dv: u64 = (c as u64) - ('0' as u64);
        let v: u64 = acc * 10 + dv;
        acc = if v < limit { v } else { limit };
        i = i + 1;
    }
    assert(s@.subrange(start as int, s.len() as int) =~= d);
    if acc < limit {
        Some(acc as u32)
    } else {
        None
    }
}

/// `s.parse::<u32>()`, with the error reduced to `None`.
pub fn parse_u32(s: &str) -> (r: Option<u32>)
    ensures
        r == parse_u32_spec(s@),
{
    let v = chars_of(s);
    parse_u32_chars(&v)
}

/// The digit character for `n < 10`.
pub open spec fn digit_char(n: nat) -> char {
    (n + '0' as nat) as char
}

/// The decimal representation of `n`, as `n.to_string()` writes an
/// unsigned integer: no sign, no leading zeros, `"0"` for zero.
pub open spec fn decimal(n: nat) -> Seq<char>
    decreases n,
{
    if n < 10 {
        seq![digit_char(n)]
    } else {
        decimal(n / 10).push(digit_char(n % 10))
    }
}

/// Appends the decimal digits of `n` to `out`.
fn push_decimal(out: &mut Vec<char>, n: u32)
    ensures
        final(out)@ == old(out)@ + decimal(n as nat),
    decreases n,
{
    if n >= 10 {
        push_decimal(out, n / 10);
    }
    let d: u32 = n % 10;
    let c = char_of_digit(d);
    out.push(c);
    proof {
        if n >= 10 {
            assert(old(out)@ + decimal((n / 10) as nat) + seq![c] =~= old(out)@ + decimal(
                n as nat,
            ));
        } else {
            assert(old(out)@ + seq![c] =~= old(out)@ + decimal(n as nat));
        }
    }
}

fn char_of_digit(d: u32) -> (c: char)
    requires
        d < 10,
    ensures
        c == digit_char(d as nat),
{
    if d == 0 {
        '0'
    } else if d == 1 {
        '1'
    } else if d == 2 {
        '2'
    } else if d == 3 {
        '3'
    } else if d == 4 {
        '4'
    } else if d == 5 {
        '5'
    } else if d == 6 {
        '6'
    } else if d == 7 {
        '7'
    } else if d == 8 {
        '8'
    } else {
        '9'
    }
}

/// Appends the decimal representation of `n` to `out`.
pub fn append_u32(out: &mut Vec<char>, n: u32)
    ensures
        final(out)@ == old(out)@ + decimal(n as nat),
{
    push_decimal(out, n);
}

/// `n.to_string()` for a `u32`.
pub fn format_u32(n: u32) -> (s: String)
    ensures
        s@ == decimal(n as nat),
{
    let mut v: Vec<char> = Vec::new();
    push_decimal(&mut v, n);
    assert(v@ =~= decimal(n as nat));
    string_of(&v)
}

/// The decimal representation of a signed integer, as `to_string` writes
/// it: a `-` in front of the magnitude for negative numbers.
pub open spec fn signed_decimal(n: int) -> Seq<char> {
    if n < 0 {
        seq!['-'] + decimal((-n) as nat)
    } else {
        decimal(n as nat)
    }
}

/// Appends the decimal representation of `n` to `out`.
pub fn append_i32(out: &mut Vec<char>, n: i32)
    ensures
        final(out)@ == old(out)@ + signed_decimal(n as int),
{
    if n < 0 {
        out.push('-');
        let m: u32 = if n == i32::MIN {
            0x8000_0000
        } else {
            (-n) as u32
        };
        push_decimal(out, m);
        assert(old(out)@.push('-') + decimal(m as nat) =~= old(out)@ + signed_decimal(n as int));
    } else {
        push_decimal(out, n as u32);
    }
}

/// `n.to_string()` for an `i32`.
pub fn format_i32(n: i32) -> (s: String)
    ensures
        s@ == signed_decimal(n as int),
{
    let mut v: Vec<char> = Vec::new();
    append_i32(&mut v, n);
    assert(v@ =~= signed_decimal(n as int));
    string_of(&v)
}

proof fn lemma_decimal_shape(n: nat)
    ensures
        decimal(n).len() >= 1,
        all_digits(decimal(n)),
        digits_value(decimal(n)) == n,
    decreases n,
{
    if n < 10 {
        let d = decimal(n);
        assert(d.drop_last() =~= Seq::<char>::empty());
        assert(digit_value(d.last()) == n);
        assert(digits_value(d) == digits_value(d.drop_last()) * 10 + digit_value(d.last()));
        assert(is_digit(d[0]));
    } else {
        lemma_decimal_shape(n / 10);
        assert(digit_char(n % 10) as int == n % 10 + '0' as int);
        let d = decimal(n);
        assert(d.drop_last() =~= decimal(n / 10));
        assert(digit_value(d.last()) == n % 10);
        assert((n / 10) * 10 + n % 10 == n);
        assert(digits_value(d) == digits_value(d.drop_last()) * 10 + digit_value(d.last()));
        assert forall|i: int| 0 <= i < d.len() implies is_digit(#[trigger] d[i]) by {
            if i < d.len() - 1 {
                assert(d[i] == decimal(n / 10)[i]);
            }
        }
    }
}

/// Reading back what `format_u32` writes gives the number again: the
/// decimal text of a `u32` always parses, to the same `u32`.
pub proof fn law_decimal_roundtrip(n: u32)
    ensures
        parse_u32_spec(decimal(n as nat)) == Some(n),
{
    lemma_decimal_shape(n as nat);
    let d = decimal(n as nat);
    assert(is_digit(d[0]));
    assert(unsigned_body(d) == d);
}

} // verus!
