//! Decimal numbers as text.

use crate::text::piece;
use vstd::prelude::*;

verus! {

/// Whether `c` is an ASCII digit.
pub open spec fn is_digit(c: char) -> bool {
    '0' as u32 <= c as u32 <= '9' as u32
}

/// The value of an ASCII digit.
pub open spec fn digit_value(c: char) -> nat {
    (c as u32 - '0' as u32) as nat
}

/// Whether every character of `s` is an ASCII digit.
pub open spec fn all_digits(s: Seq<char>) -> bool {
    forall|i: int| 0 <= i < s.len() ==> is_digit(#[trigger] s[i])
}

/// The number that a row of digits stands for.
pub open spec fn digits_value(s: Seq<char>) -> nat
    decreases s.len(),
{
    if s.len() == 0 {
        0
    } else {
        digits_value(s.drop_last()) * 10 + digit_value(s.last())
    }
}

/// Leaving digits off the end of a row does not make its number larger.
pub proof fn lemma_digits_value_prefix(s: Seq<char>, n: int)
    requires
        0 <= n <= s.len(),
    ensures
        digits_value(s.take(n)) <= digits_value(s),
    decreases s.len(),
{
    if n < s.len() {
        lemma_digits_value_prefix(s.drop_last(), n);
        assert(s.drop_last().take(n) =~= s.take(n));
    } else {
        assert(s.take(n) =~= s);
    }
}

/// `s` without one leading plus sign.
pub open spec fn without_plus(s: Seq<char>) -> Seq<char> {
    if s.len() > 0 && s[0] == '+' {
        s.skip(1)
    } else {
        s
    }
}

/// The unsigned decimal number that `s` spells, if it is at most `max`: digits,
/// at least one, after an optional plus sign.
pub open spec fn parsed_unsigned(s: Seq<char>, max: nat) -> Option<nat> {
    let d = without_plus(s);
    if d.len() > 0 && all_digits(d) && digits_value(d) <= max {
        Some(digits_value(d))
    } else {
        None
    }
}

/// The number that a row of at least one digit stands for, if it is at most `max`.
fn parse_digits(v: &[char], max: u64) -> (r: Option<u64>)
    ensures
        match r {
            Some(n) => v@.len() > 0 && all_digits(v@) && digits_value(v@) == n && n <= max,
            None => !(v@.len() > 0 && all_digits(v@) && digits_value(v@) <= max),
        },
{
    if v.len() == 0 {
        return None;
    }
    let mut n: u64 = 0;
    let mut i: usize = 0;
    assert(v@.take(0) =~= Seq::<char>::empty());
    while i < v.len()
        invariant
            i <= v@.len(),
            n == digits_value(v@.take(i as int)),
            n <= max,
            forall|j: int| 0 <= j < i ==> is_digit(#[trigger] v@[j]),
        decreases v@.len() - i,
    {
        let c: u32 = v[i] as u32;
        if c < 48 || c > 57 {
            assert(!is_digit(v@[i as int]));
            return None;
        }
        let d: u64 = (c - 48) as u64;
        proof {
            let t = v@.take(i as int + 1);
            assert(t.drop_last() =~= v@.take(i as int));
            assert(t.last() == v@[i as int]);
            assert(digits_value(t) == n * 10 + d);
            lemma_digits_value_prefix(v@, i as int + 1);
        }
        if n > u64::MAX / 10 {
            return None;
        }
        let m: u64 = n * 10;
        if m > max || d > max - m {
            return None;
        }
        n = m + d;
        i += 1;
    }
    assert(v@.take(v@.len() as int) =~= v@);
    Some(n)
}

/// Parses an unsigned decimal number that is at most `max`.
pub fn parse_unsigned(v: &[char], max: u64) -> (r: Option<u64>)
    ensures
        match r {
            Some(n) => parsed_unsigned(v@, max as nat) == Some(n as nat) && n <= max,
            None => parsed_unsigned(v@, max as nat) is None,
        },
{
    if v.len() > 0 && v[0] == '+' {
        let d = piece(v, 1, v.len());
        assert(d@ == v@.skip(1));
        parse_digits(d, max)
    } else {
        parse_digits(v, max)
    }
}

/// The signed decimal number that `s` spells, if an `i64` holds it: digits, at
/// least one, after an optional sign.
pub open spec fn parsed_i64(s: Seq<char>) -> Option<int> {
    if s.len() > 0 && s[0] == '-' {
        let d = s.skip(1);
        if d.len() > 0 && all_digits(d) && -digits_value(d) >= i64::MIN {
            Some(-(digits_value(d) as int))
        } else {
            None
        }
    } else {
        match parsed_unsigned(s, i64::MAX as nat) {
            Some(n) => Some(n as int),
            None => None,
        }
    }
}

/// Parses a signed decimal number.
pub fn parse_i64(v: &[char]) -> (r: Option<i64>)
    ensures
        match r {
            Some(n) => parsed_i64(v@) == Some(n as int),
            None => parsed_i64(v@) is None,
        },
{
    if v.len() > 0 && v[0] == '-' {
        let d = piece(v, 1, v.len());
        assert(d@ == v@.skip(1));
        match parse_digits(d, 0x8000_0000_0000_0000) {
            Some(n) => {
                if n == 0x8000_0000_0000_0000 {
                    Some(i64::MIN)
                } else {
                    Some(-(n as i64))
                }
            },
            None => None,
        }
    } else {
        match parse_unsigned(v, i64::MAX as u64) {
            Some(n) => Some(n as i64),
            None => None,
        }
    }
}

/// The digit for a number below ten.
pub open spec fn digit_char(n: nat) -> char {
    ('0' as u32 + n) as char
}

/// The decimal digits of `n`.
pub open spec fn decimal(n: nat) -> Seq<char>
    decreases n,
{
    if n < 10 {
        seq![digit_char(n)]
    } else {
        decimal(n / 10).push(digit_char(n % 10))
    }
}

fn digit_of(n: u64) -> (c: char)
    requires
        n < 10,
    ensures
        c == digit_char(n as nat),
{
    match n {
        0 => '0',
        1 => '1',
        2 => '2',
        3 => '3',
        4 => '4',
        5 => '5',
        6 => '6',
        7 => '7',
        8 => '8',
        _ => '9',
    }
}

/// Appends the decimal digits of `n`.
pub fn push_decimal(s: &mut String, n: u64)
    ensures
        final(s)@ == old(s)@ + decimal(n as nat),
    decreases n,
{
    if n >= 10 {
        push_decimal(s, n / 10);
    }
    s.push(digit_of(n % 10));
    assert(s@ =~= old(s)@ + decimal(n as nat));
}

/// The decimal digits of `n`.
pub fn decimal_of(n: u64) -> (s: String)
    ensures
        s@ == decimal(n as nat),
{
    let mut s = String::new();
    push_decimal(&mut s, n);
    assert(s@ =~= decimal(n as nat));
    s
}

/// The lower-case hexadecimal digit for a number below sixteen.
pub open spec fn hex_char(n: nat) -> char {
    if n < 10 {
        digit_char(n)
    } else {
        ('a' as u32 + (n - 10)) as char
    }
}

/// The lower-case hexadecimal digits of `n`, with zeros in front up to `width`.
pub open spec fn hex_padded(n: nat, width: nat) -> Seq<char>
    decreases n, width,
{
    if n < 16 && width <= 1 {
        seq![hex_char(n)]
    } else {
        hex_padded(n / 16, if width > 0 {
            (width - 1) as nat
        } else {
            0
        }).push(hex_char(n % 16))
    }
}

/// The lower-case hexadecimal digit for a number below sixteen.
pub fn hex_digit(n: u64) -> (c: char)
    requires
        n < 16,
    ensures
        c == hex_char(n as nat),
{
    match n {
        10 => 'a',
        11 => 'b',
        12 => 'c',
        13 => 'd',
        14 => 'e',
        15 => 'f',
        _ => digit_of(n),
    }
}

/// Appends the hexadecimal digits of `n`, with zeros in front up to `width`.
pub fn push_hex(s: &mut String, n: u64, width: u32)
    ensures
        final(s)@ == old(s)@ + hex_padded(n as nat, width as nat),
    decreases n, width,
{
    if n >= 16 || width > 1 {
        let w: u32 = if width > 0 {
            width - 1
        } else {
            0
        };
        push_hex(s, n / 16, w);
    }
    s.push(hex_digit(n % 16));
    assert(s@ =~= old(s)@ + hex_padded(n as nat, width as nat));
}

/// The hexadecimal digits of `n`, with zeros in front up to `width`.
pub fn hex_of(n: u64, width: u32) -> (s: String)
    ensures
        s@ == hex_padded(n as nat, width as nat),
{
    let mut s = String::new();
    push_hex(&mut s, n, width);
    assert(s@ =~= hex_padded(n as nat, width as nat));
    s
}

/// Parsing the decimal digits of a number gives the number back.
pub proof fn law_decimal_round_trip(n: nat)
    ensures
        parsed_unsigned(decimal(n), n) == Some(n),
{
    lemma_decimal_digits(n);
}

/// The decimal digits of a number are digits that stand for it.
pub(crate) proof fn lemma_decimal_digits(n: nat)
    ensures
        decimal(n).len() > 0,
        all_digits(decimal(n)),
        digits_value(decimal(n)) == n,
        decimal(n)[0] != '+',
    decreases n,
{
    if n < 10 {
        assert(decimal(n).drop_last() =~= Seq::<char>::empty());
        assert(digits_value(decimal(n).drop_last()) == 0);
    } else {
        lemma_decimal_digits(n / 10);
        assert(decimal(n).drop_last() =~= decimal(n / 10));
        assert(decimal(n)[0] == decimal(n / 10)[0]);
    }
}

proof fn lemma_hex_nonempty(n: nat, width: nat)
    ensures
        hex_padded(n, width).len() > 0,
    decreases n, width,
{
    if n < 16 && width <= 1 {
    } else {
        lemma_hex_nonempty(n / 16, if width > 0 {
            (width - 1) as nat
        } else {
            0
        });
    }
}

/// Different numbers have different hexadecimal digits.
pub proof fn law_hex_differs(a: nat, b: nat, width: nat)
    ensures
        hex_padded(a, width) == hex_padded(b, width) ==> a == b,
    decreases a, width,
{
    let w: nat = if width > 0 {
        (width - 1) as nat
    } else {
        0
    };
    let x = hex_padded(a, width);
    let y = hex_padded(b, width);
    lemma_hex_nonempty(a / 16, w);
    lemma_hex_nonempty(b / 16, w);
    if x == y {
        let one_a = a < 16 && width <= 1;
        let one_b = b < 16 && width <= 1;
        if one_a && one_b {
            assert(x[0] == hex_char(a) && y[0] == hex_char(b));
        } else if !one_a && !one_b {
            assert(x.drop_last() =~= hex_padded(a / 16, w));
            assert(y.drop_last() =~= hex_padded(b / 16, w));
            law_hex_differs(a / 16, b / 16, w);
            assert(x.last() == hex_char(a % 16) && y.last() == hex_char(b % 16));
        } else {
            assert(one_a ==> x.len() == 1 && y.len() > 1);
            assert(one_b ==> y.len() == 1 && x.len() > 1);
        }
    }
}

} // verus!
