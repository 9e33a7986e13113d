//! Decimal numbers: how they are written and how they are read back.

use vstd::prelude::*;
use vstd::string::*;

use crate::text::chars_of;

verus! {

broadcast use {
    vstd::string::group_string_axioms,
    vstd::seq_lib::group_seq_properties,
};

/// The character that stands for a digit below ten.
pub open spec fn digit_char(d: nat) -> char {
    (48 + d) as char
}

/// The decimal notation of a number, without leading zeros.
pub open spec fn decimal(n: nat) -> Seq<char>
    decreases n,
{
    if n < 10 {
        seq![digit_char(n)]
    } else {
        decimal(n / 10).push(digit_char(n % 10))
    }
}

/// Whether a character is one of the ten digits.
pub open spec fn is_digit(c: char) -> bool {
    '0' <= c <= '9'
}

/// The number that a run of digits stands for; nothing if another character
/// occurs in it.
pub open spec fn digits_value(s: Seq<char>) -> Option<nat>
    decreases s.len(),
{
    if s.len() == 0 {
        Some(0)
    } else {
        match digits_value(s.drop_last()) {
            Some(high) if is_digit(s.last()) => Some((high * 10 + (s.last() as u32 - 48)) as nat),
            _ => None,
        }
    }
}

/// The number that a text stands for: digits, at least one, behind an
/// optional plus sign.
pub open spec fn parsed_number(s: Seq<char>) -> Option<nat> {
    let digits = if s.len() > 0 && s[0] == '+' {
        s.drop_first()
    } else {
        s
    };
    if digits.len() == 0 {
        None
    } else {
        digits_value(digits)
    }
}

/// The decimal notation is made of digits, at least one of them.
pub proof fn lemma_decimal_digits(n: nat)
    ensures
        decimal(n).len() >= 1,
        forall|i: int| 0 <= i < decimal(n).len() ==> is_digit(#[trigger] decimal(n)[i]),
    decreases n,
{
    if n >= 10 {
        lemma_decimal_digits(n / 10);
    }
}

/// Reading the notation of a number gives the number back.
pub proof fn lemma_decimal_read_back(n: nat)
    ensures
        digits_value(decimal(n)) == Some(n),
        parsed_number(decimal(n)) == Some(n),
    decreases n,
{
    lemma_decimal_digits(n);
    if n >= 10 {
        lemma_decimal_read_back(n / 10);
        assert(decimal(n).drop_last() == decimal(n / 10));
        assert(n == (n / 10) * 10 + n % 10);
    } else {
        assert(decimal(n).drop_last() == Seq::<char>::empty());
        reveal_with_fuel(digits_value, 2);
    }
    assert(is_digit(decimal(n)[0]));
}

/// Writes a number in decimal.
pub fn decimal_text(n: u128) -> (out: String)
    ensures
        out@ == decimal(n as nat),
    decreases n,
{
    let digit: char = ((n % 10) as u8 + 48) as char;
    let mut out: String = if n < 10 {
        String::new()
    } else {
        decimal_text(n / 10)
    };
    out.push(digit);
    assert(n < 10 ==> Seq::<char>::empty().push(digit) == seq![digit]);
    out
}

/// Writes a count or an index in decimal.
pub fn decimal_of(n: usize) -> (out: String)
    ensures
        out@ == decimal(n as nat),
{
    decimal_text(n as u128)
}

/// Reads a number of at most 64 bits.
pub fn parse_number(s: &str) -> (out: Option<u64>)
    ensures
        out == (match parsed_number(s@) {
            Some(n) if n <= u64::MAX => Some(n as u64),
            _ => None,
        }),
{
    let chars: Vec<char> = chars_of(s);
    let from: usize = if chars.len() > 0 && chars[0] == '+' {
        1
    } else {
        0
    };
    let ghost digits = chars@.skip(from as int);
    assert(from == 1 ==> digits == s@.drop_first());
    assert(from == 0 ==> digits == s@);
    if from == chars.len() {
        return None;
    }
    let mut value: u64 = 0;
    let mut i: usize = from;
    assert(digits.take(0) == Seq::<char>::empty());
    while i < chars.len()
        invariant
            from <= i <= chars@.len(),
            digits == chars@.skip(from as int),
            digits.len() >= 1,
            parsed_number(s@) == digits_value(digits),
            digits_value(digits.take(i - from)) == Some(value as nat),
        decreases chars@.len() - i,
    {
        let c: char = chars[i];
        let ghost next = digits.take(i + 1 - from);
        assert(next.drop_last() == digits.take(i - from));
        assert(next.last() == c);
        if c < '0' || '9' < c {
            proof {
                lemma_digits_need_prefix(digits, i + 1 - from);
            }
            return None;
        }
        let digit: u64 = (c as u32 - 48) as u64;
        if value > (u64::MAX - digit) / 10 {
            proof {
                assert(digits_value(next) == Some((value * 10 + digit) as nat));
                assert(value * 10 + digit > u64::MAX);
                lemma_digits_grow(digits, i + 1 - from);
            }
            return None;
        }
        value = value * 10 + digit;
        i += 1;
    }
    assert(digits.take(i - from) == digits);
    Some(value)
}

proof fn lemma_digits_need_prefix(s: Seq<char>, n: int)
    requires
        0 <= n <= s.len(),
        digits_value(s.take(n)) is None,
    ensures
        digits_value(s) is None,
    decreases s.len() - n,
{
    if n == s.len() {
        assert(s.take(n) == s);
    } else {
        assert(s.take(n + 1).drop_last() == s.take(n));
        lemma_digits_need_prefix(s, n + 1);
    }
}

proof fn lemma_digits_grow(s: Seq<char>, n: int)
    requires
        0 <= n <= s.len(),
        digits_value(s.take(n)) is Some,
    ensures
        digits_value(s) matches Some(v) ==> v >= digits_value(s.take(n))->0,
    decreases s.len() - n,
{
    if n == s.len() {
        assert(s.take(n) == s);
    } else {
        assert(s.take(n + 1).drop_last() == s.take(n));
        if digits_value(s.take(n + 1)) is Some {
            lemma_digits_grow(s, n + 1);
        } else {
            lemma_digits_need_prefix(s, n + 1);
        }
    }
}

/// Reads a size.
pub fn parse_size(s: &str) -> (out: Option<usize>)
    ensures
        out == (match parsed_number(s@) {
            Some(n) if n <= usize::MAX => Some(n as usize),
            _ => None,
        }),
{
    match parse_number(s) {
        Some(n) if n <= usize::MAX as u64 => Some(n as usize),
        _ => None,
    }
}

/// Reads a number of at most 32 bits.
pub fn parse_u32(s: &str) -> (out: Option<u32>)
    ensures
        out == (match parsed_number(s@) {
            Some(n) if n <= u32::MAX => Some(n as u32),
            _ => None,
        }),
{
    match parse_number(s) {
        Some(n) if n <= u32::MAX as u64 => Some(n as u32),
        _ => None,
    }
}

/// A text moved to the right by spaces so that it fills `width` characters.
pub open spec fn padded_left(s: Seq<char>, width: nat) -> Seq<char> {
    if s.len() >= width {
        s
    } else {
        Seq::new((width - s.len()) as nat, |i: int| ' ') + s
    }
}

/// Pads a text on its left with spaces.
pub fn pad_left(s: &str, width: usize) -> (out: String)
    ensures
        out@ == padded_left(s@, width as nat),
{
    let length: usize = s.unicode_len();
    let mut out: String = String::new();
    let mut missing: usize = if length < width {
        width - length
    } else {
        0
    };
    let ghost total = missing;
    assert(out@ == Seq::new(0, |i: int| ' '));
    while missing > 0
        invariant
            missing <= total,
            out@ == Seq::new((total - missing) as nat, |i: int| ' '),
        decreases missing,
    {
        out.push(' ');
        missing -= 1;
        assert(out@ == Seq::new((total - missing) as nat, |i: int| ' '));
    }
    out.append(s);
    out
}

// ---------------------------------------------------------------------------
// Sums
// ---------------------------------------------------------------------------

/// A number, cut off at the largest machine integer.
pub open spec fn saturated(n: nat) -> nat {
    if n <= usize::MAX {
        n
    } else {
        usize::MAX as nat
    }
}

/// A sum, cut off at the largest machine integer.
pub fn add_up(a: usize, b: usize) -> (sum: usize)
    ensures
        sum == saturated((a + b) as nat),
{
    if b <= usize::MAX - a {
        a + b
    } else {
        usize::MAX
    }
}

// ---------------------------------------------------------------------------
// What notation means
// ---------------------------------------------------------------------------

/// A number is written with digits alone, without leading zeros, and no two
/// numbers are written alike.
pub proof fn law_decimal_is_plain(n: nat, m: nat)
    ensures
        forall|i: int| 0 <= i < decimal(n).len() ==> '0' <= #[trigger] decimal(n)[i] <= '9',
        decimal(n).len() > 1 ==> decimal(n)[0] != '0',
        decimal(n) == decimal(m) ==> n == m,
{
    lemma_decimal_digits(n);
    lemma_decimal_read_back(n);
    lemma_decimal_read_back(m);
    lemma_no_leading_zero(n);
}

proof fn lemma_no_leading_zero(n: nat)
    ensures
        n > 0 ==> decimal(n)[0] != '0',
        n == 0 ==> decimal(n).len() == 1,
    decreases n,
{
    if n >= 10 {
        lemma_no_leading_zero(n / 10);
        lemma_decimal_digits(n / 10);
    }
}

/// A text is read as a number just if it is digits, at least one, behind an
/// optional plus sign, and each digit counts ten times what the ones behind it
/// count.
pub proof fn law_digits_are_read(s: Seq<char>, c: char)
    requires
        s.len() > 0,
        s != seq!['+'],
    ensures
        parsed_number(s) is Some ==> s[0] == '+' || '0' <= s[0] <= '9',
        parsed_number(s.push(c)) == match parsed_number(s) {
            Some(n) if '0' <= c <= '9' => Some((n * 10 + (c as u32 - '0' as u32)) as nat),
            _ => None,
        },
        parsed_number(Seq::empty()) is None,
        parsed_number(seq!['+']) is None,
        parsed_number(seq![c]) == if '0' <= c <= '9' {
            Some((c as u32 - '0' as u32) as nat)
        } else {
            None
        },
{
    let digits = if s[0] == '+' {
        s.drop_first()
    } else {
        s
    };
    assert(digits.push(c).drop_last() == digits);
    if s[0] == '+' {
        assert(s.push(c).drop_first() == digits.push(c));
        if digits.len() == 0 {
            assert(s == seq!['+']);
        }
    }
    assert(seq![c].drop_last() == Seq::<char>::empty());
    assert(digits_value(Seq::<char>::empty()) == Some(0nat));
    if c == '+' {
        assert(seq![c].drop_first() == Seq::<char>::empty());
    }
    lemma_value_needs_digits(s);
}

proof fn lemma_value_needs_digits(s: Seq<char>)
    ensures
        digits_value(s) is Some ==> forall|i: int| 0 <= i < s.len() ==> is_digit(#[trigger] s[i]),
    decreases s.len(),
{
    if s.len() > 0 {
        let front = s.drop_last();
        lemma_value_needs_digits(front);
        assert forall|i: int| 0 <= i < s.len() && digits_value(s) is Some implies is_digit(
            #[trigger] s[i],
        ) by {
            if i < front.len() {
                assert(front[i] == s[i]);
            }
        }
    }
}

/// Padding puts spaces in front of a text until it is as wide as it should be;
/// one that is wide enough stays as it is.
pub proof fn law_padding_is_on_the_left(s: Seq<char>, width: nat)
    ensures
        ({
            let padded = padded_left(s, width);
            let gap = padded.len() - s.len();
            &&& padded.len() == if s.len() < width {
                width
            } else {
                s.len()
            }
            &&& padded.skip(gap) == s
            &&& forall|i: int| 0 <= i < gap ==> #[trigger] padded[i] == ' '
        }),
{
    let padded = padded_left(s, width);
    assert(padded.skip(padded.len() - s.len()) == s);
}

/// A sum that fits is exact, and one that does not is the largest number.
pub proof fn law_sums_are_exact_or_largest(a: usize, b: usize, sum: usize)
    requires
        call_ensures(add_up, (a, b), sum),
    ensures
        a + b <= usize::MAX ==> sum == a + b,
        a + b > usize::MAX ==> sum == usize::MAX,
{
}

} // verus!
