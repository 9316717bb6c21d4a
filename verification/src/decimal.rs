//! Numbers as decimal digits.
use vstd::prelude::*;

verus! {

pub open spec fn digit(c: char) -> bool {
    '0' <= c <= '9'
}

pub open spec fn digit_value(c: char) -> int {
    c as int - '0' as int
}

/// The digit for a number below ten.
pub open spec fn digit_for(d: int) -> char {
    ('0' as int + d) as char
}

pub open spec fn all_digits(s: Seq<char>) -> bool {
    forall|i: int| 0 <= i < s.len() ==> digit(#[trigger] s[i])
}

/// The number that a row of digits stands for.
pub open spec fn value(s: Seq<char>) -> int
    decreases s.len(),
{
    if s.len() == 0 {
        0
    } else {
        value(s.drop_last()) * 10 + digit_value(s.last())
    }
}

/// The digits of a number, without leading zeros.
pub open spec fn decimal(n: nat) -> Seq<char>
    decreases n,
{
    if n < 10 {
        seq![digit_for(n as int)]
    } else {
        decimal(n / 10).push(digit_for((n % 10) as int))
    }
}

/// Why a text is no number.
#[derive(Clone, Copy, Debug, PartialEq, Eq, Structural)]
pub enum NumberError {
    Empty,
    InvalidDigit,
    TooLarge,
}

/// A number without its plus sign.
pub open spec fn unsigned(s: Seq<char>) -> Seq<char> {
    if s.len() > 0 && s[0] == '+' {
        s.skip(1)
    } else {
        s
    }
}

/// Whether digits at the front of `digits` stand for more than `max`.
pub open spec fn too_large(digits: Seq<char>, max: int) -> bool {
    exists|k: int|
        0 <= k <= digits.len() && all_digits(#[trigger] digits.take(k)) && value(digits.take(k))
            > max
}

/// A 16-bit number: an optional plus sign, then one or more digits. Read from the left, the
/// first thing wrong decides which error it is.
pub open spec fn parsed_u16(s: Seq<char>) -> Result<u16, NumberError> {
    let digits = unsigned(s);
    if s.len() == 0 {
        Err(NumberError::Empty)
    } else if digits.len() == 0 {
        Err(NumberError::InvalidDigit)
    } else if too_large(digits, u16::MAX as int) {
        Err(NumberError::TooLarge)
    } else if all_digits(digits) {
        Ok(value(digits) as u16)
    } else {
        Err(NumberError::InvalidDigit)
    }
}

impl NumberError {
    pub open spec fn text(self) -> Seq<char> {
        match self {
            NumberError::Empty => "cannot parse integer from empty string"@,
            NumberError::InvalidDigit => "invalid digit found in string"@,
            NumberError::TooLarge => "number too large to fit in target type"@,
        }
    }

    /// The error in words.
    pub fn message(&self) -> (r: String)
        ensures
            r@ == self.text(),
    {
        match self {
            NumberError::Empty => "cannot parse integer from empty string".to_string(),
            NumberError::InvalidDigit => "invalid digit found in string".to_string(),
            NumberError::TooLarge => "number too large to fit in target type".to_string(),
        }
    }
}

/// More digits never stand for less.
proof fn lemma_value_grows(s: Seq<char>, j: int, k: int)
    requires
        0 <= j <= k <= s.len(),
        all_digits(s.take(k)),
    ensures
        0 <= value(s.take(j)) <= value(s.take(k)),
    decreases k,
{
    assert forall|i: int| 0 <= i < j implies digit(#[trigger] s.take(j)[i]) by {
        assert(s.take(k)[i] == s[i]);
    }
    if k > 0 {
        let t = s.take(k);
        assert(t.drop_last() =~= s.take(k - 1));
        assert(digit(t[k - 1]));
        assert forall|i: int| 0 <= i < k - 1 implies digit(#[trigger] s.take(k - 1)[i]) by {
            assert(t[i] == s[i]);
        }
        if j < k {
            lemma_value_grows(s, j, k - 1);
        } else {
            lemma_value_grows(s, k - 1, k - 1);
        }
    }
}

proof fn lemma_decimal(n: nat)
    ensures
        all_digits(decimal(n)),
        decimal(n).len() >= 1,
        value(decimal(n)) == n,
    decreases n,
{
    let d = digit_for((n % 10) as int);
    assert(digit(d) && digit_value(d) == n % 10);
    if n < 10 {
        let s = seq![d];
        assert(s.drop_last() =~= Seq::<char>::empty());
        assert(value(s.drop_last()) == 0);
    } else {
        lemma_decimal(n / 10);
        let s = decimal(n / 10).push(d);
        assert(s.drop_last() =~= decimal(n / 10));
        assert forall|i: int| 0 <= i < s.len() implies digit(#[trigger] s[i]) by {
            if i < s.len() - 1 {
                assert(decimal(n / 10)[i] == s[i]);
            }
        }
    }
}

/// Reading back the digits of a number gives the number.
pub proof fn decimal_reads_back(n: u16)
    ensures
        parsed_u16(decimal(n as nat)) == Ok::<u16, NumberError>(n),
{
    let s = decimal(n as nat);
    lemma_decimal(n as nat);
    assert(digit(s[0]));
    assert(unsigned(s) == s);
    assert(s.take(s.len() as int) =~= s);
    if too_large(s, u16::MAX as int) {
        let k = choose|k: int|
            0 <= k <= s.len() && all_digits(#[trigger] s.take(k)) && value(s.take(k))
                > u16::MAX as int;
        lemma_value_grows(s, k, s.len() as int);
    }
}

/// The digits of a number hold no character but digits.
pub proof fn decimal_is_digits(n: nat)
    ensures
        decimal(n).len() >= 1,
        all_digits(decimal(n)),
{
    lemma_decimal(n);
}

/// Whether `c` is a decimal digit.
pub fn is_digit(c: char) -> (r: bool)
    ensures
        r == digit(c),
{
    '0' <= c && c <= '9'
}

/// Reads a 16-bit number.
pub fn parse_u16(s: &str) -> (r: Result<u16, NumberError>)
    ensures
        r == parsed_u16(s@),
{
    let chars = crate::text::chars_of(s);
    if chars.len() == 0 {
        return Err(NumberError::Empty);
    }
    let start: usize = if chars[0] == '+' {
        1
    } else {
        0
    };
    if start == chars.len() {
        return Err(NumberError::InvalidDigit);
    }
    let ghost digits = unsigned(s@);
    assert(digits =~= s@.skip(start as int));
    let mut acc: u32 = 0;
    let mut i: usize = start;
    assert(digits.take(0) =~= Seq::<char>::empty());
    while i < chars.len()
        invariant
            chars@ == s@,
            chars@.len() > 0,
            start < chars@.len(),
            start <= i <= chars@.len(),
            digits == s@.skip(start as int),
            digits == unsigned(s@),
            all_digits(digits.take(i - start)),
            acc == value(digits.take(i - start)),
            acc <= 65535,
        decreases chars@.len() - i,
    {
        let c = chars[i];
        let ghost n = i - start;
        assert(digits[n] == c);
        proof {
            assert forall|k: int|
                0 <= k <= digits.len() && all_digits(#[trigger] digits.take(k)) && (k <= n || !digit(
                    c,
                )) implies value(digits.take(k)) <= 65535 by {
                if k > n {
                    assert(digits.take(k)[n] == c);
                }
                lemma_value_grows(digits, k, n);
            }
        }
        if !is_digit(c) {
            assert(!all_digits(digits)) by {
                assert(!digit(digits[n]));
            }
            return Err(NumberError::InvalidDigit);
        }
        let d: u32 = c as u32 - '0' as u32;
        proof {
            let t = digits.take(n + 1);
            assert(t.drop_last() =~= digits.take(n));
            assert(t.last() == c);
            assert forall|k: int| 0 <= k < t.len() implies digit(#[trigger] t[k]) by {
                if k < n {
                    assert(digits.take(n)[k] == t[k]);
                }
            }
        }
        acc = acc * 10 + d;
        if acc > 65535 {
            assert(value(digits.take(n + 1)) == acc);
            return Err(NumberError::TooLarge);
        }
        i = i + 1;
    }
    proof {
        assert(digits.take(digits.len() as int) =~= digits);
        if too_large(digits, u16::MAX as int) {
            let k = choose|k: int|
                0 <= k <= digits.len() && all_digits(#[trigger] digits.take(k)) && value(
                    digits.take(k),
                ) > u16::MAX as int;
            lemma_value_grows(digits, k, digits.len() as int);
        }
    }
    Ok(acc as u16)
}

/// Writes a number in decimal digits.
pub fn decimal_text(n: u64) -> (r: String)
    ensures
        r@ == decimal(n as nat),
    decreases n,
{
    let d: u8 = (n % 10) as u8;
    let c: char = (48 + d) as char;
    assert(c == digit_for((n % 10) as int));
    if n < 10 {
        let mut out = String::new();
        out.push(c);
        assert(out@ =~= decimal(n as nat));
        out
    } else {
        let mut out = decimal_text(n / 10);
        out.push(c);
        out
    }
}

/// The digits of a number stand for it, and do not begin with a zero unless it is one.
pub proof fn decimals_stand_for_their_number(n: nat)
    ensures
        all_digits(decimal(n)),
        decimal(n).len() >= 1,
        value(decimal(n)) == n,
        n > 0 ==> decimal(n)[0] != '0',
        n == 0 ==> decimal(n) == seq!['0'],
    decreases n,
{
    lemma_decimal(n);
    if n >= 10 {
        decimals_stand_for_their_number(n / 10);
    }
}

/// The value of digits goes digit by digit: one more digit is ten times as much and the digit.
pub proof fn values_go_digit_by_digit(s: Seq<char>, d: int)
    requires
        0 <= d <= 9,
    ensures
        value(s.push(('0' as int + d) as char)) == 10 * value(s) + d,
        value(Seq::empty()) == 0,
{
    let c = ('0' as int + d) as char;
    assert(s.push(c).drop_last() =~= s);
}

/// What digits are read as, with a plus sign before them or not: their value where it has 16 bits,
/// and otherwise too large, whatever follows them. Where something else than a digit follows digits
/// that are not too large, the text is no number.
pub proof fn numbers_are_read_as_their_value(s: Seq<char>, c: char, rest: Seq<char>)
    requires
        all_digits(s),
        !digit(c),
    ensures
        parsed_u16(Seq::empty()) == Err::<u16, NumberError>(NumberError::Empty),
        parsed_u16(seq!['+']) == Err::<u16, NumberError>(NumberError::InvalidDigit),
        s.len() > 0 && value(s) <= 0xffff ==> parsed_u16(s) == Ok::<u16, NumberError>(
            value(s) as u16,
        ) && parsed_u16(seq!['+'] + s) == Ok::<u16, NumberError>(value(s) as u16),
        value(s) > 0xffff ==> parsed_u16(s + rest) == Err::<u16, NumberError>(
            NumberError::TooLarge,
        ) && parsed_u16(seq!['+'] + (s + rest)) == Err::<u16, NumberError>(NumberError::TooLarge),
        value(s) <= 0xffff && (s.len() > 0 || c != '+') ==> parsed_u16(s + seq![c] + rest) == Err::<
            u16,
            NumberError,
        >(NumberError::InvalidDigit),
        value(s) <= 0xffff ==> parsed_u16(seq!['+'] + (s + seq![c] + rest)) == Err::<
            u16,
            NumberError,
        >(NumberError::InvalidDigit),
{
    let none = Seq::<char>::empty();
    assert(unsigned(seq!['+']) =~= none);
    lemma_digits_then(s, none);
    lemma_digits_then(s, rest);
    lemma_digits_then(s, seq![c] + rest);
    assert(s + none =~= s);
    assert(s + (seq![c] + rest) =~= s + seq![c] + rest);
    let wrong = s + seq![c] + rest;
    assert(wrong[s.len() as int] == c);
    lemma_plus(s);
    lemma_plus(s + rest);
    lemma_plus(wrong);
    if s.len() > 0 {
        assert(digit(s[0]));
        assert(s[0] != '+');
        assert(unsigned(s) == s);
        assert((s + rest)[0] == s[0]);
        assert(wrong[0] == s[0]);
    } else {
        assert(value(s) == 0);
        assert(wrong[0] == c);
    }
}

proof fn lemma_plus(s: Seq<char>)
    ensures
        unsigned(seq!['+'] + s) == s,
{
    assert((seq!['+'] + s).skip(1) =~= s);
}

/// Digits are too large, with what follows them, if they are by themselves; without a digit behind
/// them only then.
proof fn lemma_digits_then(s: Seq<char>, rest: Seq<char>)
    requires
        all_digits(s),
    ensures
        value(s) > 0xffff ==> too_large(s + rest, 0xffff),
        value(s) <= 0xffff && (rest.len() == 0 || !digit(rest[0])) ==> !too_large(s + rest, 0xffff),
{
    let all = s + rest;
    let n = s.len() as int;
    assert(all.take(n) =~= s);
    if value(s) <= 0xffff && (rest.len() == 0 || !digit(rest[0])) && too_large(all, 0xffff) {
        let k = choose|k: int|
            0 <= k <= all.len() && all_digits(#[trigger] all.take(k)) && value(all.take(k)) > 0xffff;
        if k > n {
            assert(all.take(k)[n] == rest[0]);
        } else {
            assert(all.take(k) =~= s.take(k));
            lemma_value_grows(s, k, n);
            assert(s.take(n) =~= s);
        }
    }
}

} // verus!
