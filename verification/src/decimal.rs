//! Signed decimal integers as text: reading them and writing them.
//!
//! The accepted syntax is an optional sign (`+` or `-`) followed by one or
//! more ASCII digits; the value has to fit in an `i32`. The text written for
//! a value is the shortest such text: no `+`, no leading zeros.

use crate::text::chars_of;
use vstd::prelude::*;

verus! {

/// Why a piece of text is not an `i32` in decimal notation.
#[derive(Clone, Copy, Debug, PartialEq, Eq, Structural)]
pub enum IntParseError {
    /// The text is empty.
    Empty,
    /// A character that is no digit, or a sign with nothing behind it.
    InvalidDigit,
    /// The digits denote a value above `i32::MAX`.
    PosOverflow,
    /// The digits behind a `-` denote a value below `i32::MIN`.
    NegOverflow,
}

impl IntParseError {
    /// What is shown for the failure.
    pub open spec fn message_text(self) -> Seq<char> {
        match self {
            IntParseError::Empty => "cannot parse integer from empty string"@,
            IntParseError::InvalidDigit => "invalid digit found in string"@,
            IntParseError::PosOverflow => "number too large to fit in target type"@,
            IntParseError::NegOverflow => "number too small to fit in target type"@,
        }
    }

    /// What is shown for the failure.
    pub fn message(&self) -> (text: &'static str)
        ensures
            text@ == self.message_text(),
    {
        match self {
            IntParseError::Empty => "cannot parse integer from empty string",
            IntParseError::InvalidDigit => "invalid digit found in string",
            IntParseError::PosOverflow => "number too large to fit in target type",
            IntParseError::NegOverflow => "number too small to fit in target type",
        }
    }
}

/// Whether `c` is one of the ten ASCII digits.
pub open spec fn is_digit(c: char) -> bool {
    '0' <= c && c <= '9'
}

/// The value of one digit.
pub open spec fn digit_value(c: char) -> int {
    c as int - '0' as int
}

/// The digit that stands for `d`, for `0 <= d <= 9`.
pub open spec fn digit_char(d: int) -> char {
    (d + '0' as int) as char
}

/// The value of a run of digits, most significant digit first.
pub open spec fn digits_value(s: Seq<char>) -> int
    decreases s.len(),
{
    if s.len() == 0 {
        0
    } else {
        10 * digits_value(s.drop_last()) + digit_value(s.last())
    }
}

/// The length of the longest prefix of `s` that holds digits only.
pub open spec fn digit_run(s: Seq<char>) -> int
    decreases s.len(),
{
    if s.len() > 0 && is_digit(s[0]) {
        1 + digit_run(s.drop_first())
    } else {
        0
    }
}

/// Whether `s` starts with a sign.
pub open spec fn has_sign(s: Seq<char>) -> bool {
    s.len() > 0 && (s[0] == '+' || s[0] == '-')
}

/// Whether `s` starts with a `-`.
pub open spec fn is_negative(s: Seq<char>) -> bool {
    s.len() > 0 && s[0] == '-'
}

/// What is left of `s` behind its sign, if it has one.
pub open spec fn unsigned_part(s: Seq<char>) -> Seq<char> {
    if has_sign(s) {
        s.drop_first()
    } else {
        s
    }
}

/// The `i32` that `s` denotes, or the reason why it denotes none.
///
/// The digits are read from the left up to the first character that is no
/// digit. A value out of range is reported before a character that is no
/// digit, because it was met first.
pub open spec fn parse_i32_spec(s: Seq<char>) -> Result<i32, IntParseError> {
    let body = unsigned_part(s);
    let run = digit_run(body);
    let magnitude = digits_value(body.take(run));
    if s.len() == 0 {
        Err(IntParseError::Empty)
    } else if body.len() == 0 {
        Err(IntParseError::InvalidDigit)
    } else if is_negative(s) && magnitude > 0x8000_0000 {
        Err(IntParseError::NegOverflow)
    } else if !is_negative(s) && magnitude > 0x7fff_ffff {
        Err(IntParseError::PosOverflow)
    } else if run < body.len() {
        Err(IntParseError::InvalidDigit)
    } else if is_negative(s) {
        Ok((-magnitude) as i32)
    } else {
        Ok(magnitude as i32)
    }
}

/// A prefix of digits that ends at the end of the text, or in front of a
/// character that is no digit, is the whole digit run.
pub proof fn lemma_digit_run_is(s: Seq<char>, k: int)
    requires
        0 <= k <= s.len(),
        forall|j: int| 0 <= j < k ==> is_digit(#[trigger] s[j]),
        k == s.len() || !is_digit(s[k]),
    ensures
        digit_run(s) == k,
    decreases k,
{
    if k > 0 {
        let t = s.drop_first();
        assert forall|j: int| 0 <= j < k - 1 implies is_digit(#[trigger] t[j]) by {
            assert(t[j] == s[j + 1]);
        }
        lemma_digit_run_is(t, k - 1);
    }
}

/// The value of a run of digits is not negative, and one more digit does not
/// make it smaller.
pub proof fn lemma_digits_value_grows(s: Seq<char>, k: int)
    requires
        0 <= k < s.len(),
        forall|j: int| 0 <= j <= k ==> is_digit(#[trigger] s[j]),
    ensures
        0 <= digits_value(s.take(k)),
        digits_value(s.take(k + 1)) == 10 * digits_value(s.take(k)) + digit_value(s[k]),
        digits_value(s.take(k)) <= digits_value(s.take(k + 1)),
    decreases k,
{
    assert(s.take(k + 1).drop_last() =~= s.take(k));
    assert(s.take(k + 1).last() == s[k]);
    if k > 0 {
        lemma_digits_value_grows(s, k - 1);
    }
}

/// Reads the characters `v[from..to]` as an `i32` in decimal notation.
pub fn parse_i32_in(v: &Vec<char>, from: usize, to: usize) -> (r: Result<i32, IntParseError>)
    requires
        from <= to <= v.len(),
    ensures
        r == parse_i32_spec(v@.subrange(from as int, to as int)),
{
    let ghost s = v@.subrange(from as int, to as int);
    if from == to {
        return Err(IntParseError::Empty);
    }
    let first = v[from];
    assert(first == s[0]);
    let negative = first == '-';
    let start: usize = if first == '+' || first == '-' {
        from + 1
    } else {
        from
    };
    let ghost body = unsigned_part(s);
    assert(body =~= v@.subrange(start as int, to as int));
    if start == to {
        return Err(IntParseError::InvalidDigit);
    }
    let limit: i64 = if negative {
        0x8000_0000
    } else {
        0x7fff_ffff
    };
    let mut magnitude: i64 = 0;
    let mut too_large = false;
    let mut i: usize = start;
    while i < to
        invariant
            start <= i <= to <= v.len(),
            body == v@.subrange(start as int, to as int),
            limit == 0x8000_0000 || limit == 0x7fff_ffff,
            forall|j: int| 0 <= j < i - start ==> is_digit(#[trigger] body[j]),
            0 <= digits_value(body.take(i - start)),
            !too_large ==> magnitude == digits_value(body.take(i - start)) && magnitude <= limit,
            too_large ==> digits_value(body.take(i - start)) > limit,
        ensures
            i == to || !is_digit(body[i - start]),
        decreases to - i,
    {
        let c = v[i];
        assert(c == body[i - start]);
        if !(c >= '0' && c <= '9') {
            break;
        }
        proof {
            lemma_digits_value_grows(body, i - start);
        }
        if !too_large {
            let digit: i64 = (c as u8 - 48) as i64;
            magnitude = 10 * magnitude + digit;
            if magnitude > limit {
                too_large = true;
            }
        }
        i += 1;
    }
    proof {
        lemma_digit_run_is(body, i - start);
    }
    if too_large {
        if negative {
            Err(IntParseError::NegOverflow)
        } else {
            Err(IntParseError::PosOverflow)
        }
    } else if i < to {
        Err(IntParseError::InvalidDigit)
    } else if negative {
        Ok((-magnitude) as i32)
    } else {
        Ok(magnitude as i32)
    }
}

/// Reads `text` as an `i32` in decimal notation.
pub fn parse_i32(text: &str) -> (r: Result<i32, IntParseError>)
    ensures
        r == parse_i32_spec(text@),
{
    let v = chars_of(text);
    assert(v@.subrange(0, v@.len() as int) =~= v@);
    parse_i32_in(&v, 0, v.len())
}

/// The digits of `n`, most significant first, without leading zeros.
pub open spec fn nat_text(n: nat) -> Seq<char>
    decreases n,
{
    if n < 10 {
        seq![digit_char(n as int)]
    } else {
        nat_text(n / 10).push(digit_char((n % 10) as int))
    }
}

/// The text written for `v`: a `-` for a negative value, then the digits of
/// its magnitude.
pub open spec fn int_text(v: int) -> Seq<char> {
    if v < 0 {
        seq!['-'] + nat_text((-v) as nat)
    } else {
        nat_text(v as nat)
    }
}

/// The digits of `n` where `n` is positive, and nothing where it is zero.
spec fn leading_text(n: nat) -> Seq<char> {
    if n == 0 {
        Seq::empty()
    } else {
        nat_text(n)
    }
}

/// Appends to `out` the text written for `value`.
pub fn write_i32(out: &mut Vec<char>, value: i32)
    ensures
        final(out)@ == old(out)@ + int_text(value as int),
{
    let magnitude: i64 = if value < 0 {
        -(value as i64)
    } else {
        value as i64
    };
    let mut digits: Vec<char> = Vec::new();
    let mut rest: i64 = magnitude / 10;
    digits.push(((magnitude % 10) as u8 + 48) as char);
    assert(nat_text(magnitude as nat) =~= leading_text(rest as nat) + digits@);
    while rest > 0
        invariant
            0 <= rest <= magnitude,
            nat_text(magnitude as nat) == leading_text(rest as nat) + digits@,
        decreases rest,
    {
        let ghost before = digits@;
        let c = ((rest % 10) as u8 + 48) as char;
        digits.insert(0, c);
        assert(leading_text(rest as nat) =~= leading_text((rest / 10) as nat).push(c));
        assert(leading_text(rest as nat) + before =~= leading_text((rest / 10) as nat) + digits@);
        rest = rest / 10;
    }
    assert(digits@ =~= nat_text(magnitude as nat));
    if value < 0 {
        out.push('-');
    }
    let ghost start = out@;
    let mut i: usize = 0;
    while i < digits.len()
        invariant
            i <= digits.len(),
            out@ == start + digits@.take(i as int),
        decreases digits.len() - i,
    {
        out.push(digits[i]);
        i += 1;
        assert(digits@.take(i as int) =~= digits@.take(i - 1).push(digits@[i - 1]));
    }
    assert(digits@.take(digits@.len() as int) =~= digits@);
    assert(out@ =~= old(out)@ + int_text(value as int));
}

/// The digits written for `n` are digits, at least one, and their value is
/// `n`.
pub proof fn lemma_nat_text(n: nat)
    ensures
        nat_text(n).len() >= 1,
        forall|j: int| 0 <= j < nat_text(n).len() ==> is_digit(#[trigger] nat_text(n)[j]),
        digits_value(nat_text(n)) == n,
    decreases n,
{
    if n < 10 {
        let t = nat_text(n);
        assert(t.drop_last() =~= Seq::<char>::empty());
        assert(digits_value(t.drop_last()) == 0);
    } else {
        lemma_nat_text(n / 10);
        let t = nat_text(n);
        assert(t.drop_last() =~= nat_text(n / 10));
    }
}

/// Reading the text written for an `i32` gives that `i32` back.
pub proof fn lemma_parse_int_text(v: int)
    requires
        i32::MIN <= v <= i32::MAX,
    ensures
        parse_i32_spec(int_text(v)) == Ok::<i32, IntParseError>(v as i32),
{
    let s = int_text(v);
    let n = (if v < 0 { -v } else { v }) as nat;
    let t = nat_text(n);
    lemma_nat_text(n);
    assert(is_digit(t[0]));
    if v < 0 {
        assert(s[0] == '-');
        assert(s.drop_first() =~= t);
    } else {
        assert(s == t);
    }
    assert(unsigned_part(s) == t);
    lemma_digit_run_is(t, t.len() as int);
    assert(t.take(t.len() as int) =~= t);
}

/// The text written for an integer holds no `+`.
pub proof fn lemma_int_text_has_no_plus(v: int)
    ensures
        forall|j: int| 0 <= j < int_text(v).len() ==> #[trigger] int_text(v)[j] != '+',
{
    let n = (if v < 0 { -v } else { v }) as nat;
    lemma_nat_text(n);
    let t = nat_text(n);
    let s = int_text(v);
    assert forall|j: int| 0 <= j < s.len() implies #[trigger] s[j] != '+' by {
        if v < 0 {
            if j > 0 {
                assert(s[j] == t[j - 1]);
                assert(is_digit(t[j - 1]));
            }
        } else {
            assert(is_digit(t[j]));
        }
    }
}

} // verus!
