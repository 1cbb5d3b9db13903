//! Decimal numerals: reading an unsigned number from text and writing one.
use crate::text::chars_of;
use vstd::arithmetic::power::pow;
use vstd::prelude::*;

verus! {

/// Whether `c` is one of the ten decimal digits.
pub open spec fn is_digit(c: char) -> bool {
    '0' <= c <= '9'
}

/// The value of a decimal digit.
pub open spec fn digit_value(c: char) -> nat {
    (c as int - '0' as int) as nat
}

/// The digit that stands for `d`, for `d` below ten.
pub open spec fn digit_char(d: nat) -> char {
    ('0' as int + d) as char
}

/// Whether `s` holds decimal digits and nothing else.
pub open spec fn all_digits(s: Seq<char>) -> bool {
    forall|i: int| 0 <= i < s.len() ==> is_digit(#[trigger] s[i])
}

/// The number that a run of decimal digits denotes.
pub open spec fn number(s: Seq<char>) -> nat
    decreases s.len(),
{
    if s.len() == 0 {
        0
    } else {
        number(s.drop_last()) * 10 + digit_value(s.last())
    }
}

/// The shortest decimal numeral of `n`.
pub open spec fn numeral(n: nat) -> Seq<char>
    decreases n,
{
    if n < 10 {
        seq![digit_char(n)]
    } else {
        numeral(n / 10).push(digit_char(n % 10))
    }
}

/// What is left of `s` once one leading plus sign is taken off.
pub open spec fn unsigned_digits(s: Seq<char>) -> Seq<char> {
    if s.len() > 0 && s[0] == '+' {
        s.skip(1)
    } else {
        s
    }
}

/// The `u32` that `s` spells: an optional plus sign and at least one digit.
/// Anything else, and a number that is too large, spells none.
pub open spec fn spelled_u32(s: Seq<char>) -> Option<u32> {
    let digits = unsigned_digits(s);
    if digits.len() > 0 && all_digits(digits) && number(digits) <= u32::MAX {
        Some(number(digits) as u32)
    } else {
        None
    }
}

/// The first digits of a numeral never denote more than the whole.
proof fn lemma_number_of_prefix(s: Seq<char>, k: int)
    requires
        0 <= k <= s.len(),
    ensures
        number(s.take(k)) <= number(s),
    decreases s.len(),
{
    if k == s.len() {
        assert(s.take(k) =~= s);
    } else {
        lemma_number_of_prefix(s.drop_last(), k);
        assert(s.drop_last().take(k) =~= s.take(k));
    }
}

/// The `u32` that `text` spells in decimal, if it spells one.
pub fn parse_u32(text: &str) -> (value: Option<u32>)
    ensures
        value == spelled_u32(text@),
{
    let chars = chars_of(text);
    let start: usize = if chars.len() > 0 && chars[0] == '+' { 1 } else { 0 };
    let ghost digits = unsigned_digits(text@);
    assert(digits =~= text@.skip(start as int));
    if start == chars.len() {
        return None;
    }
    let mut total: u64 = 0;
    let mut i: usize = start;
    while i < chars.len()
        invariant
            start <= i <= chars.len(),
            chars@ == text@,
            digits == unsigned_digits(text@),
            digits == text@.skip(start as int),
            all_digits(digits.take(i - start)),
            total == number(digits.take(i - start)),
            total <= u32::MAX,
        decreases chars.len() - i,
    {
        let c = chars[i];
        let ghost at = i - start;
        assert(digits[at] == c);
        assert(digits.take(at + 1).drop_last() =~= digits.take(at));
        if c < '0' || c > '9' {
            return None;
        }
        total = total * 10 + (c as u64 - '0' as u64);
        assert(all_digits(digits.take(at + 1))) by {
            assert forall|j: int| 0 <= j < at + 1 implies is_digit(#[trigger] digits.take(at + 1)[j]) by {
                if j < at {
                    assert(digits.take(at)[j] == digits.take(at + 1)[j]);
                }
            }
        }
        i = i + 1;
        if total > u32::MAX as u64 {
            proof {
                lemma_number_of_prefix(digits, at + 1);
            }
            return None;
        }
    }
    assert(digits.take(digits.len() as int) =~= digits);
    Some(total as u32)
}

/// The decimal numeral of `n`.
pub fn write_number(n: u64) -> (text: String)
    ensures
        text@ == numeral(n as nat),
    decreases n,
{
    let mut text = if n < 10 {
        String::new()
    } else {
        write_number(n / 10)
    };
    text.push((('0' as u8) + (n % 10) as u8) as char);
    assert(text@ =~= numeral(n as nat));
    text
}

/// A numeral is made of digits, does not come out empty, and denotes the number
/// that it was written from.
pub proof fn law_numeral_denotes_its_number(n: nat)
    ensures
        numeral(n).len() > 0,
        all_digits(numeral(n)),
        number(numeral(n)) == n,
    decreases n,
{
    let d = digit_char(n % 10);
    assert(is_digit(d) && digit_value(d) == n % 10);
    reveal_with_fuel(number, 2);
    if n < 10 {
        assert(numeral(n).drop_last() =~= Seq::<char>::empty());
    } else {
        law_numeral_denotes_its_number(n / 10);
        assert(numeral(n).drop_last() =~= numeral(n / 10));
    }
}

/// Reading back a written number gives the number.
pub proof fn law_written_number_reads_back(n: u32)
    ensures
        spelled_u32(numeral(n as nat)) == Some(n),
{
    law_numeral_denotes_its_number(n as nat);
    assert(is_digit(numeral(n as nat)[0]));
}

/// The digit in front of a numeral counts for its value times a power of ten, by the
/// number of digits behind it; no digits at all denote nothing.
pub proof fn law_digits_count_by_their_place(d: char, rest: Seq<char>)
    requires
        '0' <= d <= '9',
    ensures
        number(seq![d] + rest) == (d as int - '0' as int) * pow(10, rest.len()) + number(rest),
        number(Seq::<char>::empty()) == 0,
    decreases rest.len(),
{
    reveal(pow);
    let all = seq![d] + rest;
    if rest.len() == 0 {
        reveal_with_fuel(number, 2);
        assert(all.drop_last() =~= Seq::empty());
        assert(all.last() == d);
        assert(pow(10, 0) == 1);
        assert((d as int - '0' as int) * 1 == d as int - '0' as int);
    } else {
        let shorter = rest.drop_last();
        law_digits_count_by_their_place(d, shorter);
        assert(all.drop_last() =~= seq![d] + shorter);
        assert(all.last() == rest.last());
        assert(pow(10, rest.len()) == 10 * pow(10, shorter.len()));
        let (v, p) = (d as int - '0' as int, pow(10, shorter.len()));
        assert(v * (10 * p) == 10 * (v * p)) by (nonlinear_arith);
    }
}

/// A numeral begins with a zero only if it is the numeral of zero.
pub proof fn law_numeral_has_no_needless_zero(n: nat)
    ensures
        n > 0 ==> numeral(n)[0] != '0',
        n < 10 ==> numeral(n).len() == 1,
    decreases n,
{
    if n >= 10 {
        law_numeral_has_no_needless_zero(n / 10);
        law_numeral_denotes_its_number(n / 10);
    }
}

/// Whether `s` has digits from `0` to `9`, at least one, and nothing else.
pub open spec fn is_digits(s: Seq<char>) -> bool {
    s.len() > 0 && forall|i: int| 0 <= i < s.len() ==> '0' <= #[trigger] s[i] <= '9'
}

/// Digits are read as the number that they denote, with a plus sign in front or without,
/// as long as it is not too large. Anything else is read as no number.
pub proof fn law_digits_are_read_as_their_number(s: Seq<char>)
    ensures
        is_digits(s) && number(s) <= 4294967295 ==> spelled_u32(s) == Some(number(s) as u32) && spelled_u32(
            seq!['+'] + s,
        ) == Some(number(s) as u32),
        is_digits(s) && number(s) > 4294967295 ==> spelled_u32(s) is None && spelled_u32(seq!['+'] + s) is None,
        !is_digits(s) ==> spelled_u32(seq!['+'] + s) is None,
        !is_digits(s) && (s.len() == 0 || s[0] != '+') ==> spelled_u32(s) is None,
{
    let signed = seq!['+'] + s;
    assert(signed.skip(1) =~= s);
    assert(is_digits(s) == (s.len() > 0 && all_digits(s))) by {
        if is_digits(s) {
            assert(all_digits(s));
        }
        if s.len() > 0 && all_digits(s) {
            assert forall|i: int| 0 <= i < s.len() implies '0' <= #[trigger] s[i] <= '9' by {
                assert(is_digit(s[i]));
            }
        }
    }
    if is_digits(s) {
        assert('0' <= s[0] <= '9');
    }
}

} // verus!
