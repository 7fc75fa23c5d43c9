//! Numbers written as text, text read as numbers, and sums of counters.

use vstd::prelude::*;

verus! {

/// The character for a digit below sixteen; letters are in lower case.
pub open spec fn digit_char(d: nat) -> char {
    if d < 10 {
        (48 + d) as char
    } else {
        (87 + d) as char
    }
}

/// The positional notation of `n` without leading zeros.
pub open spec fn numeral(n: nat, base: nat) -> Seq<char>
    decreases n,
{
    if base < 2 || n < base {
        seq![digit_char(n)]
    } else {
        proof {
            assert(n / base < n) by (nonlinear_arith)
                requires
                    n >= base >= 2,
            ;
        }
        numeral(n / base, base).push(digit_char(n % base))
    }
}

/// The decimal notation of `n`.
pub open spec fn decimal(n: nat) -> Seq<char> {
    numeral(n, 10)
}

/// The decimal notation of an integer, with a minus sign where it is negative.
pub open spec fn signed_decimal(n: int) -> Seq<char> {
    if n < 0 {
        seq!['-'] + decimal((-n) as nat)
    } else {
        decimal(n as nat)
    }
}

/// The character for a digit below sixteen.
fn digit_to_char(d: u8) -> (c: char)
    requires
        d < 16,
    ensures
        c == digit_char(d as nat),
{
    if d < 10 {
        (48 + d) as char
    } else {
        (87 + d) as char
    }
}

/// Appends the notation of `n` in a base from two to sixteen.
pub fn push_numeral(out: &mut String, n: u64, base: u64)
    requires
        2 <= base <= 16,
    ensures
        final(out)@ == old(out)@ + numeral(n as nat, base as nat),
    decreases n,
{
    if n >= base {
        assert(n / base < n) by (nonlinear_arith)
            requires
                n >= base >= 2,
        ;
        push_numeral(out, n / base, base);
        assert(n % base < base) by (nonlinear_arith)
            requires
                base >= 2,
        ;
        out.push(digit_to_char((n % base) as u8));
    } else {
        out.push(digit_to_char(n as u8));
    }
}

/// Appends the decimal notation of `n`.
pub fn push_decimal(out: &mut String, n: u64)
    ensures
        final(out)@ == old(out)@ + decimal(n as nat),
{
    push_numeral(out, n, 10);
}

/// Appends the decimal notation of a signed number.
pub fn push_signed(out: &mut String, n: i32)
    ensures
        final(out)@ == old(out)@ + signed_decimal(n as int),
{
    if n < 0 {
        out.push('-');
        push_decimal(out, (-(n as i64)) as u64);
    } else {
        push_decimal(out, n as u64);
    }
}

/// The value of a character as a digit below sixteen.
pub open spec fn digit_value(c: char) -> Option<nat> {
    if '0' <= c && c <= '9' {
        Some((c as int - 48) as nat)
    } else if 'a' <= c && c <= 'f' {
        Some((c as int - 87) as nat)
    } else if 'A' <= c && c <= 'F' {
        Some((c as int - 55) as nat)
    } else {
        None
    }
}

/// The character is a digit in the given base.
pub open spec fn is_digit(c: char, base: nat) -> bool {
    digit_value(c) matches Some(d) && d < base
}

/// The value of a string of digits.
pub open spec fn digits_value(s: Seq<char>, base: nat) -> nat
    decreases s.len(),
{
    if s.len() == 0 {
        0
    } else {
        digits_value(s.drop_last(), base) * base + digit_value(s.last()).unwrap_or(0)
    }
}

/// A text without one leading plus sign.
pub open spec fn without_plus(s: Seq<char>) -> Seq<char> {
    if s.len() > 0 && s[0] == '+' {
        s.drop_first()
    } else {
        s
    }
}

/// What a text says as an unsigned number: an optional plus sign and at least one digit, nothing
/// else, and a value of at most `max`.
pub open spec fn unsigned_value(s: Seq<char>, base: nat, max: nat) -> Option<nat> {
    let digits = without_plus(s);
    if digits.len() > 0 && (forall|i: int|
        0 <= i < digits.len() ==> is_digit(#[trigger] digits[i], base)) && digits_value(
        digits,
        base,
    ) <= max {
        Some(digits_value(digits, base))
    } else {
        None
    }
}

/// More digits never make a number smaller.
proof fn lemma_prefix_is_not_larger(s: Seq<char>, k: int, base: nat)
    requires
        0 <= k <= s.len(),
        base >= 1,
    ensures
        digits_value(s.take(k), base) <= digits_value(s, base),
    decreases s.len(),
{
    if k == s.len() {
        assert(s.take(k) =~= s);
    } else {
        lemma_prefix_is_not_larger(s.drop_last(), k, base);
        assert(s.drop_last().take(k) =~= s.take(k));
        let v = digits_value(s.drop_last(), base);
        assert(v <= v * base) by (nonlinear_arith)
            requires
                base >= 1,
        ;
    }
}

/// The value of a character as a digit below sixteen.
fn char_to_digit(c: char) -> (d: Option<u8>)
    ensures
        d matches Some(v) ==> digit_value(c) == Some(v as nat) && v < 16,
        d is None ==> digit_value(c) is None,
{
    if '0' <= c && c <= '9' {
        Some(c as u8 - 48)
    } else if 'a' <= c && c <= 'f' {
        Some(c as u8 - 87)
    } else if 'A' <= c && c <= 'F' {
        Some(c as u8 - 55)
    } else {
        None
    }
}

/// Reads an unsigned number of at most `max`.
pub fn parse_unsigned(text: &[char], base: u8, max: u64) -> (value: Option<u64>)
    requires
        2 <= base <= 16,
    ensures
        value matches Some(v) ==> unsigned_value(text@, base as nat, max as nat) == Some(v as nat),
        value is None ==> unsigned_value(text@, base as nat, max as nat) is None,
{
    let start: usize = if text.len() > 0 && text[0] == '+' {
        1
    } else {
        0
    };
    let ghost digits = without_plus(text@);
    assert(digits =~= text@.skip(start as int));
    if start == text.len() {
        return None;
    }
    let mut value: u64 = 0;
    for i in start..text.len()
        invariant
            2 <= base <= 16,
            start < text@.len(),
            digits == text@.skip(start as int),
            digits == without_plus(text@),
            value <= max,
            value == digits_value(digits.take(i - start), base as nat),
            forall|k: int| 0 <= k < i - start ==> is_digit(#[trigger] digits[k], base as nat),
    {
        let ghost at = i - start;
        assert(digits[at] == text@[i as int]);
        match char_to_digit(text[i]) {
            Some(d) => {
                if d >= base {
                    assert(!is_digit(digits[at], base as nat));
                    return None;
                }
                assert(digits.take(at + 1).drop_last() =~= digits.take(at));
                assert(digits.take(at + 1).last() == digits[at]);
                assert(value * base <= u64::MAX * 16) by (nonlinear_arith)
                    requires
                        value <= u64::MAX,
                        base <= 16,
                ;
                let next: u128 = value as u128 * base as u128 + d as u128;
                assert(next == digits_value(digits.take(at + 1), base as nat));
                if next > max as u128 {
                    proof {
                        lemma_prefix_is_not_larger(digits, at + 1, base as nat);
                    }
                    return None;
                }
                value = next as u64;
            },
            None => {
                assert(!is_digit(digits[at], base as nat));
                return None;
            },
        }
    }
    assert(digits.take(digits.len() as int) =~= digits);
    Some(value)
}

/// The sum of the counters that are known.
pub open spec fn sum_of(counters: Seq<Option<u64>>) -> nat
    decreases counters.len(),
{
    if counters.len() == 0 {
        0
    } else {
        sum_of(counters.drop_last()) + match counters.last() {
            Some(n) => n as nat,
            None => 0,
        }
    }
}

/// Every counter is known.
pub open spec fn all_known(counters: Seq<Option<u64>>) -> bool {
    forall|i: int| 0 <= i < counters.len() ==> (#[trigger] counters[i]) is Some
}

/// The sum of counters; none where one of them is not known or the sum is too great for a counter.
pub open spec fn total_of(counters: Seq<Option<u64>>) -> Option<u64> {
    if all_known(counters) && sum_of(counters) <= u64::MAX {
        Some(sum_of(counters) as u64)
    } else {
        None
    }
}

/// A longer list has no smaller sum.
proof fn lemma_sum_grows(counters: Seq<Option<u64>>, n: int)
    requires
        0 <= n <= counters.len(),
    ensures
        sum_of(counters.take(n)) <= sum_of(counters),
    decreases counters.len(),
{
    if n == counters.len() {
        assert(counters.take(n) =~= counters);
    } else {
        assert(counters.drop_last().take(n) =~= counters.take(n));
        lemma_sum_grows(counters.drop_last(), n);
    }
}

/// The sum of counters; `None` where one of them is not known or the sum is too great.
pub fn add_counters(counters: &Vec<Option<u64>>) -> (total: Option<u64>)
    ensures
        total == total_of(counters@),
{
    let mut total: u64 = 0;
    assert(counters@.take(0) =~= Seq::<Option<u64>>::empty());
    for i in 0..counters.len()
        invariant
            total == sum_of(counters@.take(i as int)),
            forall|k: int| 0 <= k < i ==> (#[trigger] counters@[k]) is Some,
    {
        assert(counters@.take(i + 1).drop_last() =~= counters@.take(i as int));
        assert(counters@.take(i + 1).last() == counters@[i as int]);
        proof {
            lemma_sum_grows(counters@, i + 1);
        }
        match counters[i] {
            Some(n) => {
                if n > u64::MAX - total {
                    return None;
                }
                total = total + n;
            },
            None => {
                return None;
            },
        }
    }
    assert(counters@.take(counters@.len() as int) =~= counters@);
    Some(total)
}

proof fn lemma_numeral(n: nat, base: nat)
    requires
        2 <= base <= 16,
    ensures
        numeral(n, base).len() > 0,
        forall|i: int|
            0 <= i < numeral(n, base).len() ==> is_digit(#[trigger] numeral(n, base)[i], base),
        digits_value(numeral(n, base), base) == n,
    decreases n,
{
    let s = numeral(n, base);
    if n < base {
        assert(s =~= seq![digit_char(n)]);
        assert(s.drop_last() =~= Seq::<char>::empty());
        assert(digits_value(s.drop_last(), base) == 0);
        assert(digits_value(s.drop_last(), base) * base == 0) by (nonlinear_arith)
            requires
                digits_value(s.drop_last(), base) == 0,
        ;
    } else {
        assert(n / base < n) by (nonlinear_arith)
            requires
                n >= base >= 2,
        ;
        assert(n % base < base && n == (n / base) * base + n % base) by (nonlinear_arith)
            requires
                base >= 2,
        ;
        lemma_numeral(n / base, base);
        let front = numeral(n / base, base);
        assert(s.drop_last() =~= front);
        assert(is_digit(digit_char(n % base), base));
        assert forall|i: int| 0 <= i < s.len() implies is_digit(#[trigger] s[i], base) by {
            if i < front.len() {
                assert(s[i] == front[i]);
            }
        }
    }
}

/// A number that was written is read back as itself.
pub proof fn numbers_read_back(n: nat, base: nat, max: nat)
    requires
        2 <= base <= 16,
        n <= max,
    ensures
        unsigned_value(numeral(n, base), base, max) == Some(n),
{
    lemma_numeral(n, base);
    assert(is_digit(numeral(n, base)[0], base));
}

/// Numbers that are written alike are equal.
pub proof fn numerals_tell_numbers_apart(a: nat, b: nat, base: nat)
    requires
        2 <= base <= 16,
        numeral(a, base) == numeral(b, base),
    ensures
        a == b,
{
    lemma_numeral(a, base);
    lemma_numeral(b, base);
}

} // verus!
