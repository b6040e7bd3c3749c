//! Unsigned numbers as text.

use vstd::prelude::*;

verus! {

/// The value of `c` as a digit: `0` to `9`, then `a` to `z` in either case. A
/// character that is no digit has the value 36.
pub open spec fn digit_value(c: char) -> int {
    if '0' <= c <= '9' {
        c as int - '0' as int
    } else if 'a' <= c <= 'z' {
        c as int - 'a' as int + 10
    } else if 'A' <= c <= 'Z' {
        c as int - 'A' as int + 10
    } else {
        36
    }
}

/// Whether `s` holds digits of the base `radix` alone.
pub open spec fn all_digits(s: Seq<char>, radix: int) -> bool {
    forall|i: int| 0 <= i < s.len() ==> digit_value(#[trigger] s[i]) < radix
}

/// The value of the digits `s` in the base `radix`.
pub open spec fn digits_value(s: Seq<char>, radix: int) -> int
    decreases s.len(),
{
    if s.len() == 0 {
        0
    } else {
        digits_value(s.drop_last(), radix) * radix + digit_value(s.last())
    }
}

/// `s` without a plus sign at its start.
pub open spec fn without_plus(s: Seq<char>) -> Seq<char> {
    if s.len() > 0 && s[0] == '+' {
        s.skip(1)
    } else {
        s
    }
}

/// The number that `s` writes in the base `radix`: an optional plus sign and at
/// least one digit, with a value of at most `max`.
pub open spec fn number_of(s: Seq<char>, radix: int, max: int) -> Option<int> {
    let digits = without_plus(s);
    if digits.len() > 0 && all_digits(digits, radix) && digits_value(digits, radix) <= max {
        Some(digits_value(digits, radix))
    } else {
        None
    }
}

/// The line number that `s` writes in decimal, if it writes one.
pub open spec fn line_number(s: Seq<char>) -> Option<u16> {
    match number_of(s, 10, u16::MAX as int) {
        Some(n) => Some(n as u16),
        None => None,
    }
}

/// The byte that `s` writes in hexadecimal, if it writes one.
pub open spec fn hex_byte(s: Seq<char>) -> Option<u8> {
    match number_of(s, 16, u8::MAX as int) {
        Some(n) => Some(n as u8),
        None => None,
    }
}

/// The digit of the value `d` below ten.
pub open spec fn decimal_digit(d: int) -> char {
    (d + '0' as int) as char
}

/// `n` in decimal, without leading zeros.
pub open spec fn decimal(n: nat) -> Seq<char>
    decreases n,
{
    if n < 10 {
        seq![decimal_digit(n as int)]
    } else {
        decimal(n / 10).push(decimal_digit((n % 10) as int))
    }
}

/// More digits make no smaller number.
proof fn lemma_digits_value_grows(s: Seq<char>, radix: int, k: int)
    requires
        radix >= 1,
        0 <= k <= s.len(),
        all_digits(s, radix),
    ensures
        0 <= digits_value(s.take(k), radix) <= digits_value(s, radix),
    decreases s.len(),
{
    if k < s.len() {
        let t = s.drop_last();
        lemma_digits_value_grows(t, radix, k);
        assert(t.take(k) == s.take(k));
        let v = digits_value(t, radix);
        assert(v * radix >= v) by (nonlinear_arith)
            requires
                v >= 0,
                radix >= 1,
        ;
    } else {
        assert(s.take(k) == s);
        if s.len() > 0 {
            let t = s.drop_last();
            lemma_digits_value_grows(t, radix, k - 1);
            let v = digits_value(t, radix);
            assert(t.take(k - 1) == t);
            assert(v * radix >= 0) by (nonlinear_arith)
                requires
                    v >= 0,
                    radix >= 1,
            ;
        }
    }
}

/// The value of `c` as a digit.
fn digit(c: char) -> (r: u32)
    ensures
        r == digit_value(c),
        r <= 36,
{
    if '0' <= c && c <= '9' {
        c as u32 - '0' as u32
    } else if 'a' <= c && c <= 'z' {
        c as u32 - 'a' as u32 + 10
    } else if 'A' <= c && c <= 'Z' {
        c as u32 - 'A' as u32 + 10
    } else {
        36
    }
}

/// The number that `s` writes in the base `radix`, if it is at most `max`.
fn parse_number(s: &[char], radix: u32, max: u32) -> (r: Option<u32>)
    requires
        1 <= radix <= 36,
        max <= u16::MAX,
    ensures
        match number_of(s@, radix as int, max as int) {
            Some(n) => r matches Some(m) && m == n,
            None => r is None,
        },
        r matches Some(n) ==> n <= max,
{
    let mut i: usize = 0;
    if s.len() > 0 && s[0] == '+' {
        i = 1;
    }
    let start = i;
    let ghost digits = without_plus(s@);
    assert(digits == s@.skip(start as int));
    if i >= s.len() {
        return None;
    }
    let mut value: u32 = 0;
    while i < s.len()
        invariant
            start <= i <= s@.len(),
            digits == s@.skip(start as int),
            digits == without_plus(s@),
            1 <= radix <= 36,
            max <= u16::MAX,
            value <= max,
            all_digits(digits.take(i - start), radix as int),
            value == digits_value(digits.take(i - start), radix as int),
        decreases s@.len() - i,
    {
        let d = digit(s[i]);
        let ghost k = i - start;
        assert(digits[k] == s@[i as int]);
        assert(digits.take(k + 1).drop_last() == digits.take(k));
        assert(digits.take(k + 1).last() == digits[k]);
        if d >= radix {
            return None;
        }
        assert(value * radix <= 65535 * 36) by (nonlinear_arith)
            requires
                value <= 65535,
                radix <= 36,
        ;
        let next = value * radix + d;
        proof {
            assert forall|j: int| 0 <= j < k + 1 implies digit_value(
                #[trigger] digits.take(k + 1)[j],
            ) < radix by {
                if j < k {
                    assert(digits.take(k)[j] == digits[j]);
                }
            }
        }
        if next > max {
            proof {
                if all_digits(digits, radix as int) {
                    lemma_digits_value_grows(digits, radix as int, k + 1);
                }
            }
            return None;
        }
        value = next;
        i += 1;
    }
    assert(digits.take(digits.len() as int) == digits);
    Some(value)
}

/// The line number that `s` writes in decimal, if it writes one.
pub fn parse_u16(s: &[char]) -> (r: Option<u16>)
    ensures
        r == line_number(s@),
{
    match parse_number(s, 10, 65535) {
        Some(n) => Some(n as u16),
        None => None,
    }
}

/// The byte that `s` writes in hexadecimal, if it writes one.
pub fn parse_hex_u8(s: &[char]) -> (r: Option<u8>)
    ensures
        r == hex_byte(s@),
{
    match parse_number(s, 16, 255) {
        Some(n) => Some(n as u8),
        None => None,
    }
}

/// Appends `n` in decimal to `out`.
pub fn push_decimal(out: &mut String, n: usize)
    ensures
        final(out)@ == old(out)@ + decimal(n as nat),
    decreases n,
{
    if n >= 10 {
        push_decimal(out, n / 10);
    }
    let d = (n % 10) as u8;
    out.push((d + 48) as char);
    assert(out@ =~= old(out)@ + decimal(n as nat));
}

/// The number of digits of `n` in decimal.
pub fn decimal_len(n: u16) -> (r: usize)
    ensures
        r == decimal(n as nat).len(),
        r <= n + 1,
    decreases n,
{
    if n < 10 {
        1
    } else {
        decimal_len(n / 10) + 1
    }
}

/// A greater number has no fewer digits.
pub proof fn lemma_decimal_len(n: nat, m: nat)
    requires
        n <= m,
    ensures
        decimal(n).len() <= decimal(m).len(),
    decreases m,
{
    if n >= 10 {
        lemma_decimal_len(n / 10, m / 10);
    }
}

/// What `decimal` writes is what it says: digits, at least one, of the value `n`.
pub proof fn lemma_decimal(n: nat)
    ensures
        decimal(n).len() > 0,
        forall|i: int| 0 <= i < decimal(n).len() ==> '0' <= #[trigger] decimal(n)[i] <= '9',
        digits_value(decimal(n), 10) == n,
    decreases n,
{
    if n < 10 {
        reveal_with_fuel(digits_value, 2);
        assert(decimal(n).drop_last() =~= Seq::<char>::empty());
    } else {
        lemma_decimal(n / 10);
        assert(decimal(n).drop_last() == decimal(n / 10));
    }
}

/// A line number can be read back from its decimal form.
pub proof fn law_decimal_reads_back(n: u16)
    ensures
        line_number(decimal(n as nat)) == Some(n),
{
    lemma_decimal(n as nat);
    assert(decimal(n as nat)[0] != '+');
}

/// A digit behind a number multiplies it by the base and adds the digit.
proof fn lemma_append(s: Seq<char>, c: char, radix: int, max: int)
    requires
        radix >= 1,
        s.len() > 0,
        digit_value(c) < radix,
    ensures
        number_of(s, radix, max) matches Some(n) ==> number_of(s.push(c), radix, max) == (if n
            * radix + digit_value(c) <= max {
            Some(n * radix + digit_value(c))
        } else {
            None
        }),
        number_of(s, radix, max) is None && without_plus(s).len() > 0 ==> number_of(
            s.push(c),
            radix,
            max,
        ) is None,
{
    let digits = without_plus(s);
    let more = without_plus(s.push(c));
    assert(more =~= digits.push(c));
    assert(more.drop_last() == digits);
    if all_digits(more, radix) {
        assert forall|i: int| 0 <= i < digits.len() implies digit_value(#[trigger] digits[i])
            < radix by {
            assert(more[i] == digits[i]);
        }
        lemma_digits_value_grows(more, radix, digits.len() as int);
        assert(more.take(digits.len() as int) == digits);
    }
    if all_digits(digits, radix) {
        assert forall|i: int| 0 <= i < more.len() implies digit_value(#[trigger] more[i])
            < radix by {
            if i < digits.len() {
                assert(more[i] == digits[i]);
            }
        }
    }
}

/// A character that is no digit of the base spoils a number.
proof fn lemma_refused(s: Seq<char>, i: int, radix: int, max: int)
    requires
        0 <= i < s.len(),
        digit_value(s[i]) >= radix,
        i > 0 || s[i] != '+',
    ensures
        number_of(s, radix, max) is None,
{
    let digits = without_plus(s);
    if s[0] == '+' {
        assert(digits[i - 1] == s[i]);
    } else {
        assert(digits[i] == s[i]);
    }
}

/// A digit is a line number, and a digit behind a line number makes the number
/// that decimal notation says, or none if that is too high. What is too high or
/// no number at all does not become one by a digit behind it.
pub proof fn law_line_number_by_digits(s: Seq<char>, c: char)
    requires
        '0' <= c <= '9',
    ensures
        line_number(seq![c]) == Some((c as int - 48) as u16),
        line_number(s) matches Some(n) ==> line_number(s.push(c)) == (if n * 10 + (c as int - 48)
            <= 65535 {
            Some((n * 10 + (c as int - 48)) as u16)
        } else {
            None
        }),
        line_number(s) is None && s.len() > 0 && s != seq!['+'] ==> line_number(s.push(c)) is None,
{
    let one = seq![c];
    reveal_with_fuel(digits_value, 2);
    assert(one.drop_last() =~= Seq::<char>::empty());
    assert(number_of(one, 10, 65535) == Some(c as int - 48));
    if s.len() > 0 {
        lemma_append(s, c, 10, 65535);
        lemma_value_is_natural(s, 10, 65535);
        if without_plus(s).len() == 0 {
            assert(s =~= seq!['+']);
        }
    }
}

/// A plus sign in front of a line number makes no difference, and nothing else
/// may stand among the digits.
pub proof fn law_line_number_is_digits(s: Seq<char>, i: int)
    ensures
        line_number(Seq::<char>::empty()) is None,
        s.len() == 0 || s[0] != '+' ==> line_number(seq!['+'] + s) == line_number(s),
        0 <= i < s.len() && !('0' <= s[i] <= '9') && (i > 0 || s[i] != '+') ==> line_number(s)
            is None,
{
    if s.len() == 0 || s[0] != '+' {
        assert((seq!['+'] + s).skip(1) =~= s);
    }
    if 0 <= i < s.len() && !('0' <= s[i] <= '9') && (i > 0 || s[i] != '+') {
        lemma_refused(s, i, 10, 65535);
    }
}

/// The same of bytes in hexadecimal, with the digits `a` to `f` in either case.
pub proof fn law_hex_byte_by_digits(s: Seq<char>, c: char, d: int)
    requires
        '0' <= c <= '9' && d == c as int - 48 || 'a' <= c <= 'f' && d == c as int - 97 + 10 || 'A'
            <= c <= 'F' && d == c as int - 65 + 10,
    ensures
        hex_byte(seq![c]) == Some(d as u8),
        hex_byte(s) matches Some(n) ==> hex_byte(s.push(c)) == (if n * 16 + d <= 255 {
            Some((n * 16 + d) as u8)
        } else {
            None
        }),
        hex_byte(s) is None && s.len() > 0 && s != seq!['+'] ==> hex_byte(s.push(c)) is None,
{
    let one = seq![c];
    reveal_with_fuel(digits_value, 2);
    assert(one.drop_last() =~= Seq::<char>::empty());
    assert(number_of(one, 16, 255) == Some(d));
    if s.len() > 0 {
        lemma_append(s, c, 16, 255);
        lemma_value_is_natural(s, 16, 255);
        if without_plus(s).len() == 0 {
            assert(s =~= seq!['+']);
        }
    }
}

/// A plus sign in front of a byte makes no difference, and nothing else may stand
/// among the digits.
pub proof fn law_hex_byte_is_digits(s: Seq<char>, i: int)
    ensures
        hex_byte(Seq::<char>::empty()) is None,
        s.len() == 0 || s[0] != '+' ==> hex_byte(seq!['+'] + s) == hex_byte(s),
        0 <= i < s.len() && !('0' <= s[i] <= '9') && !('a' <= s[i] <= 'f') && !('A' <= s[i] <= 'F')
            && (i > 0 || s[i] != '+') ==> hex_byte(s) is None,
{
    if s.len() == 0 || s[0] != '+' {
        assert((seq!['+'] + s).skip(1) =~= s);
    }
    if 0 <= i < s.len() && !('0' <= s[i] <= '9') && !('a' <= s[i] <= 'f') && !('A' <= s[i] <= 'F')
        && (i > 0 || s[i] != '+') {
        lemma_refused(s, i, 16, 255);
    }
}

/// No number is below zero.
proof fn lemma_value_is_natural(s: Seq<char>, radix: int, max: int)
    requires
        radix >= 1,
    ensures
        number_of(s, radix, max) matches Some(n) ==> 0 <= n <= max,
{
    let digits = without_plus(s);
    if number_of(s, radix, max) is Some {
        lemma_digits_value_grows(digits, radix, digits.len() as int);
    }
}

/// Decimal notation: a digit for a number below ten, and one more digit for each
/// multiplication by ten.
pub proof fn law_decimal_digits(n: nat, d: nat)
    requires
        d < 10,
    ensures
        decimal(d) == seq![(d + 48) as char],
        n > 0 ==> decimal(n * 10 + d) == decimal(n).push((d + 48) as char),
{
    if n > 0 {
        assert((n * 10 + d) / 10 == n);
        assert((n * 10 + d) % 10 == d);
    }
}

} // verus!
