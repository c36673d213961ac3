//! Numbers as text.

use vstd::prelude::*;

verus! {

/// The digit of the value `d`.
pub open spec fn digit(d: int) -> char {
    seq!['0', '1', '2', '3', '4', '5', '6', '7', '8', '9', 'a', 'b', 'c', 'd', 'e', 'f'][d]
}

/// The digits of `n`, without leading zeros.
pub open spec fn numeral(n: nat, radix: nat) -> Seq<char>
    decreases n,
{
    if radix < 2 || n < radix {
        seq![digit(n as int)]
    } else {
        proof {
            assert(n / radix < n) by (nonlinear_arith)
                requires
                    2 <= radix <= n,
            ;
        }
        numeral(n / radix, radix).push(digit((n % radix) as int))
    }
}

/// Dividing by the radix makes a number smaller.
proof fn lemma_quotient_smaller(n: nat, radix: nat)
    requires
        2 <= radix <= n,
    ensures
        n / radix < n,
{
    assert(n / radix < n) by (nonlinear_arith)
        requires
            2 <= radix <= n,
    ;
}

/// `n` in decimal digits.
pub open spec fn decimal(n: nat) -> Seq<char> {
    numeral(n, 10)
}

/// A byte in two lower-case hexadecimal digits.
pub open spec fn hex_byte(byte: u8) -> Seq<char> {
    seq![digit(byte as int / 16), digit(byte as int % 16)]
}

/// The digit of the value `d`, as text.
pub(crate) fn digit_str(d: u64) -> (text: &'static str)
    requires
        d < 16,
    ensures
        text@ == seq![digit(d as int)],
{
    proof {
        reveal_strlit("0");
        reveal_strlit("1");
        reveal_strlit("2");
        reveal_strlit("3");
        reveal_strlit("4");
        reveal_strlit("5");
        reveal_strlit("6");
        reveal_strlit("7");
        reveal_strlit("8");
        reveal_strlit("9");
        reveal_strlit("a");
        reveal_strlit("b");
        reveal_strlit("c");
        reveal_strlit("d");
        reveal_strlit("e");
        reveal_strlit("f");
    }
    match d {
        0 => "0",
        1 => "1",
        2 => "2",
        3 => "3",
        4 => "4",
        5 => "5",
        6 => "6",
        7 => "7",
        8 => "8",
        9 => "9",
        10 => "a",
        11 => "b",
        12 => "c",
        13 => "d",
        14 => "e",
        _ => "f",
    }
}

/// Writes `n` behind `out`.
pub(crate) fn push_numeral(out: &mut String, n: u64, radix: u64)
    requires
        2 <= radix <= 16,
    ensures
        final(out)@ == old(out)@ + numeral(n as nat, radix as nat),
    decreases n,
{
    if n < radix {
        out.append(digit_str(n));
    } else {
        proof {
            lemma_quotient_smaller(n as nat, radix as nat);
        }
        push_numeral(out, n / radix, radix);
        out.append(digit_str(n % radix));
        assert(out@ =~= old(out)@ + numeral(n as nat, radix as nat));
    }
}

/// Writes a byte behind `out`, in two lower-case hexadecimal digits.
pub(crate) fn push_hex_byte(out: &mut String, byte: u8)
    ensures
        final(out)@ == old(out)@ + hex_byte(byte),
{
    out.append(digit_str((byte / 16) as u64));
    out.append(digit_str((byte % 16) as u64));
    assert(out@ =~= old(out)@ + hex_byte(byte));
}

/// The value of a decimal digit.
pub open spec fn digit_value(c: char) -> int {
    c as int - '0' as int
}

/// `c` is a decimal digit.
pub open spec fn is_digit(c: char) -> bool {
    '0' <= c && c <= '9'
}

/// The value of decimal digits.
pub open spec fn digits_value(digits: Seq<char>) -> nat
    decreases digits.len(),
{
    if digits.len() == 0 {
        0
    } else {
        (10 * digits_value(digits.drop_last()) + digit_value(digits.last())) as nat
    }
}

/// The digits of a number that may start with a plus sign.
pub open spec fn unsigned_digits(text: Seq<char>) -> Seq<char> {
    if text.len() > 0 && text[0] == '+' {
        text.skip(1)
    } else {
        text
    }
}

/// The number that a text stands for: an optional plus sign, then digits and nothing else, with
/// a value of at most 64 bits.
pub open spec fn parsed_number(text: Seq<char>) -> Option<u64> {
    let digits = unsigned_digits(text);
    if digits.len() > 0 && (forall|i: int| 0 <= i < digits.len() ==> is_digit(#[trigger] digits[i]))
        && digits_value(digits) <= u64::MAX {
        Some(digits_value(digits) as u64)
    } else {
        None
    }
}

/// Reads an unsigned decimal number.
pub fn parse_number(text: &str) -> (number: Option<u64>)
    ensures
        number == parsed_number(text@),
{
    let len: usize = text.unicode_len();
    let mut at: usize = 0;
    if len > 0 && text.get_char(0) == '+' {
        at = 1;
    }
    let ghost digits = unsigned_digits(text@);
    let ghost from = at as int;
    assert(text@.skip(from) =~= digits);
    if at == len {
        return None;
    }
    let mut value: u64 = 0;
    while at < len
        invariant
            0 <= from <= at <= len,
            len == text@.len(),
            digits == unsigned_digits(text@),
            digits == text@.skip(from),
            forall|i: int| 0 <= i < at - from ==> is_digit(#[trigger] digits[i]),
            value == digits_value(digits.take(at - from)),
        decreases len - at,
    {
        let c: char = text.get_char(at);
        let ghost i = at - from;
        assert(digits[i] == c);
        if !('0' <= c && c <= '9') {
            assert(!is_digit(digits[i]));
            return None;
        }
        let d: u64 = c as u64 - 48;
        assert(digits.take(i + 1).drop_last() =~= digits.take(i));
        assert(digits_value(digits.take(i + 1)) == 10 * value + d);
        if value > (u64::MAX - d) / 10 {
            assert(10 * value + d > u64::MAX);
            proof {
                if forall|j: int| 0 <= j < digits.len() ==> is_digit(#[trigger] digits[j]) {
                    lemma_value_grows(digits, i + 1);
                }
            }
            return None;
        }
        value = value * 10 + d;
        at = at + 1;
    }
    assert(digits.take(at - from) =~= digits);
    Some(value)
}

/// More digits never make a smaller number.
proof fn lemma_value_grows(digits: Seq<char>, n: int)
    requires
        0 <= n <= digits.len(),
        forall|i: int| 0 <= i < digits.len() ==> is_digit(#[trigger] digits[i]),
    ensures
        digits_value(digits.take(n)) <= digits_value(digits),
    decreases digits.len(),
{
    if n == digits.len() {
        assert(digits.take(n) =~= digits);
    } else {
        let init = digits.drop_last();
        assert(is_digit(digits.last()));
        assert(init.take(n) =~= digits.take(n));
        assert forall|i: int| 0 <= i < init.len() implies is_digit(#[trigger] init[i]) by {
            assert(is_digit(digits[i]));
        }
        lemma_value_grows(init, n);
    }
}

/// The digits of `n` are digits, and have the value `n`.
proof fn lemma_decimal_value(n: nat)
    ensures
        decimal(n).len() > 0,
        forall|i: int| 0 <= i < decimal(n).len() ==> is_digit(#[trigger] decimal(n)[i]),
        digits_value(decimal(n)) == n,
    decreases n,
{
    let digits = decimal(n);
    reveal_with_fuel(digits_value, 2);
    if n < 10 {
        assert(digits.drop_last().len() == 0);
        assert(digit(n as int) as int == '0' as int + n);
    } else {
        lemma_decimal_value(n / 10);
        assert(digits.drop_last() =~= decimal(n / 10));
        assert(digit((n % 10) as int) as int == '0' as int + n % 10);
    }
}

/// Writing a number and reading it back gives the number.
pub proof fn law_number_round_trip(n: u64)
    ensures
        parsed_number(decimal(n as nat)) == Some(n),
{
    lemma_decimal_value(n as nat);
    assert(is_digit(decimal(n as nat)[0]));
    assert(unsigned_digits(decimal(n as nat)) == decimal(n as nat));
}

/// A digit tells its value.
proof fn lemma_digit_injective(a: int, b: int)
    requires
        0 <= a < 16,
        0 <= b < 16,
        digit(a) == digit(b),
    ensures
        a == b,
{
    assert(digit(a) as int == if a < 10 { '0' as int + a } else { 'a' as int + a - 10 });
    assert(digit(b) as int == if b < 10 { '0' as int + b } else { 'a' as int + b - 10 });
}

/// No two bytes are written alike.
pub proof fn law_hex_byte_is_injective(a: u8, b: u8)
    requires
        hex_byte(a) == hex_byte(b),
    ensures
        a == b,
{
    assert(hex_byte(a)[0] == hex_byte(b)[0]);
    assert(hex_byte(a)[1] == hex_byte(b)[1]);
    lemma_digit_injective(a as int / 16, b as int / 16);
    lemma_digit_injective(a as int % 16, b as int % 16);
}

/// A number has at least one digit.
proof fn lemma_numeral_nonempty(n: nat, radix: nat)
    ensures
        numeral(n, radix).len() > 0,
{
}

/// No two numbers are written alike.
pub proof fn law_numeral_is_injective(a: nat, b: nat, radix: nat)
    requires
        2 <= radix <= 16,
        numeral(a, radix) == numeral(b, radix),
    ensures
        a == b,
    decreases a,
{
    let text = numeral(a, radix);
    if a < radix || b < radix {
        lemma_numeral_nonempty(a / radix, radix);
        lemma_numeral_nonempty(b / radix, radix);
        assert(text.len() == 1);
        assert(text[0] == digit(a as int));
        assert(text[0] == digit(b as int));
        lemma_digit_injective(a as int, b as int);
    } else {
        lemma_quotient_smaller(a, radix);
        assert(text.drop_last() =~= numeral(a / radix, radix));
        assert(text.drop_last() =~= numeral(b / radix, radix));
        law_numeral_is_injective(a / radix, b / radix, radix);
        assert(text.last() == digit((a % radix) as int));
        assert(text.last() == digit((b % radix) as int));
        vstd::arithmetic::div_mod::lemma_fundamental_div_mod(a as int, radix as int);
        vstd::arithmetic::div_mod::lemma_fundamental_div_mod(b as int, radix as int);
        lemma_digit_injective((a % radix) as int, (b % radix) as int);
    }
}

/// Only digits occur in a number.
proof fn lemma_numeral_digits(n: nat, radix: nat, i: int)
    requires
        2 <= radix <= 16,
        0 <= i < numeral(n, radix).len(),
    ensures
        ({
            let c = numeral(n, radix)[i];
            ('0' <= c && c <= '9') || ('a' <= c && c <= 'f')
        }),
    decreases n,
{
    let text = numeral(n, radix);
    if n < radix {
        assert(text[i] == digit(n as int));
    } else {
        lemma_quotient_smaller(n, radix);
        if i == text.len() - 1 {
            vstd::arithmetic::div_mod::lemma_mod_bound(n as int, radix as int);
            assert(text[i] == digit((n % radix) as int));
        } else {
            assert(text[i] == numeral(n / radix, radix)[i]);
            lemma_numeral_digits(n / radix, radix, i);
        }
    }
}

/// A number behind a separator that is no digit can be told from what is in front of it.
pub(crate) proof fn lemma_number_behind_separator(
    text: Seq<char>,
    separator: char,
    radix: nat,
    a: Seq<char>,
    m: nat,
    b: Seq<char>,
    n: nat,
)
    requires
        2 <= radix <= 16,
        !('0' <= separator && separator <= '9'),
        !('a' <= separator && separator <= 'f'),
        text == a + seq![separator] + numeral(m, radix),
        text == b + seq![separator] + numeral(n, radix),
    ensures
        a == b,
        m == n,
{
    let left = numeral(m, radix);
    let right = numeral(n, radix);
    assert(text.len() == a.len() + 1 + left.len());
    assert(text.len() == b.len() + 1 + right.len());
    assert(text[a.len() as int] == separator);
    assert(text[b.len() as int] == separator);
    if a.len() < b.len() {
        lemma_numeral_nonempty(n, radix);
        let i = b.len() - a.len() - 1;
        assert(text[b.len() as int] == left[i]);
        lemma_numeral_digits(m, radix, i);
    } else if b.len() < a.len() {
        lemma_numeral_nonempty(m, radix);
        let i = a.len() - b.len() - 1;
        assert(text[a.len() as int] == right[i]);
        lemma_numeral_digits(n, radix, i);
    }
    assert(text.take(a.len() as int) =~= a);
    assert(text.take(b.len() as int) =~= b);
    assert(text.skip(a.len() as int + 1) =~= left);
    assert(text.skip(b.len() as int + 1) =~= right);
    law_numeral_is_injective(m, n, radix);
}

/// The last digit of a number is its remainder by ten, and the digits before it are those of the
/// quotient. There are none before it where the number is less than ten.
pub proof fn law_decimal_is_positional(n: nat)
    ensures
        decimal(n).len() >= 1,
        decimal(n).last() as int == 48 + n % 10,
        n < 10 ==> decimal(n).len() == 1,
        n >= 10 ==> decimal(n).drop_last() == decimal(n / 10),
{
    if n < 10 {
        assert(digit(n as int) as int == 48 + n);
    } else {
        assert(digit((n % 10) as int) as int == 48 + n % 10);
        assert(decimal(n).drop_last() =~= decimal(n / 10));
    }
}

/// A number is read digit by digit: a further digit multiplies what was read by ten and adds its
/// value, as long as 64 bits hold the result. Anything but a digit makes the text no number, and
/// so does a number that is too large. A plus sign in front changes nothing.
pub proof fn law_number_is_read_digit_by_digit(text: Seq<char>, c: char)
    ensures
        text.len() == 0 ==> parsed_number(text) is None,
        text == seq!['+'] ==> parsed_number(text) is None,
        parsed_number(seq![c]) == (if 48 <= c as int <= 57 {
            Some((c as int - 48) as u64)
        } else {
            None
        }),
        parsed_number(text) matches Some(value) ==> parsed_number(text.push(c)) == (if 48
            <= c as int <= 57 && 10 * value + (c as int - 48) <= u64::MAX {
            Some((10 * value + (c as int - 48)) as u64)
        } else {
            None
        }),
        parsed_number(text) is None && text.len() > 0 && text != seq!['+'] ==> parsed_number(
            text.push(c),
        ) is None,
        text.len() > 0 && text[0] != '+' ==> parsed_number(seq!['+'] + text) == parsed_number(text),
{
    let one = seq![c];
    reveal_with_fuel(digits_value, 2);
    assert(unsigned_digits(seq!['+']) =~= Seq::<char>::empty());
    if c == '+' {
        assert(unsigned_digits(one) =~= Seq::<char>::empty());
    } else {
        assert(unsigned_digits(one)[0] == c);
    }
    if text.len() > 0 && text[0] != '+' {
        assert((seq!['+'] + text).skip(1) =~= text);
    }
    if text.len() > 0 {
        let digits = unsigned_digits(text);
        let longer = unsigned_digits(text.push(c));
        assert(longer =~= digits.push(c));
        assert(longer.drop_last() =~= digits);
        assert(longer.last() == c);
        if forall|i: int| 0 <= i < longer.len() ==> is_digit(#[trigger] longer[i]) {
            assert forall|i: int| 0 <= i < digits.len() implies is_digit(#[trigger] digits[i]) by {
                assert(longer[i] == digits[i]);
            }
            assert(is_digit(longer[longer.len() - 1]));
            assert(digits_value(longer) == 10 * digits_value(digits) + digit_value(c));
            if digits.len() == 0 {
                assert(text =~= seq!['+']);
            }
        } else if is_digit(c) && (forall|i: int|
            0 <= i < digits.len() ==> is_digit(#[trigger] digits[i])) {
            assert forall|i: int| 0 <= i < longer.len() implies is_digit(#[trigger] longer[i]) by {
                if i < digits.len() {
                    assert(is_digit(digits[i]));
                }
            }
        }
        if !is_digit(c) {
            assert(!is_digit(longer[longer.len() - 1]));
        }
    }
}

/// A text that is read as a number has no minus sign in it.
pub(crate) proof fn lemma_number_has_no_minus(text: Seq<char>, i: int)
    requires
        parsed_number(text) is Some,
        0 <= i < text.len(),
    ensures
        text[i] != '-',
{
    let digits = unsigned_digits(text);
    if text[0] == '+' {
        if i > 0 {
            assert(is_digit(digits[i - 1]));
        }
    } else {
        assert(is_digit(digits[i]));
    }
}

/// The two digits of a byte are those of its upper and of its lower half: `0` to `9`, and `a` to
/// `f` in lower case.
pub proof fn law_hex_byte_is_lower_case(byte: u8)
    ensures
        hex_byte(byte).len() == 2,
        hex_byte(byte)[0] as int == (if byte / 16 < 10 {
            48 + byte / 16
        } else {
            87 + byte / 16
        }),
        hex_byte(byte)[1] as int == (if byte % 16 < 10 {
            48 + byte % 16
        } else {
            87 + byte % 16
        }),
{
    let (high, low) = (byte as int / 16, byte as int % 16);
    assert(digit(high) as int == if high < 10 { 48 + high } else { 87 + high });
    assert(digit(low) as int == if low < 10 { 48 + low } else { 87 + low });
}

} // verus!
