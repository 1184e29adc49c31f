//! The texts that paths, checksums and messages are made of.
use vstd::prelude::*;

verus! {

/// `String::push`: appends one character to the end of the string.
pub assume_specification[ String::push ](s: &mut String, c: char)
    ensures
        final(s)@ == old(s)@.push(c),
;

/// `a` followed by `b`.
pub fn join2(a: &str, b: &str) -> (text: String)
    ensures
        text@ == a@ + b@,
{
    let mut text = a.to_owned();
    text.append(b);
    text
}

/// The decimal digit of a value below ten.
pub open spec fn digit(value: int) -> char {
    ('0' as int + value) as char
}

fn digit_char(value: u8) -> (c: char)
    requires
        value < 10,
    ensures
        c == digit(value as int),
{
    (0x30u8 + value) as char
}

/// A natural number in decimal, without leading zeros.
pub open spec fn decimal_nat(value: nat) -> Seq<char>
    decreases value,
{
    if value < 10 {
        seq![digit(value as int)]
    } else {
        decimal_nat(value / 10).push(digit((value % 10) as int))
    }
}

/// An integer in decimal: a minus sign where it is negative, then its digits.
pub open spec fn decimal(value: int) -> Seq<char> {
    if value < 0 {
        seq!['-'] + decimal_nat((-value) as nat)
    } else {
        decimal_nat(value as nat)
    }
}

fn push_decimal(text: &mut String, value: u64)
    ensures
        final(text)@ == old(text)@ + decimal_nat(value as nat),
    decreases value,
{
    if value >= 10 {
        push_decimal(text, value / 10);
    }
    text.push(digit_char((value % 10) as u8));
    proof {
        assert(text@ =~= old(text)@ + decimal_nat(value as nat));
    }
}

/// A user id in decimal.
pub fn decimal_text(value: i64) -> (text: String)
    ensures
        text@ == decimal(value as int),
{
    let mut text = String::new();
    if value < 0 {
        text.push('-');
        let magnitude: u64 = if value == i64::MIN {
            0x8000_0000_0000_0000u64
        } else {
            (-value) as u64
        };
        push_decimal(&mut text, magnitude);
        assert(text@ =~= seq!['-'] + decimal_nat(magnitude as nat));
    } else {
        push_decimal(&mut text, value as u64);
        assert(text@ =~= decimal_nat(value as nat));
    }
    text
}

proof fn lemma_digit(value: int)
    requires
        0 <= value < 10,
    ensures
        '0' <= digit(value) <= '9',
        digit(value) as int == '0' as int + value,
{
}

/// The digits of a natural number are digits, and there is at least one.
pub proof fn lemma_decimal_nat_digits(value: nat)
    ensures
        decimal_nat(value).len() > 0,
        forall|i: int|
            0 <= i < decimal_nat(value).len() ==> '0' <= #[trigger] decimal_nat(value)[i] <= '9',
    decreases value,
{
    if value < 10 {
        lemma_digit(value as int);
    } else {
        lemma_decimal_nat_digits(value / 10);
        lemma_digit((value % 10) as int);
    }
}

proof fn lemma_decimal_nat_injective(a: nat, b: nat)
    requires
        decimal_nat(a) == decimal_nat(b),
    ensures
        a == b,
    decreases a,
{
    lemma_decimal_nat_digits(a / 10);
    lemma_decimal_nat_digits(b / 10);
    let x = decimal_nat(a);
    let y = decimal_nat(b);
    lemma_digit((a % 10) as int);
    lemma_digit((b % 10) as int);
    assert(x.last() == digit((a % 10) as int));
    assert(y.last() == digit((b % 10) as int));
    if a >= 10 && b >= 10 {
        assert(x.drop_last() =~= decimal_nat(a / 10));
        assert(y.drop_last() =~= decimal_nat(b / 10));
        lemma_decimal_nat_injective(a / 10, b / 10);
    }
}

/// Different integers have different decimal texts.
pub proof fn lemma_decimal_injective(a: int, b: int)
    requires
        decimal(a) == decimal(b),
    ensures
        a == b,
{
    let m = if a < 0 { -a } else { a };
    let n = if b < 0 { -b } else { b };
    lemma_decimal_nat_digits(m as nat);
    lemma_decimal_nat_digits(n as nat);
    if a < 0 {
        assert(decimal(a)[0] == '-');
        assert(decimal(a).skip(1) =~= decimal_nat(m as nat));
    } else {
        assert('0' <= decimal(a)[0]);
    }
    if b < 0 {
        assert(decimal(b)[0] == '-');
        assert(decimal(b).skip(1) =~= decimal_nat(n as nat));
    } else {
        assert('0' <= decimal(b)[0]);
    }
    lemma_decimal_nat_injective(m as nat, n as nat);
}

/// The lower-case hexadecimal digit of a value below sixteen.
pub open spec fn hex_digit(value: int) -> char {
    if value < 10 {
        digit(value)
    } else {
        ('a' as int + value - 10) as char
    }
}

fn hex_char(value: u8) -> (c: char)
    requires
        value < 16,
    ensures
        c == hex_digit(value as int),
{
    if value < 10 {
        digit_char(value)
    } else {
        (0x61u8 + (value - 10)) as char
    }
}

/// Bytes in lower-case hexadecimal, two digits each, the high one first.
pub open spec fn hex_lower(bytes: Seq<u8>) -> Seq<char> {
    Seq::new(
        2 * bytes.len(),
        |i: int|
            if i % 2 == 0 {
                hex_digit(bytes[i / 2] as int / 16)
            } else {
                hex_digit(bytes[i / 2] as int % 16)
            },
    )
}

/// Bytes as a lower-case hexadecimal text.
pub fn hex_text(bytes: &[u8]) -> (text: String)
    ensures
        text@ == hex_lower(bytes@),
{
    let mut text = String::new();
    let mut i: usize = 0;
    while i < bytes.len()
        invariant
            i <= bytes@.len(),
            text@ == hex_lower(bytes@.take(i as int)),
        decreases bytes@.len() - i,
    {
        let ghost before = text@;
        text.push(hex_char(bytes[i] / 16));
        text.push(hex_char(bytes[i] % 16));
        proof {
            let next = hex_lower(bytes@.take(i + 1));
            assert(next.len() == before.len() + 2);
            assert forall|j: int| 0 <= j < next.len() implies next[j] == text@[j] by {
                if j < before.len() {
                    assert(before[j] == next[j]);
                }
            }
            assert(text@ =~= next);
        }
        i += 1;
    }
    assert(bytes@.take(i as int) =~= bytes@);
    text
}

proof fn lemma_hex_digit(value: int)
    requires
        0 <= value < 16,
    ensures
        '0' <= hex_digit(value) <= '9' || 'a' <= hex_digit(value) <= 'f',
        value < 10 ==> hex_digit(value) as int == '0' as int + value,
        value >= 10 ==> hex_digit(value) as int == 'a' as int + value - 10,
{
    if value < 10 {
        lemma_digit(value);
    }
}

/// A hexadecimal text holds nothing but the digits `0` to `9` and `a` to `f`.
pub proof fn lemma_hex_lower_digits(bytes: Seq<u8>)
    ensures
        hex_lower(bytes).len() == 2 * bytes.len(),
        forall|i: int|
            0 <= i < hex_lower(bytes).len() ==> '0' <= #[trigger] hex_lower(bytes)[i] <= '9'
                || 'a' <= hex_lower(bytes)[i] <= 'f',
{
    assert forall|i: int| 0 <= i < hex_lower(bytes).len() implies '0' <= #[trigger] hex_lower(
        bytes,
    )[i] <= '9' || 'a' <= hex_lower(bytes)[i] <= 'f' by {
        lemma_hex_digit(bytes[i / 2] as int / 16);
        lemma_hex_digit(bytes[i / 2] as int % 16);
    }
}

/// Different bytes have different hexadecimal texts.
pub proof fn lemma_hex_lower_injective(a: Seq<u8>, b: Seq<u8>)
    requires
        hex_lower(a) == hex_lower(b),
    ensures
        a == b,
{
    assert(hex_lower(a).len() == 2 * a.len());
    assert(hex_lower(b).len() == 2 * b.len());
    assert forall|i: int| 0 <= i < a.len() implies a[i] == b[i] by {
        let high = 2 * i;
        let low = 2 * i + 1;
        assert(high % 2 == 0 && high / 2 == i && low % 2 == 1 && low / 2 == i);
        assert(hex_lower(a)[high] == hex_digit(a[i] as int / 16));
        assert(hex_lower(a)[low] == hex_digit(a[i] as int % 16));
        assert(hex_lower(b)[high] == hex_digit(b[i] as int / 16));
        assert(hex_lower(b)[low] == hex_digit(b[i] as int % 16));
        lemma_hex_digit(a[i] as int / 16);
        lemma_hex_digit(a[i] as int % 16);
        lemma_hex_digit(b[i] as int / 16);
        lemma_hex_digit(b[i] as int % 16);
    }
    assert(a =~= b);
}

/// The number that a row of decimal digits stands for.
pub open spec fn digits_value(text: Seq<char>) -> int
    decreases text.len(),
{
    if text.len() == 0 {
        0
    } else {
        10 * digits_value(text.drop_last()) + (text.last() as int - '0' as int)
    }
}

/// The digits of a natural number read as that number, and do not begin with a zero unless it is
/// the only digit.
proof fn lemma_decimal_nat_reads_back(value: nat)
    ensures
        digits_value(decimal_nat(value)) == value,
        decimal_nat(value).len() > 1 ==> decimal_nat(value)[0] != '0',
        value > 0 ==> decimal_nat(value)[0] != '0',
    decreases value,
{
    let text = decimal_nat(value);
    lemma_digit((value % 10) as int);
    assert(text.last() == digit((value % 10) as int));
    if value < 10 {
        assert(text.drop_last() =~= Seq::empty());
        assert(digits_value(text.drop_last()) == 0);
    } else {
        assert(text.drop_last() =~= decimal_nat(value / 10));
        lemma_decimal_nat_reads_back(value / 10);
        lemma_decimal_nat_digits(value / 10);
        assert(text[0] == decimal_nat(value / 10)[0]);
    }
}

/// The text is a row of decimal digits that gives this number, without a leading zero.
pub open spec fn reads_as(text: Seq<char>, value: int) -> bool {
    &&& text.len() > 0
    &&& forall|i: int| 0 <= i < text.len() ==> '0' <= #[trigger] text[i] <= '9'
    &&& text.len() > 1 ==> text[0] != '0'
    &&& digits_value(text) == value
}

/// A decimal text reads as the number it was made of: digits that give its magnitude, behind a
/// minus sign exactly where the number is negative.
pub proof fn law_decimal_reads_back(value: int)
    ensures
        value >= 0 ==> reads_as(decimal(value), value),
        value < 0 ==> decimal(value).len() > 0 && decimal(value)[0] == '-' && reads_as(
            decimal(value).skip(1),
            -value,
        ),
{
    let magnitude = (if value < 0 {
        -value
    } else {
        value
    }) as nat;
    lemma_decimal_nat_digits(magnitude);
    lemma_decimal_nat_reads_back(magnitude);
    if value < 0 {
        assert(decimal(value).skip(1) =~= decimal_nat(magnitude));
    }
}

/// The number that a lower-case hexadecimal digit stands for.
pub open spec fn hex_value(c: char) -> int {
    if '0' <= c <= '9' {
        c as int - '0' as int
    } else {
        c as int - 'a' as int + 10
    }
}

/// A hexadecimal text reads as the bytes it was made of: two digits a byte, the high one first,
/// and nothing but the digits `0` to `9` and `a` to `f`.
pub proof fn law_hex_reads_back(bytes: Seq<u8>)
    ensures
        hex_lower(bytes).len() == 2 * bytes.len(),
        forall|i: int|
            0 <= i < hex_lower(bytes).len() ==> '0' <= #[trigger] hex_lower(bytes)[i] <= '9'
                || 'a' <= hex_lower(bytes)[i] <= 'f',
        forall|i: int|
            0 <= i < bytes.len() ==> #[trigger] bytes[i] == 16 * hex_value(
                hex_lower(bytes)[2 * i],
            ) + hex_value(hex_lower(bytes)[2 * i + 1]),
{
    lemma_hex_lower_digits(bytes);
    assert forall|i: int| 0 <= i < bytes.len() implies #[trigger] bytes[i] == 16 * hex_value(
        hex_lower(bytes)[2 * i],
    ) + hex_value(hex_lower(bytes)[2 * i + 1]) by {
        let high = 2 * i;
        let low = 2 * i + 1;
        assert(high % 2 == 0 && high / 2 == i && low % 2 == 1 && low / 2 == i);
        assert(hex_lower(bytes)[high] == hex_digit(bytes[i] as int / 16));
        assert(hex_lower(bytes)[low] == hex_digit(bytes[i] as int % 16));
        lemma_hex_digit(bytes[i] as int / 16);
        lemma_hex_digit(bytes[i] as int % 16);
    }
}

} // verus!
