//! Numbers written in decimal and hexadecimal, and read back.
use vstd::prelude::*;
use vstd::slice::slice_subrange;
use crate::text::chars_of;

verus! {

// ---------------------------------------------------------------------------
// Writing
// ---------------------------------------------------------------------------

/// The decimal digit of a number below ten.
pub open spec fn decimal_digit(n: nat) -> char {
    (('0' as nat) + n) as char
}

/// The decimal form of a number, without leading zeros.
pub open spec fn decimal(n: nat) -> Seq<char>
    decreases n,
{
    if n < 10 {
        seq![decimal_digit(n)]
    } else {
        decimal(n / 10).push(decimal_digit(n % 10))
    }
}

/// The lower-case hexadecimal digit of a number below sixteen.
pub open spec fn hex_digit(n: nat) -> char {
    if n < 10 {
        decimal_digit(n)
    } else {
        (('a' as nat) + n - 10) as char
    }
}

/// The last `width` hexadecimal digits of a number, leading zeros included.
pub open spec fn hex(n: nat, width: nat) -> Seq<char>
    decreases width,
{
    if width == 0 {
        Seq::empty()
    } else {
        hex(n / 16, (width - 1) as nat).push(hex_digit(n % 16))
    }
}

fn digit_char(n: u64) -> (c: char)
    requires
        n < 10,
    ensures
        c == decimal_digit(n as nat),
{
    ('0' as u8 + n as u8) as char
}

fn hex_char(n: u64) -> (c: char)
    requires
        n < 16,
    ensures
        c == hex_digit(n as nat),
{
    if n < 10 {
        digit_char(n)
    } else {
        ('a' as u8 + (n - 10) as u8) as char
    }
}

/// Appends the decimal form of `n`.
pub fn push_decimal(out: &mut String, n: u64)
    ensures
        final(out)@ == old(out)@ + decimal(n as nat),
    decreases n,
{
    if n >= 10 {
        push_decimal(out, n / 10);
    }
    out.push(digit_char(n % 10));
    proof {
        if n < 10 {
            assert(final(out)@ =~= old(out)@ + decimal(n as nat));
        } else {
            assert(final(out)@ =~= old(out)@ + decimal(n as nat));
        }
    }
}

/// Appends the decimal form of `n`, which may be beyond 64 bits.
pub fn push_large(out: &mut String, n: u128)
    ensures
        final(out)@ == old(out)@ + decimal(n as nat),
    decreases n,
{
    if n >= 10 {
        push_large(out, n / 10);
    }
    out.push(digit_char((n % 10) as u64));
    assert(final(out)@ =~= old(out)@ + decimal(n as nat));
}

/// Appends the last `width` hexadecimal digits of `n`.
pub fn push_hex(out: &mut String, n: u64, width: u32)
    ensures
        final(out)@ == old(out)@ + hex(n as nat, width as nat),
    decreases width,
{
    if width > 0 {
        push_hex(out, n / 16, width - 1);
        out.push(hex_char(n % 16));
    }
    assert(final(out)@ =~= old(out)@ + hex(n as nat, width as nat));
}

// ---------------------------------------------------------------------------
// Reading
// ---------------------------------------------------------------------------

/// Whether `c` is a decimal digit.
pub open spec fn is_digit(c: char) -> bool {
    '0' <= c <= '9'
}

/// The value of a decimal digit.
pub open spec fn digit_value(c: char) -> nat {
    (c as nat - '0' as nat) as nat
}

/// Whether a text is made of decimal digits alone.
pub open spec fn all_digits(s: Seq<char>) -> bool {
    forall|i: int| 0 <= i < s.len() ==> is_digit(#[trigger] s[i])
}

/// The number that a run of decimal digits stands for.
pub open spec fn decimal_value(s: Seq<char>) -> nat
    decreases s.len(),
{
    if s.len() == 0 {
        0
    } else {
        decimal_value(s.drop_last()) * 10 + digit_value(s.last())
    }
}

/// The number that a text stands for: decimal digits with an optional plus sign before
/// them, and no more than `max`.
pub open spec fn parse_unsigned(s: Seq<char>, max: nat) -> Option<nat> {
    let digits = if s.len() > 0 && s[0] == '+' {
        s.skip(1)
    } else {
        s
    };
    if digits.len() > 0 && all_digits(digits) && decimal_value(digits) <= max {
        Some(decimal_value(digits))
    } else {
        None
    }
}

proof fn lemma_decimal_value_prefix(s: Seq<char>, k: int)
    requires
        0 <= k <= s.len(),
    ensures
        decimal_value(s.take(k)) <= decimal_value(s),
    decreases s.len(),
{
    if k < s.len() {
        lemma_decimal_value_prefix(s.drop_last(), k);
        assert(s.drop_last().take(k) =~= s.take(k));
    } else {
        assert(s.take(k) =~= s);
    }
}

/// The decimal form of a number is made of digits that stand for that number.
pub proof fn lemma_decimal_round_trip(n: nat)
    ensures
        decimal(n).len() > 0,
        all_digits(decimal(n)),
        decimal_value(decimal(n)) == n,
    decreases n,
{
    if n < 10 {
        let s = seq![decimal_digit(n)];
        assert(s.drop_last() =~= Seq::<char>::empty());
        assert(decimal_value(s.drop_last()) == 0);
    } else {
        lemma_decimal_round_trip(n / 10);
        let s = decimal(n);
        assert(s.drop_last() =~= decimal(n / 10));
    }
}

/// Reading the decimal form of a number gives the number back.
pub proof fn lemma_parse_decimal(n: nat, max: nat)
    requires
        n <= max,
    ensures
        parse_unsigned(decimal(n), max) == Some(n),
{
    lemma_decimal_round_trip(n);
    assert(is_digit(decimal(n)[0]));
}

/// Distinct numbers have distinct decimal forms.
pub proof fn lemma_decimal_injective(a: nat, b: nat)
    requires
        decimal(a) == decimal(b),
    ensures
        a == b,
{
    lemma_decimal_round_trip(a);
    lemma_decimal_round_trip(b);
}

/// The number that `chars` stands for, when it fits in 64 bits.
pub fn parse_u64(chars: &[char]) -> (value: Option<u64>)
    ensures
        match value {
            Some(n) => parse_unsigned(chars@, u64::MAX as nat) == Some(n as nat),
            None => parse_unsigned(chars@, u64::MAX as nat) is None,
        },
{
    let total: usize = chars.len();
    let start: usize = if total > 0 && chars[0] == '+' {
        1
    } else {
        0
    };
    let ghost digits = chars@.skip(start as int);
    assert(chars@.skip(0) =~= chars@);
    if start == total {
        return None;
    }
    let mut value: u64 = 0;
    let mut i: usize = start;
    assert(digits.take(0) =~= Seq::<char>::empty());
    while i < total
        invariant
            start <= i <= total,
            total == chars@.len(),
            digits == chars@.skip(start as int),
            digits.len() > 0,
            parse_unsigned(chars@, u64::MAX as nat) == (if all_digits(digits) && decimal_value(
                digits,
            ) <= u64::MAX as nat {
                Some(decimal_value(digits))
            } else {
                None
            }),
            forall|j: int| 0 <= j < i - start ==> is_digit(#[trigger] digits[j]),
            value == decimal_value(digits.take(i - start)),
        decreases total - i,
    {
        let c = chars[i];
        assert(digits[i - start] == c);
        if c < '0' || c > '9' {
            return None;
        }
        let digit: u64 = (c as u32 - '0' as u32) as u64;
        let ghost next = digits.take(i - start + 1);
        proof {
            assert(next.drop_last() =~= digits.take(i - start));
            assert(decimal_value(next) == value * 10 + digit);
            lemma_decimal_value_prefix(digits, i - start + 1);
        }
        if value > (u64::MAX - digit) / 10 {
            assert(value * 10 + digit > u64::MAX);
            return None;
        }
        value = value * 10 + digit;
        i += 1;
    }
    assert(digits.take(total - start) =~= digits);
    Some(value)
}

/// The number that `chars` stands for, when it fits in 32 bits.
pub fn parse_u32(chars: &[char]) -> (value: Option<u32>)
    ensures
        match value {
            Some(n) => parse_unsigned(chars@, u32::MAX as nat) == Some(n as nat),
            None => parse_unsigned(chars@, u32::MAX as nat) is None,
        },
{
    match parse_u64(chars) {
        Some(n) => if n <= u32::MAX as u64 {
            Some(n as u32)
        } else {
            None
        },
        None => None,
    }
}

/// The number that a text stands for, when it fits in 64 bits.
pub fn parse_u64_text(text: &str) -> (value: Option<u64>)
    ensures
        match value {
            Some(n) => parse_unsigned(text@, u64::MAX as nat) == Some(n as nat),
            None => parse_unsigned(text@, u64::MAX as nat) is None,
        },
{
    let chars = chars_of(text);
    parse_u64(chars.as_slice())
}

/// The number that a text stands for, when it fits in 32 bits.
pub fn parse_u32_text(text: &str) -> (value: Option<u32>)
    ensures
        match value {
            Some(n) => parse_unsigned(text@, u32::MAX as nat) == Some(n as nat),
            None => parse_unsigned(text@, u32::MAX as nat) is None,
        },
{
    let chars = chars_of(text);
    parse_u32(chars.as_slice())
}

// ---------------------------------------------------------------------------
// Numbers with a sign
// ---------------------------------------------------------------------------

/// The decimal form of a number, with a minus sign before that of a negative one.
pub open spec fn signed_decimal(n: int) -> Seq<char> {
    if n < 0 {
        seq!['-'] + decimal((-n) as nat)
    } else {
        decimal(n as nat)
    }
}

/// Appends the decimal form of `n`.
pub fn push_signed(out: &mut String, n: i32)
    ensures
        final(out)@ == old(out)@ + signed_decimal(n as int),
{
    if n < 0 {
        out.push('-');
        let size: i64 = -(n as i64);
        push_decimal(out, size as u64);
        assert(final(out)@ =~= old(out)@ + signed_decimal(n as int));
    } else {
        push_decimal(out, n as u64);
    }
}

/// The number that a text stands for: decimal digits with an optional sign before them, within
/// 32 bits.
pub open spec fn parse_signed(s: Seq<char>) -> Option<int> {
    if s.len() > 0 && s[0] == '-' {
        let digits = s.skip(1);
        if digits.len() > 0 && all_digits(digits) && decimal_value(digits) <= 0x8000_0000 {
            Some(-(decimal_value(digits) as int))
        } else {
            None
        }
    } else {
        match parse_unsigned(s, i32::MAX as nat) {
            Some(n) => Some(n as int),
            None => None,
        }
    }
}

/// The number that a text stands for, when it fits in 32 bits with a sign.
pub fn parse_i32_text(text: &str) -> (value: Option<i32>)
    ensures
        match value {
            Some(n) => parse_signed(text@) == Some(n as int),
            None => parse_signed(text@) is None,
        },
{
    let chars = chars_of(text);
    let total: usize = chars.len();
    if total > 0 && chars[0] == '-' {
        let digits = slice_subrange(chars.as_slice(), 1, total);
        assert(digits@ =~= text@.skip(1));
        if total > 1 && chars[1] == '+' {
            assert(!is_digit(digits@[0]));
            return None;
        }
        match parse_u64(digits) {
            Some(n) => if n <= 0x8000_0000 {
                Some((-(n as i64)) as i32)
            } else {
                None
            },
            None => None,
        }
    } else {
        match parse_u64(chars.as_slice()) {
            Some(n) => if n <= i32::MAX as u64 {
                Some(n as i32)
            } else {
                None
            },
            None => None,
        }
    }
}

/// Reading the decimal form of a number gives the number back.
pub proof fn lemma_parse_signed(n: int)
    requires
        i32::MIN <= n <= i32::MAX,
    ensures
        parse_signed(signed_decimal(n)) == Some(n),
{
    if n < 0 {
        lemma_decimal_round_trip((-n) as nat);
        assert(signed_decimal(n).skip(1) =~= decimal((-n) as nat));
    } else {
        lemma_decimal_round_trip(n as nat);
        assert(is_digit(decimal(n as nat)[0]));
        lemma_parse_decimal(n as nat, i32::MAX as nat);
    }
}

// ---------------------------------------------------------------------------
// What these forms amount to
// ---------------------------------------------------------------------------

/// The decimal form of a number is that of its tens with the digit of its ones behind it, and has
/// no zero before it; digits stand for ten times what those before the last stand for, and the
/// last.
pub proof fn law_decimal_form(n: nat, s: Seq<char>, c: char)
    requires
        '0' <= c <= '9',
    ensures
        n < 10 ==> decimal(n).len() == 1 && decimal(n)[0] as u32 == 48 + n,
        n >= 10 ==> decimal(n) == decimal(n / 10) + decimal(n % 10),
        n > 0 ==> decimal(n)[0] != '0',
        decimal_value(Seq::empty()) == 0,
        decimal_value(s.push(c)) == decimal_value(s) * 10 + (c as u32 - 48),
    decreases n,
{
    assert(s.push(c).drop_last() =~= s);
    if n >= 10 {
        law_decimal_form(n / 10, s, c);
        assert(decimal(n) =~= decimal(n / 10) + decimal(n % 10));
        lemma_decimal_round_trip(n / 10);
        assert(decimal(n)[0] == decimal(n / 10)[0]);
    }
}

/// A text is read as a number exactly if it holds decimal digits alone, at least one, behind an
/// optional plus sign, and stands for no more than the largest number.
pub proof fn law_reading_a_number(digits: Seq<char>, max: nat)
    ensures
        digits.len() > 0 && (forall|i: int|
            0 <= i < digits.len() ==> '0' <= #[trigger] digits[i] <= '9') && decimal_value(digits)
            <= max ==> parse_unsigned(digits, max) == Some(decimal_value(digits))
            && parse_unsigned(seq!['+'] + digits, max) == Some(decimal_value(digits)),
        parse_unsigned(digits, max) is Some ==> parse_unsigned(digits, max)->0 <= max
            && digits.len() > 0 && (forall|i: int|
            0 < i < digits.len() ==> '0' <= #[trigger] digits[i] <= '9') && (digits[0] == '+'
            || '0' <= digits[0] <= '9'),
        parse_unsigned(Seq::empty(), max) is None,
        parse_unsigned(seq!['+'], max) is None,
{
    let plus = seq!['+'] + digits;
    assert(plus.skip(1) =~= digits);
    assert(seq!['+'].skip(1) =~= Seq::<char>::empty());
    if digits.len() > 0 && digits[0] != '+' {
        assert(all_digits(digits) <==> forall|i: int|
            0 <= i < digits.len() ==> '0' <= #[trigger] digits[i] <= '9');
    }
    if digits.len() > 0 && digits[0] == '+' {
        assert forall|i: int| 0 < i < digits.len() && all_digits(digits.skip(1)) implies '0'
            <= #[trigger] digits[i] <= '9' by {
            assert(digits.skip(1)[i - 1] == digits[i]);
            assert(is_digit(digits.skip(1)[i - 1]));
        }
    }
}

/// A signed number is written and read like an unsigned one, with a minus sign before it where it
/// is negative.
pub proof fn law_signed_form(n: nat)
    ensures
        signed_decimal(n as int) == decimal(n),
        n > 0 ==> signed_decimal(-(n as int)) == seq!['-'] + decimal(n),
{
}

/// The hexadecimal form of a number has as many digits as were asked for, with the lowest last.
pub proof fn law_hexadecimal_form(n: nat, width: nat)
    ensures
        hex(n, 0) == Seq::<char>::empty(),
        hex(n, width + 1) == hex(n / 16, width) + hex(n % 16, 1),
        n < 10 ==> hex(n, 1)[0] as u32 == 48 + n,
        10 <= n < 16 ==> hex(n, 1)[0] as u32 == 87 + n,
        hex(n, 1).len() == 1,
{
    assert(hex(n, 1) =~= seq![hex_digit(n % 16)]) by {
        assert(hex(n / 16, 0) =~= Seq::<char>::empty());
    }
    assert(hex(n % 16, 1) =~= seq![hex_digit(n % 16)]) by {
        assert(hex((n % 16) / 16, 0) =~= Seq::<char>::empty());
    }
    assert(hex(n, width + 1) =~= hex(n / 16, width) + hex(n % 16, 1));
}

/// A number that is too large is not read, nor is a text with anything but digits behind its sign.
pub proof fn law_number_that_is_not_read(digits: Seq<char>, max: nat, i: int)
    ensures
        decimal_value(digits) > max && digits.len() > 0 && digits[0] != '+' ==> parse_unsigned(
            digits,
            max,
        ) is None,
        decimal_value(digits) > max ==> parse_unsigned(seq!['+'] + digits, max) is None,
        0 < i < digits.len() && !('0' <= digits[i] <= '9') ==> parse_unsigned(digits, max) is None,
{
    let signed = seq!['+'] + digits;
    assert(signed.skip(1) =~= digits);
    if 0 < i < digits.len() && !is_digit(digits[i]) {
        if digits[0] == '+' {
            assert(digits.skip(1)[i - 1] == digits[i]);
        }
    }
}

/// A number with a minus sign is read as a negative one, down to the least that is held; without
/// one it is read as a number that is not negative, up to the largest.
pub proof fn law_reading_a_signed_number(digits: Seq<char>, s: Seq<char>)
    ensures
        digits.len() > 0 && (forall|i: int|
            0 <= i < digits.len() ==> '0' <= #[trigger] digits[i] <= '9') && decimal_value(digits)
            <= 2_147_483_648 ==> parse_signed(seq!['-'] + digits) == Some(
            -(decimal_value(digits) as int),
        ),
        decimal_value(digits) > 2_147_483_648 ==> parse_signed(seq!['-'] + digits) is None,
        (exists|i: int| 0 <= i < digits.len() && !('0' <= #[trigger] digits[i] <= '9'))
            ==> parse_signed(seq!['-'] + digits) is None,
        parse_signed(seq!['-']) is None,
        s.len() == 0 || s[0] != '-' ==> match parse_unsigned(s, 2_147_483_647) {
            Some(n) => parse_signed(s) == Some(n as int),
            None => parse_signed(s) is None,
        },
{
    let signed = seq!['-'] + digits;
    assert(signed[0] == '-');
    assert(signed.skip(1) =~= digits);
    assert(seq!['-'].skip(1) =~= Seq::<char>::empty());
}

} // verus!
