//! The decimal and hexadecimal spellings of numbers.

use vstd::prelude::*;

use crate::text::chars_of;

verus! {

/// The decimal digit of `d`.
pub open spec fn digit(d: nat) -> char {
    (48 + d) as char
}

/// The decimal spelling of `n`, without leading zeros.
pub open spec fn decimal(n: nat) -> Seq<char>
    decreases n,
{
    if n < 10 {
        seq![digit(n)]
    } else {
        decimal(n / 10).push(digit(n % 10))
    }
}

/// The decimal spelling of `n`, with a minus sign where it is negative.
pub open spec fn signed(n: int) -> Seq<char> {
    if n < 0 {
        seq!['-'] + decimal((-n) as nat)
    } else {
        decimal(n as nat)
    }
}

/// `n` zeros.
pub open spec fn zeros(n: nat) -> Seq<char> {
    Seq::new(n, |i: int| '0')
}

/// The decimal spelling of `n`, filled up with zeros to `width` characters.
pub open spec fn padded(n: nat, width: nat) -> Seq<char> {
    if decimal(n).len() >= width {
        decimal(n)
    } else {
        zeros((width - decimal(n).len()) as nat) + decimal(n)
    }
}

/// A digit is a digit, and different digits look different.
pub proof fn lemma_digit(a: nat, b: nat)
    requires
        a < 10,
        b < 10,
    ensures
        '0' <= digit(a) <= '9',
        digit(a) == digit(b) ==> a == b,
{
    assert(digit(a) as int == 48 + a);
    assert(digit(b) as int == 48 + b);
}

/// A decimal spelling holds digits only, and at least one.
pub proof fn lemma_decimal_digits(n: nat)
    ensures
        decimal(n).len() > 0,
        forall|i: int| 0 <= i < decimal(n).len() ==> '0' <= #[trigger] decimal(n)[i] <= '9',
    decreases n,
{
    if n < 10 {
        lemma_digit(n, n);
    } else {
        lemma_decimal_digits(n / 10);
        lemma_digit(n % 10, n % 10);
    }
}

/// Numbers with the same decimal spelling are the same.
pub proof fn lemma_decimal_injective(a: nat, b: nat)
    requires
        decimal(a) == decimal(b),
    ensures
        a == b,
    decreases a,
{
    if a < 10 && b < 10 {
        lemma_digit(a, b);
        assert(decimal(a)[0] == digit(a));
        assert(decimal(b)[0] == digit(b));
    } else if a >= 10 && b >= 10 {
        assert(decimal(a).drop_last() =~= decimal(a / 10));
        assert(decimal(b).drop_last() =~= decimal(b / 10));
        assert(decimal(a).last() == digit(a % 10));
        assert(decimal(b).last() == digit(b % 10));
        lemma_digit(a % 10, b % 10);
        lemma_decimal_injective(a / 10, b / 10);
    } else if a >= 10 {
        lemma_decimal_digits(a / 10);
        assert(decimal(a).len() >= 2);
        assert(decimal(b).len() == 1);
    } else {
        lemma_decimal_digits(b / 10);
        assert(decimal(b).len() >= 2);
        assert(decimal(a).len() == 1);
    }
}

/// The decimal digit of `d`.
fn digit_char(d: u64) -> (c: char)
    requires
        d < 10,
    ensures
        c == digit(d as nat),
{
    (48u8 + d as u8) as char
}

/// The decimal spelling of `n`.
pub fn decimal_text(n: u64) -> (text: String)
    ensures
        text@ == decimal(n as nat),
    decreases n,
{
    if n < 10 {
        let mut text: String = String::new();
        text.push(digit_char(n));
        assert(text@ =~= seq![digit(n as nat)]);
        text
    } else {
        let mut text: String = decimal_text(n / 10);
        text.push(digit_char(n % 10));
        text
    }
}

/// The decimal spelling of `n`, with a minus sign where it is negative.
pub fn signed_text(n: i64) -> (text: String)
    ensures
        text@ == signed(n as int),
{
    if n < 0 {
        let mut text: String = String::new();
        text.push('-');
        let size: u64 = (-(n as i128)) as u64;
        text.append(decimal_text(size).as_str());
        assert(text@ =~= seq!['-'] + decimal((-(n as int)) as nat));
        text
    } else {
        decimal_text(n as u64)
    }
}

/// The decimal spelling of `n`, filled up with zeros to `width` characters.
pub fn padded_text(n: u64, width: usize) -> (text: String)
    ensures
        text@ == padded(n as nat, width as nat),
{
    let plain: String = decimal_text(n);
    let len: usize = chars_of(plain.as_str()).len();
    if len >= width {
        return plain;
    }
    let mut text: String = String::new();
    let mut i: usize = 0;
    while i < width - len
        invariant
            len < width,
            i <= width - len,
            text@ == zeros(i as nat),
        decreases width - len - i,
    {
        text.push('0');
        assert(text@ =~= zeros((i + 1) as nat));
        i += 1;
    }
    text.append(plain.as_str());
    text
}

// ---- Reading numbers -----------------------------------------------------------

/// The value of a digit in bases up to sixteen.
pub open spec fn digit_value(c: char) -> Option<nat> {
    let n: int = c as int;
    if 48 <= n <= 57 {
        Some((n - 48) as nat)
    } else if 97 <= n <= 102 {
        Some((n - 87) as nat)
    } else if 65 <= n <= 70 {
        Some((n - 55) as nat)
    } else {
        None
    }
}

/// The number that digits spell in the base `radix`; `None` where one of the
/// characters is no digit of that base.
pub open spec fn digits_value(digits: Seq<char>, radix: nat) -> Option<nat>
    decreases digits.len(),
{
    if digits.len() == 0 {
        Some(0)
    } else {
        match (digits_value(digits.drop_last(), radix), digit_value(digits.last())) {
            (Some(high), Some(low)) => if low < radix {
                Some(high * radix + low)
            } else {
                None
            },
            _ => None,
        }
    }
}

/// The digits of a spelled number: what follows an optional plus sign.
pub open spec fn digits_of(text: Seq<char>) -> Seq<char> {
    if text.len() > 0 && text[0] == '+' {
        text.skip(1)
    } else {
        text
    }
}

/// The number that `text` spells in the base `radix`, when it spells one that is
/// at most `max`: an optional plus sign, then at least one digit and nothing else.
pub open spec fn number(text: Seq<char>, radix: nat, max: nat) -> Option<nat> {
    if digits_of(text).len() == 0 {
        None
    } else {
        match digits_value(digits_of(text), radix) {
            Some(value) => if value <= max {
                Some(value)
            } else {
                None
            },
            None => None,
        }
    }
}

/// More digits never make a number smaller, and never mend a wrong one.
proof fn lemma_digits_grow(digits: Seq<char>, radix: nat, k: int)
    requires
        0 <= k <= digits.len(),
        radix > 0,
    ensures
        digits_value(digits.take(k), radix) is None ==> digits_value(digits, radix) is None,
        digits_value(digits, radix) matches Some(all) ==> (digits_value(
            digits.take(k),
            radix,
        ) matches Some(part) && part <= all),
    decreases digits.len() - k,
{
    if k < digits.len() {
        lemma_digits_grow(digits, radix, k + 1);
        let longer = digits.take(k + 1);
        assert(longer.drop_last() =~= digits.take(k));
        if let Some(high) = digits_value(digits.take(k), radix) {
            assert(high * radix >= high) by (nonlinear_arith)
                requires
                    radix > 0,
                    high >= 0,
            ;
        }
    } else {
        assert(digits.take(k) =~= digits);
    }
}

/// The value of a digit in bases up to sixteen.
pub fn digit_of(c: char) -> (value: Option<u8>)
    ensures
        match value {
            Some(v) => digit_value(c) == Some(v as nat) && v < 16,
            None => digit_value(c) is None,
        },
{
    if '0' <= c && c <= '9' {
        Some(c as u8 - 48)
    } else if 'a' <= c && c <= 'f' {
        Some(c as u8 - 87)
    } else if 'A' <= c && c <= 'F' {
        Some(c as u8 - 55)
    } else {
        None
    }
}

/// The number that `text` spells in the base `radix`, when it spells one that
/// fits.
pub fn parse_number(text: &str, radix: u8) -> (value: Option<usize>)
    requires
        2 <= radix <= 16,
    ensures
        match value {
            Some(v) => number(text@, radix as nat, usize::MAX as nat) == Some(v as nat),
            None => number(text@, radix as nat, usize::MAX as nat) is None,
        },
{
    let chars: Vec<char> = chars_of(text);
    let start: usize = if chars.len() > 0 && chars[0] == '+' {
        1
    } else {
        0
    };
    let ghost digits = digits_of(text@);
    assert(digits =~= chars@.skip(start as int));
    if start == chars.len() {
        return None;
    }
    let mut total: usize = 0;
    let mut i: usize = start;
    assert(digits.take(0) =~= Seq::<char>::empty());
    while i < chars.len()
        invariant
            2 <= radix <= 16,
            start <= i <= chars@.len(),
            start <= 1,
            digits == chars@.skip(start as int),
            digits == digits_of(text@),
            digits.len() > 0,
            digits_value(digits.take(i - start), radix as nat) == Some(total as nat),
        decreases chars@.len() - i,
    {
        let ghost longer = digits.take(i - start + 1);
        proof {
            assert(longer.drop_last() =~= digits.take(i - start));
            assert(longer.last() == chars@[i as int]);
            lemma_digits_grow(digits, radix as nat, i - start + 1);
        }
        let low: u8 = match digit_of(chars[i]) {
            Some(v) => v,
            None => {
                return None;
            },
        };
        if low >= radix {
            return None;
        }
        let scaled: usize = match total.checked_mul(radix as usize) {
            Some(v) => v,
            None => {
                return None;
            },
        };
        let sum: usize = match scaled.checked_add(low as usize) {
            Some(v) => v,
            None => {
                return None;
            },
        };
        total = sum;
        i += 1;
    }
    assert(digits.take(i - start) =~= digits);
    Some(total)
}

// ---- Laws ---------------------------------------------------------------------------------

/// The digits are spelled from `0` to `9`, and those above nine from `a` to `f`, in either
/// case.
pub proof fn law_a_digit_is_its_character(n: nat)
    requires
        n < 16,
    ensures
        n < 10 ==> digit(n) == "0123456789"@[n as int],
        n < 10 ==> decimal(n) == seq!["0123456789"@[n as int]],
        digit_value("0123456789abcdef"@[n as int]) == Some(n),
        digit_value("0123456789ABCDEF"@[n as int]) == Some(n),
        n == 1 ==> decimal(n) == "1"@,
        n == 0 ==> decimal(n) == "0"@,
{
    reveal_strlit("0123456789");
    reveal_strlit("0123456789abcdef");
    reveal_strlit("0123456789ABCDEF");
    reveal_strlit("1");
    reveal_strlit("0");
    if n < 10 {
        assert(digit(n) as int == 48 + n);
        assert("0123456789"@[n as int] as int == 48 + n);
        assert(decimal(n) =~= seq!["0123456789"@[n as int]]);
    }
    assert(n == 1 ==> decimal(n) =~= "1"@);
    assert(n == 0 ==> decimal(n) =~= "0"@);
}

/// A number is read back from its spelling, also where that is filled up with zeros: the
/// spelling is at least as long as asked for.
pub proof fn law_a_number_is_read_back(n: nat, width: nat, max: nat)
    requires
        n <= max,
    ensures
        digits_value(decimal(n), 10) == Some(n),
        number(decimal(n), 10, max) == Some(n),
        digits_value(padded(n, width), 10) == Some(n),
        padded(n, width).len() >= width,
        decimal(n).len() >= width ==> padded(n, width) == decimal(n),
        decimal(n).len() < width ==> padded(n, width).len() == width,
{
    lemma_read_back(n);
    lemma_decimal_digits(n);
    assert('0' <= decimal(n)[0] <= '9');
    assert(digits_of(decimal(n)) == decimal(n));
    if decimal(n).len() < width {
        lemma_zeros_in_front((width - decimal(n).len()) as nat, decimal(n));
    }
}

proof fn lemma_read_back(n: nat)
    ensures
        digits_value(decimal(n), 10) == Some(n),
    decreases n,
{
    if n < 10 {
        reveal_with_fuel(digits_value, 2);
        assert(digit(n) as int == 48 + n);
        assert(decimal(n).drop_last() =~= Seq::empty());
    } else {
        lemma_read_back(n / 10);
        assert(decimal(n).drop_last() =~= decimal(n / 10));
        assert(digit(n % 10) as int == 48 + n % 10);
    }
}

proof fn lemma_zeros_in_front(k: nat, digits: Seq<char>)
    ensures
        digits_value(zeros(k), 10) == Some(0nat),
        digits_value(zeros(k) + digits, 10) == digits_value(digits, 10),
    decreases k, digits.len(),
{
    if digits.len() == 0 {
        assert(zeros(k) + digits =~= zeros(k));
        if k > 0 {
            assert(zeros(k).drop_last() =~= zeros((k - 1) as nat));
            lemma_zeros_in_front((k - 1) as nat, digits);
        }
    } else {
        lemma_zeros_in_front(k, digits.drop_last());
        assert((zeros(k) + digits).drop_last() =~= zeros(k) + digits.drop_last());
    }
}

/// A negative number is spelled as the positive one behind a minus sign.
pub proof fn law_a_minus_sign_stands_in_front(n: int)
    requires
        n > 0,
    ensures
        signed(n) == decimal(n as nat),
        signed(-n) == "-"@ + decimal(n as nat),
        signed(0) == "0"@,
{
    reveal_strlit("-");
    reveal_strlit("0");
    assert(signed(-n) =~= "-"@ + decimal(n as nat));
    assert(digit(0) as int == 48);
    assert(signed(0) =~= "0"@);
}

/// Digits are read from the left, each place the base times the next.
pub proof fn law_digits_are_read_by_place(
    digits: Seq<char>,
    c: char,
    high: nat,
    low: nat,
    radix: nat,
)
    requires
        digits_value(digits, radix) == Some(high),
        digit_value(c) == Some(low),
    ensures
        low < radix ==> digits_value(digits.push(c), radix) == Some(high * radix + low),
        low >= radix ==> digits_value(digits.push(c), radix) is None,
        digits_value(Seq::<char>::empty(), radix) == Some(0nat),
{
    assert(digits.push(c).drop_last() =~= digits);
}

} // verus!
