//! Decimal text, padded with zeros to a least width.

use vstd::prelude::*;

verus! {

/// `String::push` appends one character to the end of the string.
pub assume_specification[ String::push ](s: &mut String, c: char)
    ensures
        final(s)@ == old(s)@.push(c),
;

/// The decimal digit of value `d`.
pub open spec fn digit(d: int) -> char {
    ('0' as int + d) as char
}

/// `n` in decimal, without leading zeros.
pub open spec fn digits(n: nat) -> Seq<char>
    decreases n,
{
    if n < 10 {
        seq![digit(n as int)]
    } else {
        digits(n / 10).push(digit(n as int % 10))
    }
}

/// `n` zeros.
pub open spec fn zeros(n: nat) -> Seq<char> {
    Seq::new(n, |i: int| '0')
}

/// `n` in decimal, with leading zeros up to `width` characters.
pub open spec fn filled(n: nat, width: nat) -> Seq<char> {
    zeros(
        if digits(n).len() < width {
            (width - digits(n).len()) as nat
        } else {
            0
        },
    ) + digits(n)
}

/// `value` in decimal, with zeros between the sign and the digits up to `width` characters
/// in all. A value that needs more characters gets them.
pub open spec fn padded(value: int, width: nat) -> Seq<char> {
    if value < 0 {
        seq!['-'] + filled(
            (-value) as nat,
            if width == 0 {
                0
            } else {
                (width - 1) as nat
            },
        )
    } else {
        filled(value as nat, width)
    }
}

/// Every number has at least one digit, and `n` digits hold the numbers below ten to the `n`:
/// two digits those below a hundred, four digits those below ten thousand.
pub proof fn law_digit_count(n: nat)
    ensures
        digits(n).len() >= 1,
        n < 100 <==> digits(n).len() <= 2,
        n < 10_000 <==> digits(n).len() <= 4,
{
    reveal_with_fuel(digits, 5);
    lemma_digits_nonempty(n / 10);
    lemma_digits_nonempty(n / 100);
    lemma_digits_nonempty(n / 1000);
    lemma_digits_nonempty(n / 10_000);
    assert(n / 10 / 10 == n / 100);
    assert(n / 100 / 10 == n / 1000);
    assert(n / 1000 / 10 == n / 10_000);
}

proof fn lemma_digits_nonempty(n: nat)
    ensures
        digits(n).len() >= 1,
{
}

/// Appends to `out` the digits of `n`, with leading zeros up to `width` characters.
fn push_filled(out: &mut String, n: u64, width: usize)
    ensures
        final(out)@ == old(out)@ + filled(n as nat, width as nat),
    decreases n, width,
{
    if n >= 10 {
        push_filled(
            out,
            n / 10,
            if width == 0 {
                0
            } else {
                width - 1
            },
        );
    } else if width > 1 {
        push_zeros(out, width - 1);
    }
    let d: u8 = (n % 10) as u8;
    out.push((48 + d) as char);
    proof {
        lemma_digits_nonempty(n as nat / 10);
    }
    assert(out@ == old(out)@ + filled(n as nat, width as nat));
}

/// Appends `n` zeros to `out`.
fn push_zeros(out: &mut String, n: usize)
    ensures
        final(out)@ == old(out)@ + zeros(n as nat),
{
    for i in 0..n
        invariant
            out@ == old(out)@ + zeros(i as nat),
    {
        out.push('0');
        assert(out@ == old(out)@ + zeros((i + 1) as nat));
    }
}

/// Appends to `out` the decimal text of `value`, padded with zeros to `width` characters.
pub fn push_padded(out: &mut String, value: i32, width: usize)
    ensures
        final(out)@ == old(out)@ + padded(value as int, width as nat),
{
    if value < 0 {
        out.push('-');
        push_filled(
            out,
            (-(value as i64)) as u64,
            if width == 0 {
                0
            } else {
                width - 1
            },
        );
    } else {
        push_filled(out, value as u64, width);
    }
    assert(out@ == old(out)@ + padded(value as int, width as nat));
}

/// A number below ten is written as its digit, and a digit behind a number is written behind
/// the text of the number.
pub proof fn law_digits_are_appended(n: nat, d: int)
    requires
        0 <= d < 10,
    ensures
        digits(d as nat) == seq![(48 + d) as char],
        n > 0 ==> digits((10 * n + d) as nat) == digits(n).push((48 + d) as char),
{
    if n > 0 {
        let whole = (10 * n + d) as nat;
        assert(whole / 10 == n && whole % 10 == d);
    }
}

/// A number that is as wide as asked for, or wider, is its digits. A narrower one has zeros in
/// front of them, and is as wide as asked for.
pub proof fn law_padding_fills_with_zeros(n: nat, width: nat)
    ensures
        digits(n).len() >= width ==> padded(n as int, width) == digits(n),
        digits(n).len() < width ==> {
            let missing = width - digits(n).len();
            &&& padded(n as int, width).len() == width
            &&& padded(n as int, width).skip(missing) == digits(n)
            &&& forall|i: int| 0 <= i < missing ==> #[trigger] padded(n as int, width)[i] == '0'
        },
{
    if digits(n).len() >= width {
        assert(padded(n as int, width) == digits(n));
    } else {
        let missing = width - digits(n).len();
        assert(padded(n as int, width).skip(missing) == digits(n));
    }
}

/// A negative number has its sign in front of the number without it, which is one narrower.
pub proof fn law_padding_puts_the_sign_first(n: nat, width: nat)
    requires
        n > 0,
    ensures
        width > 0 ==> padded(-n, width) == seq!['-'] + padded(n as int, (width - 1) as nat),
        padded(-n, 0) == seq!['-'] + digits(n),
{
    assert(zeros(0) + digits(n) == digits(n));
}

/// A number below a hundred, padded to two characters, is its two digits.
pub proof fn law_two_digits(n: int)
    requires
        0 <= n < 100,
    ensures
        padded(n, 2).len() == 2,
        padded(n, 2)[0] as int == 48 + n / 10,
        padded(n, 2)[1] as int == 48 + n % 10,
{
    reveal_with_fuel(digits, 3);
}

/// A number below ten thousand, padded to four characters, is its four digits.
pub proof fn law_four_digits(n: int)
    requires
        0 <= n < 10_000,
    ensures
        padded(n, 4).len() == 4,
        padded(n, 4)[0] as int == 48 + n / 1000,
        padded(n, 4)[1] as int == 48 + n / 100 % 10,
        padded(n, 4)[2] as int == 48 + n / 10 % 10,
        padded(n, 4)[3] as int == 48 + n % 10,
{
    reveal_with_fuel(digits, 5);
    assert(n / 10 / 10 == n / 100);
    assert(n / 100 / 10 == n / 1000);
}

} // verus!
