//! Decimal rendering of unsigned numbers, as characters.
//!
//! The logger's error codes and timestamps, and the anchor's links, are all
//! built from zero-padded or plain decimal fields.  This module defines the
//! mathematical form of both renderings, executable builders that are proved
//! to match them, and the injectivity lemmas that the error-code uniqueness
//! law rests on.

use vstd::prelude::*;

verus! {

/// The character for one decimal digit (`d` below ten).
pub open spec fn digit_char(d: int) -> char {
    if d == 0 {
        '0'
    } else if d == 1 {
        '1'
    } else if d == 2 {
        '2'
    } else if d == 3 {
        '3'
    } else if d == 4 {
        '4'
    } else if d == 5 {
        '5'
    } else if d == 6 {
        '6'
    } else if d == 7 {
        '7'
    } else if d == 8 {
        '8'
    } else {
        '9'
    }
}

/// `n` in decimal, zero padded on the left to exactly `width` characters.
/// Digits above the given width are dropped, so the rendering is faithful
/// only when `n < 10^width`.
pub open spec fn padded(n: nat, width: nat) -> Seq<char>
    decreases width,
{
    if width == 0 {
        Seq::empty()
    } else {
        padded(n / 10, (width - 1) as nat).push(digit_char((n % 10) as int))
    }
}

/// `n` in plain decimal, without padding or leading zeros.
pub open spec fn plain_decimal(n: nat) -> Seq<char>
    decreases n,
{
    if n < 10 {
        seq![digit_char(n as int)]
    } else {
        plain_decimal(n / 10).push(digit_char((n % 10) as int))
    }
}

/// Ten to the `k`.
pub open spec fn pow10(k: nat) -> nat
    decreases k,
{
    if k == 0 {
        1
    } else {
        10 * pow10((k - 1) as nat)
    }
}

/// Whether `c` is a decimal digit character.
pub open spec fn is_decimal_digit(c: char) -> bool {
    ||| c == '0'
    ||| c == '1'
    ||| c == '2'
    ||| c == '3'
    ||| c == '4'
    ||| c == '5'
    ||| c == '6'
    ||| c == '7'
    ||| c == '8'
    ||| c == '9'
}

/// A padded rendering consists of decimal digits alone.
pub proof fn lemma_padded_digits(n: nat, width: nat)
    ensures
        forall|i: int|
            0 <= i < padded(n, width).len() ==> is_decimal_digit(#[trigger] padded(n, width)[i]),
    decreases width,
{
    if width > 0 {
        lemma_padded_digits(n / 10, (width - 1) as nat);
        let p = padded(n / 10, (width - 1) as nat);
        let c = digit_char((n % 10) as int);
        assert forall|i: int| 0 <= i < padded(n, width).len() implies is_decimal_digit(
            #[trigger] padded(n, width)[i],
        ) by {
            if i < p.len() {
                assert(padded(n, width)[i] == p[i]);
            } else {
                assert(padded(n, width)[i] == c);
            }
        };
    }
}

/// A padded rendering always has exactly its width.
pub proof fn lemma_padded_len(n: nat, width: nat)
    ensures
        padded(n, width).len() == width,
    decreases width,
{
    if width > 0 {
        lemma_padded_len(n / 10, (width - 1) as nat);
    }
}

/// Distinct digits render as distinct characters.
proof fn lemma_digit_char_injective(a: int, b: int)
    requires
        0 <= a < 10,
        0 <= b < 10,
        digit_char(a) == digit_char(b),
    ensures
        a == b,
{
}

/// Within its width, a padded rendering determines the number: two numbers
/// below `10^width` with the same rendering are equal.
pub proof fn lemma_padded_injective(a: nat, b: nat, width: nat)
    requires
        a < pow10(width),
        b < pow10(width),
        padded(a, width) == padded(b, width),
    ensures
        a == b,
    decreases width,
{
    if width == 0 {
        assert(a == 0 && b == 0);
    } else {
        let pa = padded(a / 10, (width - 1) as nat);
        let pb = padded(b / 10, (width - 1) as nat);
        assert(pa.push(digit_char((a % 10) as int)) == pb.push(digit_char((b % 10) as int)));
        lemma_padded_len(a / 10, (width - 1) as nat);
        lemma_padded_len(b / 10, (width - 1) as nat);
        assert(pa.push(digit_char((a % 10) as int)).last() == digit_char((a % 10) as int));
        assert(pb.push(digit_char((b % 10) as int)).last() == digit_char((b % 10) as int));
        lemma_digit_char_injective((a % 10) as int, (b % 10) as int);
        assert(pa =~= pa.push(digit_char((a % 10) as int)).drop_last());
        assert(pb =~= pb.push(digit_char((b % 10) as int)).drop_last());
        assert(a / 10 < pow10((width - 1) as nat)) by {
            assert(pow10(width) == 10 * pow10((width - 1) as nat));
        };
        assert(b / 10 < pow10((width - 1) as nat)) by {
            assert(pow10(width) == 10 * pow10((width - 1) as nat));
        };
        lemma_padded_injective(a / 10, b / 10, (width - 1) as nat);
        assert(a == 10 * (a / 10) + a % 10);
        assert(b == 10 * (b / 10) + b % 10);
    }
}

/// Appends the character for one digit to `out`.
pub fn push_digit(out: &mut String, d: u32)
    requires
        d < 10,
    ensures
        final(out)@ == old(out)@.push(digit_char(d as int)),
{
    proof {
        reveal_strlit("0");
        reveal_strlit("1");
        reveal_strlit("2");
        reveal_strlit("3");
        reveal_strlit("4");
        reveal_strlit("5");
        reveal_strlit("6");
        reveal_strlit("7");
        reveal_strlit("8");
        reveal_strlit("9");
    }
    if d == 0 {
        out.append("0");
    } else if d == 1 {
        out.append("1");
    } else if d == 2 {
        out.append("2");
    } else if d == 3 {
        out.append("3");
    } else if d == 4 {
        out.append("4");
    } else if d == 5 {
        out.append("5");
    } else if d == 6 {
        out.append("6");
    } else if d == 7 {
        out.append("7");
    } else if d == 8 {
        out.append("8");
    } else {
        out.append("9");
    }
    proof {
        assert(final(out)@ =~= old(out)@.push(digit_char(d as int)));
    }
}

/// Appends `n` zero padded to `width` characters.
pub fn push_padded(out: &mut String, n: u32, width: u32)
    ensures
        final(out)@ == old(out)@ + padded(n as nat, width as nat),
    decreases width,
{
    if width == 0 {
        proof {
            assert(final(out)@ =~= old(out)@ + padded(n as nat, 0));
        }
    } else {
        push_padded(out, n / 10, width - 1);
        push_digit(out, n % 10);
        proof {
            assert(final(out)@ =~= old(out)@ + padded(n as nat, width as nat));
        }
    }
}

/// Appends `n` in plain decimal.
pub fn push_plain_decimal(out: &mut String, n: u64)
    ensures
        final(out)@ == old(out)@ + plain_decimal(n as nat),
    decreases n,
{
    if n < 10 {
        push_digit(out, n as u32);
        proof {
            assert(final(out)@ =~= old(out)@ + plain_decimal(n as nat));
        }
    } else {
        push_plain_decimal(out, n / 10);
        push_digit(out, (n % 10) as u32);
        proof {
            assert(final(out)@ =~= old(out)@ + plain_decimal(n as nat));
        }
    }
}

} // verus!
