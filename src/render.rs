//! Text building blocks for the tree dumps: characters, decimal numbers and locations.
use vstd::prelude::*;
use crate::needle::Loc;

verus! {

/// Relies on String::push: the character is appended to the string.
#[verifier::external_body]
pub(crate) fn push_char(s: &mut String, c: char)
    ensures
        final(s)@ == old(s)@.push(c),
{
    s.push(c)
}

pub open spec fn digit_char(d: nat) -> char {
    if d < 10 {
        ((d + '0' as nat) as u8) as char
    } else {
        '?'
    }
}

/// The decimal digits of `n`, most significant first, with no leading zero.
pub open spec fn decimal(n: nat) -> Seq<char>
    decreases n,
{
    if n < 10 {
        seq![digit_char(n)]
    } else {
        decimal(n / 10).push(digit_char(n % 10))
    }
}

/// A signed integer in decimal, with a minus sign when negative.
pub open spec fn signed_decimal(n: int) -> Seq<char> {
    if n < 0 {
        seq!['-'] + decimal((-n) as nat)
    } else {
        decimal(n as nat)
    }
}

/// How a location reads: line and column counted from one, as in "3, 7".
pub open spec fn loc_text(l: Loc) -> Seq<char> {
    decimal((l.line + 1) as nat) + ", "@ + decimal((l.character + 1) as nat)
}

/// `s` repeated `n` times.
pub open spec fn repeat(s: Seq<char>, n: nat) -> Seq<char>
    decreases n,
{
    if n == 0 {
        Seq::empty()
    } else {
        repeat(s, (n - 1) as nat) + s
    }
}

/// The digits of `n`, most significant first.
pub fn decimal_digits(n: u128) -> (r: Vec<char>)
    ensures
        r@ == decimal(n as nat),
    decreases n,
{
    let d = (n % 10) as u8;
    let c = (d + 48u8) as char;
    proof {
        assert(c == digit_char((n % 10) as nat));
    }
    if n < 10 {
        vec![c]
    } else {
        let mut r = decimal_digits(n / 10);
        r.push(c);
        r
    }
}

/// Appends `n` in decimal.
pub fn write_decimal(out: &mut String, n: u128)
    ensures
        final(out)@ == old(out)@ + decimal(n as nat),
{
    let digits = decimal_digits(n);
    write_chars(out, &digits);
}

/// Appends `n` in decimal, with a minus sign when negative.
pub fn write_signed(out: &mut String, n: i128)
    ensures
        final(out)@ == old(out)@ + signed_decimal(n as int),
{
    if n < 0 {
        push_char(out, '-');
        let m: u128 = if n == i128::MIN {
            170141183460469231731687303715884105728u128
        } else {
            (-n) as u128
        };
        write_decimal(out, m);
        proof {
            assert(final(out)@ =~= old(out)@ + signed_decimal(n as int));
        }
    } else {
        write_decimal(out, n as u128);
    }
}

/// Appends the characters of `chars` in order.
pub fn write_chars(out: &mut String, chars: &Vec<char>)
    ensures
        final(out)@ == old(out)@ + chars@,
{
    let mut i: usize = 0;
    while i < chars.len()
        invariant
            i <= chars@.len(),
            out@ == old(out)@ + chars@.subrange(0, i as int),
        decreases chars@.len() - i,
    {
        push_char(out, chars[i]);
        i = i + 1;
        proof {
            assert(out@ =~= old(out)@ + chars@.subrange(0, i as int));
        }
    }
    proof {
        assert(chars@.subrange(0, i as int) =~= chars@);
    }
}

/// Appends `style` `n` times.
pub fn write_repeat(out: &mut String, style: &str, n: usize)
    ensures
        final(out)@ == old(out)@ + repeat(style@, n as nat),
{
    let mut i: usize = 0;
    while i < n
        invariant
            i <= n,
            out@ == old(out)@ + repeat(style@, i as nat),
        decreases n - i,
    {
        out.append(style);
        i = i + 1;
        proof {
            assert(out@ =~= old(out)@ + repeat(style@, i as nat));
        }
    }
}

/// Appends a location as "line, column", both counted from one.
pub fn write_loc(out: &mut String, l: Loc)
    ensures
        final(out)@ == old(out)@ + loc_text(l),
{
    write_decimal(out, l.line as u128 + 1);
    out.append(", ");
    write_decimal(out, l.character as u128 + 1);
    proof {
        assert(final(out)@ =~= old(out)@ + loc_text(l));
    }
}

} // verus!
