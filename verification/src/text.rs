//! Verified text building: appending characters, decimal rendering of
//! integers, and quote escaping for statement literals.

use vstd::prelude::*;
use vstd::utf8::is_scalar;

verus! {

/// Relies on `String::push`: appends the one character to the end.
#[verifier::external_body]
pub(crate) fn push_char(s: &mut String, c: char)
    ensures
        final(s)@ == old(s)@.push(c),
{
    s.push(c);
}

/// Relies on `char::from_u32`: `Some(c)` with `c as u32 == u` exactly
/// when `u` is a Unicode scalar value (not a surrogate, at most
/// 0x10FFFF), else `None`.
#[verifier::external_body]
pub(crate) fn char_from_u32(u: u32) -> (r: Option<char>)
    ensures
        r == (if is_scalar(u) {
            Some(u as char)
        } else {
            None::<char>
        }),
{
    char::from_u32(u)
}

/// The decimal digit character for a value below ten.
pub open spec fn spec_digit(d: nat) -> char {
    if d == 0 {
        '0'
    } else if d == 1 {
        '1'
    } else if d == 2 {
        '2'
    } else if d == 3 {
        '3'
    } else if d == 4 {
        '4'
    } else if d == 5 {
        '5'
    } else if d == 6 {
        '6'
    } else if d == 7 {
        '7'
    } else if d == 8 {
        '8'
    } else {
        '9'
    }
}

/// The decimal digits of `n`, most significant first, with no sign and no
/// leading zero (a single `'0'` for zero).
pub open spec fn spec_u64_digits(n: nat) -> Seq<char>
    decreases n,
{
    if n < 10 {
        seq![spec_digit(n)]
    } else {
        spec_u64_digits(n / 10).push(spec_digit(n % 10))
    }
}

/// The decimal rendering of a signed value: a leading `'-'` for a
/// negative one, then the digits of its magnitude.
pub open spec fn spec_i64_str(v: int) -> Seq<char> {
    if v < 0 {
        seq!['-'] + spec_u64_digits((-v) as nat)
    } else {
        spec_u64_digits(v as nat)
    }
}

fn digit_char(d: u64) -> (r: char)
    requires
        d < 10,
    ensures
        r == spec_digit(d as nat),
{
    if d == 0 {
        '0'
    } else if d == 1 {
        '1'
    } else if d == 2 {
        '2'
    } else if d == 3 {
        '3'
    } else if d == 4 {
        '4'
    } else if d == 5 {
        '5'
    } else if d == 6 {
        '6'
    } else if d == 7 {
        '7'
    } else if d == 8 {
        '8'
    } else {
        '9'
    }
}

/// Appends the decimal digits of `n` to `out`.
pub fn push_u64_digits(n: u64, out: &mut String)
    ensures
        final(out)@ == old(out)@ + spec_u64_digits(n as nat),
    decreases n,
{
    if n < 10 {
        push_char(out, digit_char(n));
        proof {
            assert(final(out)@ =~= old(out)@ + spec_u64_digits(n as nat));
        }
    } else {
        push_u64_digits(n / 10, out);
        push_char(out, digit_char(n % 10));
        proof {
            assert(final(out)@ =~= old(out)@ + spec_u64_digits(n as nat));
        }
    }
}

/// Appends the decimal rendering of `v`, sign included, to `out`.
pub fn push_i64_str(v: i64, out: &mut String)
    ensures
        final(out)@ == old(out)@ + spec_i64_str(v as int),
{
    if v < 0 {
        push_char(out, '-');
        let wide: i128 = -(v as i128);
        let mag: u64 = wide as u64;
        push_u64_digits(mag, out);
        proof {
            assert(final(out)@ =~= old(out)@ + spec_i64_str(v as int));
        }
    } else {
        push_u64_digits(v as u64, out);
    }
}

/// A control character: below space, or delete.
pub open spec fn is_ctl(c: char) -> bool {
    (c as u32) < 32 || (c as u32) == 127
}

/// Whether the text holds any control character.
pub open spec fn has_ctl(s: Seq<char>) -> bool {
    exists|i: int| 0 <= i < s.len() && is_ctl(s[i])
}

/// The text with every single quote doubled, the escape that keeps a
/// quoted statement literal well formed.
pub open spec fn spec_escaped(s: Seq<char>) -> Seq<char>
    decreases s.len(),
{
    if s.len() == 0 {
        Seq::<char>::empty()
    } else {
        spec_escaped(s.drop_last()) + (if s.last() == '\'' {
            seq!['\'', '\'']
        } else {
            seq![s.last()]
        })
    }
}

/// Appends `s` with every single quote doubled to `out`; reports whether
/// `s` held a control character.
pub fn push_escaped(s: &str, out: &mut String) -> (ctl: bool)
    ensures
        final(out)@ == old(out)@ + spec_escaped(s@),
        ctl == has_ctl(s@),
{
    let n = s.unicode_len();
    let mut ctl = false;
    let mut i: usize = 0;
    proof {
        assert(old(out)@ + spec_escaped(s@.take(0)) =~= old(out)@);
    }
    while i < n
        invariant
            i <= n,
            n == s@.len(),
            out@ == old(out)@ + spec_escaped(s@.take(i as int)),
            ctl == exists|j: int| 0 <= j < i && is_ctl(s@[j]),
        decreases n - i,
    {
        let c = s.get_char(i);
        if (c as u32) < 32 || (c as u32) == 127 {
            ctl = true;
        }
        if c == '\'' {
            push_char(out, '\'');
            push_char(out, '\'');
        } else {
            push_char(out, c);
        }
        proof {
            assert(s@.take(i + 1).drop_last() =~= s@.take(i as int));
            assert(s@.take(i + 1).last() == s@[i as int]);
            assert(out@ =~= old(out)@ + spec_escaped(s@.take(i + 1)));
        }
        i += 1;
    }
    proof {
        assert(s@.take(n as int) =~= s@);
    }
    ctl
}

} // verus!
