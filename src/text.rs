//! Small text builders shared by the record, path and command code.

use vstd::prelude::*;
use vstd::string::*;

verus! {

/// Relies on String::push: appends one character.
#[verifier::external_body]
pub(crate) fn push_char(s: &mut String, c: char)
    ensures
        final(s)@ == old(s)@.push(c),
{
    s.push(c);
}

/// The character of the hexadecimal digit `d`, in upper or lower case.
pub open spec fn hex_digit_char(d: nat, upper: bool) -> char {
    if d < 10 {
        ((48 + d) as u8) as char
    } else if upper {
        ((55 + d) as u8) as char
    } else {
        ((87 + d) as u8) as char
    }
}

/// The shortest hexadecimal text of `n`.
pub open spec fn hex(n: nat, upper: bool) -> Seq<char>
    decreases n,
{
    if n < 16 {
        seq![hex_digit_char(n, upper)]
    } else {
        hex(n / 16, upper).push(hex_digit_char(n % 16, upper))
    }
}

/// `s` with `0` in front until it is at least eight characters long.
pub open spec fn pad8(s: Seq<char>) -> Seq<char> {
    if s.len() < 8 {
        Seq::new((8 - s.len()) as nat, |i: int| '0') + s
    } else {
        s
    }
}

/// `a`, then `/`, then `b`.
pub open spec fn join_path(a: Seq<char>, b: Seq<char>) -> Seq<char> {
    a + seq!['/'] + b
}

pub(crate) fn push_hex(s: &mut String, n: u64, upper: bool)
    ensures
        final(s)@ == old(s)@ + hex(n as nat, upper),
    decreases n,
{
    if n >= 16 {
        push_hex(s, n / 16, upper);
    }
    let d: u8 = (n % 16) as u8;
    let c: char = if d < 10 {
        (48u8 + d) as char
    } else if upper {
        (55u8 + d) as char
    } else {
        (87u8 + d) as char
    };
    push_char(s, c);
    proof {
        if n >= 16 {
            assert(hex(n as nat, upper) == hex((n / 16) as nat, upper).push(
                hex_digit_char((n % 16) as nat, upper),
            ));
        } else {
            assert(hex(n as nat, upper) == seq![hex_digit_char(n as nat, upper)]);
        }
    }
    assert(final(s)@ =~= old(s)@ + hex(n as nat, upper));
}

/// Appends the upper-case hexadecimal text of `n`, padded with `0` to eight
/// characters.
pub(crate) fn push_hex_upper_pad8(s: &mut String, n: u64)
    ensures
        final(s)@ == old(s)@ + pad8(hex(n as nat, true)),
{
    let mut h = String::new();
    push_hex(&mut h, n, true);
    assert(h@ =~= hex(n as nat, true));
    let k = h.as_str().unicode_len();
    let mut j: usize = k;
    let ghost start = s@;
    while j < 8
        invariant
            k == h@.len(),
            k <= j <= 8 || (k > 8 && j == k),
            s@ == start + Seq::new((j - k) as nat, |i: int| '0'),
        decreases 8 - j,
    {
        push_char(s, '0');
        assert(Seq::new((j - k) as nat, |i: int| '0').push('0') =~= Seq::new(
            (j + 1 - k) as nat,
            |i: int| '0',
        ));
        j = j + 1;
    }
    s.append(h.as_str());
    proof {
        if k < 8 {
            assert(j == 8);
            assert(s@ =~= start + pad8(h@));
        } else {
            assert(Seq::new((j - k) as nat, |i: int| '0') =~= Seq::<char>::empty());
            assert(s@ =~= start + pad8(h@));
        }
    }
}

/// `a/b` as a new string.
pub(crate) fn join(a: &str, b: &str) -> (r: String)
    ensures
        r@ == join_path(a@, b@),
{
    let mut r = String::from_str(a);
    push_char(&mut r, '/');
    r.append(b);
    assert(r@ =~= join_path(a@, b@));
    r
}

} // verus!
