//! Characters and strings: digit sequences for unsigned numbers, and the
//! few executable string-building steps the rest of the crate shares.

use vstd::prelude::*;

verus! {

/// The digit character for a value below ten.
pub open spec fn digit_char(d: nat) -> char
    recommends
        d < 10,
{
    ((48 + d) as u8) as char
}

/// The decimal digit characters of `n`, most significant first, with no
/// leading zeros (a lone zero for `n == 0`).
pub open spec fn nat_chars(n: nat) -> Seq<char>
    decreases n,
{
    if n < 10 {
        seq![digit_char(n)]
    } else {
        nat_chars(n / 10).push(digit_char(n % 10))
    }
}

/// `s` left-padded with zero digits up to length `k`.
pub open spec fn zero_pad(s: Seq<char>, k: nat) -> Seq<char> {
    if s.len() >= k {
        s
    } else {
        Seq::new((k - s.len()) as nat, |i: int| '0') + s
    }
}

/// The digit characters of `n`.
pub fn nat_chars_exec(n: u128) -> (v: Vec<char>)
    ensures
        v@ == nat_chars(n as nat),
    decreases n,
{
    if n < 10 {
        let mut v: Vec<char> = Vec::new();
        v.push((48 + n as u8) as char);
        proof {
            assert(v@ =~= nat_chars(n as nat));
        }
        v
    } else {
        let mut v = nat_chars_exec(n / 10);
        v.push((48 + (n % 10) as u8) as char);
        v
    }
}

/// Relies on `String::push`: appends exactly one character.
#[verifier::external_body]
pub fn push_char(s: &mut String, c: char)
    ensures
        final(s)@ == old(s)@.push(c),
{
    s.push(c);
}

/// A `String` holding exactly the characters of `v`.
pub fn chars_to_string(v: &Vec<char>) -> (r: String)
    ensures
        r@ == v@,
{
    let mut s = String::new();
    let mut i: usize = 0;
    while i < v.len()
        invariant
            i <= v.len(),
            s@ == v@.subrange(0, i as int),
        decreases v.len() - i,
    {
        push_char(&mut s, v[i]);
        i = i + 1;
        proof {
            assert(s@ =~= v@.subrange(0, i as int));
        }
    }
    proof {
        assert(v@.subrange(0, v@.len() as int) =~= v@);
    }
    s
}

/// The digit string of a machine word, for positions in diagnostics.
pub fn usize_string(n: usize) -> (r: String)
    ensures
        r@ == nat_chars(n as nat),
{
    let v = nat_chars_exec(n as u128);
    chars_to_string(&v)
}

} // verus!
