//! Character-level helpers shared by the parser, the printer and the backends.
use vstd::prelude::*;
use vstd::std_specs::iter::IteratorSpec;

verus! {

broadcast use vstd::string::axiom_spec_iter, vstd::string::next_postcondition;

/// The digit character for a value below ten.
pub open spec fn digit(d: nat) -> char {
    ((48 + d) as u8) as char
}

/// The decimal digits of a natural number, without leading zeros.
pub open spec fn nat_text(n: nat) -> Seq<char>
    decreases n,
{
    if n < 10 {
        seq![digit(n)]
    } else {
        nat_text(n / 10) + seq![digit(n % 10)]
    }
}

/// The decimal text of an integer, with a leading '-' when it is negative.
pub open spec fn int_text(n: int) -> Seq<char> {
    if n < 0 {
        seq!['-'] + nat_text((-n) as nat)
    } else {
        nat_text(n as nat)
    }
}

/// Relies on String::push: the character is appended at the end.
#[verifier::external_body]
pub(crate) fn push_char(out: &mut String, c: char)
    ensures
        final(out)@ == old(out)@.push(c),
{
    out.push(c)
}

/// Appends the decimal digits of `n`.
pub fn push_nat(out: &mut String, n: u64)
    ensures
        final(out)@ == old(out)@ + nat_text(n as nat),
    decreases n,
{
    if n >= 10 {
        push_nat(out, n / 10);
    }
    let d: u8 = (n % 10) as u8;
    push_char(out, (48u8 + d) as char);
    assert(final(out)@ == old(out)@ + nat_text(n as nat));
}

/// Appends the decimal text of `n`; the sign and the magnitude are split
/// without negating in 32 bits, so the most negative value is exact.
pub fn push_int(out: &mut String, n: i32)
    ensures
        final(out)@ == old(out)@ + int_text(n as int),
{
    if n < 0 {
        proof {
            reveal_strlit("-");
        }
        out.append("-");
        let m: u64 = (0i64 - n as i64) as u64;
        push_nat(out, m);
        assert(final(out)@ == old(out)@ + (seq!['-'] + nat_text(m as nat)));
    } else {
        push_nat(out, n as u64);
    }
}

/// The characters of a string, in order.
pub fn chars_of(s: &str) -> (r: Vec<char>)
    ensures
        r@ == s@,
{
    let mut out: Vec<char> = Vec::new();
    let mut it = s.chars();
    loop
        invariant
            out@ + it.remaining() == s@,
            it.decrease() is Some,
        decreases it.decrease()->0,
    {
        match it.next() {
            Some(c) => out.push(c),
            None => return out,
        }
    }
}

/// The characters of `s` from `from` up to `to`, as a string.
pub fn text_between(s: &Vec<char>, from: usize, to: usize) -> (r: String)
    requires
        from <= to <= s.len(),
    ensures
        r@ == s@.subrange(from as int, to as int),
{
    let mut out = String::new();
    let mut i = from;
    while i < to
        invariant
            from <= i <= to <= s.len(),
            out@ == s@.subrange(from as int, i as int),
        decreases to - i,
    {
        push_char(&mut out, s[i]);
        i += 1;
    }
    out
}

} // verus!
