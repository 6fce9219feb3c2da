//! Decimal rendering of integers and comma-separated lists.

use vstd::prelude::*;
use vstd::string::*;

verus! {

/// The ASCII character of a decimal digit.
pub open spec fn digit_char(d: int) -> char {
    if d == 0 {
        '0'
    } else if d == 1 {
        '1'
    } else if d == 2 {
        '2'
    } else if d == 3 {
        '3'
    } else if d == 4 {
        '4'
    } else if d == 5 {
        '5'
    } else if d == 6 {
        '6'
    } else if d == 7 {
        '7'
    } else if d == 8 {
        '8'
    } else {
        '9'
    }
}

/// Decimal digits of a natural number, most significant first, no leading zeros.
pub open spec fn nat_text(n: nat) -> Seq<char>
    decreases n,
{
    if n < 10 {
        seq![digit_char(n as int)]
    } else {
        nat_text(n / 10) + seq![digit_char((n % 10) as int)]
    }
}

/// Decimal text of an integer, with a leading `-` when negative.
pub open spec fn int_text(n: int) -> Seq<char> {
    if n < 0 {
        seq!['-'] + nat_text((-n) as nat)
    } else {
        nat_text(n as nat)
    }
}

/// Decimal texts of `s` joined by `,`, with no spaces and no trailing comma.
pub open spec fn csv(s: Seq<int>) -> Seq<char>
    decreases s.len(),
{
    if s.len() == 0 {
        Seq::empty()
    } else if s.len() == 1 {
        int_text(s[0])
    } else {
        csv(s.drop_last()) + seq![','] + int_text(s.last())
    }
}

/// `csv(s)` between braces.
pub open spec fn braced(s: Seq<int>) -> Seq<char> {
    "{"@ + csv(s) + "}"@
}

/// Relies on `String::push`: the character is appended at the end.
#[verifier::external_body]
pub(crate) fn push_char(s: &mut String, c: char)
    ensures
        final(s)@ == old(s)@.push(c),
{
    s.push(c);
}

fn digit_of(d: u64) -> (c: char)
    requires
        d < 10,
    ensures
        c == digit_char(d as int),
{
    if d == 0 {
        '0'
    } else if d == 1 {
        '1'
    } else if d == 2 {
        '2'
    } else if d == 3 {
        '3'
    } else if d == 4 {
        '4'
    } else if d == 5 {
        '5'
    } else if d == 6 {
        '6'
    } else if d == 7 {
        '7'
    } else if d == 8 {
        '8'
    } else {
        '9'
    }
}

/// Appends the decimal text of `n`.
pub fn push_nat(out: &mut String, n: u64)
    ensures
        final(out)@ == old(out)@ + nat_text(n as nat),
    decreases n,
{
    if n >= 10 {
        push_nat(out, n / 10);
    }
    push_char(out, digit_of(n % 10));
    assert(final(out)@ =~= old(out)@ + nat_text(n as nat));
}

/// Appends the decimal text of `n`, signed.
pub fn push_int(out: &mut String, n: i64)
    ensures
        final(out)@ == old(out)@ + int_text(n as int),
{
    if n < 0 {
        push_char(out, '-');
        let m: u64 = (0i128 - n as i128) as u64;
        push_nat(out, m);
        assert(final(out)@ =~= old(out)@ + int_text(n as int));
    } else {
        push_nat(out, n as u64);
    }
}

proof fn lemma_csv_step(s: Seq<int>, i: int)
    requires
        0 < i < s.len(),
    ensures
        csv(s.subrange(0, i + 1)) == csv(s.subrange(0, i)) + seq![','] + int_text(s[i]),
{
    assert(s.subrange(0, i + 1).drop_last() =~= s.subrange(0, i));
}

/// Appends `csv(s)` for a sequence of values already widened to `i64`.
pub fn push_csv(out: &mut String, v: &Vec<i64>)
    ensures
        final(out)@ == old(out)@ + csv(v@.map_values(|x: i64| x as int)),
{
    let ghost s = v@.map_values(|x: i64| x as int);
    let ghost start = out@;
    let mut i: usize = 0;
    while i < v.len()
        invariant
            0 <= i <= v.len(),
            s == v@.map_values(|x: i64| x as int),
            out@ == start + csv(s.subrange(0, i as int)),
        decreases v.len() - i,
    {
        if i > 0 {
            push_char(out, ',');
            proof {
                lemma_csv_step(s, i as int);
            }
        } else {
            assert(s.subrange(0, 1).drop_last() =~= Seq::<int>::empty());
        }
        push_int(out, v[i]);
        i = i + 1;
        assert(out@ =~= start + csv(s.subrange(0, i as int)));
    }
    assert(s.subrange(0, v.len() as int) =~= s);
}

} // verus!
