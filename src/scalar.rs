//! Reading integers and hex-encoded bytes out of the text of parse-tree leaves.

use vstd::prelude::*;

verus! {

pub open spec fn is_digit(c: char) -> bool {
    48 <= c as u32 <= 57
}

pub open spec fn digit_value(c: char) -> int {
    c as u32 as int - 48
}

/// A non-empty run of decimal digits.
pub open spec fn all_digits(t: Seq<char>) -> bool {
    t.len() > 0 && forall|i: int| 0 <= i < t.len() ==> is_digit(#[trigger] t[i])
}

/// The number that a run of decimal digits denotes.
pub open spec fn digits_value(t: Seq<char>) -> int
    decreases t.len(),
{
    if t.len() == 0 {
        0
    } else {
        digits_value(t.drop_last()) * 10 + digit_value(t.last())
    }
}

/// The integer that `t` spells as `-`? followed by one or more digits.
pub open spec fn int_of(t: Seq<char>) -> Option<int> {
    if t.len() > 0 && t[0] == '-' {
        if all_digits(t.drop_first()) {
            Some(-digits_value(t.drop_first()))
        } else {
            None
        }
    } else if all_digits(t) {
        Some(digits_value(t))
    } else {
        None
    }
}

/// `int_of(t)` when it lies in `lo..=hi`.
pub open spec fn int_within(t: Seq<char>, lo: int, hi: int) -> Option<int> {
    match int_of(t) {
        Some(v) => if lo <= v <= hi {
            Some(v)
        } else {
            None
        },
        None => None,
    }
}

/// Value of a hex digit of either case, or -1.
pub open spec fn hex_value(c: char) -> int {
    let u = c as u32 as int;
    if 48 <= u <= 57 {
        u - 48
    } else if 97 <= u <= 102 {
        u - 87
    } else if 65 <= u <= 70 {
        u - 55
    } else {
        -1
    }
}

pub open spec fn is_hex(c: char) -> bool {
    hex_value(c) >= 0
}

/// The bytes that an even-length string of hex digits encodes, two digits per
/// byte, the most significant nibble first.
pub open spec fn hex_decode(s: Seq<char>) -> Option<Seq<int>> {
    if s.len() % 2 == 0 && forall|i: int| 0 <= i < s.len() ==> is_hex(#[trigger] s[i]) {
        Some(
            Seq::new(
                (s.len() / 2) as nat,
                |k: int| hex_value(s[2 * k]) * 16 + hex_value(s[2 * k + 1]),
            ),
        )
    } else {
        None
    }
}

proof fn lemma_digits_prefix(t: Seq<char>, k: int)
    requires
        0 <= k <= t.len(),
        forall|i: int| 0 <= i < t.len() ==> is_digit(#[trigger] t[i]),
    ensures
        0 <= digits_value(t.subrange(0, k)) <= digits_value(t),
    decreases t.len(),
{
    if k == t.len() {
        assert(t.subrange(0, k) =~= t);
        if t.len() > 0 {
            lemma_digits_prefix(t.drop_last(), k - 1);
            assert(t.drop_last().subrange(0, k - 1) =~= t.drop_last());
        }
    } else {
        lemma_digits_prefix(t.drop_last(), k);
        assert(t.drop_last().subrange(0, k) =~= t.subrange(0, k));
        lemma_digits_prefix(t.drop_last(), t.len() - 1);
        assert(t.drop_last().subrange(0, t.len() - 1) =~= t.drop_last());
    }
}

/// Reads `t` as a decimal integer (`-`? digits) and keeps it only within `lo..=hi`.
pub fn parse_int(t: &Vec<char>, lo: i64, hi: i64) -> (r: Option<i64>)
    ensures
        match r {
            Some(v) => int_within(t@, lo as int, hi as int) == Some(v as int),
            None => int_within(t@, lo as int, hi as int) is None,
        },
{
    let n = t.len();
    let neg = n > 0 && t[0] == '-';
    let start: usize = if neg {
        1
    } else {
        0
    };
    let ghost body = t@.subrange(start as int, n as int);
    assert(neg ==> body =~= t@.drop_first());
    assert(!neg ==> body =~= t@);
    if start >= n {
        return None;
    }
    let mut acc: i128 = 0;
    let mut i: usize = start;
    while i < n
        invariant
            n == t.len(),
            start <= i <= n,
            body == t@.subrange(start as int, n as int),
            neg == (t@.len() > 0 && t@[0] == '-'),
            neg ==> body == t@.drop_first(),
            !neg ==> body == t@,
            acc == digits_value(t@.subrange(start as int, i as int)),
            0 <= acc <= 0x8000_0000_0000_0000,
            forall|j: int| start <= j < i ==> is_digit(#[trigger] t@[j]),
        decreases n - i,
    {
        let c = t[i];
        if !((c as u32) >= 48 && (c as u32) <= 57) {
            assert(body[i - start] == c);
            assert(!is_digit(body[i - start]));
            assert(!all_digits(body));
            assert(int_of(t@) is None);
            return None;
        }
        acc = acc * 10 + ((c as u32) - 48) as i128;
        proof {
            assert(t@.subrange(start as int, i + 1).drop_last() =~= t@.subrange(
                start as int,
                i as int,
            ));
        }
        if acc > 0x8000_0000_0000_0000 {
            proof {
                if all_digits(body) {
                    lemma_digits_prefix(body, i + 1 - start);
                    assert(body.subrange(0, i + 1 - start) =~= t@.subrange(
                        start as int,
                        i + 1,
                    ));
                    assert(digits_value(body) > 0x8000_0000_0000_0000);
                }
                assert(int_within(t@, lo as int, hi as int) is None);
            }
            return None;
        }
        i = i + 1;
    }
    assert(t@.subrange(start as int, n as int) =~= body);
    assert(all_digits(body));
    let v: i128 = if neg {
        -acc
    } else {
        acc
    };
    if v < lo as i128 || v > hi as i128 {
        return None;
    }
    Some(v as i64)
}

fn hex_digit(c: char) -> (r: i16)
    ensures
        r == hex_value(c),
{
    let u = c as u32;
    if u >= 48 && u <= 57 {
        (u - 48) as i16
    } else if u >= 97 && u <= 102 {
        (u - 87) as i16
    } else if u >= 65 && u <= 70 {
        (u - 55) as i16
    } else {
        -1
    }
}

/// Decodes an even-length string of hex digits into bytes.
///
/// `None` exactly when the length is odd or a character is not a hex digit.
pub fn decode_hex(s: &Vec<char>) -> (r: Option<Vec<u8>>)
    ensures
        match r {
            Some(b) => hex_decode(s@) == Some(b@.map_values(|x: u8| x as int)),
            None => hex_decode(s@) is None,
        },
{
    if s.len() % 2 != 0 {
        return None;
    }
    let half = s.len() / 2;
    let mut out: Vec<u8> = Vec::new();
    let mut k: usize = 0;
    while k < half
        invariant
            half * 2 == s.len(),
            k <= half,
            out@.len() == k,
            forall|j: int| 0 <= j < 2 * k ==> is_hex(#[trigger] s@[j]),
            forall|j: int|
                0 <= j < k ==> out@[j] as int == hex_value(s@[2 * j]) * 16 + hex_value(
                    s@[2 * j + 1],
                ),
        decreases half - k,
    {
        let hi = hex_digit(s[2 * k]);
        let lo = hex_digit(s[2 * k + 1]);
        if hi < 0 || lo < 0 {
            return None;
        }
        out.push((hi * 16 + lo) as u8);
        k = k + 1;
    }
    assert(out@.map_values(|x: u8| x as int) =~= Seq::new(
        (s@.len() / 2) as nat,
        |k: int| hex_value(s@[2 * k]) * 16 + hex_value(s@[2 * k + 1]),
    ));
    Some(out)
}

} // verus!
