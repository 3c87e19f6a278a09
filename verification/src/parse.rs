//! Delimited numeric fields: the wire format hands track shapes and stat
//! blobs as separator-joined decimal integers, which are validated and
//! parsed before any write.
#![verifier::loop_isolation(false)]

use crate::text::{chars_of, split_char};
use vstd::prelude::*;

verus! {

/// The pieces of `s` between occurrences of `sep`, with `cur` the piece
/// read so far: empty pieces are kept at the ends and between adjacent
/// separators.
pub open spec fn split_rec(s: Seq<char>, sep: char, cur: Seq<char>) -> Seq<Seq<char>>
    decreases s.len(),
{
    if s.len() == 0 {
        seq![cur]
    } else if s[0] == sep {
        seq![cur] + split_rec(s.drop_first(), sep, Seq::empty())
    } else {
        split_rec(s.drop_first(), sep, cur.push(s[0]))
    }
}

/// The pieces of `s` between occurrences of `sep`.
pub open spec fn split_chars(s: Seq<char>, sep: char) -> Seq<Seq<char>> {
    split_rec(s, sep, Seq::empty())
}

/// Whether `c` is a decimal digit.
pub open spec fn is_digit(c: char) -> bool {
    '0' <= c && c <= '9'
}

/// The value of the digit `c`.
pub open spec fn digit_val(c: char) -> int {
    c as int - '0' as int
}

/// Whether every character of `s` is a decimal digit.
pub open spec fn all_digits(s: Seq<char>) -> bool {
    forall|i: int| 0 <= i < s.len() ==> is_digit(s[i])
}

/// The value of a digit string, leading zeroes allowed.
pub open spec fn digits_val(s: Seq<char>) -> int
    decreases s.len(),
{
    if s.len() == 0 {
        0
    } else {
        digits_val(s.drop_last()) * 10 + digit_val(s.last())
    }
}

/// Whether `s` is a well-formed signed decimal integer within the 32-bit
/// range: an optional sign, then at least one digit, and a value in range.
pub open spec fn int_str_ok(s: Seq<char>) -> bool {
    let digits = if s.len() > 0 && (s[0] == '-' || s[0] == '+') {
        s.drop_first()
    } else {
        s
    };
    &&& digits.len() > 0
    &&& all_digits(digits)
    &&& (if s.len() > 0 && s[0] == '-' {
        digits_val(digits) <= 0x8000_0000
    } else {
        digits_val(digits) <= 0x7fff_ffff
    })
}

/// The value of a well-formed signed decimal integer.
pub open spec fn int_str_val(s: Seq<char>) -> int {
    if s.len() > 0 && s[0] == '-' {
        -digits_val(s.drop_first())
    } else if s.len() > 0 && s[0] == '+' {
        digits_val(s.drop_first())
    } else {
        digits_val(s)
    }
}

/// Whether every piece of `s` between separators is a well-formed 32-bit
/// integer.
pub open spec fn list_ok(s: Seq<char>, sep: char) -> bool {
    forall|i: int|
        0 <= i < split_chars(s, sep).len() ==> int_str_ok(#[trigger] split_chars(s, sep)[i])
}

/// The values of the pieces of `s` between separators.
pub open spec fn list_vals(s: Seq<char>, sep: char) -> Seq<int> {
    split_chars(s, sep).map_values(|piece: Seq<char>| int_str_val(piece))
}

/// Parses the digit-and-sign piece held in `v` as a 32-bit integer.
fn parse_i32_chars(v: &Vec<char>) -> (r: Option<i32>)
    ensures
        match r {
            Some(x) => int_str_ok(v@) && x as int == int_str_val(v@),
            None => !int_str_ok(v@),
        },
{
    let n = v.len();
    let negative: bool = n > 0 && v[0] == '-';
    let signed: bool = n > 0 && (v[0] == '-' || v[0] == '+');
    let start: usize = if signed {
        1
    } else {
        0
    };
    let ghost digits = if signed {
        v@.drop_first()
    } else {
        v@
    };
    if n == start {
        return None;
    }
    let mut acc: i64 = 0;
    let ghost cap: int = 0x8000_0001;
    let mut i: usize = start;
    while i < n
        invariant
            start <= i <= n,
            n == v.len(),
            start == (if signed { 1int } else { 0int }),
            digits == (if signed { v@.drop_first() } else { v@ }),
            all_digits(digits.take(i - start)),
            0 <= acc <= 0x8000_0001,
            (acc <= 0x8000_0000 ==> acc as int == digits_val(digits.take(i - start))),
            (acc == 0x8000_0001 ==> digits_val(digits.take(i - start)) > 0x8000_0000),
        decreases n - i,
    {
        let c = v[i];
        proof {
            assert(digits[i - start] == v@[i as int]);
            assert(digits.take(i - start + 1).drop_last() =~= digits.take(i - start));
            assert(digits.take(i - start + 1).last() == digits[i - start]);
        }
        if c < '0' || c > '9' {
            proof {
                assert(!is_digit(digits[i - start]));
            }
            return None;
        }
        let d: i64 = (c as u32 - 48) as i64;
        proof {
            assert(is_digit(digits[i - start]));
            assert(d as int == digit_val(digits[i - start]));
        }
        if acc > 0x8000_0000 {
            acc = 0x8000_0001;
        } else {
            let next = acc * 10 + d;
            if next > 0x8000_0000 {
                acc = 0x8000_0001;
            } else {
                acc = next;
            }
        }
        i += 1;
    }
    proof {
        assert(digits.take(n - start) =~= digits);
    }
    if negative {
        if acc > 0x8000_0000 {
            None
        } else {
            Some((-acc) as i32)
        }
    } else {
        if acc > 0x7fff_ffff {
            None
        } else {
            Some(acc as i32)
        }
    }
}

/// Splits `s` on the separator and parses every piece as a 32-bit integer;
/// rejected, before any write, when any piece is malformed or out of range.
pub fn parse_separated(s: &str, sep: char) -> (r: Option<Vec<i32>>)
    ensures
        match r {
            Some(v) => list_ok(s@, sep) && v@.map_values(|x: i32| x as int) == list_vals(s@, sep),
            None => !list_ok(s@, sep),
        },
{
    let pieces = split_char(s, sep);
    let ghost segs = split_chars(s@, sep);
    let mut out: Vec<i32> = Vec::new();
    let mut i: usize = 0;
    while i < pieces.len()
        invariant
            i <= pieces.len(),
            pieces@.map_values(|x: String| x@) == segs,
            forall|j: int| 0 <= j < i ==> int_str_ok(#[trigger] segs[j]),
            out@.map_values(|x: i32| x as int) == segs.take(i as int).map_values(
                |piece: Seq<char>| int_str_val(piece),
            ),
        decreases pieces.len() - i,
    {
        proof {
            assert(pieces@.map_values(|x: String| x@)[i as int] == pieces@[i as int]@);
        }
        let cs = chars_of(pieces[i].as_str());
        match parse_i32_chars(&cs) {
            Some(x) => {
                out.push(x);
                proof {
                    assert(segs.take(i as int + 1) =~= segs.take(i as int).push(segs[i as int]));
                    assert(segs.take(i as int + 1).map_values(
                        |piece: Seq<char>| int_str_val(piece),
                    ) =~= segs.take(i as int).map_values(|piece: Seq<char>| int_str_val(piece)).push(
                        int_str_val(segs[i as int]),
                    ));
                    assert(out@.map_values(|x: i32| x as int) =~= segs.take(i as int + 1).map_values(
                        |piece: Seq<char>| int_str_val(piece),
                    ));
                }
            },
            None => {
                return None;
            },
        }
        i += 1;
    }
    proof {
        assert(segs.take(segs.len() as int) =~= segs);
        assert(out@.map_values(|x: i32| x as int) =~= list_vals(s@, sep));
    }
    Some(out)
}

/// Splits an `x`-separated field, as the track-shape blob is delimited.
pub fn split_x_separated(s: &str) -> (r: Option<Vec<i32>>)
    ensures
        match r {
            Some(v) => list_ok(s@, 'x') && v@.map_values(|x: i32| x as int) == list_vals(s@, 'x'),
            None => !list_ok(s@, 'x'),
        },
{
    parse_separated(s, 'x')
}

} // verus!
