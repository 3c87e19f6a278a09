//! Text helpers: case folding for the case-insensitive matching rules, and
//! small verified utilities over strings.
#![verifier::loop_isolation(false)]

use vstd::prelude::*;

verus! {

/// The lowercase folding of a character sequence, as `str::to_lowercase`
/// computes it. The folding is a function of the characters alone; nothing
/// more is assumed about it here.
pub uninterp spec fn lower_of(s: Seq<char>) -> Seq<char>;

/// Relies on `str::to_lowercase`: the result depends on the characters of
/// `s` alone, so equal strings fold equally.
#[verifier::external_body]
pub(crate) fn lowercase(s: &str) -> (r: String)
    ensures
        r@ == lower_of(s@),
{
    s.to_lowercase()
}

/// Whether `v` holds a string equal to `s`.
pub fn contains_string(v: &Vec<String>, s: &String) -> (r: bool)
    ensures
        r == v@.map_values(|x: String| x@).contains(s@),
{
    let ghost vv = v@.map_values(|x: String| x@);
    let mut i: usize = 0;
    while i < v.len()
        invariant
            i <= v.len(),
            forall|j: int| 0 <= j < i ==> vv[j] != s@,
        decreases v.len() - i,
    {
        proof {
            assert(vv[i as int] == v@[i as int]@);
        }
        if v[i] == *s {
            proof {
                assert(vv.contains(s@));
            }
            return true;
        }
        i += 1;
    }
    proof {
        assert(forall|j: int| 0 <= j < vv.len() ==> vv[j] != s@);
    }
    false
}

/// A copy of a string vector, equal to the original.
pub fn dup_strings(v: &Vec<String>) -> (r: Vec<String>)
    ensures
        r@ == v@,
{
    let mut r: Vec<String> = Vec::new();
    let mut i: usize = 0;
    while i < v.len()
        invariant
            i <= v.len(),
            r@ == v@.take(i as int),
        decreases v.len() - i,
    {
        r.push(v[i].clone());
        proof {
            assert(v@.take(i + 1 as int) =~= v@.take(i as int).push(v@[i as int]));
        }
        i += 1;
    }
    proof {
        assert(v@.take(v@.len() as int) =~= v@);
    }
    r
}

/// A copy of an optional string vector, equal to the original.
pub fn dup_opt_strings(v: &Option<Vec<String>>) -> (r: Option<Vec<String>>)
    ensures
        match v {
            Some(inner) => r matches Some(ri) && ri@ == inner@,
            None => r is None,
        },
{
    match v {
        Some(inner) => Some(dup_strings(inner)),
        None => None,
    }
}

/// A copy of an optional string, equal to the original.
pub fn dup_opt_string(v: &Option<String>) -> (r: Option<String>)
    ensures
        *v == r,
{
    match v {
        Some(inner) => Some(inner.clone()),
        None => None,
    }
}

/// A copy of an integer vector, equal to the original.
pub fn dup_i32s(v: &Vec<i32>) -> (r: Vec<i32>)
    ensures
        r@ == v@,
{
    let mut r: Vec<i32> = Vec::new();
    let mut i: usize = 0;
    while i < v.len()
        invariant
            i <= v.len(),
            r@ == v@.take(i as int),
        decreases v.len() - i,
    {
        r.push(v[i]);
        proof {
            assert(v@.take(i + 1 as int) =~= v@.take(i as int).push(v@[i as int]));
        }
        i += 1;
    }
    proof {
        assert(v@.take(v@.len() as int) =~= v@);
    }
    r
}


/// The characters of `s`, in order.
///
/// Relies on `str::chars`: the iterator yields exactly the characters of
/// the string.
#[verifier::external_body]
pub(crate) fn chars_of(s: &str) -> (r: Vec<char>)
    ensures
        r@ == s@,
{
    s.chars().collect()
}

/// The substrings of `s` between occurrences of the separator, as
/// [`crate::parse::split_chars`] describes them.
///
/// Relies on `str::split` with a `char` pattern: the pieces between
/// separators, in order, with empty pieces kept at the ends and between
/// adjacent separators.
#[verifier::external_body]
pub(crate) fn split_char(s: &str, sep: char) -> (r: Vec<String>)
    ensures
        r@.map_values(|x: String| x@) == crate::parse::split_chars(s@, sep),
{
    s.split(sep).map(|piece: &str| piece.to_owned()).collect()
}


/// The pieces of `s` between occurrences of the two-character separator
/// `sep0 sep1`, with `cur` the piece read so far.
pub open spec fn split2_rec(s: Seq<char>, sep0: char, sep1: char, cur: Seq<char>) -> Seq<
    Seq<char>,
>
    decreases s.len(),
{
    if s.len() == 0 {
        seq![cur]
    } else if s.len() >= 2 && s[0] == sep0 && s[1] == sep1 {
        seq![cur] + split2_rec(s.skip(2), sep0, sep1, Seq::empty())
    } else {
        split2_rec(s.drop_first(), sep0, sep1, cur.push(s[0]))
    }
}

/// The pieces of `s` between occurrences of the two-character separator.
pub open spec fn split2_chars(s: Seq<char>, sep0: char, sep1: char) -> Seq<Seq<char>> {
    split2_rec(s, sep0, sep1, Seq::empty())
}

/// The feats field split on its `", "` delimiter.
///
/// Relies on `str::split` with a string pattern: the pieces between
/// occurrences of the separator, in order, empty pieces kept.
#[verifier::external_body]
pub(crate) fn split_feats(s: &str) -> (r: Vec<String>)
    ensures
        r@.map_values(|x: String| x@) == split2_chars(s@, ',', ' '),
{
    s.split(", ").map(|piece: &str| piece.to_owned()).collect()
}

} // verus!
