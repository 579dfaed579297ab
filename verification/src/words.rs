//! Letters and words: every word that the solver stores is made of at most
//! five lowercase ASCII letters, no letter more than three times.

use vstd::prelude::*;

verus! {

/// Index of a letter in the alphabet: `'a'` is 0 and `'z'` is 25.
pub open spec fn offset(c: char) -> int {
    c as int - 'a' as int
}

/// `c` is a lowercase ASCII letter.
pub open spec fn is_lower(c: char) -> bool {
    'a' <= c && c <= 'z'
}

/// Returns the index of `c` in the alphabet (`'a'` is 0).
pub fn offset_from_a(c: char) -> (r: usize)
    requires
        'a' <= c,
    ensures
        r as int == offset(c),
{
    (c as u32 - 'a' as u32) as usize
}

} // verus!

verus! {

/// Number of positions `p < m` of `w` that hold the letter of index `l`.
pub open spec fn count_upto(w: Seq<char>, l: int, m: int) -> nat
    decreases m,
{
    if m <= 0 {
        0
    } else {
        count_upto(w, l, m - 1) + if offset(w[m - 1]) == l { 1nat } else { 0nat }
    }
}

/// Number of occurrences in `w` of the letter of index `l`.
pub open spec fn count_letter(w: Seq<char>, l: int) -> nat {
    count_upto(w, l, w.len() as int)
}

/// Position `p` of `w` holds the letter of index `l`.
pub open spec fn has_at(w: Seq<char>, p: int, l: int) -> bool {
    0 <= p < w.len() && offset(w[p]) == l
}

/// A word that the solver can store: at most five lowercase letters,
/// none of them more than three times.
pub open spec fn storable(w: Seq<char>) -> bool {
    &&& w.len() <= 5
    &&& forall|p: int| 0 <= p < w.len() ==> is_lower(#[trigger] w[p])
    &&& forall|l: int| 0 <= l < 26 ==> count_letter(w, l) <= 3
}

/// The characters of `s`, in order.
pub fn chars_of(s: &str) -> (r: Vec<char>)
    ensures
        r@ == s@,
{
    let mut r: Vec<char> = Vec::new();
    for c in it: s.chars()
        invariant
            r@ == it.seq().take(it.index() as int),
    {
        r.push(c);
    }
    r
}

} // verus!

verus! {

/// Every character takes at least one byte in UTF-8, so a string has at
/// most as many characters as bytes.
pub proof fn lemma_chars_le_bytes(s: Seq<char>)
    ensures
        s.len() <= vstd::utf8::encode_utf8(s).len(),
    decreases s.len(),
{
    if s.len() > 0 {
        lemma_chars_le_bytes(s.drop_first());
        assert(vstd::utf8::encode_scalar(s[0] as u32).len() >= 1);
    }
}

/// Number of occurrences of `c` in `w`.
pub fn char_count(w: &Vec<char>, c: char) -> (r: usize)
    ensures
        r == count_letter(w@, offset(c)),
{
    let mut r: usize = 0;
    for q in 0..w.len()
        invariant
            r == count_upto(w@, offset(c), q as int),
            r <= q,
    {
        if w[q] == c {
            r = r + 1;
        }
    }
    r
}

/// `c` is a lowercase ASCII letter.
pub fn is_ascii_lowercase(c: char) -> (r: bool)
    ensures
        r == is_lower(c),
{
    'a' <= c && c <= 'z'
}

/// Whether the solver can store `s`: at most five lowercase letters, none
/// of them more than three times.
pub fn word_is_storable(s: &str) -> (r: bool)
    ensures
        r == storable(s@),
{
    let w = chars_of(s);
    if w.len() > 5 {
        return false;
    }
    for p in 0..w.len()
        invariant
            w@ == s@,
            w@.len() <= 5,
            forall|i: int| 0 <= i < p ==> is_lower(#[trigger] w@[i]),
    {
        if !is_ascii_lowercase(w[p]) {
            return false;
        }
    }
    for l in 0usize..26
        invariant
            w@ == s@,
            w@.len() <= 5,
            forall|i: int| 0 <= i < w@.len() ==> is_lower(#[trigger] w@[i]),
            forall|x: int| 0 <= x < l ==> count_letter(w@, x) <= 3,
    {
        let mut c: usize = 0;
        for p in 0..w.len()
            invariant
                w@.len() <= 5,
                forall|i: int| 0 <= i < w@.len() ==> is_lower(#[trigger] w@[i]),
                c == count_upto(w@, l as int, p as int),
                c <= p,
        {
            if offset_from_a(w[p]) == l {
                c = c + 1;
            }
        }
        if c > 3 {
            assert(count_letter(s@, l as int) > 3);
            return false;
        }
    }
    true
}

/// A word of five lowercase letters.
pub open spec fn five_letters(w: Seq<char>) -> bool {
    w.len() == 5 && forall|p: int| 0 <= p < 5 ==> is_lower(#[trigger] w[p])
}

/// Whether `s` is a word of five lowercase letters.
pub fn is_five_letters(s: &str) -> (r: bool)
    ensures
        r == five_letters(s@),
{
    let w = chars_of(s);
    if w.len() != 5 {
        return false;
    }
    for p in 0..5
        invariant
            w@ == s@,
            w@.len() == 5,
            forall|i: int| 0 <= i < p ==> is_lower(#[trigger] w@[i]),
    {
        if !is_ascii_lowercase(w[p]) {
            return false;
        }
    }
    true
}

} // verus!
