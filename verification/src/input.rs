//! Reading a turn typed at the terminal: a guess and its result, separated
//! by white space.

use vstd::prelude::*;

verus! {

/// White space, as Unicode's `White_Space` property lists it.
pub open spec fn is_space(c: char) -> bool {
    ||| '\u{9}' <= c <= '\u{d}'
    ||| c == ' '
    ||| c == '\u{85}'
    ||| c == '\u{a0}'
    ||| c == '\u{1680}'
    ||| '\u{2000}' <= c <= '\u{200a}'
    ||| c == '\u{2028}'
    ||| c == '\u{2029}'
    ||| c == '\u{202f}'
    ||| c == '\u{205f}'
    ||| c == '\u{3000}'
}

/// Whether `c` is white space.
pub fn is_whitespace(c: char) -> (r: bool)
    ensures
        r == is_space(c),
{
    ('\u{9}' <= c && c <= '\u{d}') || c == ' ' || c == '\u{85}' || c == '\u{a0}' || c == '\u{1680}'
        || ('\u{2000}' <= c && c <= '\u{200a}') || c == '\u{2028}' || c == '\u{2029}' || c
        == '\u{202f}' || c == '\u{205f}' || c == '\u{3000}'
}

/// The words finished among the first `k` characters of `s`, and the word
/// being read at `k`.
pub open spec fn split_upto(s: Seq<char>, k: int) -> (Seq<Seq<char>>, Seq<char>)
    decreases k,
{
    if k <= 0 {
        (Seq::empty(), Seq::empty())
    } else {
        let (ts, cur) = split_upto(s, k - 1);
        if is_space(s[k - 1]) {
            if cur.len() > 0 {
                (ts.push(cur), Seq::empty())
            } else {
                (ts, cur)
            }
        } else {
            (ts, cur.push(s[k - 1]))
        }
    }
}

/// The words of `s`: its maximal runs of characters that are not white space.
pub open spec fn words_of(s: Seq<char>) -> Seq<Seq<char>> {
    let (ts, cur) = split_upto(s, s.len() as int);
    if cur.len() > 0 {
        ts.push(cur)
    } else {
        ts
    }
}

/// Splits a typed line into a guess and its result: `None` unless the line
/// holds exactly two words.
pub fn parse_turn(line: &str) -> (r: Option<(String, String)>)
    ensures
        r is Some <==> words_of(line@).len() == 2,
        r matches Some((w, res)) ==> w@ == words_of(line@)[0] && res@ == words_of(line@)[1],
{
    let c = crate::words::chars_of(line);
    let n = c.len();
    let mut count: usize = 0;
    let mut start: usize = 0;
    let mut s0: usize = 0;
    let mut e0: usize = 0;
    let mut s1: usize = 0;
    let mut e1: usize = 0;
    for k in 0..n
        invariant
            n == c@.len(),
            c@ == line@,
            start <= k,
            split_upto(c@, k as int).0.len() == count,
            split_upto(c@, k as int).1 == c@.subrange(start as int, k as int),
            count >= 1 ==> s0 <= e0 <= n && split_upto(c@, k as int).0[0] == c@.subrange(
                s0 as int,
                e0 as int,
            ),
            count >= 2 ==> s1 <= e1 <= n && split_upto(c@, k as int).0[1] == c@.subrange(
                s1 as int,
                e1 as int,
            ),
            count <= start,
    {
        if is_whitespace(c[k]) {
            if start < k {
                if count == 0 {
                    s0 = start;
                    e0 = k;
                } else if count == 1 {
                    s1 = start;
                    e1 = k;
                }
                count = count + 1;
            }
            start = k + 1;
        } else {
            assert(c@.subrange(start as int, k + 1) =~= c@.subrange(start as int, k as int).push(
                c@[k as int],
            ));
        }
    }
    if start < n {
        if count == 0 {
            s0 = start;
            e0 = n;
        } else if count == 1 {
            s1 = start;
            e1 = n;
        }
        count = count + 1;
    }
    if count != 2 {
        return None;
    }
    let w = line.substring_char(s0, e0).to_owned();
    let res = line.substring_char(s1, e1).to_owned();
    Some((w, res))
}

/// The words finished and the word being read hold no white space, and the
/// finished words are not empty.
proof fn lemma_split_parts(s: Seq<char>, k: int)
    requires
        0 <= k <= s.len(),
    ensures
        forall|x: int|
            0 <= x < split_upto(s, k).0.len() ==> (#[trigger] split_upto(s, k).0[x]).len() > 0,
        forall|x: int, p: int|
            0 <= x < split_upto(s, k).0.len() && 0 <= p < split_upto(s, k).0[x].len() ==> !is_space(
                #[trigger] split_upto(s, k).0[x][p],
            ),
        forall|p: int|
            0 <= p < split_upto(s, k).1.len() ==> !is_space(#[trigger] split_upto(s, k).1[p]),
    decreases k,
{
    if k > 0 {
        lemma_split_parts(s, k - 1);
        let (ts, cur) = split_upto(s, k - 1);
        if is_space(s[k - 1]) {
            if cur.len() > 0 {
                let ts2 = ts.push(cur);
                assert forall|x: int, p: int| 0 <= x < ts2.len() && 0 <= p < ts2[x].len() implies !is_space(
                    #[trigger] ts2[x][p],
                ) by {
                    if x < ts.len() {
                        assert(ts2[x] == ts[x]);
                    } else {
                        assert(ts2[x] == cur);
                    }
                }
            }
        } else {
            let cur2 = cur.push(s[k - 1]);
            assert forall|p: int| 0 <= p < cur2.len() implies !is_space(#[trigger] cur2[p]) by {
                if p < cur.len() {
                    assert(cur2[p] == cur[p]);
                }
            }
        }
    }
}

/// The words of a line are not empty and hold no white space character:
/// none of U+0009 to U+000D (tab, line feed, vertical tab, form feed,
/// carriage return), U+0020, U+0085, U+00A0, U+1680, U+2000 to U+200A,
/// U+2028, U+2029, U+202F, U+205F or U+3000, the characters of Unicode's
/// `White_Space` property.
pub proof fn law_words_hold_no_space(s: Seq<char>)
    ensures
        forall|x: int| 0 <= x < words_of(s).len() ==> (#[trigger] words_of(s)[x]).len() > 0,
        forall|x: int, p: int|
            0 <= x < words_of(s).len() && 0 <= p < words_of(s)[x].len() ==> {
                let c = #[trigger] words_of(s)[x][p];
                &&& !('\u{9}' <= c && c <= '\u{d}')
                &&& c != ' '
                &&& c != '\u{85}'
                &&& c != '\u{a0}'
                &&& c != '\u{1680}'
                &&& !('\u{2000}' <= c && c <= '\u{200a}')
                &&& c != '\u{2028}'
                &&& c != '\u{2029}'
                &&& c != '\u{202f}'
                &&& c != '\u{205f}'
                &&& c != '\u{3000}'
            },
{
    lemma_split_parts(s, s.len() as int);
    let (ts, cur) = split_upto(s, s.len() as int);
    let ws = words_of(s);
    assert forall|x: int, p: int| 0 <= x < ws.len() && 0 <= p < ws[x].len() implies !is_space(
        #[trigger] ws[x][p],
    ) by {
        if x < ts.len() {
            assert(ws[x] == ts[x]);
        } else {
            assert(ws[x] == cur);
        }
    }
    assert forall|x: int| 0 <= x < ws.len() implies (#[trigger] ws[x]).len() > 0 by {
        if x < ts.len() {
            assert(ws[x] == ts[x]);
        }
    }
}

} // verus!
