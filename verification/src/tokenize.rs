use vstd::prelude::*;

use crate::lexer::{chars_vec, is_unicode_ws, string_from_chars, unicode_whitespace, MAX_SRC_LEN};

verus! {

/// How one character of the source is written out before splitting:
/// parentheses become words of their own, commas become blanks.
pub open spec fn padded(c: char) -> Seq<char> {
    if c == '(' {
        seq![' ', '(', ' ']
    } else if c == ')' {
        seq![' ', ')', ' ']
    } else if c == ',' {
        seq![' ']
    } else {
        seq![c]
    }
}

/// The source text with every character written out by [`padded`].
pub open spec fn expanded(s: Seq<char>) -> Seq<char>
    decreases s.len(),
{
    if s.len() == 0 {
        Seq::<char>::empty()
    } else {
        expanded(s.drop_last()) + padded(s.last())
    }
}

/// The first index at or after `i` holding a non-whitespace character.
pub open spec fn next_word(s: Seq<char>, i: int) -> int
    decreases s.len() - i when 0 <= i <= s.len()
{
    if i >= s.len() {
        s.len() as int
    } else if unicode_whitespace(s[i]) {
        next_word(s, i + 1)
    } else {
        i
    }
}

/// The first index at or after `i` holding a whitespace character.
pub open spec fn word_stop(s: Seq<char>, i: int) -> int
    decreases s.len() - i when 0 <= i <= s.len()
{
    if i >= s.len() {
        s.len() as int
    } else if unicode_whitespace(s[i]) {
        i
    } else {
        word_stop(s, i + 1)
    }
}

pub proof fn lemma_next_word(s: Seq<char>, i: int)
    requires
        0 <= i <= s.len(),
    ensures
        i <= next_word(s, i) <= s.len(),
    decreases s.len() - i,
{
    if i < s.len() && unicode_whitespace(s[i]) {
        lemma_next_word(s, i + 1);
    }
}

pub proof fn lemma_word_stop(s: Seq<char>, i: int)
    requires
        0 <= i <= s.len(),
    ensures
        i <= word_stop(s, i) <= s.len(),
    decreases s.len() - i,
{
    if i < s.len() && !unicode_whitespace(s[i]) {
        lemma_word_stop(s, i + 1);
    }
}

/// The maximal whitespace-free runs of `s` from index `i` on, in order.
pub open spec fn split_ws(s: Seq<char>, i: int) -> Seq<Seq<char>>
    decreases s.len() - i when 0 <= i <= s.len() via split_ws_decreases
{
    let w = next_word(s, i);
    if w >= s.len() {
        Seq::<Seq<char>>::empty()
    } else {
        let e = word_stop(s, w + 1);
        seq![s.subrange(w, e)] + split_ws(s, e)
    }
}

#[via_fn]
proof fn split_ws_decreases(s: Seq<char>, i: int) {
    lemma_next_word(s, i);
    let w = next_word(s, i);
    if w < s.len() {
        lemma_word_stop(s, w + 1);
    }
}

/// The source split into words, with parentheses as words of their own and
/// commas dropped: the crude token stream the first cut of the language
/// worked on.
pub fn tokenize(code: String) -> (r: Vec<String>)
    requires
        code@.len() <= MAX_SRC_LEN,
    ensures
        r@.map_values(|w: String| w@) == split_ws(expanded(code@), 0),
{
    let src = chars_vec(code.as_str());
    let mut wide: Vec<char> = Vec::new();
    let mut i: usize = 0;
    proof {
        assert(src@.take(0) =~= Seq::<char>::empty());
    }
    while i < src.len()
        invariant
            i <= src@.len(),
            src@ == code@,
            src@.len() <= MAX_SRC_LEN,
            wide@ == expanded(src@.take(i as int)),
        decreases src@.len() - i,
    {
        let c = src[i];
        if c == '(' {
            wide.push(' ');
            wide.push('(');
            wide.push(' ');
        } else if c == ')' {
            wide.push(' ');
            wide.push(')');
            wide.push(' ');
        } else if c == ',' {
            wide.push(' ');
        } else {
            wide.push(c);
        }
        i = i + 1;
        proof {
            assert(src@.take(i as int).drop_last() =~= src@.take(i - 1));
            assert(src@.take(i as int).last() == c);
            assert(wide@ =~= expanded(src@.take(i - 1)) + padded(c));
        }
    }
    proof {
        assert(src@.take(src@.len() as int) =~= src@);
    }
    let mut words: Vec<String> = Vec::new();
    let mut j: usize = 0;
    proof {
        assert(words@.map_values(|w: String| w@) + split_ws(wide@, 0) =~= split_ws(wide@, 0));
    }
    while j < wide.len()
        invariant
            j <= wide@.len(),
            split_ws(wide@, 0) == words@.map_values(|w: String| w@) + split_ws(wide@, j as int),
        decreases wide@.len() - j,
    {
        let c = wide[j];
        if is_unicode_ws(c) {
            j = j + 1;
        } else {
            let start = j;
            let mut piece: Vec<char> = Vec::new();
            piece.push(c);
            j = j + 1;
            proof {
                assert(piece@ =~= wide@.subrange(start as int, j as int));
            }
            while j < wide.len() && !is_unicode_ws(wide[j])
                invariant
                    start < j <= wide@.len(),
                    piece@ == wide@.subrange(start as int, j as int),
                    word_stop(wide@, start + 1) == word_stop(wide@, j as int),
                    !unicode_whitespace(wide@[start as int]),
                decreases wide@.len() - j,
            {
                piece.push(wide[j]);
                j = j + 1;
                proof {
                    assert(piece@ =~= wide@.subrange(start as int, j as int));
                }
            }
            let w = string_from_chars(&piece);
            words.push(w);
            proof {
                assert(next_word(wide@, start as int) == start);
                assert(word_stop(wide@, start + 1) == j);
                assert(split_ws(wide@, start as int) =~= seq![wide@.subrange(start as int, j as int)]
                    + split_ws(wide@, j as int));
                assert(words@.map_values(|w: String| w@) =~= words@.drop_last().map_values(
                    |w: String| w@,
                ).push(piece@));
                assert(words@.map_values(|w: String| w@) + split_ws(wide@, j as int)
                    =~= words@.drop_last().map_values(|w: String| w@) + split_ws(
                    wide@,
                    start as int,
                ));
            }
        }
    }
    proof {
        assert(split_ws(wide@, wide@.len() as int) =~= Seq::<Seq<char>>::empty());
        assert(words@.map_values(|w: String| w@) + Seq::<Seq<char>>::empty() =~= words@.map_values(
            |w: String| w@,
        ));
    }
    words
}

} // verus!
