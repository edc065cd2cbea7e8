pub mod src_location;
pub mod token;

use vstd::prelude::*;

pub use crate::lexer::src_location::SrcLocation;
pub use crate::lexer::token::{SpecToken, SpecTokenKind, Token, TokenKind};
pub use crate::tokenize::tokenize;

use crate::lexer::src_location::{col_of, lemma_loc_bounds, line_of};

verus! {

/// The longest source text the tokenizer takes: enough margin for every line
/// and column number to fit an `i32`.
pub const MAX_SRC_LEN: usize = 0x7FFF_0000;

/// Whether `c` has the Unicode property White_Space.
pub uninterp spec fn unicode_whitespace(c: char) -> bool;

/// Relies on char::is_whitespace: whether `c` has the Unicode property
/// White_Space, a function of the character alone.
#[verifier::external_body]
pub(crate) fn is_unicode_ws(c: char) -> (r: bool)
    ensures
        r == unicode_whitespace(c),
{
    c.is_whitespace()
}

/// Relies on str::chars: the characters of the string, in order.
#[verifier::external_body]
pub(crate) fn chars_vec(s: &str) -> (v: Vec<char>)
    ensures
        v@ == s@,
{
    s.chars().collect()
}

/// Relies on String's FromIterator over char: the collected string holds
/// exactly the characters handed in.
#[verifier::external_body]
pub(crate) fn string_from_chars(v: &Vec<char>) -> (s: String)
    ensures
        s@ == v@,
{
    v.iter().collect()
}

/// The characters skipped between tokens: ASCII whitespace and the comma.
pub open spec fn is_blank(c: char) -> bool {
    c == ' ' || c == '\t' || c == '\n' || c == '\r' || c == '\u{0c}' || c == ','
}

fn is_blank_char(c: char) -> (r: bool)
    ensures
        r == is_blank(c),
{
    c == ' ' || c == '\t' || c == '\n' || c == '\r' || c == '\u{0c}' || c == ','
}

/// A character that ends an identifier-or-number word: a parenthesis, the
/// comment sign, or any Unicode whitespace.
pub open spec fn spec_is_separator(c: char) -> bool {
    c == '(' || c == ')' || c == ';' || unicode_whitespace(c)
}

/// The first index at or after `i` holding a character that is not skipped
/// between tokens, or the end of the text.
pub open spec fn ws_end(s: Seq<char>, i: int) -> int
    decreases s.len() - i when 0 <= i <= s.len()
{
    if i >= s.len() {
        s.len() as int
    } else if is_blank(s[i]) {
        ws_end(s, i + 1)
    } else {
        i
    }
}

pub proof fn lemma_ws_end(s: Seq<char>, i: int)
    requires
        0 <= i <= s.len(),
    ensures
        i <= ws_end(s, i) <= s.len(),
    decreases s.len() - i,
{
    if i < s.len() && is_blank(s[i]) {
        lemma_ws_end(s, i + 1);
    }
}

/// The index just after the first newline at or after `i`, or the end of the
/// text: what a line comment consumes.
pub open spec fn line_end(s: Seq<char>, i: int) -> int
    decreases s.len() - i when 0 <= i <= s.len()
{
    if i >= s.len() {
        s.len() as int
    } else if s[i] == '\n' {
        i + 1
    } else {
        line_end(s, i + 1)
    }
}

pub proof fn lemma_line_end(s: Seq<char>, i: int)
    requires
        0 <= i <= s.len(),
    ensures
        i <= line_end(s, i) <= s.len(),
    decreases s.len() - i,
{
    if i < s.len() && s[i] != '\n' {
        lemma_line_end(s, i + 1);
    }
}

/// What a backslash escape stands for inside a string literal: `\n` and `\t`
/// become the control characters, anything else stands for itself.
pub open spec fn escaped(c: char) -> char {
    if c == 'n' {
        '\n'
    } else if c == 't' {
        '\t'
    } else {
        c
    }
}

/// Scanning a string literal from `i` (just after the opening quote): the
/// content read, the index just after the last consumed character, and
/// whether a closing quote was found.
pub open spec fn string_scan(s: Seq<char>, i: int) -> (Seq<char>, int, bool)
    decreases s.len() - i when 0 <= i <= s.len()
{
    if i >= s.len() {
        (Seq::<char>::empty(), s.len() as int, false)
    } else if s[i] == '"' {
        (Seq::<char>::empty(), i + 1, true)
    } else if s[i] == '\\' {
        if i + 1 >= s.len() {
            (Seq::<char>::empty(), s.len() as int, false)
        } else {
            let r = string_scan(s, i + 2);
            (seq![escaped(s[i + 1])] + r.0, r.1, r.2)
        }
    } else {
        let r = string_scan(s, i + 1);
        (seq![s[i]] + r.0, r.1, r.2)
    }
}

pub proof fn lemma_string_scan(s: Seq<char>, i: int)
    requires
        0 <= i <= s.len(),
    ensures
        i <= string_scan(s, i).1 <= s.len(),
    decreases s.len() - i,
{
    if i < s.len() && s[i] != '"' {
        if s[i] == '\\' {
            if i + 1 < s.len() {
                lemma_string_scan(s, i + 2);
            }
        } else {
            lemma_string_scan(s, i + 1);
        }
    }
}

/// The first index at or after `i` holding a separator, or the end of the
/// text: where an identifier-or-number word ends.
pub open spec fn word_end(s: Seq<char>, i: int) -> int
    decreases s.len() - i when 0 <= i <= s.len()
{
    if i >= s.len() {
        s.len() as int
    } else if spec_is_separator(s[i]) {
        i
    } else {
        word_end(s, i + 1)
    }
}

pub proof fn lemma_word_end(s: Seq<char>, i: int)
    requires
        0 <= i <= s.len(),
    ensures
        i <= word_end(s, i) <= s.len(),
    decreases s.len() - i,
{
    if i < s.len() && !spec_is_separator(s[i]) {
        lemma_word_end(s, i + 1);
    }
}

/// The token whose text ends just before index `end`, located at the line and
/// column reached by consuming exactly `end` characters.
pub open spec fn tok_at(s: Seq<char>, k: SpecTokenKind, end: int) -> SpecToken {
    SpecToken { kind: k, line: line_of(s.take(end)), col: col_of(s.take(end)) }
}

/// The whole token stream of `s` from index `i` on.  Every word comes out as
/// `Id`; see [`Token::classified`] for how words become numbers.
pub open spec fn spec_tokens(s: Seq<char>, i: int) -> Seq<SpecToken>
    decreases s.len() - i when 0 <= i <= s.len() via spec_tokens_decreases
{
    let p = ws_end(s, i);
    if p >= s.len() {
        Seq::<SpecToken>::empty()
    } else if s[p] == '(' {
        seq![tok_at(s, SpecTokenKind::LParen, p + 1)] + spec_tokens(s, p + 1)
    } else if s[p] == ')' {
        seq![tok_at(s, SpecTokenKind::RParen, p + 1)] + spec_tokens(s, p + 1)
    } else if s[p] == ';' {
        spec_tokens(s, line_end(s, p + 1))
    } else if s[p] == '"' {
        let sc = string_scan(s, p + 1);
        seq![
            tok_at(
                s,
                if sc.2 {
                    SpecTokenKind::Str(sc.0)
                } else {
                    SpecTokenKind::UnterminatedString(sc.0)
                },
                sc.1,
            ),
        ] + spec_tokens(s, sc.1)
    } else {
        let e = word_end(s, p + 1);
        seq![tok_at(s, SpecTokenKind::Id(s.subrange(p, e)), e)] + spec_tokens(s, e)
    }
}

#[via_fn]
proof fn spec_tokens_decreases(s: Seq<char>, i: int) {
    lemma_ws_end(s, i);
    let p = ws_end(s, i);
    if p < s.len() {
        if s[p] == ';' {
            lemma_line_end(s, p + 1);
        } else if s[p] == '"' {
            lemma_string_scan(s, p + 1);
        } else {
            lemma_word_end(s, p + 1);
        }
    }
}

/// A restartable tokenizer over one source text.
#[derive(Debug)]
pub struct Tokenizer {
    pub src: Vec<char>,
    pub pos: usize,
    pub loc: SrcLocation,
}

impl Tokenizer {
    /// The tokenizer's invariant: the position is inside the text and the
    /// location matches the consumed prefix.
    pub open spec fn wf(self) -> bool {
        self.pos <= self.src@.len() && self.src@.len() <= MAX_SRC_LEN && self.loc.is_at(
            self.src@.take(self.pos as int),
        )
    }

    pub fn new(src: &str) -> (r: Self)
        requires
            src@.len() <= MAX_SRC_LEN,
        ensures
            r.wf(),
            r.src@ == src@,
            r.pos == 0,
    {
        let r = Self { src: chars_vec(src), pos: 0, loc: SrcLocation::default() };
        proof {
            assert(r.src@.take(0) =~= Seq::<char>::empty());
        }
        r
    }

    /// Every remaining token of the text, in order.
    pub fn tokens(&mut self) -> (r: Vec<Token>)
        requires
            old(self).wf(),
        ensures
            final(self).wf(),
            final(self).src == old(self).src,
            r@.map_values(|t: Token| t@) == spec_tokens(old(self).src@, old(self).pos as int),
    {
        let mut out: Vec<Token> = Vec::new();
        proof {
            assert(out@.map_values(|t: Token| t@) =~= Seq::<SpecToken>::empty());
        }
        loop
            invariant_except_break
                self.wf(),
                self.src == old(self).src,
                old(self).pos <= self.pos,
                spec_tokens(self.src@, old(self).pos as int) == out@.map_values(|t: Token| t@)
                    + spec_tokens(self.src@, self.pos as int),
            ensures
                self.wf(),
                self.src == old(self).src,
                out@.map_values(|t: Token| t@) == spec_tokens(self.src@, old(self).pos as int),
            decreases self.src@.len() - self.pos,
        {
            match self.next_token() {
                Some(t) => {
                    out.push(t);
                    proof {
                        assert(out@.map_values(|t: Token| t@) =~= out@.drop_last().map_values(
                            |t: Token| t@,
                        ).push(t@));
                        assert(spec_tokens(self.src@, old(self).pos as int) =~= out@.map_values(
                            |t: Token| t@,
                        ) + spec_tokens(self.src@, self.pos as int));
                    }
                }
                None => {
                    proof {
                        assert(out@.map_values(|t: Token| t@) + spec_tokens(
                            self.src@,
                            self.pos as int,
                        ) =~= out@.map_values(|t: Token| t@));
                    }
                    break ;
                }
            }
        }
        out
    }

    /// The next token, or `None` once only blanks and comments remain.
    pub fn next_token(&mut self) -> (r: Option<Token>)
        requires
            old(self).wf(),
        ensures
            final(self).wf(),
            final(self).src == old(self).src,
            old(self).pos <= final(self).pos,
            match r {
                Some(t) => final(self).pos > old(self).pos && spec_tokens(
                    final(self).src@,
                    old(self).pos as int,
                ) == seq![t@] + spec_tokens(final(self).src@, final(self).pos as int),
                None => final(self).pos == final(self).src@.len() && spec_tokens(
                    final(self).src@,
                    old(self).pos as int,
                ) == Seq::<SpecToken>::empty(),
            },
        decreases old(self).src@.len() - old(self).pos,
    {
        self.skip_whitespaces();
        let ghost p: int = self.pos as int;
        if self.pos == self.src.len() {
            None
        } else {
            let c = self.src[self.pos];
            let _ = self.next_char();
            match c {
                '(' => {
                    let t = Token::new(TokenKind::LParen, self.loc());
                    proof {
                        assert(spec_tokens(self.src@, old(self).pos as int) == seq![t@]
                            + spec_tokens(self.src@, self.pos as int));
                    }
                    Some(t)
                }
                ')' => {
                    let t = Token::new(TokenKind::RParen, self.loc());
                    proof {
                        assert(spec_tokens(self.src@, old(self).pos as int) == seq![t@]
                            + spec_tokens(self.src@, self.pos as int));
                    }
                    Some(t)
                }
                ';' => {
                    self.skip_line();
                    proof {
                        lemma_line_end(self.src@, p + 1);
                    }
                    let r = self.next_token();
                    proof {
                        assert(spec_tokens(self.src@, old(self).pos as int) == spec_tokens(
                            self.src@,
                            line_end(self.src@, p + 1),
                        ));
                    }
                    r
                }
                '"' => {
                    let t = self.read_string();
                    proof {
                        assert(spec_tokens(self.src@, old(self).pos as int) == seq![t@]
                            + spec_tokens(self.src@, self.pos as int));
                    }
                    Some(t)
                }
                _ => {
                    let t = self.read_id_or_number(c);
                    proof {
                        assert(spec_tokens(self.src@, old(self).pos as int) == seq![t@]
                            + spec_tokens(self.src@, self.pos as int));
                    }
                    Some(t)
                }
            }
        }
    }

    fn skip_whitespaces(&mut self)
        requires
            old(self).wf(),
        ensures
            final(self).wf(),
            final(self).src == old(self).src,
            old(self).pos <= final(self).pos,
            final(self).pos == ws_end(old(self).src@, old(self).pos as int),
    {
        while self.pos < self.src.len() && is_blank_char(self.src[self.pos])
            invariant
                self.wf(),
                self.src == old(self).src,
                old(self).pos <= self.pos,
                ws_end(self.src@, old(self).pos as int) == ws_end(self.src@, self.pos as int),
            decreases self.src@.len() - self.pos,
        {
            let _ = self.next_char();
        }
    }

    /// The rest of a string literal, after the opening quote was consumed.
    fn read_string(&mut self) -> (t: Token)
        requires
            old(self).wf(),
        ensures
            final(self).wf(),
            final(self).src == old(self).src,
            old(self).pos <= final(self).pos,
            ({
                let sc = string_scan(old(self).src@, old(self).pos as int);
                final(self).pos == sc.1 && t@ == tok_at(
                    final(self).src@,
                    if sc.2 {
                        SpecTokenKind::Str(sc.0)
                    } else {
                        SpecTokenKind::UnterminatedString(sc.0)
                    },
                    sc.1,
                )
            }),
    {
        let ghost start: int = self.pos as int;
        let mut content: Vec<char> = Vec::new();
        let mut terminated: bool = false;
        proof {
            assert(Seq::<char>::empty() + string_scan(self.src@, start).0 =~= string_scan(
                self.src@,
                start,
            ).0);
        }
        loop
            invariant_except_break
                self.wf(),
                self.src == old(self).src,
                start <= self.pos as int,
                0 <= start <= self.src@.len(),
                !terminated,
                ({
                    let a = string_scan(self.src@, start);
                    let b = string_scan(self.src@, self.pos as int);
                    a.0 == content@ + b.0 && a.1 == b.1 && a.2 == b.2
                }),
            ensures
                self.wf(),
                self.src == old(self).src,
                start <= self.pos as int,
                ({
                    let a = string_scan(self.src@, start);
                    a.0 == content@ && a.1 == self.pos as int && a.2 == terminated
                }),
            decreases self.src@.len() - self.pos,
        {
            let ghost p: int = self.pos as int;
            match self.next_char() {
                None => {
                    proof {
                        assert(string_scan(self.src@, p).0 =~= Seq::<char>::empty());
                        assert(content@ + Seq::<char>::empty() =~= content@);
                    }
                    break ;
                }
                Some(c) => {
                    if c == '"' {
                        terminated = true;
                        proof {
                            assert(string_scan(self.src@, p).0 =~= Seq::<char>::empty());
                            assert(content@ + Seq::<char>::empty() =~= content@);
                        }
                        break ;
                    } else if c == '\\' {
                        match self.next_char() {
                            Some(e) => {
                                let d = if e == 'n' {
                                    '\n'
                                } else if e == 't' {
                                    '\t'
                                } else {
                                    e
                                };
                                content.push(d);
                                proof {
                                    let b = string_scan(self.src@, self.pos as int);
                                    assert(string_scan(self.src@, p).0 =~= seq![d] + b.0);
                                    assert(content@.drop_last() + (seq![d] + b.0) =~= content@
                                        + b.0);
                                }
                            }
                            None => {
                                proof {
                                    let b = string_scan(self.src@, self.pos as int);
                                    assert(string_scan(self.src@, p).0 =~= b.0);
                                }
                            }
                        }
                    } else {
                        content.push(c);
                        proof {
                            let b = string_scan(self.src@, self.pos as int);
                            assert(string_scan(self.src@, p).0 =~= seq![c] + b.0);
                            assert(content@.drop_last() + (seq![c] + b.0) =~= content@ + b.0);
                        }
                    }
                }
            }
        }
        let text = string_from_chars(&content);
        let t = Token::new(
            if terminated {
                TokenKind::String(text)
            } else {
                TokenKind::UnterminatedString(text)
            },
            self.loc(),
        );
        t
    }

    /// The rest of an identifier-or-number word, whose first character
    /// `begin` was already consumed.  Every word comes out as `Id`; turning a
    /// word into a number token is the driver's part, see
    /// [`Token::classified`].
    fn read_id_or_number(&mut self, begin: char) -> (t: Token)
        requires
            old(self).wf(),
            old(self).pos >= 1,
            begin == old(self).src@[old(self).pos - 1],
        ensures
            final(self).wf(),
            final(self).src == old(self).src,
            old(self).pos <= final(self).pos,
            ({
                let e = word_end(old(self).src@, old(self).pos as int);
                final(self).pos == e && t@ == tok_at(
                    final(self).src@,
                    SpecTokenKind::Id(final(self).src@.subrange(old(self).pos - 1, e)),
                    e,
                )
            }),
    {
        let ghost start: int = self.pos as int;
        let mut word: Vec<char> = Vec::new();
        word.push(begin);
        proof {
            assert(word@ =~= self.src@.subrange(start - 1, start));
        }
        while self.pos < self.src.len() && !Self::is_separator(self.src[self.pos])
            invariant
                self.wf(),
                self.src == old(self).src,
                start <= self.pos as int,
                1 <= start,
                word@ == self.src@.subrange(start - 1, self.pos as int),
                word_end(self.src@, start) == word_end(self.src@, self.pos as int),
            decreases self.src@.len() - self.pos,
        {
            let c = self.src[self.pos];
            let _ = self.next_char();
            word.push(c);
            proof {
                assert(word@ =~= self.src@.subrange(start - 1, self.pos as int));
            }
        }
        let text = string_from_chars(&word);
        let t = Token::new(TokenKind::Id(text), self.loc());
        t
    }

    fn skip_line(&mut self)
        requires
            old(self).wf(),
        ensures
            final(self).wf(),
            final(self).src == old(self).src,
            old(self).pos <= final(self).pos,
            final(self).pos == line_end(old(self).src@, old(self).pos as int),
    {
        loop
            invariant_except_break
                self.wf(),
                self.src == old(self).src,
                old(self).pos <= self.pos,
                line_end(self.src@, old(self).pos as int) == line_end(self.src@, self.pos as int),
            ensures
                self.wf(),
                self.src == old(self).src,
                old(self).pos <= self.pos,
                self.pos == line_end(self.src@, old(self).pos as int),
            decreases self.src@.len() - self.pos,
        {
            match self.next_char() {
                Some(c) => {
                    if c == '\n' {
                        break ;
                    }
                }
                None => {
                    break ;
                }
            }
        }
    }

    fn next_char(&mut self) -> (r: Option<char>)
        requires
            old(self).wf(),
        ensures
            final(self).wf(),
            final(self).src == old(self).src,
            if old(self).pos < old(self).src@.len() {
                r == Some(old(self).src@[old(self).pos as int]) && final(self).pos == old(self).pos + 1
            } else {
                r == None::<char> && *final(self) == *old(self)
            },
    {
        if self.pos < self.src.len() {
            let c = self.src[self.pos];
            self.pos = self.pos + 1;
            self.update_loc(c);
            Some(c)
        } else {
            None
        }
    }

    pub fn peek(&self) -> (r: Option<char>)
        requires
            self.wf(),
        ensures
            r == if self.pos < self.src@.len() {
                Some(self.src@[self.pos as int])
            } else {
                None::<char>
            },
    {
        if self.pos < self.src.len() {
            Some(self.src[self.pos])
        } else {
            None
        }
    }

    fn update_loc(&mut self, c: char)
        requires
            1 <= old(self).pos <= old(self).src@.len(),
            old(self).src@.len() <= MAX_SRC_LEN,
            old(self).loc.is_at(old(self).src@.take(old(self).pos - 1)),
            c == old(self).src@[old(self).pos - 1],
        ensures
            final(self).wf(),
            final(self).src == old(self).src,
            final(self).pos == old(self).pos,
    {
        proof {
            lemma_loc_bounds(self.src@.take(self.pos - 1));
            assert(self.src@.take(self.pos as int).drop_last() =~= self.src@.take(self.pos - 1));
            assert(self.src@.take(self.pos as int).last() == c);
        }
        match c {
            '\n' => {
                self.loc.line = self.loc.line + 1;
                self.loc.col = 0;
            }
            _ => {
                self.loc.col = self.loc.col + 1;
            }
        }
    }

    /// The location of the last consumed character.
    pub fn loc(&self) -> (r: SrcLocation)
        ensures
            r == self.loc,
    {
        SrcLocation { line: self.loc.line, col: self.loc.col }
    }

    pub fn is_separator(c: char) -> (r: bool)
        ensures
            r == spec_is_separator(c),
    {
        match c {
            '(' | ')' | ';' => true,
            _ => is_unicode_ws(c),
        }
    }
}

} // verus!
