use vstd::prelude::*;

verus! {

/// A position in the source text: 1-based line; column counted per consumed
/// character and reset to 0 by each newline.
#[derive(PartialEq, Eq, Structural, Debug, Clone, Copy)]
pub struct SrcLocation {
    pub line: i32,
    pub col: i32,
}

/// The line reached once the characters of `s` are consumed: 1 plus the
/// newlines seen.
pub open spec fn line_of(s: Seq<char>) -> int
    decreases s.len(),
{
    if s.len() == 0 {
        1
    } else if s.last() == '\n' {
        line_of(s.drop_last()) + 1
    } else {
        line_of(s.drop_last())
    }
}

/// The column reached once the characters of `s` are consumed: the characters
/// seen since the last newline.
pub open spec fn col_of(s: Seq<char>) -> int
    decreases s.len(),
{
    if s.len() == 0 {
        0
    } else if s.last() == '\n' {
        0
    } else {
        col_of(s.drop_last()) + 1
    }
}

pub proof fn lemma_loc_bounds(s: Seq<char>)
    ensures
        1 <= line_of(s) <= 1 + s.len(),
        0 <= col_of(s) <= s.len(),
    decreases s.len(),
{
    if s.len() > 0 {
        lemma_loc_bounds(s.drop_last());
    }
}

impl SrcLocation {
    /// The position before anything is consumed.
    pub fn default() -> (r: Self)
        ensures
            r.line == 1 && r.col == 0,
    {
        SrcLocation { line: 1, col: 0 }
    }

    pub fn new(line: i32, col: i32) -> (r: Self)
        ensures
            r.line == line && r.col == col,
    {
        SrcLocation { line, col }
    }

    /// The position that consuming exactly the prefix `s` reaches.
    pub open spec fn is_at(self, s: Seq<char>) -> bool {
        self.line == line_of(s) && self.col == col_of(s)
    }
}

} // verus!
