//! The tokeniser: a lazy, forward-only scanner that cuts source text into
//! whitespace-delimited tokens, keeps parenthesised groups (across any
//! whitespace, newlines included) inside one token, strips line comments
//! (`//` to end of line) and block comments (`/*` to `*/`), and reports the
//! line on which each token's first character appeared.

use vstd::prelude::*;
use crate::errors::AvcErr;
use crate::text::{is_ws, is_whitespace_char, spec_trim, trim_bounds};

verus! {

/// What one scan of the tokeniser produces: the untrimmed bounds of the
/// token, the line of its first character, and the position and line at
/// which the next scan resumes.
pub struct TokOut {
    pub start: int,
    pub end: int,
    pub line: int,
    pub rpos: int,
    pub rline: int,
}

/// One pass of the scanner from position `i`. `word` records whether a token
/// has started at `tstart` (on line `tline`); `comment` that a `/` or, inside
/// a block comment, a `*` was just seen; `in_line` and `in_multi` the two
/// comment modes; `depth` the parenthesis depth. Yields the next token, or
/// `None` when only whitespace and comments remain.
pub open spec fn scan(
    s: Seq<char>,
    i: int,
    line: int,
    word: bool,
    tstart: int,
    tline: int,
    comment: bool,
    in_line: bool,
    in_multi: bool,
    depth: int,
) -> Option<TokOut>
    decreases s.len() - i,
{
    if i < 0 || i >= s.len() {
        if in_line || in_multi || !word {
            None
        } else {
            Some(TokOut { start: tstart, end: s.len() as int, line: tline, rpos: s.len() as int, rline: line })
        }
    } else {
        let c = s[i];
        let line2 = if c == '\n' {
            line + 1
        } else {
            line
        };
        if comment && !in_multi {
            if c == '/' {
                scan(s, i + 1, line2, word, tstart, tline, false, true, in_multi, depth)
            } else if c == '*' {
                scan(s, i + 1, line2, word, tstart, tline, false, in_line, true, depth)
            } else {
                scan(s, i + 1, line2, word, tstart, tline, false, in_line, in_multi, depth)
            }
        } else if in_line {
            if c == '\n' {
                scan(s, i + 1, line2, word, tstart, tline, comment, false, in_multi, depth)
            } else {
                scan(s, i + 1, line2, word, tstart, tline, comment, true, in_multi, depth)
            }
        } else if in_multi {
            if comment && c == '/' {
                scan(s, i + 1, line2, word, tstart, tline, false, in_line, false, depth)
            } else {
                scan(s, i + 1, line2, word, tstart, tline, c == '*', in_line, true, depth)
            }
        } else {
            let depth2 = if c == '(' {
                depth + 1
            } else if c == ')' {
                depth - 1
            } else {
                depth
            };
            if !word {
                if is_ws(c) {
                    scan(s, i + 1, line2, false, tstart, tline, false, false, false, depth2)
                } else if c == '/' {
                    scan(s, i + 1, line2, false, tstart, tline, true, false, false, depth2)
                } else {
                    scan(s, i + 1, line2, true, i, line, false, false, false, depth2)
                }
            } else {
                if is_ws(c) && depth2 == 0 {
                    Some(TokOut { start: tstart, end: i, line: tline, rpos: i + 1, rline: line2 })
                } else {
                    scan(s, i + 1, line2, true, tstart, tline, false, false, false, depth2)
                }
            }
        }
    }
}

/// The next token of `s` at position `pos`, scanning with a clean state.
pub open spec fn spec_next_token(s: Seq<char>, pos: int, line: int) -> Option<TokOut> {
    scan(s, pos, line, false, 0, 0, false, false, false, 0)
}

/// A successful scan never moves backwards, stays inside the text, and makes
/// progress whenever it starts strictly inside the text.
pub proof fn lemma_scan_progress(
    s: Seq<char>,
    i: int,
    line: int,
    word: bool,
    tstart: int,
    tline: int,
    comment: bool,
    in_line: bool,
    in_multi: bool,
    depth: int,
)
    requires
        0 <= i <= s.len(),
        scan(s, i, line, word, tstart, tline, comment, in_line, in_multi, depth) is Some,
    ensures
        ({
            let tk = scan(s, i, line, word, tstart, tline, comment, in_line, in_multi, depth)->Some_0;
            i <= tk.rpos <= s.len() && (i < s.len() ==> i < tk.rpos)
        }),
    decreases s.len() - i,
{
    if i < s.len() {
        let c = s[i];
        let line2 = if c == '\n' {
            line + 1
        } else {
            line
        };
        if comment && !in_multi {
            if c == '/' {
                lemma_scan_progress(s, i + 1, line2, word, tstart, tline, false, true, in_multi, depth);
            } else if c == '*' {
                lemma_scan_progress(s, i + 1, line2, word, tstart, tline, false, in_line, true, depth);
            } else {
                lemma_scan_progress(s, i + 1, line2, word, tstart, tline, false, in_line, in_multi, depth);
            }
        } else if in_line {
            if c == '\n' {
                lemma_scan_progress(s, i + 1, line2, word, tstart, tline, comment, false, in_multi, depth);
            } else {
                lemma_scan_progress(s, i + 1, line2, word, tstart, tline, comment, true, in_multi, depth);
            }
        } else if in_multi {
            if comment && c == '/' {
                lemma_scan_progress(s, i + 1, line2, word, tstart, tline, false, in_line, false, depth);
            } else {
                lemma_scan_progress(s, i + 1, line2, word, tstart, tline, c == '*', in_line, true, depth);
            }
        } else {
            let depth2 = if c == '(' {
                depth + 1
            } else if c == ')' {
                depth - 1
            } else {
                depth
            };
            if !word {
                if is_ws(c) {
                    lemma_scan_progress(s, i + 1, line2, false, tstart, tline, false, false, false, depth2);
                } else if c == '/' {
                    lemma_scan_progress(s, i + 1, line2, false, tstart, tline, true, false, false, depth2);
                } else {
                    lemma_scan_progress(s, i + 1, line2, true, i, line, false, false, false, depth2);
                }
            } else {
                if is_ws(c) && depth2 == 0 {
                } else {
                    lemma_scan_progress(s, i + 1, line2, true, tstart, tline, false, false, false, depth2);
                }
            }
        }
    }
}

/// The tokens of `s` from position `pos` on: each token's trimmed text with
/// the line its first character stood on.
pub open spec fn spec_tokens_from(s: Seq<char>, pos: int, line: int) -> Seq<(Seq<char>, int)>
    decreases s.len() - pos,
    when 0 <= pos
    via spec_tokens_from_dec
{
    match spec_next_token(s, pos, line) {
        None => Seq::empty(),
        Some(tk) => seq![(spec_trim(s.subrange(tk.start, tk.end)), tk.line)] + spec_tokens_from(
            s,
            tk.rpos,
            tk.rline,
        ),
    }
}

#[via_fn]
proof fn spec_tokens_from_dec(s: Seq<char>, pos: int, line: int) {
    if spec_next_token(s, pos, line) is Some {
        lemma_scan_progress(s, pos, line, false, 0, 0, false, false, false, 0);
    }
}

/// All tokens of a whole source text.
pub open spec fn spec_tokens(s: Seq<char>) -> Seq<(Seq<char>, int)> {
    spec_tokens_from(s, 0, 0)
}

/// One token: its text and the line its first character appeared on.
#[derive(Debug, PartialEq, Eq)]
pub struct Token<'a> {
    pub token: &'a str,
    pub line: usize,
}

/// The lazy tokeniser: a cursor over the source text.
pub struct Tokeniser<'a> {
    pub code: &'a str,
    pub pos: usize,
    pub line: usize,
}

impl<'a> Tokeniser<'a> {
    /// The cursor is inside the text and cannot have passed more newlines
    /// than characters.
    pub open spec fn wf(&self) -> bool {
        self.pos <= self.code@.len() && self.line <= self.pos
    }

    /// Starts a scan of `code` at its first character, on line zero.
    pub fn new(code: &'a str) -> (t: Tokeniser<'a>)
        ensures
            t.code@ == code@,
            t.pos == 0,
            t.line == 0,
            t.wf(),
    {
        Tokeniser { code, pos: 0, line: 0 }
    }

    /// Yields the next token, or `None` when the rest of the text is
    /// whitespace and comments only; after `None` every further call
    /// returns `None` again.
    pub fn next(&mut self) -> (r: Option<Result<Token<'a>, AvcErr>>)
        requires
            old(self).wf(),
        ensures
            final(self).wf(),
            final(self).code@ == old(self).code@,
            match r {
                None => {
                    &&& spec_next_token(old(self).code@, old(self).pos as int, old(self).line as int)
                        is None
                    &&& final(self).pos == old(self).code@.len()
                },
                Some(res) => {
                    let tk = spec_next_token(
                        old(self).code@,
                        old(self).pos as int,
                        old(self).line as int,
                    )->Some_0;
                    &&& spec_next_token(old(self).code@, old(self).pos as int, old(self).line as int)
                        is Some
                    &&& res is Ok
                    &&& res->Ok_0.token@ == spec_trim(
                        old(self).code@.subrange(tk.start, tk.end),
                    )
                    &&& res->Ok_0.line == tk.line
                    &&& final(self).pos == tk.rpos
                    &&& final(self).line == tk.rline
                    &&& old(self).pos < tk.rpos <= old(self).code@.len()
                },
            },
    {
        let s = self.code;
        let len = s.unicode_len();
        let ghost pos0 = self.pos as int;
        let ghost line0 = self.line as int;
        let mut i: usize = self.pos;
        let mut line: usize = self.line;
        let mut word = false;
        let mut tstart: usize = 0;
        let mut tline: usize = 0;
        let mut comment = false;
        let mut in_line = false;
        let mut in_multi = false;
        let mut depth: i128 = 0;
        while i < len
            invariant
                len == s@.len(),
                self.code@ == s@,
                old(self).code@ == s@,
                pos0 == old(self).pos as int,
                line0 == old(self).line as int,
                pos0 <= i <= len,
                line <= i,
                word ==> pos0 <= tstart < i && tline <= tstart,
                -(i as int) <= depth <= i as int,
                scan(
                    s@,
                    i as int,
                    line as int,
                    word,
                    tstart as int,
                    tline as int,
                    comment,
                    in_line,
                    in_multi,
                    depth as int,
                ) == spec_next_token(s@, pos0, line0),
            decreases len - i,
        {
            let ghost st_i = i as int;
            let ghost st_line = line as int;
            let ghost st_word = word;
            let ghost st_tstart = tstart as int;
            let ghost st_tline = tline as int;
            let ghost st_comment = comment;
            let ghost st_in_line = in_line;
            let ghost st_in_multi = in_multi;
            let ghost st_depth = depth as int;
            let c = s.get_char(i);
            if c == '\n' {
                line += 1;
            }
            if comment && !in_multi {
                if c == '/' {
                    in_line = true;
                } else if c == '*' {
                    in_multi = true;
                }
                comment = false;
            } else if in_line {
                if c == '\n' {
                    in_line = false;
                }
            } else if in_multi {
                if comment && c == '/' {
                    comment = false;
                    in_multi = false;
                } else {
                    comment = c == '*';
                }
            } else {
                if c == '(' {
                    depth = depth + 1;
                } else if c == ')' {
                    depth = depth - 1;
                }
                if !word {
                    if is_whitespace_char(c) {
                        // keep scanning for a word start
                    } else if c == '/' {
                        comment = true;
                    } else {
                        tstart = i;
                        tline = line;
                        word = true;
                    }
                } else {
                    if is_whitespace_char(c) && depth == 0 {
                        proof {
                            assert(scan(
                                s@,
                                st_i,
                                st_line,
                                st_word,
                                st_tstart,
                                st_tline,
                                st_comment,
                                st_in_line,
                                st_in_multi,
                                st_depth,
                            ) == Some(
                                TokOut {
                                    start: st_tstart,
                                    end: st_i,
                                    line: st_tline,
                                    rpos: st_i + 1,
                                    rline: line as int,
                                },
                            ));
                        }
                        let (a, b) = trim_bounds(s, tstart, i);
                        let tok = s.substring_char(a, b);
                        self.pos = i + 1;
                        self.line = line;
                        return Some(Ok(Token { token: tok, line: tline }));
                    }
                }
            }
            proof {
                assert(scan(
                    s@,
                    st_i,
                    st_line,
                    st_word,
                    st_tstart,
                    st_tline,
                    st_comment,
                    st_in_line,
                    st_in_multi,
                    st_depth,
                ) == scan(
                    s@,
                    st_i + 1,
                    line as int,
                    word,
                    tstart as int,
                    tline as int,
                    comment,
                    in_line,
                    in_multi,
                    depth as int,
                ));
            }
            i += 1;
        }
        if in_line || in_multi || !word {
            self.pos = len;
            self.line = line;
            return None;
        }
        let (a, b) = trim_bounds(s, tstart, len);
        let tok = s.substring_char(a, b);
        self.pos = len;
        self.line = line;
        Some(Ok(Token { token: tok, line: tline }))
    }
}

} // verus!
