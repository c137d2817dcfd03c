//! Balanced delimiters. A scan keeps the nesting depth of one pair of delimiters and
//! treats string and character literals as opaque: a delimiter inside a literal does
//! not count. Comments are not told from code.

use vstd::prelude::*;
use crate::text::{first_index, lemma_first_index, lemma_first_unique, At};

verus! {

/// Where a scan stands with respect to literals.
#[derive(Clone, Copy, Debug, PartialEq, Eq)]
pub enum Lex {
    /// Outside any literal.
    Code,
    /// Inside a string literal.
    Str,
    /// Inside a string literal, right after a backslash.
    StrEscape,
    /// Inside a character literal.
    Chr,
    /// Inside a character literal, right after a backslash.
    ChrEscape,
}

/// The literal state after the character `c` was read in state `lex`. A literal
/// begins with a quote and ends with the next quote of its kind that no backslash
/// stands before; no literal goes on beyond the end of its line.
pub open spec fn lex_step(lex: Lex, c: char) -> Lex {
    if c == '\n' {
        Lex::Code
    } else {
        match lex {
            Lex::Code => if c == '"' {
                Lex::Str
            } else if c == '\'' {
                Lex::Chr
            } else {
                Lex::Code
            },
            Lex::Str => if c == '\\' {
                Lex::StrEscape
            } else if c == '"' {
                Lex::Code
            } else {
                Lex::Str
            },
            Lex::StrEscape => Lex::Str,
            Lex::Chr => if c == '\\' {
                Lex::ChrEscape
            } else if c == '\'' {
                Lex::Code
            } else {
                Lex::Chr
            },
            Lex::ChrEscape => Lex::Chr,
        }
    }
}

/// The nesting depth after the character `c` was read in state `lex` at depth `depth`:
/// outside literals `open` adds one and `close` takes one away.
pub open spec fn depth_step(lex: Lex, depth: int, c: char, open: char, close: char) -> int {
    if lex != Lex::Code {
        depth
    } else if c == open {
        depth + 1
    } else if c == close {
        depth - 1
    } else {
        depth
    }
}

/// The literal state after reading `from..to`, begun outside any literal.
pub open spec fn lex_after(s: Seq<char>, from: int, to: int) -> Lex
    decreases to - from,
{
    if to <= from {
        Lex::Code
    } else {
        lex_step(lex_after(s, from, to - 1), s[to - 1])
    }
}

/// The nesting depth after reading `from..to`, begun outside any literal at depth zero.
pub open spec fn depth_after(s: Seq<char>, from: int, to: int, open: char, close: char) -> int
    decreases to - from,
{
    if to <= from {
        0
    } else {
        depth_step(
            lex_after(s, from, to - 1),
            depth_after(s, from, to - 1, open, close),
            s[to - 1],
            open,
            close,
        )
    }
}

/// After the character at this position the nesting that was opened at `at` is closed.
pub open spec fn closes(at: int, open: char, close: char) -> At {
    |s: Seq<char>, j: int| depth_after(s, at, j + 1, open, close) == 0
}

/// The position of the delimiter that closes the one at `at`: the least position after
/// `at` at which the depth is back to zero. `None` where `at` does not hold `open`, or
/// where the text ends before the nesting is closed.
pub open spec fn matching_close(s: Seq<char>, at: int, open: char, close: char) -> Option<int> {
    if 0 <= at < s.len() && s[at] == open {
        first_index(s, at + 1, closes(at, open, close))
    } else {
        None
    }
}

/// The delimiter that `matching_close` finds is a `close` outside any literal, it lies
/// after `at`, and the nesting is open at every position in between.
pub proof fn lemma_matching_close(s: Seq<char>, at: int, open: char, close: char)
    requires
        matching_close(s, at, open, close) is Some,
    ensures
        ({
            let j = matching_close(s, at, open, close)->0;
            &&& at < j < s.len()
            &&& s[at] == open
            &&& s[j] == close
            &&& lex_after(s, at, j) == Lex::Code
            &&& depth_after(s, at, j, open, close) == 1
            &&& forall|k: int| at < k <= j ==> depth_after(s, at, k, open, close) >= 1
        }),
{
    let j = matching_close(s, at, open, close)->0;
    lemma_first_index(s, at + 1, closes(at, open, close));
    assert(closes(at, open, close)(s, j));
    lemma_opening(s, at, open, close);
    lemma_depth_stays_open(s, at, j, open, close);
    assert(depth_after(s, at, j + 1, open, close) == depth_step(
        lex_after(s, at, j),
        depth_after(s, at, j, open, close),
        s[j],
        open,
        close,
    ));
}

/// Reading the opening delimiter alone leaves the depth at one.
proof fn lemma_opening(s: Seq<char>, at: int, open: char, close: char)
    requires
        0 <= at < s.len(),
        s[at] == open,
    ensures
        depth_after(s, at, at + 1, open, close) == 1,
        lex_after(s, at, at + 1) == lex_step(Lex::Code, open),
{
    assert(depth_after(s, at, at, open, close) == 0);
    assert(lex_after(s, at, at) == Lex::Code);
}

/// While no position closes the nesting, the depth stays at one or more.
proof fn lemma_depth_stays_open(s: Seq<char>, at: int, j: int, open: char, close: char)
    requires
        at < j,
        depth_after(s, at, at + 1, open, close) == 1,
        forall|k: int| at + 1 <= k < j ==> !#[trigger] closes(at, open, close)(s, k),
    ensures
        forall|k: int| at < k <= j ==> depth_after(s, at, k, open, close) >= 1,
    decreases j - at,
{
    if j > at + 1 {
        lemma_depth_stays_open(s, at, j - 1, open, close);
        assert(!closes(at, open, close)(s, j - 1));
        assert(depth_after(s, at, j - 1, open, close) >= 1);
    }
}

/// Advances the literal state by one character.
pub fn lex_next(lex: Lex, c: char) -> (r: Lex)
    ensures
        r == lex_step(lex, c),
{
    if c == '\n' {
        return Lex::Code;
    }
    match lex {
        Lex::Code => if c == '"' {
            Lex::Str
        } else if c == '\'' {
            Lex::Chr
        } else {
            Lex::Code
        },
        Lex::Str => if c == '\\' {
            Lex::StrEscape
        } else if c == '"' {
            Lex::Code
        } else {
            Lex::Str
        },
        Lex::StrEscape => Lex::Str,
        Lex::Chr => if c == '\\' {
            Lex::ChrEscape
        } else if c == '\'' {
            Lex::Code
        } else {
            Lex::Chr
        },
        Lex::ChrEscape => Lex::Chr,
    }
}

/// Finds the delimiter that closes the one at `at`.
pub fn find_matching(s: &[char], at: usize, open: char, close: char) -> (r: Option<usize>)
    ensures
        r matches Some(j) ==> matching_close(s@, at as int, open, close) == Some(j as int) && at
            < j < s.len(),
        r is None ==> matching_close(s@, at as int, open, close) is None,
{
    if at >= s.len() || s[at] != open {
        return None;
    }
    let mut lex = lex_next(Lex::Code, open);
    let mut depth: usize = 1;
    let mut i: usize = at + 1;
    proof {
        lemma_opening(s@, at as int, open, close);
    }
    while i < s.len()
        invariant
            at < i <= s.len(),
            s@[at as int] == open,
            lex == lex_after(s@, at as int, i as int),
            depth == depth_after(s@, at as int, i as int, open, close),
            1 <= depth <= i - at,
            forall|k: int| at + 1 <= k < i ==> !#[trigger] closes(at as int, open, close)(s@, k),
        decreases s.len() - i,
    {
        let c = s[i];
        let code = match lex {
            Lex::Code => true,
            _ => false,
        };
        if code && c == open {
            depth += 1;
        } else if code && c == close {
            depth -= 1;
        }
        lex = lex_next(lex, c);
        if depth == 0 {
            proof {
                assert(closes(at as int, open, close)(s@, i as int));
                lemma_first_unique(
                    s@,
                    at + 1,
                    closes(at as int, open, close),
                    Some(i as int),
                );
            }
            return Some(i);
        }
        i += 1;
    }
    proof {
        lemma_first_unique(s@, at + 1, closes(at as int, open, close), None);
    }
    None
}

/// This position holds a `{` that stands outside literals and outside parentheses,
/// as counted from `from`.
pub open spec fn opens_body(from: int) -> At {
    |s: Seq<char>, j: int|
        s[j] == '{' && lex_after(s, from, j) == Lex::Code && depth_after(s, from, j, '(', ')') <= 0
}

/// The brace that opens the body that follows `from`: the first `{` at or after
/// `from` that is part of no literal and of no parenthesized group, so that a brace
/// in the arguments of an annotation, or in a parameter list, is passed over.
pub open spec fn body_open(s: Seq<char>, from: int) -> Option<int> {
    first_index(s, from, opens_body(from))
}

/// The literal state and the depth of the parentheses after one more character.
proof fn lemma_scan_step(s: Seq<char>, from: int, to: int, open: char, close: char)
    requires
        from <= to,
    ensures
        lex_after(s, from, to + 1) == lex_step(lex_after(s, from, to), s[to]),
        depth_after(s, from, to + 1, open, close) == depth_step(
            lex_after(s, from, to),
            depth_after(s, from, to, open, close),
            s[to],
            open,
            close,
        ),
{
}

/// Finds the brace that opens the body that follows `from`.
pub fn find_body_open(s: &[char], from: usize) -> (r: Option<usize>)
    ensures
        r matches Some(j) ==> body_open(s@, from as int) == Some(j as int) && from <= j < s.len()
            && s[j as int] == '{',
        r is None ==> body_open(s@, from as int) is None,
{
    let mut lex = Lex::Code;
    let mut depth: i128 = 0;
    let mut i: usize = from;
    while i < s.len()
        invariant
            from <= i,
            lex == lex_after(s@, from as int, i as int),
            depth == depth_after(s@, from as int, i as int, '(', ')'),
            -(i - from) <= depth <= i - from,
            forall|k: int|
                from <= k < i && k < s.len() ==> !#[trigger] opens_body(from as int)(s@, k),
        decreases s.len() - i,
    {
        let c = s[i];
        let code = match lex {
            Lex::Code => true,
            _ => false,
        };
        if code && depth <= 0 && c == '{' {
            proof {
                lemma_first_unique(s@, from as int, opens_body(from as int), Some(i as int));
            }
            return Some(i);
        }
        proof {
            lemma_scan_step(s@, from as int, i as int, '(', ')');
        }
        if code && c == '(' {
            depth += 1;
        } else if code && c == ')' {
            depth -= 1;
        }
        lex = lex_next(lex, c);
        i += 1;
    }
    proof {
        lemma_first_unique(s@, from as int, opens_body(from as int), None);
    }
    None
}

/// After the character at this position the scan that began at `at` is outside any
/// literal.
pub open spec fn ends_literal(at: int) -> At {
    |s: Seq<char>, k: int| lex_after(s, at, k + 1) == Lex::Code
}

/// The position of the quote that closes the string literal that opens at `at`. A
/// quote after a backslash does not close it. `None` where `at` holds no double
/// quote, and where the literal is not closed.
pub open spec fn literal_end(s: Seq<char>, at: int) -> Option<int> {
    if 0 <= at < s.len() && s[at] == '"' {
        first_index(s, at + 1, ends_literal(at))
    } else {
        None
    }
}

/// Finds the quote that closes the string literal that opens at `at`.
pub fn find_literal_end(s: &[char], at: usize) -> (r: Option<usize>)
    ensures
        r matches Some(k) ==> literal_end(s@, at as int) == Some(k as int) && at < k < s.len(),
        r is None ==> literal_end(s@, at as int) is None,
{
    if at >= s.len() || s[at] != '"' {
        return None;
    }
    let mut lex = Lex::Str;
    let mut i: usize = at + 1;
    proof {
        lemma_opening(s@, at as int, '"', '"');
    }
    while i < s.len()
        invariant
            at < i <= s.len(),
            s@[at as int] == '"',
            lex == lex_after(s@, at as int, i as int),
            forall|k: int| at + 1 <= k < i ==> !#[trigger] ends_literal(at as int)(s@, k),
        decreases s.len() - i,
    {
        lex = lex_next(lex, s[i]);
        let closed = match lex {
            Lex::Code => true,
            _ => false,
        };
        if closed {
            proof {
                lemma_first_unique(s@, at + 1, ends_literal(at as int), Some(i as int));
            }
            return Some(i);
        }
        i += 1;
    }
    proof {
        lemma_first_unique(s@, at + 1, ends_literal(at as int), None);
    }
    None
}

} // verus!
