//! Character classes and elementary scans over a sequence of characters.
//!
//! Every offset in this crate counts characters, not bytes. The source text is
//! turned into a slice of `char` once, and all later work indexes that slice.

use vstd::prelude::*;
use vstd::slice::slice_subrange;

verus! {

/// The characters that Unicode gives the property `White_Space`.
pub open spec fn spec_is_whitespace(c: char) -> bool {
    ||| ('\u{9}' <= c && c <= '\u{D}')
    ||| c == ' '
    ||| c == '\u{85}'
    ||| c == '\u{A0}'
    ||| c == '\u{1680}'
    ||| ('\u{2000}' <= c && c <= '\u{200A}')
    ||| c == '\u{2028}'
    ||| c == '\u{2029}'
    ||| c == '\u{202F}'
    ||| c == '\u{205F}'
    ||| c == '\u{3000}'
}

/// Decides whether `c` is whitespace.
#[verifier::when_used_as_spec(spec_is_whitespace)]
pub fn is_whitespace(c: char) -> (r: bool)
    ensures
        r == spec_is_whitespace(c),
{
    ('\u{9}' <= c && c <= '\u{D}') || c == ' ' || c == '\u{85}' || c == '\u{A0}' || c == '\u{1680}'
        || ('\u{2000}' <= c && c <= '\u{200A}') || c == '\u{2028}' || c == '\u{2029}' || c
        == '\u{202F}' || c == '\u{205F}' || c == '\u{3000}'
}

/// The characters that may begin an identifier: an ASCII letter or an underscore.
pub open spec fn spec_is_ident_start(c: char) -> bool {
    ('a' <= c && c <= 'z') || ('A' <= c && c <= 'Z') || c == '_'
}

/// Decides whether `c` may begin an identifier.
#[verifier::when_used_as_spec(spec_is_ident_start)]
pub fn is_ident_start(c: char) -> (r: bool)
    ensures
        r == spec_is_ident_start(c),
{
    ('a' <= c && c <= 'z') || ('A' <= c && c <= 'Z') || c == '_'
}

/// The characters that may continue an identifier: those that may begin one, and the ASCII digits.
pub open spec fn spec_is_ident_char(c: char) -> bool {
    spec_is_ident_start(c) || ('0' <= c && c <= '9')
}

/// Decides whether `c` may continue an identifier.
#[verifier::when_used_as_spec(spec_is_ident_char)]
pub fn is_ident_char(c: char) -> (r: bool)
    ensures
        r == spec_is_ident_char(c),
{
    is_ident_start(c) || ('0' <= c && c <= '9')
}

/// A property of a position in a text.
pub type At = spec_fn(Seq<char>, int) -> bool;

/// The least position in `from..s.len()` at which `p` holds, if there is one.
pub open spec fn first_index(s: Seq<char>, from: int, p: At) -> Option<int>
    decreases s.len() - from,
{
    if from >= s.len() {
        None
    } else if p(s, from) {
        Some(from)
    } else {
        first_index(s, from + 1, p)
    }
}

/// What it means for `r` to be the answer of a search for the least position at or after
/// `from` at which `p` holds.
pub open spec fn is_first(s: Seq<char>, from: int, p: At, r: Option<int>) -> bool {
    match r {
        Some(k) => from <= k < s.len() && p(s, k) && forall|j: int|
            from <= j < k ==> !#[trigger] p(s, j),
        None => forall|j: int| from <= j < s.len() ==> !#[trigger] p(s, j),
    }
}

/// `first_index` finds the least position, and reports `None` only where there is none.
pub proof fn lemma_first_index(s: Seq<char>, from: int, p: At)
    ensures
        is_first(s, from, p, first_index(s, from, p)),
    decreases s.len() - from,
{
    if from < s.len() && !p(s, from) {
        lemma_first_index(s, from + 1, p);
    }
}

/// Whatever answers the search is what `first_index` gives.
pub proof fn lemma_first_unique(s: Seq<char>, from: int, p: At, r: Option<int>)
    requires
        is_first(s, from, p, r),
    ensures
        first_index(s, from, p) == r,
    decreases s.len() - from,
{
    if from < s.len() && !p(s, from) {
        lemma_first_unique(s, from + 1, p, r);
    }
}

/// The greatest position in `lo..hi` at which `p` holds, if there is one.
pub open spec fn last_index(s: Seq<char>, lo: int, hi: int, p: At) -> Option<int>
    decreases hi - lo,
{
    if hi <= lo {
        None
    } else if p(s, hi - 1) {
        Some(hi - 1)
    } else {
        last_index(s, lo, hi - 1, p)
    }
}

/// What it means for `r` to be the answer of a search for the greatest position in `lo..hi`
/// at which `p` holds.
pub open spec fn is_last(s: Seq<char>, lo: int, hi: int, p: At, r: Option<int>) -> bool {
    match r {
        Some(k) => lo <= k < hi && p(s, k) && forall|j: int| k < j < hi ==> !#[trigger] p(s, j),
        None => forall|j: int| lo <= j < hi ==> !#[trigger] p(s, j),
    }
}

/// `last_index` finds the greatest position, and reports `None` only where there is none.
pub proof fn lemma_last_index(s: Seq<char>, lo: int, hi: int, p: At)
    ensures
        is_last(s, lo, hi, p, last_index(s, lo, hi, p)),
    decreases hi - lo,
{
    if lo < hi && !p(s, hi - 1) {
        lemma_last_index(s, lo, hi - 1, p);
    }
}

/// Whatever answers the backward search is what `last_index` gives.
pub proof fn lemma_last_unique(s: Seq<char>, lo: int, hi: int, p: At, r: Option<int>)
    requires
        is_last(s, lo, hi, p, r),
    ensures
        last_index(s, lo, hi, p) == r,
    decreases hi - lo,
{
    if lo < hi && !p(s, hi - 1) {
        lemma_last_unique(s, lo, hi - 1, p, r);
    }
}

/// The position holds the character `c`.
pub open spec fn holds(c: char) -> At {
    |s: Seq<char>, i: int| s[i] == c
}

/// The position holds a character that is not whitespace.
pub open spec fn holds_ink() -> At {
    |s: Seq<char>, i: int| !is_whitespace(s[i])
}

/// The position holds a character that cannot continue an identifier.
pub open spec fn holds_no_ident() -> At {
    |s: Seq<char>, i: int| !is_ident_char(s[i])
}

/// The least position at or after `from` that holds `c`.
pub open spec fn first_char(s: Seq<char>, from: int, c: char) -> Option<int> {
    first_index(s, from, holds(c))
}

/// Where the run of whitespace that begins at `from` ends: the least position at or after
/// `from` that holds no whitespace, or the end of the text.
pub open spec fn whitespace_end(s: Seq<char>, from: int) -> int {
    match first_index(s, from, holds_ink()) {
        Some(k) => k,
        None => s.len() as int,
    }
}

/// Where the run of identifier characters that begins at `from` ends.
pub open spec fn ident_end(s: Seq<char>, from: int) -> int {
    match first_index(s, from, holds_no_ident()) {
        Some(k) => k,
        None => s.len() as int,
    }
}

/// `whitespace_end` lies between `from` and the end, passes over whitespace only,
/// and stops at the first character that is none.
pub proof fn lemma_whitespace_end(s: Seq<char>, from: int)
    requires
        0 <= from <= s.len(),
    ensures
        from <= whitespace_end(s, from) <= s.len(),
        forall|k: int| from <= k < whitespace_end(s, from) ==> is_whitespace(#[trigger] s[k]),
        whitespace_end(s, from) < s.len() ==> !is_whitespace(s[whitespace_end(s, from)]),
{
    lemma_first_index(s, from, holds_ink());
    let e = whitespace_end(s, from);
    assert forall|k: int| from <= k < e implies is_whitespace(#[trigger] s[k]) by {
        assert(!holds_ink()(s, k));
    }
}

/// `ident_end` lies between `from` and the end, passes over identifier characters only,
/// and stops at the first character that is none.
pub proof fn lemma_ident_end(s: Seq<char>, from: int)
    requires
        0 <= from <= s.len(),
    ensures
        from <= ident_end(s, from) <= s.len(),
        forall|k: int| from <= k < ident_end(s, from) ==> is_ident_char(#[trigger] s[k]),
        ident_end(s, from) < s.len() ==> !is_ident_char(s[ident_end(s, from)]),
{
    lemma_first_index(s, from, holds_no_ident());
    let e = ident_end(s, from);
    assert forall|k: int| from <= k < e implies is_ident_char(#[trigger] s[k]) by {
        assert(!holds_no_ident()(s, k));
    }
}

/// Finds the first `c` at or after `from`.
pub fn find_char(s: &[char], from: usize, c: char) -> (r: Option<usize>)
    ensures
        r matches Some(k) ==> first_char(s@, from as int, c) == Some(k as int) && from <= k
            < s.len() && s[k as int] == c,
        r is None ==> first_char(s@, from as int, c) is None,
{
    let mut i: usize = from;
    while i < s.len()
        invariant
            from <= i,
            forall|j: int| from <= j < i && j < s.len() ==> !#[trigger] holds(c)(s@, j),
        decreases s.len() - i,
    {
        if s[i] == c {
            proof {
                lemma_first_unique(s@, from as int, holds(c), Some(i as int));
            }
            return Some(i);
        }
        i += 1;
    }
    proof {
        lemma_first_unique(s@, from as int, holds(c), None);
    }
    None
}

/// Passes over the whitespace that begins at `from`.
pub fn skip_whitespace(s: &[char], from: usize) -> (r: usize)
    requires
        from <= s.len(),
    ensures
        r == whitespace_end(s@, from as int),
        from <= r <= s.len(),
{
    let mut i: usize = from;
    while i < s.len() && is_whitespace(s[i])
        invariant
            from <= i <= s.len(),
            forall|j: int| from <= j < i ==> !#[trigger] holds_ink()(s@, j),
        decreases s.len() - i,
    {
        i += 1;
    }
    proof {
        let found = if i < s.len() {
            Some(i as int)
        } else {
            None
        };
        lemma_first_unique(s@, from as int, holds_ink(), found);
    }
    i
}

/// Passes over the identifier characters that begin at `from`.
pub fn scan_ident(s: &[char], from: usize) -> (r: usize)
    requires
        from <= s.len(),
    ensures
        r == ident_end(s@, from as int),
        from <= r <= s.len(),
{
    let mut i: usize = from;
    while i < s.len() && is_ident_char(s[i])
        invariant
            from <= i <= s.len(),
            forall|j: int| from <= j < i ==> !#[trigger] holds_no_ident()(s@, j),
        decreases s.len() - i,
    {
        i += 1;
    }
    proof {
        let found = if i < s.len() {
            Some(i as int)
        } else {
            None
        };
        lemma_first_unique(s@, from as int, holds_no_ident(), found);
    }
    i
}

/// The text holds `word` at position `at`.
pub open spec fn has_word_at(s: Seq<char>, at: int, word: Seq<char>) -> bool {
    0 <= at && at + word.len() <= s.len() && s.subrange(at, at + word.len()) == word
}

/// Decides whether the text holds `word` at position `at`.
pub fn starts_with_at(s: &[char], at: usize, word: &str) -> (r: bool)
    ensures
        r == has_word_at(s@, at as int, word@),
{
    if at > s.len() {
        return false;
    }
    let mut i: usize = at;
    for c in it: word.chars()
        invariant
            it.seq() == word@,
            at <= s.len(),
            i == at + it.index(),
            i <= s.len(),
            s@.subrange(at as int, i as int) == word@.take(it.index() as int),
    {
        if i >= s.len() || s[i] != c {
            proof {
                if has_word_at(s@, at as int, word@) {
                    let k = it.index() as int;
                    assert(s@.subrange(at as int, at + word@.len())[k] == word@[k]);
                }
            }
            return false;
        }
        proof {
            let k = it.index() as int;
            assert(s@.subrange(at as int, i + 1) =~= word@.take(k + 1));
        }
        i += 1;
    }
    proof {
        assert(word@.take(word@.len() as int) =~= word@);
    }
    true
}

/// Decides whether the characters in `a..b` spell `word`.
pub fn spells(s: &[char], a: usize, b: usize, word: &str) -> (r: bool)
    requires
        a <= b <= s.len(),
    ensures
        r == (s@.subrange(a as int, b as int) == word@),
{
    let hit = starts_with_at(s, a, word);
    if !hit {
        return false;
    }
    let n = word.unicode_len();
    n == b - a
}

/// The characters of `s`, in order.
pub fn to_chars(s: &str) -> (v: Vec<char>)
    ensures
        v@ == s@,
{
    let mut v: Vec<char> = Vec::new();
    for c in it: s.chars()
        invariant
            v@ == it.seq().take(it.index() as int),
            it.seq() == s@,
    {
        v.push(c);
    }
    v
}

/// Collects characters into a `String` with `String::from_iter`, which std documents as
/// building the string from the items of the iterator, in their order.
#[verifier::external_body]
fn string_of(s: &[char]) -> (r: String)
    ensures
        r@ == s@,
{
    String::from_iter(s)
}

/// The characters in `a..b`, as a `String`.
pub fn substring(s: &[char], a: usize, b: usize) -> (r: String)
    requires
        a <= b <= s.len(),
    ensures
        r@ == s@.subrange(a as int, b as int),
{
    string_of(slice_subrange(s, a, b))
}

/// The bounds of `a..b` without the whitespace at its two ends;
/// an empty range at `a` where `a..b` holds whitespace only.
pub open spec fn trimmed(s: Seq<char>, a: int, b: int) -> (int, int) {
    match last_index(s, a, b, holds_ink()) {
        None => (a, a),
        Some(l) => (whitespace_end(s, a), l + 1),
    }
}

/// Finds the bounds of `a..b` without the whitespace at its two ends.
pub fn trim(s: &[char], a: usize, b: usize) -> (r: (usize, usize))
    requires
        a <= b <= s.len(),
    ensures
        (r.0 as int, r.1 as int) == trimmed(s@, a as int, b as int),
        a <= r.0 <= r.1 <= b,
        r.0 < r.1 ==> !is_whitespace(s[r.0 as int]) && !is_whitespace(s[r.1 - 1]),
{
    let mut hi: usize = b;
    while hi > a && is_whitespace(s[hi - 1])
        invariant
            a <= hi <= b <= s.len(),
            forall|j: int| hi <= j < b ==> !#[trigger] holds_ink()(s@, j),
        decreases hi,
    {
        hi -= 1;
    }
    if hi == a {
        proof {
            lemma_last_unique(s@, a as int, b as int, holds_ink(), None);
        }
        return (a, a);
    }
    proof {
        lemma_last_unique(s@, a as int, b as int, holds_ink(), Some(hi - 1));
    }
    let lo = skip_whitespace(s, a);
    proof {
        lemma_first_index(s@, a as int, holds_ink());
        assert(holds_ink()(s@, hi - 1));
    }
    (lo, hi)
}

/// The greatest position in `lo..hi` that holds `c`.
pub open spec fn last_char(s: Seq<char>, lo: int, hi: int, c: char) -> Option<int> {
    last_index(s, lo, hi, holds(c))
}

/// Finds the last `c` in `lo..hi`.
pub fn rfind_char(s: &[char], lo: usize, hi: usize, c: char) -> (r: Option<usize>)
    requires
        lo <= hi <= s.len(),
    ensures
        r matches Some(k) ==> last_char(s@, lo as int, hi as int, c) == Some(k as int) && lo <= k
            < hi && s[k as int] == c,
        r is None ==> last_char(s@, lo as int, hi as int, c) is None,
{
    let mut i: usize = hi;
    while i > lo
        invariant
            lo <= i <= hi <= s.len(),
            forall|j: int| i <= j < hi ==> !#[trigger] holds(c)(s@, j),
        decreases i,
    {
        if s[i - 1] == c {
            proof {
                lemma_last_unique(s@, lo as int, hi as int, holds(c), Some(i - 1));
            }
            return Some(i - 1);
        }
        i -= 1;
    }
    proof {
        lemma_last_unique(s@, lo as int, hi as int, holds(c), None);
    }
    None
}

} // verus!
