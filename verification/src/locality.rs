//! What the grammar finds in a part of a text depends on that part alone.
//!
//! The lemmas here carry what holds of a text `t` over to a longer text `s` that
//! holds `t` in `lo..hi`. They hold where the part runs to the end of `s`, and where
//! it ends with a closing brace, as every controller block does.

use vstd::prelude::*;
use crate::balance::{closes, depth_after, lex_after, matching_close};
use crate::error::{Extent, Failure};
use crate::extract::{controller_of, lemma_controller_of_any_span};
use crate::policy::ErrorPolicy;
use crate::{block_outcome, lemma_parse_returns_every_controller, outcomes, parse_outcome};
use crate::grammar::{
    arguments, arguments_end, block_end, block_start, blocks_from, first_mark,
    lemma_block_start, lemma_next_block, marked, next_block, Mark,
};
use crate::text::{
    first_char, first_index, has_word_at, holds, holds_ink, holds_no_ident, ident_end,
    lemma_first_index, lemma_first_unique, lemma_whitespace_end, whitespace_end, At,
};
use crate::token::{
    MappingKind, annotation_at, annotation_end, annotation_name, class_head_at, class_name_end,
    class_name_start, controller_at, lemma_annotation_end, lemma_class_name, mapping_at,
};

verus! {

/// `t` is the part of `s` in `lo..hi`, and the part runs to the end of `s` or ends
/// with a closing brace.
pub open spec fn part_of(s: Seq<char>, lo: int, hi: int, t: Seq<char>) -> bool {
    &&& 0 <= lo <= hi <= s.len()
    &&& t == s.subrange(lo, hi)
    &&& (hi == s.len() || (t.len() > 0 && t.last() == '}'))
}

/// A position that was found, moved by `by`.
pub open spec fn moved(found: Option<int>, by: int) -> Option<int> {
    match found {
        Some(k) => Some(k + by),
        None => None,
    }
}

/// A search in the part finds what the search in the whole finds, where the property
/// that is searched for holds in the part as it does in the whole, and the search in
/// the part ends within it.
pub proof fn lemma_first_index_part(
    s: Seq<char>,
    lo: int,
    hi: int,
    t: Seq<char>,
    from: int,
    p: At,
    q: At,
)
    requires
        0 <= lo <= hi <= s.len(),
        t == s.subrange(lo, hi),
        0 <= from,
        forall|j: int| from <= j < t.len() ==> p(s, lo + j) == #[trigger] q(t, j),
        first_index(t, from, q) is Some || hi == s.len(),
    ensures
        first_index(s, lo + from, p) == moved(first_index(t, from, q), lo),
{
    lemma_first_index(t, from, q);
    match first_index(t, from, q) {
        Some(k) => {
            assert(p(s, lo + k) == q(t, k));
            assert forall|j: int| lo + from <= j < lo + k implies !#[trigger] p(s, j) by {
                assert(p(s, lo + (j - lo)) == q(t, j - lo));
            }
        },
        None => {
            assert forall|j: int| lo + from <= j < s.len() implies !#[trigger] p(s, j) by {
                assert(p(s, lo + (j - lo)) == q(t, j - lo));
            }
        },
    }
    lemma_first_unique(s, lo + from, p, moved(first_index(t, from, q), lo));
}

/// Whitespace ends in the part where it ends in the whole.
pub proof fn lemma_whitespace_end_part(s: Seq<char>, lo: int, hi: int, t: Seq<char>, i: int)
    requires
        part_of(s, lo, hi, t),
        0 <= i,
        i < t.len() || hi == s.len(),
    ensures
        whitespace_end(s, lo + i) == lo + whitespace_end(t, i),
{
    lemma_first_index(t, i, holds_ink());
    if hi < s.len() {
        assert(holds_ink()(t, t.len() - 1));
    }
    assert forall|j: int| i <= j < t.len() implies holds_ink()(s, lo + j) == #[trigger] holds_ink()(
        t,
        j,
    ) by {}
    lemma_first_index_part(s, lo, hi, t, i, holds_ink(), holds_ink());
}

/// An identifier ends in the part where it ends in the whole.
pub proof fn lemma_ident_end_part(s: Seq<char>, lo: int, hi: int, t: Seq<char>, i: int)
    requires
        part_of(s, lo, hi, t),
        0 <= i,
        i < t.len() || hi == s.len(),
    ensures
        ident_end(s, lo + i) == lo + ident_end(t, i),
{
    lemma_first_index(t, i, holds_no_ident());
    if hi < s.len() {
        assert(holds_no_ident()(t, t.len() - 1));
    }
    assert forall|j: int| i <= j < t.len() implies holds_no_ident()(s, lo + j)
        == #[trigger] holds_no_ident()(t, j) by {}
    lemma_first_index_part(s, lo, hi, t, i, holds_no_ident(), holds_no_ident());
}

/// A character is first found in the part where it is first found in the whole.
pub proof fn lemma_first_char_part(s: Seq<char>, lo: int, hi: int, t: Seq<char>, i: int, c: char)
    requires
        part_of(s, lo, hi, t),
        0 <= i,
        first_char(t, i, c) is Some || hi == s.len(),
    ensures
        first_char(s, lo + i, c) == moved(first_char(t, i, c), lo),
{
    assert forall|j: int| i <= j < t.len() implies holds(c)(s, lo + j) == #[trigger] holds(c)(
        t,
        j,
    ) by {}
    lemma_first_index_part(s, lo, hi, t, i, holds(c), holds(c));
}

/// Reading a range of the part leaves the scan in the state in which reading the
/// same range of the whole leaves it.
pub proof fn lemma_scan_part(
    s: Seq<char>,
    lo: int,
    hi: int,
    t: Seq<char>,
    a: int,
    b: int,
    open: char,
    close: char,
)
    requires
        0 <= lo <= hi <= s.len(),
        t == s.subrange(lo, hi),
        0 <= a,
        b <= t.len(),
    ensures
        lex_after(s, lo + a, lo + b) == lex_after(t, a, b),
        depth_after(s, lo + a, lo + b, open, close) == depth_after(t, a, b, open, close),
    decreases b - a,
{
    if a < b {
        lemma_scan_part(s, lo, hi, t, a, b - 1, open, close);
        assert(s[lo + b - 1] == t[b - 1]);
    }
}

/// A delimiter is closed in the part where it is closed in the whole.
pub proof fn lemma_matching_close_part(
    s: Seq<char>,
    lo: int,
    hi: int,
    t: Seq<char>,
    at: int,
    open: char,
    close: char,
)
    requires
        part_of(s, lo, hi, t),
        0 <= at < t.len(),
        matching_close(t, at, open, close) is Some || hi == s.len(),
    ensures
        matching_close(s, lo + at, open, close) == moved(matching_close(t, at, open, close), lo),
{
    assert(s[lo + at] == t[at]);
    if t[at] == open {
        assert forall|j: int| at + 1 <= j < t.len() implies closes(lo + at, open, close)(s, lo + j)
            == #[trigger] closes(at, open, close)(t, j) by {
            lemma_scan_part(s, lo, hi, t, at, j + 1, open, close);
        }
        lemma_first_index_part(
            s,
            lo,
            hi,
            t,
            at + 1,
            closes(lo + at, open, close),
            closes(at, open, close),
        );
    }
}

/// An annotation stands in the part where it stands in the whole, under the same name.
pub proof fn lemma_annotation_part(s: Seq<char>, lo: int, hi: int, t: Seq<char>, i: int)
    requires
        part_of(s, lo, hi, t),
        0 <= i < t.len(),
    ensures
        annotation_at(s, lo + i) == annotation_at(t, i),
        annotation_at(t, i) ==> annotation_end(s, lo + i) == lo + annotation_end(t, i)
            && annotation_name(s, lo + i) == annotation_name(t, i),
        mapping_at(s, lo + i) == mapping_at(t, i),
        controller_at(s, lo + i) == controller_at(t, i),
{
    assert(s[lo + i] == t[i]);
    if i + 1 < t.len() {
        assert(s[lo + i + 1] == t[i + 1]);
    }
    if annotation_at(t, i) {
        lemma_ident_end_part(s, lo, hi, t, i + 1);
        lemma_annotation_end(t, i);
        assert(annotation_name(s, lo + i) =~= annotation_name(t, i));
    }
}

/// The argument list of an annotation is in the part what it is in the whole, where
/// it is closed within the part.
pub proof fn lemma_arguments_part(s: Seq<char>, lo: int, hi: int, t: Seq<char>, e: int)
    requires
        part_of(s, lo, hi, t),
        0 <= e,
        e < t.len() || hi == s.len(),
        !(arguments(t, e) is Unclosed) || hi == s.len(),
    ensures
        arguments_end(s, lo + e) == moved(arguments_end(t, e), lo),
{
    lemma_whitespace_end_part(s, lo, hi, t, e);
    let p = whitespace_end(t, e);
    if e <= t.len() {
        lemma_whitespace_end(t, e);
    }
    if 0 <= p < t.len() {
        assert(s[lo + p] == t[p]);
        if t[p] == '(' {
            lemma_matching_close_part(s, lo, hi, t, p, '(', ')');
        }
    }
}

/// A controller block begins in the part where it begins in the whole, where the
/// part shows that it begins.
pub proof fn lemma_block_start_part(s: Seq<char>, lo: int, hi: int, t: Seq<char>, i: int)
    requires
        part_of(s, lo, hi, t),
        0 <= i < t.len(),
        block_start(t, i) is Some || hi == s.len(),
    ensures
        block_start(s, lo + i) == moved(block_start(t, i), lo),
{
    lemma_annotation_part(s, lo, hi, t, i);
    if !controller_at(t, i) && mapping_at(t, i) is Some {
        lemma_annotation_end(t, i);
        let e = annotation_end(t, i);
        lemma_arguments_part(s, lo, hi, t, e);
        if let Some(after) = arguments_end(t, e) {
            crate::grammar::lemma_arguments(t, e);
            lemma_whitespace_end_part(s, lo, hi, t, after);
            lemma_whitespace_end(t, after);
            let c = whitespace_end(t, after);
            if c < t.len() {
                lemma_annotation_part(s, lo, hi, t, c);
            }
        }
    }
}

/// The head of a class declaration stands in the part where it stands in the whole,
/// and names the class alike.
pub proof fn lemma_class_head_part(s: Seq<char>, lo: int, hi: int, t: Seq<char>, k: int)
    requires
        part_of(s, lo, hi, t),
        1 <= k < t.len(),
    ensures
        class_head_at(s, lo + k) == class_head_at(t, k),
        class_head_at(t, k) ==> class_name_end(s, lo + k) == lo + class_name_end(t, k),
{
    reveal_strlit("class");
    assert(s[lo + k - 1] == t[k - 1]);
    if k + 5 <= t.len() {
        assert(s.subrange(lo + k, lo + k + 5) =~= t.subrange(k, k + 5));
    } else if hi < s.len() {
        if has_word_at(s, lo + k, "class"@) {
            let last = t.len() - 1;
            assert(s.subrange(lo + k, lo + k + 5)[last - k] == s[lo + last]);
            assert(s[lo + last] == t[last]);
        }
    }
    if has_word_at(t, k, "class"@) {
        if k + 5 == t.len() {
            if hi < s.len() {
                assert(t.subrange(k, k + 5)[4] == t[k + 4]);
            }
        } else {
            assert(s[lo + k + 5] == t[k + 5]);
            lemma_whitespace_end_part(s, lo, hi, t, k + 5);
            lemma_whitespace_end(t, k + 5);
            let n = class_name_start(t, k);
            if n < t.len() {
                assert(s[lo + n] == t[n]);
                lemma_ident_end_part(s, lo, hi, t, n);
            }
        }
    }
}

/// The first class declaration after `from` is in the part where it is in the whole.
pub proof fn lemma_first_class_head_part(s: Seq<char>, lo: int, hi: int, t: Seq<char>, from: int)
    requires
        part_of(s, lo, hi, t),
        1 <= from,
        first_mark(t, from, Mark::ClassHead) is Some || hi == s.len(),
    ensures
        first_mark(s, lo + from, Mark::ClassHead) == moved(
            first_mark(t, from, Mark::ClassHead),
            lo,
        ),
{
    assert forall|j: int| from <= j < t.len() implies marked(Mark::ClassHead)(s, lo + j)
        == #[trigger] marked(Mark::ClassHead)(t, j) by {
        lemma_class_head_part(s, lo, hi, t, j);
    }
    lemma_first_index_part(
        s,
        lo,
        hi,
        t,
        from,
        marked(Mark::ClassHead),
        marked(Mark::ClassHead),
    );
}

/// What `block_end` gives, moved by `by`.
pub open spec fn moved_end(
    end: Result<int, crate::error::GrammarFault>,
    by: int,
) -> Result<int, crate::error::GrammarFault> {
    match end {
        Ok(e) => Ok(e + by),
        Err(fault) => Err(fault),
    }
}

/// A controller block ends in the part where it ends in the whole, where the part
/// shows that it ends.
pub proof fn lemma_block_end_part(s: Seq<char>, lo: int, hi: int, t: Seq<char>, c: int)
    requires
        part_of(s, lo, hi, t),
        controller_at(t, c),
        block_end(t, c) is Ok || hi == s.len(),
    ensures
        block_end(s, lo + c) == moved_end(block_end(t, c), lo),
{
    lemma_annotation_end(t, c);
    lemma_annotation_part(s, lo, hi, t, c);
    let a = annotation_end(t, c);
    lemma_first_class_head_part(s, lo, hi, t, a);
    lemma_first_index(t, a, marked(Mark::ClassHead));
    if let Some(k) = first_mark(t, a, Mark::ClassHead) {
        lemma_class_head_part(s, lo, hi, t, k);
        lemma_class_name(t, k);
        let m = class_name_end(t, k);
        lemma_first_char_part(s, lo, hi, t, m, '{');
        lemma_first_index(t, m, holds('{'));
        if let Some(open) = first_char(t, m, '{') {
            lemma_matching_close_part(s, lo, hi, t, open, '{', '}');
        }
    }
}

/// An extent, moved by `by`.
pub open spec fn moved_extent(b: Extent, by: int) -> Extent {
    Extent { start: b.start + by, end: b.end + by }
}

/// What `blocks_from` gives, moved by `by`: each block, or the position of the fault.
pub open spec fn moved_blocks(found: Result<Seq<Extent>, Failure>, by: int) -> Result<
    Seq<Extent>,
    Failure,
> {
    match found {
        Ok(blocks) => Ok(blocks.map_values(|b: Extent| moved_extent(b, by))),
        Err(Failure::Grammar { position, fault }) => Err(
            Failure::Grammar { position: position + by, fault },
        ),
        Err(f) => Err(f),
    }
}

/// The blocks of a text, with one more block before them.
pub open spec fn and_then(first: Extent, found: Result<Seq<Extent>, Failure>) -> Result<
    Seq<Extent>,
    Failure,
> {
    match found {
        Ok(blocks) => Ok(seq![first] + blocks),
        Err(f) => Err(f),
    }
}

/// The blocks of the last part of a text are the blocks of that part taken alone,
/// moved to where the part lies.
pub proof fn lemma_blocks_from_tail(s: Seq<char>, lo: int, t: Seq<char>, from: int)
    requires
        part_of(s, lo, s.len() as int, t),
        0 <= from,
    ensures
        blocks_from(s, lo + from) == moved_blocks(blocks_from(t, from), lo),
    decreases t.len() - from,
{
    let hi = s.len() as int;
    assert forall|j: int| from <= j < t.len() implies marked(Mark::BlockStart)(s, lo + j)
        == #[trigger] marked(Mark::BlockStart)(t, j) by {
        lemma_block_start_part(s, lo, hi, t, j);
    }
    lemma_first_index_part(
        s,
        lo,
        hi,
        t,
        from,
        marked(Mark::BlockStart),
        marked(Mark::BlockStart),
    );
    lemma_next_block(t, from);
    lemma_first_index(t, from, marked(Mark::BlockStart));
    match first_mark(t, from, Mark::BlockStart) {
        None => {
            assert(Seq::<Extent>::empty().map_values(|b: Extent| moved_extent(b, lo))
                =~= Seq::<Extent>::empty());
        },
        Some(i) => {
            lemma_block_start_part(s, lo, hi, t, i);
            lemma_block_start(t, i);
            let c = block_start(t, i)->0;
            lemma_block_end_part(s, lo, hi, t, c);
            if let Ok(e) = block_end(t, c) {
                lemma_blocks_from_tail(s, lo, t, e);
                if let Ok(rest) = blocks_from(t, e) {
                    let b = Extent { start: i, end: e };
                    assert((seq![b] + rest).map_values(|b: Extent| moved_extent(b, lo))
                        =~= seq![moved_extent(b, lo)] + rest.map_values(
                        |b: Extent| moved_extent(b, lo),
                    ));
                }
            }
        },
    }
}

/// The text is one controller block, from its first character to its last.
pub open spec fn is_controller_block(t: Seq<char>) -> bool {
    block_start(t, 0) is Some && block_end(t, block_start(t, 0)->0) == Ok::<
        int,
        crate::error::GrammarFault,
    >(t.len() as int)
}

/// Neither a controller annotation nor a `@RequestMapping` stands in the text, so
/// that nothing in it can begin a controller block. Other annotations may stand
/// there.
#[verifier::opaque]
pub open spec fn is_gap(g: Seq<char>) -> bool {
    forall|i: int|
        0 <= i < g.len() ==> !controller_at(g, i) && #[trigger] mapping_at(g, i) != Some(
            MappingKind::Request,
        )
}

/// An annotation that begins before an `@` ends before it: it is in the text before
/// that `@` what it is in the whole text.
pub proof fn lemma_annotation_before_marker(s: Seq<char>, lo: int, g: Seq<char>, j: int)
    requires
        0 <= j < lo < s.len(),
        g == s.subrange(0, lo),
        s[lo] == '@',
    ensures
        annotation_at(s, j) == annotation_at(g, j),
        annotation_at(s, j) ==> annotation_name(s, j) == annotation_name(g, j),
        controller_at(s, j) == controller_at(g, j),
        mapping_at(s, j) == mapping_at(g, j),
{
    assert(s[j] == g[j]);
    if j + 1 < lo {
        assert(s[j + 1] == g[j + 1]);
    }
    if annotation_at(s, j) {
        lemma_first_index(s, j + 1, holds_no_ident());
        assert(holds_no_ident()(s, lo));
        let e = ident_end(s, j + 1);
        assert(j + 1 <= e <= lo);
        let found = if e < lo {
            Some(e)
        } else {
            None
        };
        assert forall|k: int| j + 1 <= k < e implies !#[trigger] holds_no_ident()(g, k) by {
            assert(!holds_no_ident()(s, k));
            assert(s[k] == g[k]);
        }
        if e < lo {
            assert(s[e] == g[e]);
        }
        lemma_first_unique(g, j + 1, holds_no_ident(), found);
        assert(ident_end(g, j + 1) == e);
        assert(annotation_name(s, j) =~= annotation_name(g, j));
    }
}

/// A controller block ends with the brace that closes the body of its class.
pub proof fn lemma_block_ends_with_brace(t: Seq<char>)
    requires
        is_controller_block(t),
    ensures
        t.len() > 0,
        t.last() == '}',
{
    lemma_block_start(t, 0);
    let c = block_start(t, 0)->0;
    lemma_annotation_end(t, c);
    let a = annotation_end(t, c);
    lemma_first_index(t, a, marked(Mark::ClassHead));
    let k = first_mark(t, a, Mark::ClassHead)->0;
    lemma_class_name(t, k);
    let m = class_name_end(t, k);
    lemma_first_index(t, m, holds('{'));
    let open = first_char(t, m, '{')->0;
    crate::balance::lemma_matching_close(t, open, '{', '}');
}

/// No controller block begins at a position that holds no `@`.
pub proof fn lemma_block_starts_with_marker(s: Seq<char>, j: int)
    requires
        block_start(s, j) is Some,
    ensures
        0 <= j < s.len(),
        s[j] == '@',
{
    if !controller_at(s, j) {
        assert(mapping_at(s, j) is Some);
        assert(annotation_at(s, j));
    }
}

/// In a text that begins with a gap and a controller block, the block is the first
/// block that is found, whatever follows it.
pub proof fn lemma_first_block_of_concat(s: Seq<char>, lo: int, hi: int, t: Seq<char>)
    requires
        part_of(s, lo, hi, t),
        is_controller_block(t),
        is_gap(s.subrange(0, lo)),
    ensures
        next_block(s, 0) == Ok::<Option<Extent>, Failure>(Some(Extent { start: lo, end: hi })),
{
    lemma_block_start(t, 0);
    let c = block_start(t, 0)->0;
    lemma_block_start_part(s, lo, hi, t, 0);
    assert(block_start(s, lo) == Some(lo + c));
    lemma_block_end_part(s, lo, hi, t, c);
    assert(block_end(s, lo + c) == Ok::<int, crate::error::GrammarFault>(hi));
    lemma_block_starts_with_marker(t, 0);
    assert(s[lo] == t[0]);
    let gap = s.subrange(0, lo);
    reveal(is_gap);
    assert forall|j: int| 0 <= j < lo implies !#[trigger] marked(Mark::BlockStart)(s, j) by {
        lemma_annotation_before_marker(s, lo, gap, j);
        assert(mapping_at(gap, j) != Some(MappingKind::Request));
    }
    assert(marked(Mark::BlockStart)(s, lo));
    lemma_first_unique(s, 0, marked(Mark::BlockStart), Some(lo));
    assert(first_mark(s, 0, Mark::BlockStart) == Some(lo));
}

/// In a text made of a gap, a controller block and more text, the block is the first
/// block that is found, whatever follows it; the blocks after it are those of the
/// text that follows, taken alone.
pub proof fn lemma_blocks_of_concat(gap: Seq<char>, t: Seq<char>, rest: Seq<char>)
    requires
        is_gap(gap),
        is_controller_block(t),
    ensures
        blocks_from(gap + t + rest, 0) == and_then(
            Extent { start: gap.len() as int, end: (gap.len() + t.len()) as int },
            moved_blocks(blocks_from(rest, 0), (gap.len() + t.len()) as int),
        ),
{
    let s = gap + t + rest;
    let lo = gap.len() as int;
    let hi = lo + t.len();
    lemma_block_ends_with_brace(t);
    assert(s.subrange(lo, hi) =~= t);
    assert(s.subrange(hi, s.len() as int) =~= rest);
    assert(s.subrange(0, lo) =~= gap);
    lemma_first_block_of_concat(s, lo, hi, t);
    lemma_blocks_from_tail(s, hi, rest, 0);
    assert(blocks_from(s, 0) == and_then(Extent { start: lo, end: hi }, blocks_from(s, hi)));
}

/// The text made of gaps and blocks in turn: a gap, then each block with the gap
/// that follows it.
pub open spec fn file_of(gaps: Seq<Seq<char>>, blocks: Seq<Seq<char>>) -> Seq<char>
    decreases blocks.len(),
{
    if blocks.len() == 0 {
        gaps[0]
    } else {
        gaps[0] + blocks[0] + file_of(gaps.drop_first(), blocks.drop_first())
    }
}

/// A text without `@` holds no controller block.
pub proof fn lemma_blocks_of_gap(gap: Seq<char>)
    requires
        is_gap(gap),
    ensures
        blocks_from(gap, 0) == Ok::<Seq<Extent>, Failure>(Seq::empty()),
{
    reveal(is_gap);
    assert forall|j: int| 0 <= j < gap.len() implies !#[trigger] marked(Mark::BlockStart)(
        gap,
        j,
    ) by {
        assert(mapping_at(gap, j) != Some(MappingKind::Request));
    }
    lemma_first_unique(gap, 0, marked(Mark::BlockStart), None);
}

/// A range of the last part of a text holds what it holds in that part alone.
pub proof fn lemma_subrange_of_tail(front: Seq<char>, rest: Seq<char>, a: int, b: int)
    requires
        0 <= a <= b <= rest.len(),
    ensures
        (front + rest).subrange(front.len() + a, front.len() + b) == rest.subrange(a, b),
{
    assert((front + rest).subrange(front.len() + a, front.len() + b) =~= rest.subrange(a, b));
}

/// The blocks of a text that begins with a gap and a block, where the blocks of the
/// text that follows are known to hold what `parts` holds.
proof fn lemma_blocks_of_file_step(
    gap: Seq<char>,
    t: Seq<char>,
    rest: Seq<char>,
    parts: Seq<Seq<char>>,
)
    requires
        is_gap(gap),
        is_controller_block(t),
        blocks_from(rest, 0) is Ok,
        blocks_from(rest, 0)->Ok_0.len() == parts.len(),
        forall|j: int|
            0 <= j < parts.len() ==> {
                let b = #[trigger] blocks_from(rest, 0)->Ok_0[j];
                &&& 0 <= b.start <= b.end <= rest.len()
                &&& rest.subrange(b.start, b.end) == parts[j]
            },
    ensures
        blocks_from(gap + t + rest, 0) is Ok,
        blocks_from(gap + t + rest, 0)->Ok_0.len() == parts.len() + 1,
        forall|j: int|
            0 <= j < parts.len() + 1 ==> {
                let b = #[trigger] blocks_from(gap + t + rest, 0)->Ok_0[j];
                &&& 0 <= b.start <= b.end <= (gap + t + rest).len()
                &&& (gap + t + rest).subrange(b.start, b.end) == (seq![t] + parts)[j]
            },
{
    let s = gap + t + rest;
    let by = (gap.len() + t.len()) as int;
    lemma_blocks_of_concat(gap, t, rest);
    let tail = blocks_from(rest, 0)->Ok_0;
    let first = Extent { start: gap.len() as int, end: by };
    let found = blocks_from(s, 0)->Ok_0;
    assert(found == seq![first] + tail.map_values(|b: Extent| moved_extent(b, by)));
    assert forall|j: int| 0 <= j < parts.len() + 1 implies {
        let b = #[trigger] found[j];
        &&& 0 <= b.start <= b.end <= s.len()
        &&& s.subrange(b.start, b.end) == (seq![t] + parts)[j]
    } by {
        if j == 0 {
            assert(s.subrange(first.start, first.end) =~= t);
        } else {
            let inner = tail[j - 1];
            assert(found[j] == moved_extent(inner, by));
            lemma_subrange_of_tail(gap + t, rest, inner.start, inner.end);
        }
    }
}

/// In a text made of gaps and controller blocks in turn, the blocks that are found
/// are those it was made of: as many, in their order, each with its own text.
pub proof fn lemma_blocks_of_file(gaps: Seq<Seq<char>>, blocks: Seq<Seq<char>>)
    requires
        gaps.len() == blocks.len() + 1,
        forall|i: int| 0 <= i < gaps.len() ==> is_gap(#[trigger] gaps[i]),
        forall|j: int| 0 <= j < blocks.len() ==> is_controller_block(#[trigger] blocks[j]),
    ensures
        blocks_from(file_of(gaps, blocks), 0) is Ok,
        blocks_from(file_of(gaps, blocks), 0)->Ok_0.len() == blocks.len(),
        forall|j: int|
            0 <= j < blocks.len() ==> {
                let b = #[trigger] blocks_from(file_of(gaps, blocks), 0)->Ok_0[j];
                &&& 0 <= b.start <= b.end <= file_of(gaps, blocks).len()
                &&& file_of(gaps, blocks).subrange(b.start, b.end) == blocks[j]
            },
    decreases blocks.len(),
{
    if blocks.len() == 0 {
        lemma_blocks_of_gap(gaps[0]);
    } else {
        let rest = file_of(gaps.drop_first(), blocks.drop_first());
        assert forall|i: int| 0 <= i < gaps.drop_first().len() implies is_gap(
            #[trigger] gaps.drop_first()[i],
        ) by {
            assert(gaps.drop_first()[i] == gaps[i + 1]);
        }
        assert forall|j: int| 0 <= j < blocks.drop_first().len() implies is_controller_block(
            #[trigger] blocks.drop_first()[j],
        ) by {
            assert(blocks.drop_first()[j] == blocks[j + 1]);
        }
        lemma_blocks_of_file(gaps.drop_first(), blocks.drop_first());
        lemma_blocks_of_file_step(gaps[0], blocks[0], rest, blocks.drop_first());
        assert(seq![blocks[0]] + blocks.drop_first() =~= blocks);
    }
}

/// The extent of a text that is taken alone.
pub open spec fn whole(t: Seq<char>) -> Extent {
    Extent { start: 0, end: t.len() as int }
}

/// In a text made of gaps and controller blocks in turn, what reading a block gives
/// is what reading its text alone gives: the same controller, or a failure for the
/// same reason. No block touches another.
pub proof fn lemma_outcomes_of_file(gaps: Seq<Seq<char>>, blocks: Seq<Seq<char>>, j: int)
    requires
        gaps.len() == blocks.len() + 1,
        forall|i: int| 0 <= i < gaps.len() ==> is_gap(#[trigger] gaps[i]),
        forall|j: int| 0 <= j < blocks.len() ==> is_controller_block(#[trigger] blocks[j]),
        0 <= j < blocks.len(),
    ensures
        ({
            let s = file_of(gaps, blocks);
            let found = blocks_from(s, 0)->Ok_0;
            &&& blocks_from(s, 0) is Ok
            &&& found.len() == blocks.len()
            &&& outcomes(s, found)[j] == controller_of(blocks[j], found[j])
            &&& outcomes(s, found)[j] is Ok <==> controller_of(blocks[j], whole(blocks[j])) is Ok
            &&& outcomes(s, found)[j] is Ok ==> outcomes(s, found)[j]->Ok_0 == controller_of(
                blocks[j],
                whole(blocks[j]),
            )->Ok_0
        }),
{
    lemma_blocks_of_file(gaps, blocks);
    let s = file_of(gaps, blocks);
    let found = blocks_from(s, 0)->Ok_0;
    assert(s.subrange(found[j].start, found[j].end) == blocks[j]);
    lemma_controller_of_any_span(blocks[j], found[j], whole(blocks[j]));
}

/// A text made of gaps and of controller blocks that can each be read, one block at
/// least, parses to one controller for each block, in the order of the blocks:
/// exactly as many controllers as blocks, each what its block gives when read alone.
pub proof fn lemma_parse_of_file(
    gaps: Seq<Seq<char>>,
    blocks: Seq<Seq<char>>,
    policy: ErrorPolicy,
)
    requires
        gaps.len() == blocks.len() + 1,
        blocks.len() > 0,
        forall|i: int| 0 <= i < gaps.len() ==> is_gap(#[trigger] gaps[i]),
        forall|j: int| 0 <= j < blocks.len() ==> is_controller_block(#[trigger] blocks[j]),
        forall|j: int|
            0 <= j < blocks.len() ==> controller_of(#[trigger] blocks[j], whole(blocks[j])) is Ok,
    ensures
        parse_outcome(file_of(gaps, blocks), policy) is Ok,
        parse_outcome(file_of(gaps, blocks), policy)->Ok_0.len() == blocks.len(),
        forall|j: int|
            0 <= j < blocks.len() ==> (#[trigger] parse_outcome(
                file_of(gaps, blocks),
                policy,
            )->Ok_0[j]) == controller_of(blocks[j], whole(blocks[j]))->Ok_0,
{
    let s = file_of(gaps, blocks);
    lemma_blocks_of_file(gaps, blocks);
    let found = blocks_from(s, 0)->Ok_0;
    assert forall|j: int| 0 <= j < found.len() implies block_outcome(
        s,
        #[trigger] found[j],
    ) is Ok by {
        lemma_outcomes_of_file(gaps, blocks, j);
        assert(outcomes(s, found)[j] == block_outcome(s, found[j]));
    }
    lemma_parse_returns_every_controller(s, policy);
    assert forall|j: int| 0 <= j < blocks.len() implies (#[trigger] parse_outcome(
        s,
        policy,
    )->Ok_0[j]) == controller_of(blocks[j], whole(blocks[j]))->Ok_0 by {
        lemma_outcomes_of_file(gaps, blocks, j);
        assert(outcomes(s, found)[j] == block_outcome(s, found[j]));
    }
}

} // verus!
