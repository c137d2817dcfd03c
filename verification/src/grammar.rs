//! The grammar of a controller file, and the matcher that finds its controller blocks.
//!
//! A controller block runs from a controller annotation, or from a class-level
//! `@RequestMapping` that stands right before it, through the brace that closes the
//! body of the class. Braces are balanced, and those inside string and character
//! literals do not count.

use vstd::prelude::*;
use crate::balance::{
    body_open, find_body_open, find_matching, lemma_matching_close, matching_close,
};
use crate::error::{Extent, GrammarFault, Span, SpringControllerParserError, Failure};
use crate::text::{
    find_char, first_char, first_index, is_ident_char, is_whitespace, lemma_first_index,
    lemma_first_unique, lemma_whitespace_end, skip_whitespace, trim, trimmed, whitespace_end, At,
};
use crate::token::{
    annotation_end, class_head_at, class_name_end, controller_at, is_keyword_at, keyword_at,
    lemma_annotation_end, lemma_class_name, mapping_at, read_class_head, read_controller,
    read_mapping, MappingKind,
};

verus! {

/// The argument list of an annotation.
pub enum Arguments {
    /// The annotation has no argument list.
    Absent,
    /// The list opens at `open` and is closed at `close`.
    Closed { open: int, close: int },
    /// The list opens at `open` and is not closed before the text ends.
    Unclosed { open: int },
}

/// The argument list of an annotation, as `read_arguments` finds it.
#[derive(Clone, Copy, Debug, PartialEq, Eq)]
pub enum ArgumentList {
    Absent,
    Closed { open: usize, close: usize },
    Unclosed { open: usize },
}

impl View for ArgumentList {
    type V = Arguments;

    open spec fn view(&self) -> Arguments {
        match *self {
            ArgumentList::Absent => Arguments::Absent,
            ArgumentList::Closed { open, close } => Arguments::Closed {
                open: open as int,
                close: close as int,
            },
            ArgumentList::Unclosed { open } => Arguments::Unclosed { open: open as int },
        }
    }
}

/// The argument list of the annotation whose name ends at `e`. The annotation has one
/// where the first character after its name that is not whitespace is `(`; the list
/// then runs to the parenthesis that closes that one.
pub open spec fn arguments(s: Seq<char>, e: int) -> Arguments {
    let p = whitespace_end(s, e);
    if p < s.len() && s[p] == '(' {
        match matching_close(s, p, '(', ')') {
            Some(q) => Arguments::Closed { open: p, close: q },
            None => Arguments::Unclosed { open: p },
        }
    } else {
        Arguments::Absent
    }
}

/// Where the annotation ends whose name ends at `e`: after its argument list, or after
/// its name where it has none. `None` where the list is not closed.
pub open spec fn arguments_end(s: Seq<char>, e: int) -> Option<int> {
    match arguments(s, e) {
        Arguments::Absent => Some(e),
        Arguments::Closed { open, close } => Some(close + 1),
        Arguments::Unclosed { open } => None,
    }
}

/// An argument list lies after the name, within the text.
pub proof fn lemma_arguments(s: Seq<char>, e: int)
    requires
        0 <= e <= s.len(),
    ensures
        match arguments(s, e) {
            Arguments::Absent => true,
            Arguments::Closed { open, close } => e <= open < close < s.len() && s[open] == '('
                && s[close] == ')',
            Arguments::Unclosed { open } => e <= open < s.len() && s[open] == '(',
        },
{
    lemma_whitespace_end(s, e);
    let p = whitespace_end(s, e);
    if matching_close(s, p, '(', ')') is Some {
        lemma_matching_close(s, p, '(', ')');
    }
}

/// Reads the argument list of the annotation whose name ends at `e`.
pub fn read_arguments(s: &[char], e: usize) -> (r: ArgumentList)
    requires
        e <= s.len(),
    ensures
        r@ == arguments(s@, e as int),
        r matches ArgumentList::Closed { open, close } ==> e <= open < close < s.len(),
        r matches ArgumentList::Unclosed { open } ==> e <= open < s.len(),
{
    let p = skip_whitespace(s, e);
    if p < s.len() && s[p] == '(' {
        match find_matching(s, p, '(', ')') {
            Some(q) => ArgumentList::Closed { open: p, close: q },
            None => ArgumentList::Unclosed { open: p },
        }
    } else {
        ArgumentList::Absent
    }
}

/// Where a controller block begins at `at`, the position of its controller annotation:
/// `at` itself, or the position after a `@RequestMapping` at `at` and the whitespace
/// behind it.
pub open spec fn block_start(s: Seq<char>, at: int) -> Option<int> {
    if controller_at(s, at) {
        Some(at)
    } else if mapping_at(s, at) == Some(MappingKind::Request) {
        match arguments_end(s, annotation_end(s, at)) {
            Some(e) => if controller_at(s, whitespace_end(s, e)) {
                Some(whitespace_end(s, e))
            } else {
                None
            },
            None => None,
        }
    } else {
        None
    }
}

/// The controller annotation of a block lies at or after the block's start.
pub proof fn lemma_block_start(s: Seq<char>, at: int)
    requires
        block_start(s, at) is Some,
    ensures
        at <= block_start(s, at)->0 < s.len(),
        controller_at(s, block_start(s, at)->0),
{
    if !controller_at(s, at) {
        lemma_annotation_end(s, at);
        lemma_arguments(s, annotation_end(s, at));
        lemma_whitespace_end(s, arguments_end(s, annotation_end(s, at))->0);
    }
}

/// Decides whether a controller block begins at `at`, and gives the position of its
/// controller annotation.
pub fn match_block_start(s: &[char], at: usize) -> (r: Option<usize>)
    ensures
        r is Some == block_start(s@, at as int) is Some,
        r matches Some(c) ==> block_start(s@, at as int) == Some(c as int) && at <= c < s.len()
            && controller_at(s@, c as int),
{
    if read_controller(s, at).is_some() {
        return Some(at);
    }
    match read_mapping(s, at) {
        Some((MappingKind::Request, e)) => {
            let after = match read_arguments(s, e) {
                ArgumentList::Absent => e,
                ArgumentList::Closed { open, close } => close + 1,
                ArgumentList::Unclosed { open } => {
                    return None;
                },
            };
            let c = skip_whitespace(s, after);
            if read_controller(s, c).is_some() {
                Some(c)
            } else {
                None
            }
        },
        _ => None,
    }
}

/// The places that the grammar searches for.
#[derive(Clone, Copy, Debug, PartialEq, Eq)]
pub enum Mark {
    /// The head of a class declaration.
    ClassHead,
    /// A controller annotation.
    Controller,
    /// A mapping annotation, of any of the six kinds.
    Mapping,
    /// The annotation `@RequestMapping`.
    RequestMapping,
    /// The start of a controller block.
    BlockStart,
    /// Where a run of modifiers ends: the head of a class declaration, or a character
    /// that is neither whitespace nor part of an identifier.
    ModifiersEnd,
}

/// The mark `m` stands at position `i`.
pub open spec fn mark_at(m: Mark, s: Seq<char>, i: int) -> bool {
    0 <= i < s.len() && match m {
        Mark::ClassHead => class_head_at(s, i),
        Mark::Controller => controller_at(s, i),
        Mark::Mapping => mapping_at(s, i) is Some,
        Mark::RequestMapping => mapping_at(s, i) == Some(MappingKind::Request),
        Mark::BlockStart => block_start(s, i) is Some,
        Mark::ModifiersEnd => class_head_at(s, i) || !(is_ident_char(s[i]) || is_whitespace(s[i])),
    }
}

/// The property of holding the mark `m`.
pub open spec fn marked(m: Mark) -> At {
    |s: Seq<char>, i: int| mark_at(m, s, i)
}

/// The least position at or after `from` at which the mark `m` stands.
pub open spec fn first_mark(s: Seq<char>, from: int, m: Mark) -> Option<int> {
    first_index(s, from, marked(m))
}

/// Decides whether the mark `m` stands at position `i`.
pub fn is_marked(s: &[char], i: usize, m: Mark) -> (r: bool)
    ensures
        r == mark_at(m, s@, i as int),
{
    i < s.len() && match m {
        Mark::ClassHead => read_class_head(s, i).is_some(),
        Mark::Controller => read_controller(s, i).is_some(),
        Mark::Mapping => read_mapping(s, i).is_some(),
        Mark::RequestMapping => match read_mapping(s, i) {
            Some((MappingKind::Request, _)) => true,
            _ => false,
        },
        Mark::BlockStart => match_block_start(s, i).is_some(),
        Mark::ModifiersEnd => read_class_head(s, i).is_some() || !(is_ident_char(s[i])
            || is_whitespace(s[i])),
    }
}

/// Finds the first position at or after `from` at which the mark `m` stands.
pub fn find_mark(s: &[char], from: usize, m: Mark) -> (r: Option<usize>)
    ensures
        r matches Some(k) ==> first_mark(s@, from as int, m) == Some(k as int) && from <= k
            < s.len() && mark_at(m, s@, k as int),
        r is None ==> first_mark(s@, from as int, m) is None,
{
    let mut i: usize = from;
    while i < s.len()
        invariant
            from <= i,
            forall|j: int| from <= j < i && j < s.len() ==> !#[trigger] marked(m)(s@, j),
        decreases s.len() - i,
    {
        if is_marked(s, i, m) {
            proof {
                lemma_first_unique(s@, from as int, marked(m), Some(i as int));
            }
            return Some(i);
        }
        i += 1;
    }
    proof {
        lemma_first_unique(s@, from as int, marked(m), None);
    }
    None
}

/// Where the controller block ends whose controller annotation is at `c`: after the
/// brace that closes the body of the first class declared after the annotation. The
/// body opens at the first `{` after the name of the class.
pub open spec fn block_end(s: Seq<char>, c: int) -> Result<int, GrammarFault> {
    match first_mark(s, annotation_end(s, c), Mark::ClassHead) {
        None => Err(GrammarFault::MissingClass),
        Some(k) => match first_char(s, class_name_end(s, k), '{') {
            None => Err(GrammarFault::MissingBody),
            Some(open) => match matching_close(s, open, '{', '}') {
                None => Err(GrammarFault::UnclosedBody),
                Some(close) => Ok(close + 1),
            },
        },
    }
}

/// A controller block ends after its controller annotation, within the text.
pub proof fn lemma_block_end(s: Seq<char>, c: int)
    requires
        controller_at(s, c),
        block_end(s, c) is Ok,
    ensures
        c < block_end(s, c)->Ok_0 <= s.len(),
{
    lemma_annotation_end(s, c);
    let a = annotation_end(s, c);
    lemma_first_index(s, a, marked(Mark::ClassHead));
    let k = first_mark(s, a, Mark::ClassHead)->0;
    lemma_class_name(s, k);
    let m = class_name_end(s, k);
    lemma_first_index(s, m, crate::text::holds('{'));
    let open = first_char(s, m, '{')->0;
    lemma_matching_close(s, open, '{', '}');
}

/// Where the body opens of the class that follows the controller annotation at `c`.
pub open spec fn block_body_open(s: Seq<char>, c: int) -> Option<int> {
    match first_mark(s, annotation_end(s, c), Mark::ClassHead) {
        None => None,
        Some(k) => first_char(s, class_name_end(s, k), '{'),
    }
}

/// A controller block ends where the braces of its body are balanced for the first
/// time, not at the first closing brace: the last character of the block is a `}`
/// outside any literal, and at every position between the brace that opens the body
/// and that one, a brace that was opened is still open.
pub proof fn lemma_block_is_balanced(s: Seq<char>, c: int)
    requires
        block_end(s, c) is Ok,
    ensures
        ({
            let open = block_body_open(s, c)->0;
            let end = block_end(s, c)->Ok_0;
            &&& block_body_open(s, c) is Some
            &&& 0 <= open < end - 1 < s.len()
            &&& s[open] == '{'
            &&& s[end - 1] == '}'
            &&& crate::balance::lex_after(s, open, end - 1) == crate::balance::Lex::Code
            &&& crate::balance::depth_after(s, open, end, '{', '}') == 0
            &&& forall|k: int|
                open < k < end ==> crate::balance::depth_after(s, open, k, '{', '}') >= 1
        }),
{
    let open = block_body_open(s, c)->0;
    lemma_matching_close(s, open, '{', '}');
    lemma_first_index(s, open + 1, crate::balance::closes(open, '{', '}'));
}

/// Finds the end of the controller block whose controller annotation is at `c`.
pub fn match_block_end(s: &[char], c: usize) -> (r: Result<usize, GrammarFault>)
    requires
        controller_at(s@, c as int),
    ensures
        match r {
            Ok(e) => block_end(s@, c as int) == Ok::<int, GrammarFault>(e as int) && c < e
                <= s.len(),
            Err(f) => block_end(s@, c as int) == Err::<int, GrammarFault>(f),
        },
{
    let a = match read_controller(s, c) {
        Some(a) => a,
        None => {
            return Err(GrammarFault::MissingClass);
        },
    };
    let k = match find_mark(s, a, Mark::ClassHead) {
        Some(k) => k,
        None => {
            return Err(GrammarFault::MissingClass);
        },
    };
    let m = match read_class_head(s, k) {
        Some((_, m)) => m,
        None => {
            return Err(GrammarFault::MissingClass);
        },
    };
    let open = match find_char(s, m, '{') {
        Some(open) => open,
        None => {
            return Err(GrammarFault::MissingBody);
        },
    };
    match find_matching(s, open, '{', '}') {
        Some(close) => Ok(close + 1),
        None => Err(GrammarFault::UnclosedBody),
    }
}

/// The first controller block that begins at or after `from`: `Ok(None)` where none
/// begins there, and the fault, with the position of the controller annotation, where
/// one begins and does not end.
pub open spec fn next_block(s: Seq<char>, from: int) -> Result<Option<Extent>, Failure> {
    match first_mark(s, from, Mark::BlockStart) {
        None => Ok(None),
        Some(i) => match block_end(s, block_start(s, i)->0) {
            Ok(e) => Ok(Some(Extent { start: i, end: e })),
            Err(fault) => Err(Failure::Grammar { position: block_start(s, i)->0, fault }),
        },
    }
}

/// A block that is found lies at or after `from`, within the text, and is not empty;
/// a fault lies at or after `from`.
pub proof fn lemma_next_block(s: Seq<char>, from: int)
    ensures
        match next_block(s, from) {
            Ok(Some(b)) => from <= b.start < b.end <= s.len(),
            Ok(None) => true,
            Err(Failure::Grammar { position, fault }) => from <= position < s.len(),
            Err(_) => false,
        },
{
    lemma_first_index(s, from, marked(Mark::BlockStart));
    if let Some(i) = first_mark(s, from, Mark::BlockStart) {
        lemma_block_start(s, i);
        if block_end(s, block_start(s, i)->0) is Ok {
            lemma_block_end(s, block_start(s, i)->0);
        }
    }
}

/// The controller blocks at or after `from`, in the order of the text. The search for
/// the next block goes on where the last one ended, so blocks do not overlap, and a
/// class nested in a block is part of that block.
pub open spec fn blocks_from(s: Seq<char>, from: int) -> Result<Seq<Extent>, Failure>
    decreases s.len() - from,
    via blocks_from_decreases
{
    match next_block(s, from) {
        Err(f) => Err(f),
        Ok(None) => Ok(Seq::empty()),
        Ok(Some(b)) => match blocks_from(s, b.end) {
            Ok(rest) => Ok(seq![b] + rest),
            Err(f) => Err(f),
        },
    }
}

#[via_fn]
proof fn blocks_from_decreases(s: Seq<char>, from: int) {
    lemma_next_block(s, from);
}

/// The blocks lie at or after `from`, within the text, in the order of the text and
/// without overlap, and none is empty.
pub proof fn lemma_blocks_from(s: Seq<char>, from: int)
    requires
        0 <= from,
    ensures
        blocks_from(s, from) matches Ok(blocks) ==> {
            &&& forall|i: int|
                0 <= i < blocks.len() ==> from <= (#[trigger] blocks[i]).start < blocks[i].end
                    <= s.len()
            &&& forall|i: int, j: int|
                0 <= i < j < blocks.len() ==> (#[trigger] blocks[i]).end <= (
                #[trigger] blocks[j]).start
        },
    decreases s.len() - from,
{
    lemma_next_block(s, from);
    if let Ok(Some(b)) = next_block(s, from) {
        lemma_blocks_from(s, b.end);
        if let Ok(rest) = blocks_from(s, b.end) {
            let blocks = seq![b] + rest;
            assert forall|i: int| 0 <= i < blocks.len() implies from <= (
            #[trigger] blocks[i]).start < blocks[i].end <= s.len() by {
                if i > 0 {
                    assert(blocks[i] == rest[i - 1]);
                }
            }
            assert forall|i: int, j: int| 0 <= i < j < blocks.len() implies (
            #[trigger] blocks[i]).end <= (#[trigger] blocks[j]).start by {
                assert(blocks[j] == rest[j - 1]);
                if i > 0 {
                    assert(blocks[i] == rest[i - 1]);
                }
            }
        }
    }
}

/// No controller annotation is passed over: each one at or after `from` lies in one
/// of the blocks, and each block begins where `block_start` says that one does.
pub proof fn lemma_blocks_cover_controllers(s: Seq<char>, from: int, at: int)
    requires
        0 <= from <= at,
        controller_at(s, at),
        blocks_from(s, from) is Ok,
    ensures
        exists|i: int|
            0 <= i < blocks_from(s, from)->Ok_0.len() && (#[trigger] blocks_from(
                s,
                from,
            )->Ok_0[i]).start <= at < blocks_from(s, from)->Ok_0[i].end,
    decreases s.len() - from,
{
    lemma_next_block(s, from);
    lemma_first_index(s, from, marked(Mark::BlockStart));
    assert(marked(Mark::BlockStart)(s, at));
    let b = next_block(s, from)->Ok_0->0;
    let rest = blocks_from(s, b.end)->Ok_0;
    let blocks = blocks_from(s, from)->Ok_0;
    assert(blocks == seq![b] + rest);
    if at < b.end {
        assert(blocks[0] == b);
    } else {
        lemma_blocks_cover_controllers(s, b.end, at);
        let i = choose|i: int|
            0 <= i < rest.len() && (#[trigger] rest[i]).start <= at < rest[i].end;
        assert(blocks[i + 1] == rest[i]);
    }
}

/// The spans of a list, as extents.
pub open spec fn extents(spans: Seq<Span>) -> Seq<Extent> {
    spans.map_values(|sp: Span| sp@)
}

/// Finds the first controller block that begins at or after `from`. A caller that
/// wants the blocks one by one calls again with the end of the block it was given.
pub fn next_controller_span(s: &[char], from: usize) -> (r: Result<
    Option<Span>,
    SpringControllerParserError,
>)
    ensures
        match next_block(s@, from as int) {
            Ok(Some(b)) => r matches Ok(Some(sp)) && sp@ == b && from <= sp.start < sp.end
                <= s.len(),
            Ok(None) => r matches Ok(None),
            Err(f) => r matches Err(e) && e.stands_for(f),
        },
{
    proof {
        lemma_next_block(s@, from as int);
    }
    match find_mark(s, from, Mark::BlockStart) {
        None => Ok(None),
        Some(i) => {
            let c = match match_block_start(s, i) {
                Some(c) => c,
                None => i,
            };
            match match_block_end(s, c) {
                Ok(e) => Ok(Some(Span { start: i, end: e })),
                Err(fault) => Err(SpringControllerParserError::grammar(c, fault)),
            }
        },
    }
}

/// Finds the controller blocks of a text, in order.
pub fn controller_spans(s: &[char]) -> (r: Result<Vec<Span>, SpringControllerParserError>)
    ensures
        match blocks_from(s@, 0) {
            Ok(blocks) => r matches Ok(spans) && extents(spans@) == blocks,
            Err(f) => r matches Err(e) && e.stands_for(f),
        },
        r matches Ok(spans) ==> forall|i: int|
            0 <= i < spans.len() ==> (#[trigger] spans@[i]).start < spans@[i].end <= s.len(),
{
    let mut spans: Vec<Span> = Vec::new();
    let mut from: usize = 0;
    loop
        invariant
            from <= s.len(),
            forall|i: int|
                0 <= i < spans.len() ==> (#[trigger] spans@[i]).start < spans@[i].end <= s.len(),
            match blocks_from(s@, from as int) {
                Ok(rest) => blocks_from(s@, 0) == Ok::<Seq<Extent>, Failure>(
                    extents(spans@) + rest,
                ),
                Err(f) => blocks_from(s@, 0) == Err::<Seq<Extent>, Failure>(f),
            },
        decreases s.len() - from,
    {
        match next_controller_span(s, from) {
            Err(e) => {
                return Err(e);
            },
            Ok(None) => {
                proof {
                    assert(extents(spans@) + Seq::<Extent>::empty() =~= extents(spans@));
                }
                return Ok(spans);
            },
            Ok(Some(sp)) => {
                proof {
                    let ghost before = extents(spans@);
                    if let Ok(rest) = blocks_from(s@, sp.end as int) {
                        assert(extents(spans@.push(sp)) + rest =~= before + (seq![sp@] + rest));
                    }
                }
                spans.push(sp);
                from = sp.end;
            },
        }
    }
}

/// The rules of the grammar.
#[derive(Clone, Copy, Debug, PartialEq, Eq)]
pub enum Rule {
    /// A letter or an underscore, then letters, digits and underscores.
    Identifier,
    /// A parenthesized group, balanced.
    MappingArgs,
    /// One of the six mapping annotations, with its argument list where it has one.
    MappingAnnotation,
    /// `@Controller` or `@RestController`.
    ControllerAnnotation,
    /// Modifiers, the keyword `class`, and the name of the class.
    ClassDecl,
    /// A method: its header, then its body in balanced braces.
    Method,
    /// A controller block.
    ControllerBlock,
    /// A whole file: controller blocks with any other text between them.
    ControllerFile,
}

/// Where the identifier ends that begins at `at`.
pub open spec fn identifier_end(s: Seq<char>, at: int) -> Option<int> {
    if 0 <= at < s.len() && crate::text::is_ident_start(s[at]) {
        Some(crate::text::ident_end(s, at))
    } else {
        None
    }
}

/// Where the argument list ends that opens at `at`.
pub open spec fn mapping_args_end(s: Seq<char>, at: int) -> Option<int> {
    match matching_close(s, at, '(', ')') {
        Some(q) => Some(q + 1),
        None => None,
    }
}

/// Where the mapping annotation ends that begins at `at`.
pub open spec fn mapping_annotation_end(s: Seq<char>, at: int) -> Option<int> {
    if mapping_at(s, at) is Some {
        arguments_end(s, annotation_end(s, at))
    } else {
        None
    }
}

/// Where the controller annotation ends that begins at `at`.
pub open spec fn controller_annotation_end(s: Seq<char>, at: int) -> Option<int> {
    if controller_at(s, at) {
        Some(annotation_end(s, at))
    } else {
        None
    }
}

/// Where the declaration ends of a class whose name ends at `m`. Where `extends` or
/// `implements` follows the name, the clause is part of the declaration: it runs up
/// to the brace that opens the body, or to the end of the text, without the
/// whitespace at its end. Otherwise the declaration ends with the name.
pub open spec fn class_clause_end(s: Seq<char>, m: int) -> int {
    let w = whitespace_end(s, m);
    if m < w && (keyword_at(s, w, "extends"@) || keyword_at(s, w, "implements"@)) {
        match first_char(s, w, '{') {
            Some(brace) => trimmed(s, w, brace).1,
            None => trimmed(s, w, s.len() as int).1,
        }
    } else {
        m
    }
}

/// Where the class declaration ends that begins at `at`. Before the keyword `class`
/// stand modifiers only, words of identifier characters with whitespace between
/// them; after it, the name of the class and the clause that `class_clause_end` tells.
pub open spec fn class_decl_end(s: Seq<char>, at: int) -> Option<int> {
    if 0 <= at < s.len() && crate::text::is_ident_start(s[at]) {
        match first_mark(s, at, Mark::ModifiersEnd) {
            Some(k) => if class_head_at(s, k) {
                Some(class_clause_end(s, class_name_end(s, k)))
            } else {
                None
            },
            None => None,
        }
    } else {
        None
    }
}

/// No `c` stands in `from..to`.
pub open spec fn free_of(s: Seq<char>, from: int, to: int, c: char) -> bool {
    match first_char(s, from, c) {
        Some(k) => to <= k,
        None => true,
    }
}

/// The header of a method lies in `at..brace`: it holds a parameter list, and
/// neither `;` nor `}`.
pub open spec fn method_header(s: Seq<char>, at: int, brace: int) -> bool {
    &&& first_char(s, at, '(') matches Some(p) && p < brace
    &&& free_of(s, at, brace, ';')
    &&& free_of(s, at, brace, '}')
}

/// Where the method ends that begins at `at`: after the brace that closes its body.
/// The body opens at the first `{` that is part of no literal and of no
/// parenthesized group.
pub open spec fn method_end(s: Seq<char>, at: int) -> Option<int> {
    if 0 <= at < s.len() && crate::text::is_ident_start(s[at]) {
        match body_open(s, at) {
            Some(brace) => if method_header(s, at, brace) {
                match matching_close(s, brace, '{', '}') {
                    Some(q) => Some(q + 1),
                    None => None,
                }
            } else {
                None
            },
            None => None,
        }
    } else {
        None
    }
}

/// The fault of a text that does not begin with what a rule asks for.
pub open spec fn no_match() -> Failure {
    Failure::Grammar { position: 0, fault: GrammarFault::NoMatch }
}

/// The end of a match that must be there.
pub open spec fn expect(end: Option<int>) -> Result<int, Failure> {
    match end {
        Some(e) => Ok(e),
        None => Err(no_match()),
    }
}

/// Where the match of `rule` ends that begins at the start of the text, or why the
/// text does not match. The text may go on after the match; only a file is matched
/// as a whole.
pub open spec fn rule_end(rule: Rule, s: Seq<char>) -> Result<int, Failure> {
    match rule {
        Rule::Identifier => expect(identifier_end(s, 0)),
        Rule::MappingArgs => expect(mapping_args_end(s, 0)),
        Rule::MappingAnnotation => expect(mapping_annotation_end(s, 0)),
        Rule::ControllerAnnotation => expect(controller_annotation_end(s, 0)),
        Rule::ClassDecl => expect(class_decl_end(s, 0)),
        Rule::Method => expect(method_end(s, 0)),
        Rule::ControllerBlock => match block_start(s, 0) {
            None => Err(no_match()),
            Some(c) => match block_end(s, c) {
                Ok(e) => Ok(e),
                Err(fault) => Err(Failure::Grammar { position: c, fault }),
            },
        },
        Rule::ControllerFile => match blocks_from(s, 0) {
            Ok(_) => Ok(s.len() as int),
            Err(f) => Err(f),
        },
    }
}

/// Decides whether no `c` stands in `from..to`.
fn is_free_of(s: &[char], from: usize, to: usize, c: char) -> (r: bool)
    ensures
        r == free_of(s@, from as int, to as int, c),
{
    match find_char(s, from, c) {
        Some(k) => to <= k,
        None => true,
    }
}

/// Matches a method at `at`.
pub fn match_method(s: &[char], at: usize) -> (r: Option<usize>)
    ensures
        r matches Some(e) ==> method_end(s@, at as int) == Some(e as int) && at < e <= s.len(),
        r is None ==> method_end(s@, at as int) is None,
{
    if at >= s.len() || !crate::text::is_ident_start(s[at]) {
        return None;
    }
    let brace = match find_body_open(s, at) {
        Some(b) => b,
        None => {
            return None;
        },
    };
    match find_char(s, at, '(') {
        Some(p) => {
            if p >= brace {
                return None;
            }
        },
        None => {
            return None;
        },
    }
    if !is_free_of(s, at, brace, ';') || !is_free_of(s, at, brace, '}') {
        return None;
    }
    match find_matching(s, brace, '{', '}') {
        Some(q) => Some(q + 1),
        None => None,
    }
}

/// Matches a class declaration at `at`.
pub fn match_class_decl(s: &[char], at: usize) -> (r: Option<usize>)
    ensures
        r matches Some(e) ==> class_decl_end(s@, at as int) == Some(e as int) && at < e
            <= s.len(),
        r is None ==> class_decl_end(s@, at as int) is None,
{
    if at >= s.len() || !crate::text::is_ident_start(s[at]) {
        return None;
    }
    match find_mark(s, at, Mark::ModifiersEnd) {
        Some(k) => match read_class_head(s, k) {
            Some((_, m)) => Some(read_class_clause(s, m)),
            None => None,
        },
        None => None,
    }
}

/// Finds where the declaration ends of a class whose name ends at `m`.
pub fn read_class_clause(s: &[char], m: usize) -> (r: usize)
    requires
        m <= s.len(),
    ensures
        r == class_clause_end(s@, m as int),
        m <= r <= s.len(),
{
    let w = skip_whitespace(s, m);
    if m < w && (is_keyword_at(s, w, "extends") || is_keyword_at(s, w, "implements")) {
        let stop = match find_char(s, w, '{') {
            Some(brace) => brace,
            None => s.len(),
        };
        let (_, end) = trim(s, w, stop);
        end
    } else {
        m
    }
}

/// Matches `rule` at the start of the text, and gives the end of the match.
pub fn match_rule(rule: Rule, s: &[char]) -> (r: Result<usize, SpringControllerParserError>)
    ensures
        match rule_end(rule, s@) {
            Ok(e) => r matches Ok(end) && end == e && end <= s.len(),
            Err(f) => r matches Err(err) && err.stands_for(f),
        },
{
    let end: Option<usize> = match rule {
        Rule::Identifier => if 0 < s.len() && crate::text::is_ident_start(s[0]) {
            Some(crate::text::scan_ident(s, 0))
        } else {
            None
        },
        Rule::MappingArgs => match find_matching(s, 0, '(', ')') {
            Some(q) => Some(q + 1),
            None => None,
        },
        Rule::MappingAnnotation => match read_mapping(s, 0) {
            Some((_, e)) => match read_arguments(s, e) {
                ArgumentList::Absent => Some(e),
                ArgumentList::Closed { open, close } => Some(close + 1),
                ArgumentList::Unclosed { open } => None,
            },
            None => None,
        },
        Rule::ControllerAnnotation => read_controller(s, 0),
        Rule::ClassDecl => match_class_decl(s, 0),
        Rule::Method => match_method(s, 0),
        Rule::ControllerBlock => match match_block_start(s, 0) {
            None => None,
            Some(c) => match match_block_end(s, c) {
                Ok(e) => Some(e),
                Err(fault) => {
                    return Err(SpringControllerParserError::grammar(c, fault));
                },
            },
        },
        Rule::ControllerFile => match controller_spans(s) {
            Ok(_) => Some(s.len()),
            Err(e) => {
                return Err(e);
            },
        },
    };
    match end {
        Some(e) => Ok(e),
        None => Err(SpringControllerParserError::grammar(0, GrammarFault::NoMatch)),
    }
}

/// What a rule matched: the rule, where the match lies, and its text.
#[derive(Clone, Debug, PartialEq, Eq)]
pub struct Pair {
    pub rule: Rule,
    pub span: Span,
    pub text: String,
}

impl Pair {
    /// The rule that matched.
    pub fn as_rule(&self) -> (r: Rule)
        ensures
            r == self.rule,
    {
        self.rule
    }

    /// Where the match lies in the text.
    pub fn as_span(&self) -> (r: Span)
        ensures
            r == self.span,
    {
        self.span
    }

    /// The text of the match.
    pub fn as_str(&self) -> (r: &str)
        ensures
            r@ == self.text@,
    {
        self.text.as_str()
    }
}

/// The grammar of controller files.
pub struct Grammar;

impl Grammar {
    /// Matches `rule` at the start of `input`. The input may go on after the match.
    pub fn parse(rule: Rule, input: &str) -> (r: Result<Pair, SpringControllerParserError>)
        ensures
            match rule_end(rule, input@) {
                Ok(e) => r matches Ok(pair) && pair.rule == rule && pair.span@ == (Extent {
                    start: 0,
                    end: e,
                }) && pair.text@ == input@.subrange(0, e),
                Err(f) => r matches Err(err) && err.stands_for(f),
            },
    {
        let chars = crate::text::to_chars(input);
        let s = chars.as_slice();
        match match_rule(rule, s) {
            Ok(end) => Ok(
                Pair {
                    rule,
                    span: Span { start: 0, end },
                    text: crate::text::substring(s, 0, end),
                },
            ),
            Err(e) => Err(e),
        }
    }
}

} // verus!
