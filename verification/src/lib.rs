//! Extracts the controller classes of Spring-style Java source text: each class,
//! its class-level route prefix, and its handler methods.
//!
//! The text is matched against a small grammar that finds the controller blocks,
//! with braces balanced; each block is then read on its own. What every function
//! returns is stated over the characters of the text, and proved.
//!
//! - `text`: character classes and elementary searches.
//! - `balance`: balanced delimiters, with literals opaque.
//! - `token`: annotations and the head of a class declaration.
//! - `grammar`: the rules, and the matcher that finds the controller blocks.
//! - `extract`: from the text of one block to a `Controller`.
//! - `policy`: what the outcomes of the blocks come to when some fail.
//! - `locality`: what is found in a part of a text depends on that part alone.
//! - `ast`, `error`: the model and the errors.
//!
//! Offsets count characters. This is no Java parser: it sees annotations, class
//! heads, braces, parentheses and literals, and nothing else of the language.

pub mod ast;
pub mod balance;
pub mod error;
pub mod extract;
pub mod grammar;
pub mod locality;
pub mod policy;
pub mod text;
pub mod token;

pub use crate::ast::{Controller, ControllerMethod};
pub use crate::error::{Span, SpringControllerParserError};
pub use crate::grammar::{Grammar, Pair, Rule};
pub use crate::policy::ErrorPolicy;

use vstd::prelude::*;
use vstd::slice::slice_subrange;
use crate::ast::{controller_models, ControllerModel};
use crate::error::{Extent, Failure};
use crate::extract::{controller_of, extract_controller};
use crate::grammar::{block_start, blocks_from, controller_spans, extents, marked, Mark};
use crate::policy::{
    first_failure, lemma_first_failure_prefix, lemma_successes_of_all,
    lemma_successes_well_formed, settle, successes, Outcome,
};
use crate::text::{has_word_at, lemma_first_unique, to_chars};
use crate::token::controller_at;

verus! {

/// What reading the block at `b` gives. Nothing but the text of the block, and where
/// it lies, goes into it.
pub open spec fn block_outcome(s: Seq<char>, b: Extent) -> Outcome {
    controller_of(s.subrange(b.start, b.end), b)
}

/// What reading each of the blocks gives, in order.
pub open spec fn outcomes(s: Seq<char>, blocks: Seq<Extent>) -> Seq<Outcome> {
    Seq::new(blocks.len(), |i: int| block_outcome(s, blocks[i]))
}

/// What parsing the text `s` under `policy` gives. A fault of the grammar fails the
/// parse under either policy, and so does a text without any controller block.
pub open spec fn parse_outcome(s: Seq<char>, policy: ErrorPolicy) -> Result<
    Seq<ControllerModel>,
    Failure,
> {
    match blocks_from(s, 0) {
        Err(f) => Err(f),
        Ok(blocks) => if blocks.len() == 0 {
            Err(Failure::NoControllersFound)
        } else {
            settle(outcomes(s, blocks), policy)
        },
    }
}

/// The result `r` is what `o` says.
pub open spec fn agrees(r: Result<Controller, SpringControllerParserError>, o: Outcome) -> bool {
    match o {
        Ok(model) => r matches Ok(c) && c@ == model,
        Err(f) => r matches Err(e) && e.stands_for(f),
    }
}

/// Reads the blocks at `spans` and settles their outcomes under `policy`.
fn read_blocks(s: &[char], spans: &Vec<Span>, policy: ErrorPolicy) -> (r: Result<
    Vec<Controller>,
    SpringControllerParserError,
>)
    requires
        forall|i: int|
            0 <= i < spans.len() ==> (#[trigger] spans@[i]).start <= spans@[i].end <= s.len(),
    ensures
        match settle(outcomes(s@, extents(spans@)), policy) {
            Ok(models) => r matches Ok(v) && controller_models(v@) == models,
            Err(f) => r matches Err(e) && e.stands_for(f),
        },
{
    let ghost o = outcomes(s@, extents(spans@));
    let mut controllers: Vec<Controller> = Vec::new();
    let mut i: usize = 0;
    while i < spans.len()
        invariant
            i <= spans.len(),
            o == outcomes(s@, extents(spans@)),
            forall|j: int|
                0 <= j < spans.len() ==> (#[trigger] spans@[j]).start <= spans@[j].end <= s.len(),
            controller_models(controllers@) == successes(o.take(i as int)),
            policy == ErrorPolicy::FailFast ==> first_failure(o.take(i as int)) is None,
        decreases spans.len() - i,
    {
        let sp = spans[i];
        let text = slice_subrange(s, sp.start, sp.end);
        proof {
            assert(o.take(i + 1).drop_last() =~= o.take(i as int));
            assert(o.take(i + 1).last() == block_outcome(s@, sp@));
        }
        match extract_controller(text, sp) {
            Ok(c) => {
                proof {
                    assert(controller_models(controllers@.push(c)) =~= controller_models(
                        controllers@,
                    ).push(c@));
                }
                controllers.push(c);
            },
            Err(e) => {
                match policy {
                    ErrorPolicy::FailFast => {
                        proof {
                            lemma_first_failure_prefix(o, i + 1);
                        }
                        return Err(e);
                    },
                    ErrorPolicy::BestEffort => {},
                }
            },
        }
        i += 1;
    }
    proof {
        assert(o.take(i as int) =~= o);
    }
    Ok(controllers)
}

/// Every controller that parsing gives is well formed: its name is an identifier,
/// never empty, and each of its handlers has one of the six annotations and a
/// header of one trimmed line.
pub proof fn lemma_parse_well_formed(s: Seq<char>, policy: ErrorPolicy)
    requires
        parse_outcome(s, policy) is Ok,
    ensures
        forall|k: int|
            0 <= k < parse_outcome(s, policy)->Ok_0.len() ==> (#[trigger] parse_outcome(
                s,
                policy,
            )->Ok_0[k]).well_formed(),
{
    let blocks = blocks_from(s, 0)->Ok_0;
    let o = outcomes(s, blocks);
    assert forall|i: int| 0 <= i < o.len() && (#[trigger] o[i]) is Ok implies o[i]->Ok_0
        .well_formed() by {
        crate::extract::lemma_controller_well_formed(
            s.subrange(blocks[i].start, blocks[i].end),
            blocks[i],
        );
    }
    lemma_successes_well_formed(o);
}

/// Where each block of a text can be read, parsing gives one controller for each
/// block, in the order of the text: as many controllers as the text has blocks,
/// under either policy. The blocks follow one another without overlap.
pub proof fn lemma_parse_returns_every_controller(s: Seq<char>, policy: ErrorPolicy)
    requires
        blocks_from(s, 0) is Ok,
        blocks_from(s, 0)->Ok_0.len() > 0,
        forall|i: int|
            0 <= i < blocks_from(s, 0)->Ok_0.len() ==> block_outcome(
                s,
                #[trigger] blocks_from(s, 0)->Ok_0[i],
            ) is Ok,
    ensures
        parse_outcome(s, policy) is Ok,
        parse_outcome(s, policy)->Ok_0.len() == blocks_from(s, 0)->Ok_0.len(),
        forall|i: int|
            0 <= i < blocks_from(s, 0)->Ok_0.len() ==> (#[trigger] parse_outcome(
                s,
                policy,
            )->Ok_0[i]) == block_outcome(s, blocks_from(s, 0)->Ok_0[i])->Ok_0,
        forall|i: int, j: int|
            0 <= i < j < blocks_from(s, 0)->Ok_0.len() ==> (#[trigger] blocks_from(
                s,
                0,
            )->Ok_0[i]).end <= (#[trigger] blocks_from(s, 0)->Ok_0[j]).start,
{
    let blocks = blocks_from(s, 0)->Ok_0;
    let o = outcomes(s, blocks);
    assert forall|i: int| 0 <= i < o.len() implies (#[trigger] o[i]) is Ok by {
        assert(o[i] == block_outcome(s, blocks[i]));
    }
    lemma_successes_of_all(o);
    crate::grammar::lemma_blocks_from(s, 0);
    assert forall|i: int| 0 <= i < blocks.len() implies (#[trigger] parse_outcome(
        s,
        policy,
    )->Ok_0[i]) == block_outcome(s, blocks[i])->Ok_0 by {
        assert(successes(o)[i] == o[i]->Ok_0);
    }
}

/// A text in which neither `@Controller` nor `@RestController` is written anywhere
/// has no controllers: parsing it gives `NoControllersFound`, under either policy.
pub proof fn lemma_no_annotation_no_controllers(s: Seq<char>, policy: ErrorPolicy)
    requires
        forall|i: int| !has_word_at(s, i, "@Controller"@),
        forall|i: int| !has_word_at(s, i, "@RestController"@),
    ensures
        parse_outcome(s, policy) == Err::<Seq<ControllerModel>, Failure>(
            Failure::NoControllersFound,
        ),
{
    assert forall|i: int| !controller_at(s, i) by {
        if controller_at(s, i) {
            reveal_strlit("@Controller");
            reveal_strlit("Controller");
            reveal_strlit("@RestController");
            reveal_strlit("RestController");
            crate::token::lemma_annotation_is_written(s, i);
            assert(seq!['@'] + "Controller"@ =~= "@Controller"@);
            assert(seq!['@'] + "RestController"@ =~= "@RestController"@);
        }
    }
    assert forall|i: int| 0 <= i < s.len() implies !#[trigger] marked(Mark::BlockStart)(s, i) by {
        if block_start(s, i) is Some {
            crate::grammar::lemma_block_start(s, i);
        }
    }
    lemma_first_unique(s, 0, marked(Mark::BlockStart), None);
}

/// What reading a block gives depends on the text of the block and on where it
/// lies, and on nothing else in the text around it.
pub proof fn lemma_block_outcome_is_local(s1: Seq<char>, s2: Seq<char>, b: Extent)
    requires
        s1.subrange(b.start, b.end) == s2.subrange(b.start, b.end),
    ensures
        block_outcome(s1, b) == block_outcome(s2, b),
{
}

/// The result `r` is what parsing the text `s` under `policy` is to return.
pub open spec fn is_parse_of(
    s: Seq<char>,
    policy: ErrorPolicy,
    r: Result<Vec<Controller>, SpringControllerParserError>,
) -> bool {
    match parse_outcome(s, policy) {
        Ok(models) => r matches Ok(v) && controller_models(v@) == models,
        Err(f) => r matches Err(e) && e.stands_for(f),
    }
}

/// The two results hold the same: the same controllers, or errors that say the same.
pub open spec fn same_result(
    r1: Result<Vec<Controller>, SpringControllerParserError>,
    r2: Result<Vec<Controller>, SpringControllerParserError>,
) -> bool {
    match (r1, r2) {
        (Ok(a), Ok(b)) => controller_models(a@) == controller_models(b@),
        (Err(a), Err(b)) => a.same_as(b),
        _ => false,
    }
}

/// Parsing is a function of the text: whatever two parses of one text return holds
/// the same.
pub proof fn lemma_parse_twice(
    s: Seq<char>,
    policy: ErrorPolicy,
    r1: Result<Vec<Controller>, SpringControllerParserError>,
    r2: Result<Vec<Controller>, SpringControllerParserError>,
)
    requires
        is_parse_of(s, policy, r1),
        is_parse_of(s, policy, r2),
    ensures
        same_result(r1, r2),
{
    if let Err(f) = parse_outcome(s, policy) {
        r1->Err_0.lemma_stands_for_one(r2->Err_0, f);
    }
}

/// Reads every controller block of `src` and returns what each one gives, in the
/// order of the text: a block that cannot be read has its error in its place, and
/// does not touch the others.
pub fn evaluate_controllers(src: &str) -> (r: Result<
    Vec<Result<Controller, SpringControllerParserError>>,
    SpringControllerParserError,
>)
    ensures
        match blocks_from(src@, 0) {
            Ok(blocks) => r matches Ok(v) && v.len() == blocks.len() && forall|i: int|
                0 <= i < v.len() ==> agrees(#[trigger] v@[i], block_outcome(src@, blocks[i])),
            Err(f) => r matches Err(e) && e.stands_for(f),
        },
{
    let chars = to_chars(src);
    let s = chars.as_slice();
    let spans = match controller_spans(s) {
        Ok(spans) => spans,
        Err(e) => {
            return Err(e);
        },
    };
    let ghost blocks = extents(spans@);
    let mut results: Vec<Result<Controller, SpringControllerParserError>> = Vec::new();
    let mut i: usize = 0;
    while i < spans.len()
        invariant
            i <= spans.len(),
            blocks == extents(spans@),
            results.len() == i,
            forall|j: int|
                0 <= j < spans.len() ==> (#[trigger] spans@[j]).start < spans@[j].end <= s.len(),
            forall|j: int|
                0 <= j < i ==> agrees(#[trigger] results@[j], block_outcome(s@, blocks[j])),
        decreases spans.len() - i,
    {
        let sp = spans[i];
        let text = slice_subrange(s, sp.start, sp.end);
        let one = extract_controller(text, sp);
        assert(agrees(one, block_outcome(s@, blocks[i as int])));
        results.push(one);
        i += 1;
    }
    Ok(results)
}

/// Parses `src` and settles the outcomes of its controller blocks under `policy`.
///
/// The controller blocks are found first. A controller annotation that no class
/// declaration with a closed body follows is a `GrammarError` at the offset of the
/// annotation, under either policy; a text without any controller block gives
/// `NoControllersFound`. Then each block is read on its own. Failing fast, the first
/// block that cannot be read ends the parse with its error. With best effort such a
/// block is left out, and the result holds the controllers of the others, which may
/// be none.
pub fn parse_controllers_with(src: &str, policy: ErrorPolicy) -> (r: Result<
    Vec<Controller>,
    SpringControllerParserError,
>)
    ensures
        is_parse_of(src@, policy, r),
        r matches Ok(v) ==> forall|i: int| 0 <= i < v.len() ==> (#[trigger] v@[i])@.well_formed(),
{
    let chars = to_chars(src);
    let s = chars.as_slice();
    let spans = match controller_spans(s) {
        Ok(spans) => spans,
        Err(e) => {
            return Err(e);
        },
    };
    if spans.len() == 0 {
        return Err(SpringControllerParserError::NoControllersFound);
    }
    let r = read_blocks(s, &spans, policy);
    proof {
        if r is Ok {
            let v = r->Ok_0;
            lemma_parse_well_formed(src@, policy);
            assert forall|i: int| 0 <= i < v.len() implies (#[trigger] v@[i])@.well_formed() by {
                assert(controller_models(v@)[i] == v@[i]@);
            }
        }
    }
    r
}

/// Parses `src` and returns its controllers, in the order of the text.
///
/// This is `parse_controllers_with` failing fast: a fault of the grammar, a text
/// without controllers, and the first block that cannot be read each end the parse
/// with their error.
pub fn parse_controllers(src: &str) -> (r: Result<Vec<Controller>, SpringControllerParserError>)
    ensures
        is_parse_of(src@, ErrorPolicy::FailFast, r),
        r matches Ok(v) ==> forall|i: int| 0 <= i < v.len() ==> (#[trigger] v@[i])@.well_formed(),
{
    parse_controllers_with(src, ErrorPolicy::FailFast)
}

} // verus!
