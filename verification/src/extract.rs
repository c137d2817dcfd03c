//! The extractor: from the text of one controller block to a `Controller`.
//!
//! Every function here reads the text of a single block and nothing else. The span
//! that it is given says where the block lies in its source, and goes into the errors.

use vstd::prelude::*;
use crate::ast::{method_models, Controller, ControllerMethod, ControllerModel, MethodModel};
use crate::balance::{body_open, find_body_open, find_literal_end, literal_end, opens_body};
use crate::error::{Extent, Failure, Span, SpringControllerParserError};
use crate::grammar::{
    arguments, arguments_end, find_mark, first_mark, lemma_arguments, marked, read_arguments,
    ArgumentList, Arguments, Mark,
};
use crate::text::{
    find_char, first_char, holds, holds_ink, ident_end, is_ident_start, last_char,
    lemma_first_index, lemma_last_index, lemma_whitespace_end, rfind_char,
    scan_ident, skip_whitespace, spells, substring, trim, trimmed, whitespace_end,
};
use crate::token::{
    annotation_end, class_name_end, class_name_start, lemma_annotation_end, lemma_class_name,
    mapping_at, read_class_head, read_mapping, MappingKind,
};

verus! {

/// The name of the class that a block declares: the identifier after the first
/// keyword `class`.
pub open spec fn class_name(t: Seq<char>) -> Option<Seq<char>> {
    match first_mark(t, 0, Mark::ClassHead) {
        Some(k) => Some(t.subrange(class_name_start(t, k), class_name_end(t, k))),
        None => None,
    }
}

/// Extracts the name of the class that the block declares.
pub fn extract_name(text: &[char], span: Span) -> (r: Result<String, SpringControllerParserError>)
    ensures
        match class_name(text@) {
            Some(name) => r matches Ok(n) && n@ == name,
            None => r matches Err(e) && e.stands_for(Failure::ClassNameMissing { span: span@ }),
        },
{
    match find_mark(text, 0, Mark::ClassHead) {
        Some(k) => match read_class_head(text, k) {
            Some((n, m)) => Ok(substring(text, n, m)),
            None => Err(SpringControllerParserError::ClassNameMissing { span }),
        },
        None => Err(SpringControllerParserError::ClassNameMissing { span }),
    }
}

/// The text in `a..b` has the form of a named parameter: an identifier, then `=`,
/// with or without whitespace between them.
pub open spec fn named_form(t: Seq<char>, a: int, b: int) -> bool {
    &&& a < b
    &&& is_ident_start(t[a])
    &&& whitespace_end(t, ident_end(t, a)) < b
    &&& t[whitespace_end(t, ident_end(t, a))] == '='
}

/// The bounds of `a..b` without one pair of double quotes around it. Only the
/// outermost pair goes; quotes inside stay.
pub open spec fn unquoted(t: Seq<char>, a: int, b: int) -> (int, int) {
    if b - a >= 2 && t[a] == '"' && t[b - 1] == '"' {
        (a + 1, b - 1)
    } else {
        (a, b)
    }
}

/// Where the value of the named parameter in `a..b` begins: after the name, the `=`
/// and the whitespace around it.
pub open spec fn named_value_start(t: Seq<char>, a: int) -> int {
    whitespace_end(t, whitespace_end(t, ident_end(t, a)) + 1)
}

/// The route that the named parameter in `a..b` gives. It gives one where its name
/// is `value` or `path` and its value is a single string literal, which then is the
/// route, without its quotes. Any other named parameter, and any list of several
/// parameters, gives none.
pub open spec fn named_value(t: Seq<char>, a: int, b: int) -> Option<Seq<char>> {
    let name = t.subrange(a, ident_end(t, a));
    let q = named_value_start(t, a);
    if (name == "value"@ || name == "path"@) && literal_end(t, q) == Some(b - 1) {
        Some(t.subrange(q + 1, b - 1))
    } else {
        None
    }
}

/// The value of the argument list that opens at `open` and is closed at `close`: what
/// stands between the parentheses, trimmed, without one pair of quotes around it.
/// `None` where nothing but whitespace stands there. Where a named parameter stands
/// there, the value is what `named_value` tells.
pub open spec fn argument_value(t: Seq<char>, open: int, close: int) -> Option<Seq<char>> {
    let (a, b) = trimmed(t, open + 1, close);
    if a == b {
        None
    } else if named_form(t, a, b) {
        named_value(t, a, b)
    } else {
        Some(t.subrange(unquoted(t, a, b).0, unquoted(t, a, b).1))
    }
}

/// The value that an annotation's argument list gives; `None` where it has no list.
pub open spec fn argument_of(t: Seq<char>, args: Arguments) -> Option<Seq<char>> {
    match args {
        Arguments::Closed { open, close } => argument_value(t, open, close),
        _ => None,
    }
}

/// Decides whether the text in `a..b` has the form of a named parameter.
fn is_named_form(text: &[char], a: usize, b: usize) -> (r: bool)
    requires
        a <= b <= text.len(),
    ensures
        r == named_form(text@, a as int, b as int),
{
    if a >= b || !is_ident_start(text[a]) {
        return false;
    }
    let e = scan_ident(text, a);
    let p = skip_whitespace(text, e);
    p < b && text[p] == '='
}

/// Reads the route that the named parameter in `a..b` gives.
fn read_named_value(text: &[char], a: usize, b: usize) -> (r: Option<String>)
    requires
        a <= b <= text.len(),
        named_form(text@, a as int, b as int),
    ensures
        crate::ast::text_of(r) == named_value(text@, a as int, b as int),
{
    let e = scan_ident(text, a);
    if !(spells(text, a, e, "value") || spells(text, a, e, "path")) {
        return None;
    }
    let eq = skip_whitespace(text, e);
    let q = skip_whitespace(text, eq + 1);
    match find_literal_end(text, q) {
        Some(k) => if k + 1 == b {
            Some(substring(text, q + 1, k))
        } else {
            None
        },
        None => None,
    }
}

/// Reads the value of the argument list that opens at `open` and is closed at `close`.
pub fn read_argument_value(text: &[char], open: usize, close: usize) -> (r: Option<String>)
    requires
        open < close <= text.len(),
    ensures
        crate::ast::text_of(r) == argument_value(text@, open as int, close as int),
{
    let (a, b) = trim(text, open + 1, close);
    if a == b {
        return None;
    }
    if is_named_form(text, a, b) {
        return read_named_value(text, a, b);
    }
    if b - a >= 2 && text[a] == '"' && text[b - 1] == '"' {
        Some(substring(text, a + 1, b - 1))
    } else {
        Some(substring(text, a, b))
    }
}

/// The annotation at `a` stands before the class declaration of the block, or the
/// block declares no class.
pub open spec fn before_class(t: Seq<char>, a: int) -> bool {
    match first_mark(t, 0, Mark::ClassHead) {
        Some(k) => a < k,
        None => true,
    }
}

/// The class-level route of a block: the argument of the first `@RequestMapping`, if
/// that stands before the class declaration. `Ok(None)` where none stands there; the
/// failure where its argument list is not closed.
pub open spec fn class_mapping(t: Seq<char>, span: Extent) -> Result<Option<Seq<char>>, Failure> {
    match first_mark(t, 0, Mark::RequestMapping) {
        Some(a) => if before_class(t, a) {
            match arguments(t, annotation_end(t, a)) {
                Arguments::Unclosed { open } => Err(
                    Failure::AnnotationArgument { kind: MappingKind::Request, span },
                ),
                args => Ok(argument_of(t, args)),
            }
        } else {
            Ok(None)
        },
        None => Ok(None),
    }
}

/// A block in which `@RequestMapping` is written nowhere has no class-level route.
pub proof fn lemma_no_class_mapping(t: Seq<char>, span: Extent)
    requires
        forall|i: int| !crate::text::has_word_at(t, i, "@RequestMapping"@),
    ensures
        class_mapping(t, span) == Ok::<Option<Seq<char>>, Failure>(None),
{
    lemma_first_index(t, 0, marked(Mark::RequestMapping));
    if let Some(a) = first_mark(t, 0, Mark::RequestMapping) {
        reveal_strlit("@RequestMapping");
        reveal_strlit("RequestMapping");
        crate::token::lemma_annotation_is_written(t, a);
        assert(seq!['@'] + "RequestMapping"@ =~= "@RequestMapping"@);
    }
}

/// Extracts the class-level route of the block.
pub fn extract_mapping(text: &[char], span: Span) -> (r: Result<
    Option<String>,
    SpringControllerParserError,
>)
    ensures
        match class_mapping(text@, span@) {
            Ok(value) => r matches Ok(v) && crate::ast::text_of(v) == value,
            Err(f) => r matches Err(e) && e.stands_for(f),
        },
{
    let a = match find_mark(text, 0, Mark::RequestMapping) {
        Some(a) => a,
        None => {
            return Ok(None);
        },
    };
    let before = match find_mark(text, 0, Mark::ClassHead) {
        Some(k) => a < k,
        None => true,
    };
    if !before {
        return Ok(None);
    }
    let e = match read_mapping(text, a) {
        Some((_, e)) => e,
        None => {
            return Ok(None);
        },
    };
    match read_arguments(text, e) {
        ArgumentList::Absent => Ok(None),
        ArgumentList::Closed { open, close } => Ok(read_argument_value(text, open, close)),
        ArgumentList::Unclosed { open } => Err(
            SpringControllerParserError::annotation_argument(MappingKind::Request, span),
        ),
    }
}

/// The bounds of a method's header, where the text between the method's annotation
/// and the brace that opens its body lies in `from..brace`: the last line of that
/// text that is not blank, trimmed. `None` where the text is blank.
pub open spec fn header_bounds(t: Seq<char>, from: int, brace: int) -> Option<(int, int)> {
    let (a, b) = trimmed(t, from, brace);
    if a == b {
        None
    } else {
        match last_char(t, a, b, '\n') {
            Some(n) => Some((whitespace_end(t, n + 1), b)),
            None => Some((a, b)),
        }
    }
}

/// A header lies within the text it was taken from, and is not empty.
pub proof fn lemma_header_bounds(t: Seq<char>, from: int, brace: int)
    requires
        0 <= from <= brace <= t.len(),
        header_bounds(t, from, brace) is Some,
    ensures
        ({
            let (x, y) = header_bounds(t, from, brace)->0;
            from <= x < y <= brace
        }),
{
    let (a, b) = trimmed(t, from, brace);
    lemma_last_index(t, from, brace, holds_ink());
    lemma_whitespace_end(t, from);
    assert(holds_ink()(t, b - 1));
    lemma_last_index(t, a, b, holds('\n'));
    if let Some(n) = last_char(t, a, b, '\n') {
        lemma_whitespace_end(t, n + 1);
        assert(holds('\n')(t, n));
    }
}

/// Finds the bounds of a method's header in `from..brace`.
pub fn find_header(text: &[char], from: usize, brace: usize) -> (r: Option<(usize, usize)>)
    requires
        from <= brace <= text.len(),
    ensures
        match header_bounds(text@, from as int, brace as int) {
            Some((x, y)) => r matches Some((rx, ry)) && rx == x && ry == y && from <= rx < ry
                <= brace,
            None => r is None,
        },
{
    let (a, b) = trim(text, from, brace);
    if a == b {
        return None;
    }
    proof {
        lemma_header_bounds(text@, from as int, brace as int);
    }
    match rfind_char(text, a, b, '\n') {
        Some(n) => Some((skip_whitespace(text, n + 1), b)),
        None => Some((a, b)),
    }
}

/// The handler that the mapping annotation of kind `kind` at `at` declares, and the
/// position after the brace that opens its body, where the search for the next
/// handler goes on.
///
/// The header is looked for between the end of the annotation, argument list
/// included, and the brace that opens the body: the first `{` after the annotation
/// that is part of no literal and of no parenthesized group.
pub open spec fn method_at(t: Seq<char>, at: int, kind: MappingKind, span: Extent) -> Result<
    (MethodModel, int),
    Failure,
> {
    let args = arguments(t, annotation_end(t, at));
    match arguments_end(t, annotation_end(t, at)) {
        None => Err(Failure::AnnotationArgument { kind, span }),
        Some(after) => match body_open(t, after) {
            None => Err(Failure::MethodHeader { kind, span }),
            Some(brace) => match header_bounds(t, after, brace) {
                None => Err(Failure::MethodHeader { kind, span }),
                Some((x, y)) => Ok(
                    (
                        MethodModel {
                            annotation: kind.spec_name(),
                            annotation_args: argument_of(t, args),
                            header: t.subrange(x, y),
                        },
                        brace + 1,
                    ),
                ),
            },
        },
    }
}

/// An annotation without an argument list gives a handler without an argument; it
/// is no failure.
pub proof fn lemma_bare_annotation(t: Seq<char>, at: int, kind: MappingKind, span: Extent)
    requires
        arguments(t, annotation_end(t, at)) is Absent,
    ensures
        !(method_at(t, at, kind, span) matches Err(Failure::AnnotationArgument { .. })),
        method_at(t, at, kind, span) matches Ok((m, _)) ==> m.annotation_args is None,
{
}

/// The search goes on after the annotation, within the text.
pub proof fn lemma_method_at(t: Seq<char>, at: int, kind: MappingKind, span: Extent)
    requires
        mapping_at(t, at) is Some,
        method_at(t, at, kind, span) is Ok,
    ensures
        at < method_at(t, at, kind, span)->Ok_0.1 <= t.len(),
{
    lemma_annotation_end(t, at);
    let e = annotation_end(t, at);
    lemma_arguments(t, e);
    let after = arguments_end(t, e)->0;
    lemma_first_index(t, after, opens_body(after));
}

/// Extracts the handler that the mapping annotation at `at` declares, and gives the
/// position at which the search for the next handler goes on.
pub fn extract_method(text: &[char], kind: MappingKind, at: usize, span: Span) -> (r: Result<
    (ControllerMethod, usize),
    SpringControllerParserError,
>)
    requires
        mapping_at(text@, at as int) == Some(kind),
    ensures
        match method_at(text@, at as int, kind, span@) {
            Ok((model, resume)) => r matches Ok((m, next)) && m@ == model && next == resume && at
                < next <= text.len(),
            Err(f) => r matches Err(e) && e.stands_for(f),
        },
{
    proof {
        lemma_annotation_end(text@, at as int);
    }
    assert(at + 1 < text.len());
    let e = scan_ident(text, at + 1);
    let args = read_arguments(text, e);
    let after = match args {
        ArgumentList::Absent => e,
        ArgumentList::Closed { open, close } => close + 1,
        ArgumentList::Unclosed { open } => {
            return Err(SpringControllerParserError::annotation_argument(kind, span));
        },
    };
    let brace = match find_body_open(text, after) {
        Some(brace) => brace,
        None => {
            return Err(SpringControllerParserError::method_header(kind, span));
        },
    };
    let (x, y) = match find_header(text, after, brace) {
        Some(bounds) => bounds,
        None => {
            return Err(SpringControllerParserError::method_header(kind, span));
        },
    };
    let value = match args {
        ArgumentList::Closed { open, close } => read_argument_value(text, open, close),
        _ => None,
    };
    let method = ControllerMethod {
        annotation: String::from_str(kind.name()),
        annotation_args: value,
        header: substring(text, x, y),
    };
    Ok((method, brace + 1))
}

/// The handlers that are declared at or after `from`, in the order of the text. The
/// search for the next mapping annotation goes on after the brace that opens the
/// body of the handler found last, so an annotation in a handler's header is not
/// taken for a handler of its own.
pub open spec fn methods_from(t: Seq<char>, from: int, span: Extent) -> Result<
    Seq<MethodModel>,
    Failure,
>
    decreases t.len() - from,
    via methods_from_decreases
{
    match first_mark(t, from, Mark::Mapping) {
        None => Ok(Seq::empty()),
        Some(at) => match method_at(t, at, mapping_at(t, at)->0, span) {
            Err(f) => Err(f),
            Ok((m, resume)) => match methods_from(t, resume, span) {
                Ok(rest) => Ok(seq![m] + rest),
                Err(f) => Err(f),
            },
        },
    }
}

#[via_fn]
proof fn methods_from_decreases(t: Seq<char>, from: int, span: Extent) {
    lemma_first_index(t, from, marked(Mark::Mapping));
    if let Some(at) = first_mark(t, from, Mark::Mapping) {
        if method_at(t, at, mapping_at(t, at)->0, span) is Ok {
            lemma_method_at(t, at, mapping_at(t, at)->0, span);
        }
    }
}

/// Where the handlers of a block are looked for: after the brace that opens the body
/// of the class, so a class-level annotation is no handler. In a text that declares
/// no class the whole text is searched.
pub open spec fn body_start(t: Seq<char>) -> int {
    match first_mark(t, 0, Mark::ClassHead) {
        Some(k) => match first_char(t, class_name_end(t, k), '{') {
            Some(open) => open + 1,
            None => t.len() as int,
        },
        None => 0,
    }
}

/// The handlers of a block.
pub open spec fn methods_of(t: Seq<char>, span: Extent) -> Result<Seq<MethodModel>, Failure> {
    methods_from(t, body_start(t), span)
}

/// Finds where the handlers of a block are looked for.
fn find_body_start(text: &[char]) -> (r: usize)
    ensures
        r == body_start(text@),
        r <= text.len(),
{
    match find_mark(text, 0, Mark::ClassHead) {
        Some(k) => match read_class_head(text, k) {
            Some((_, m)) => match find_char(text, m, '{') {
                Some(open) => open + 1,
                None => text.len(),
            },
            None => text.len(),
        },
        None => 0,
    }
}

/// Extracts the handlers of the block, in the order of the text.
pub fn extract_methods(text: &[char], span: Span) -> (r: Result<
    Vec<ControllerMethod>,
    SpringControllerParserError,
>)
    ensures
        match methods_of(text@, span@) {
            Ok(models) => r matches Ok(methods) && method_models(methods@) == models,
            Err(f) => r matches Err(e) && e.stands_for(f),
        },
{
    let mut methods: Vec<ControllerMethod> = Vec::new();
    let mut from: usize = find_body_start(text);
    loop
        invariant
            from <= text.len(),
            match methods_from(text@, from as int, span@) {
                Ok(rest) => methods_of(text@, span@) == Ok::<Seq<MethodModel>, Failure>(
                    method_models(methods@) + rest,
                ),
                Err(f) => methods_of(text@, span@) == Err::<Seq<MethodModel>, Failure>(f),
            },
        decreases text.len() - from,
    {
        let at = match find_mark(text, from, Mark::Mapping) {
            Some(at) => at,
            None => {
                proof {
                    assert(method_models(methods@) + Seq::<MethodModel>::empty() =~= method_models(
                        methods@,
                    ));
                }
                return Ok(methods);
            },
        };
        let kind = match read_mapping(text, at) {
            Some((kind, _)) => kind,
            None => {
                return Ok(methods);
            },
        };
        match extract_method(text, kind, at, span) {
            Err(e) => {
                return Err(e);
            },
            Ok((method, next)) => {
                proof {
                    let ghost before = method_models(methods@);
                    if let Ok(rest) = methods_from(text@, next as int, span@) {
                        assert(method_models(methods@.push(method)) + rest =~= before + (
                        seq![method@] + rest));
                    }
                }
                methods.push(method);
                from = next;
            },
        }
    }
}

/// The controller that a block declares. The block must hold a controller
/// annotation; then its name, its class-level route and its handlers are extracted,
/// in that order, and the first failure is the block's.
pub open spec fn controller_of(t: Seq<char>, span: Extent) -> Result<ControllerModel, Failure> {
    if first_mark(t, 0, Mark::Controller) is None {
        Err(Failure::NoControllersFound)
    } else {
        match class_name(t) {
            None => Err(Failure::ClassNameMissing { span }),
            Some(name) => match class_mapping(t, span) {
                Err(f) => Err(f),
                Ok(mapping) => match methods_of(t, span) {
                    Err(f) => Err(f),
                    Ok(methods) => Ok(ControllerModel { name, class_mapping: mapping, methods }),
                },
            },
        }
    }
}

/// Extracts the controller that the block declares.
pub fn extract_controller(text: &[char], span: Span) -> (r: Result<
    Controller,
    SpringControllerParserError,
>)
    ensures
        match controller_of(text@, span@) {
            Ok(model) => r matches Ok(c) && c@ == model && c@.well_formed(),
            Err(f) => r matches Err(e) && e.stands_for(f),
        },
{
    proof {
        if controller_of(text@, span@) is Ok {
            lemma_controller_well_formed(text@, span@);
        }
    }
    if find_mark(text, 0, Mark::Controller).is_none() {
        return Err(SpringControllerParserError::NoControllersFound);
    }
    let name = match extract_name(text, span) {
        Ok(name) => name,
        Err(e) => {
            return Err(e);
        },
    };
    let class_mapping = match extract_mapping(text, span) {
        Ok(mapping) => mapping,
        Err(e) => {
            return Err(e);
        },
    };
    let methods = match extract_methods(text, span) {
        Ok(methods) => methods,
        Err(e) => {
            return Err(e);
        },
    };
    Ok(Controller { name, class_mapping, methods })
}

/// The name of a class is an identifier.
pub proof fn lemma_class_name_is_identifier(t: Seq<char>)
    requires
        class_name(t) is Some,
    ensures
        crate::ast::is_identifier(class_name(t)->0),
{
    lemma_first_index(t, 0, marked(Mark::ClassHead));
    let k = first_mark(t, 0, Mark::ClassHead)->0;
    lemma_class_name(t, k);
}

/// The header that `header_bounds` gives is one line, with no whitespace at either end.
pub proof fn lemma_header_is_a_trimmed_line(t: Seq<char>, from: int, brace: int)
    requires
        0 <= from <= brace <= t.len(),
        header_bounds(t, from, brace) is Some,
    ensures
        ({
            let (x, y) = header_bounds(t, from, brace)->0;
            &&& from <= x < y <= brace
            &&& !crate::text::is_whitespace(t[x])
            &&& !crate::text::is_whitespace(t[y - 1])
            &&& forall|k: int| x <= k < y ==> #[trigger] t[k] != '\n'
        }),
{
    lemma_header_bounds(t, from, brace);
    let (a, b) = trimmed(t, from, brace);
    let (x, y) = header_bounds(t, from, brace)->0;
    lemma_last_index(t, from, brace, holds_ink());
    lemma_whitespace_end(t, from);
    assert(holds_ink()(t, b - 1));
    lemma_last_index(t, a, b, holds('\n'));
    match last_char(t, a, b, '\n') {
        Some(n) => {
            lemma_whitespace_end(t, n + 1);
            assert forall|k: int| x <= k < y implies #[trigger] t[k] != '\n' by {
                assert(!holds('\n')(t, k));
            }
        },
        None => {
            assert forall|k: int| x <= k < y implies #[trigger] t[k] != '\n' by {
                assert(!holds('\n')(t, k));
            }
        },
    }
}

/// A handler that is extracted is well formed.
pub proof fn lemma_method_well_formed(t: Seq<char>, at: int, kind: MappingKind, span: Extent)
    requires
        mapping_at(t, at) is Some,
        method_at(t, at, kind, span) is Ok,
    ensures
        method_at(t, at, kind, span)->Ok_0.0.well_formed(),
{
    lemma_annotation_end(t, at);
    let e = annotation_end(t, at);
    lemma_arguments(t, e);
    let after = arguments_end(t, e)->0;
    lemma_first_index(t, after, opens_body(after));
    let brace = body_open(t, after)->0;
    lemma_header_is_a_trimmed_line(t, after, brace);
}

/// The handlers that are extracted are well formed, each of them.
pub proof fn lemma_methods_well_formed(t: Seq<char>, from: int, span: Extent)
    requires
        0 <= from,
        methods_from(t, from, span) is Ok,
    ensures
        forall|i: int|
            0 <= i < methods_from(t, from, span)->Ok_0.len() ==> (#[trigger] methods_from(
                t,
                from,
                span,
            )->Ok_0[i]).well_formed(),
    decreases t.len() - from,
{
    lemma_first_index(t, from, marked(Mark::Mapping));
    if let Some(at) = first_mark(t, from, Mark::Mapping) {
        let kind = mapping_at(t, at)->0;
        lemma_method_at(t, at, kind, span);
        lemma_method_well_formed(t, at, kind, span);
        let (m, resume) = method_at(t, at, kind, span)->Ok_0;
        lemma_methods_well_formed(t, resume, span);
        let rest = methods_from(t, resume, span)->Ok_0;
        let all = methods_from(t, from, span)->Ok_0;
        assert(all == seq![m] + rest);
        assert forall|i: int| 0 <= i < all.len() implies (#[trigger] all[i]).well_formed() by {
            if i > 0 {
                assert(all[i] == rest[i - 1]);
            }
        }
    }
}

/// A controller that is extracted is well formed: its name is an identifier, never
/// empty, and each of its handlers is well formed.
pub proof fn lemma_controller_well_formed(t: Seq<char>, span: Extent)
    requires
        controller_of(t, span) is Ok,
    ensures
        controller_of(t, span)->Ok_0.well_formed(),
{
    lemma_class_name_is_identifier(t);
    lemma_body_start(t);
    lemma_methods_well_formed(t, body_start(t), span);
}

/// The search for handlers begins within the text.
pub proof fn lemma_body_start(t: Seq<char>)
    ensures
        0 <= body_start(t) <= t.len(),
{
    lemma_first_index(t, 0, marked(Mark::ClassHead));
    if let Some(k) = first_mark(t, 0, Mark::ClassHead) {
        lemma_class_name(t, k);
        lemma_first_index(t, class_name_end(t, k), holds('{'));
    }
}

/// The span goes into the failures only: the handlers that are extracted are the
/// same wherever the block is said to lie.
pub proof fn lemma_methods_of_any_span(t: Seq<char>, from: int, a: Extent, b: Extent)
    requires
        0 <= from,
    ensures
        methods_from(t, from, a) is Ok <==> methods_from(t, from, b) is Ok,
        methods_from(t, from, a) is Ok ==> methods_from(t, from, a)->Ok_0 == methods_from(
            t,
            from,
            b,
        )->Ok_0,
    decreases t.len() - from,
{
    lemma_first_index(t, from, marked(Mark::Mapping));
    if let Some(at) = first_mark(t, from, Mark::Mapping) {
        let kind = mapping_at(t, at)->0;
        if method_at(t, at, kind, a) is Ok {
            lemma_method_at(t, at, kind, a);
            lemma_methods_of_any_span(t, method_at(t, at, kind, a)->Ok_0.1, a, b);
        }
    }
}

/// The span goes into the failures only: the controller that is extracted is the
/// same wherever the block is said to lie.
pub proof fn lemma_controller_of_any_span(t: Seq<char>, a: Extent, b: Extent)
    ensures
        controller_of(t, a) is Ok <==> controller_of(t, b) is Ok,
        controller_of(t, a) is Ok ==> controller_of(t, a)->Ok_0 == controller_of(t, b)->Ok_0,
{
    lemma_body_start(t);
    lemma_methods_of_any_span(t, body_start(t), a, b);
}

} // verus!
