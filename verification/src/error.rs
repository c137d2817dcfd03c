//! Spans of the source text, and the ways in which parsing fails.

use vstd::prelude::*;
use crate::token::MappingKind;

verus! {

/// A range of the source text, in characters: `start` is the first position, `end` the
/// position after the last.
#[derive(Clone, Copy, Debug, PartialEq, Eq)]
pub struct Span {
    pub start: usize,
    pub end: usize,
}

/// A range of a text, as mathematical integers.
pub struct Extent {
    pub start: int,
    pub end: int,
}

impl View for Span {
    type V = Extent;

    open spec fn view(&self) -> Extent {
        Extent { start: self.start as int, end: self.end as int }
    }
}

/// The ways in which a text fails to follow the grammar.
#[derive(Clone, Copy, Debug, PartialEq, Eq)]
pub enum GrammarFault {
    /// The text does not begin with what the rule asks for.
    NoMatch,
    /// No class declaration follows a controller annotation.
    MissingClass,
    /// No opening brace follows the name of a controller class.
    MissingBody,
    /// The body of a controller class is not closed before the text ends.
    UnclosedBody,
}

impl GrammarFault {
    /// The fault in words.
    pub open spec fn spec_message(self) -> Seq<char> {
        match self {
            GrammarFault::NoMatch => "the text does not match the rule"@,
            GrammarFault::MissingClass => "no class declaration follows the controller annotation"@,
            GrammarFault::MissingBody => "the controller class has no body"@,
            GrammarFault::UnclosedBody => "the body of the controller class is not closed"@,
        }
    }

    /// The fault in words.
    pub fn message(self) -> (r: String)
        ensures
            r@ == self.spec_message(),
    {
        match self {
            GrammarFault::NoMatch => String::from_str("the text does not match the rule"),
            GrammarFault::MissingClass => String::from_str(
                "no class declaration follows the controller annotation",
            ),
            GrammarFault::MissingBody => String::from_str("the controller class has no body"),
            GrammarFault::UnclosedBody => String::from_str(
                "the body of the controller class is not closed",
            ),
        }
    }
}

/// The errors of parsing.
#[derive(Debug, Clone, PartialEq, Eq)]
pub enum SpringControllerParserError {
    /// The text does not follow the grammar at `position`.
    GrammarError { position: usize, message: String },
    /// The text holds no controller.
    NoControllersFound,
    /// No class declaration was found in the controller block at `span`.
    ClassNameMissing { span: Span },
    /// The argument list of `annotation` is not closed, in the controller block at `span`.
    AnnotationArgumentError { annotation: String, span: Span },
    /// No method header follows `annotation`, in the controller block at `span`.
    MethodHeaderError { annotation: String, span: Span },
}

/// What a `SpringControllerParserError` holds, in mathematical terms.
pub enum Failure {
    /// The text does not follow the grammar at `position`.
    Grammar { position: int, fault: GrammarFault },
    /// The text holds no controller.
    NoControllersFound,
    /// The block at `span` declares no class.
    ClassNameMissing { span: Extent },
    /// In the block at `span`, the argument list of an annotation of `kind` is not closed.
    AnnotationArgument { kind: MappingKind, span: Extent },
    /// In the block at `span`, no method header follows an annotation of `kind`.
    MethodHeader { kind: MappingKind, span: Extent },
}

impl SpringControllerParserError {
    /// The error stands for `f`: same variant, same position or span, and the text that
    /// names the fault or the annotation.
    pub open spec fn stands_for(self, f: Failure) -> bool {
        match f {
            Failure::Grammar { position, fault } => self
                matches SpringControllerParserError::GrammarError { position: p, message: m }
                && p == position && m@ == fault.spec_message(),
            Failure::NoControllersFound => self is NoControllersFound,
            Failure::ClassNameMissing { span } => self
                matches SpringControllerParserError::ClassNameMissing { span: sp } && sp@ == span,
            Failure::AnnotationArgument { kind, span } => self
                matches SpringControllerParserError::AnnotationArgumentError {
                annotation: a,
                span: sp,
            } && a@ == kind.spec_marked_name() && sp@ == span,
            Failure::MethodHeader { kind, span } => self
                matches SpringControllerParserError::MethodHeaderError { annotation: a, span: sp }
                && a@ == kind.spec_marked_name() && sp@ == span,
        }
    }

    /// The error in words: what failed, and the fault or the annotation it names.
    pub open spec fn spec_describe(self) -> Seq<char> {
        match self {
            SpringControllerParserError::GrammarError { position, message } => "parsing error: "@
                + message@,
            SpringControllerParserError::NoControllersFound => "no controllers found"@,
            SpringControllerParserError::ClassNameMissing { span } =>
                "failed to extract class name"@,
            SpringControllerParserError::AnnotationArgumentError { annotation, span } =>
                "failed to extract annotation arguments: "@ + annotation@,
            SpringControllerParserError::MethodHeaderError { annotation, span } =>
                "failed to extract method header after: "@ + annotation@,
        }
    }

    /// The error in words.
    pub fn describe(&self) -> (r: String)
        ensures
            r@ == self.spec_describe(),
    {
        match self {
            SpringControllerParserError::GrammarError { position, message } => String::from_str(
                "parsing error: ",
            ).concat(message.as_str()),
            SpringControllerParserError::NoControllersFound => String::from_str(
                "no controllers found",
            ),
            SpringControllerParserError::ClassNameMissing { span } => String::from_str(
                "failed to extract class name",
            ),
            SpringControllerParserError::AnnotationArgumentError { annotation, span } =>
                String::from_str("failed to extract annotation arguments: ").concat(
                    annotation.as_str(),
                ),
            SpringControllerParserError::MethodHeaderError { annotation, span } => String::from_str(
                "failed to extract method header after: ",
            ).concat(annotation.as_str()),
        }
    }

    /// The two errors say the same: same variant, same position or span, same text.
    pub open spec fn same_as(self, other: Self) -> bool {
        match (self, other) {
            (
                SpringControllerParserError::GrammarError { position: n1, message: m1 },
                SpringControllerParserError::GrammarError { position: n2, message: m2 },
            ) => n1 == n2 && m1@ == m2@,
            (
                SpringControllerParserError::NoControllersFound,
                SpringControllerParserError::NoControllersFound,
            ) => true,
            (
                SpringControllerParserError::ClassNameMissing { span: s1 },
                SpringControllerParserError::ClassNameMissing { span: s2 },
            ) => s1 == s2,
            (
                SpringControllerParserError::AnnotationArgumentError { annotation: a1, span: s1 },
                SpringControllerParserError::AnnotationArgumentError { annotation: a2, span: s2 },
            ) => a1@ == a2@ && s1 == s2,
            (
                SpringControllerParserError::MethodHeaderError { annotation: a1, span: s1 },
                SpringControllerParserError::MethodHeaderError { annotation: a2, span: s2 },
            ) => a1@ == a2@ && s1 == s2,
            _ => false,
        }
    }

    /// Two errors that stand for one failure say the same.
    pub proof fn lemma_stands_for_one(self, other: Self, f: Failure)
        requires
            self.stands_for(f),
            other.stands_for(f),
        ensures
            self.same_as(other),
    {
    }

    /// Builds the error that stands for a fault of the grammar at `position`.
    pub fn grammar(position: usize, fault: GrammarFault) -> (r: Self)
        ensures
            r.stands_for(Failure::Grammar { position: position as int, fault }),
    {
        SpringControllerParserError::GrammarError { position, message: fault.message() }
    }

    /// Builds the error for an argument list of `kind` that is not closed.
    pub fn annotation_argument(kind: MappingKind, span: Span) -> (r: Self)
        ensures
            r.stands_for(Failure::AnnotationArgument { kind, span: span@ }),
    {
        SpringControllerParserError::AnnotationArgumentError {
            annotation: String::from_str(kind.marked_name()),
            span,
        }
    }

    /// Builds the error for an annotation of `kind` that no method header follows.
    pub fn method_header(kind: MappingKind, span: Span) -> (r: Self)
        ensures
            r.stands_for(Failure::MethodHeader { kind, span: span@ }),
    {
        SpringControllerParserError::MethodHeaderError {
            annotation: String::from_str(kind.marked_name()),
            span,
        }
    }
}

} // verus!
