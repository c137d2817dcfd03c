//! The tokens that the grammar is made of: annotations and the head of a class declaration.

use vstd::prelude::*;
use crate::text::{
    has_word_at, ident_end, is_ident_char, is_ident_start, is_whitespace, lemma_ident_end,
    lemma_whitespace_end, scan_ident, skip_whitespace, spells, starts_with_at, whitespace_end,
};

verus! {

/// The six annotations that map a handler to a route.
#[derive(Clone, Copy, Debug, PartialEq, Eq)]
pub enum MappingKind {
    Get,
    Post,
    Put,
    Delete,
    Patch,
    Request,
}

impl MappingKind {
    /// The annotation's name, without the marker `@`.
    pub open spec fn spec_name(self) -> Seq<char> {
        match self {
            MappingKind::Get => "GetMapping"@,
            MappingKind::Post => "PostMapping"@,
            MappingKind::Put => "PutMapping"@,
            MappingKind::Delete => "DeleteMapping"@,
            MappingKind::Patch => "PatchMapping"@,
            MappingKind::Request => "RequestMapping"@,
        }
    }

    /// The annotation as it is written, with the marker `@`.
    pub open spec fn spec_marked_name(self) -> Seq<char> {
        match self {
            MappingKind::Get => "@GetMapping"@,
            MappingKind::Post => "@PostMapping"@,
            MappingKind::Put => "@PutMapping"@,
            MappingKind::Delete => "@DeleteMapping"@,
            MappingKind::Patch => "@PatchMapping"@,
            MappingKind::Request => "@RequestMapping"@,
        }
    }

    /// The annotation's name, without the marker `@`.
    pub fn name(self) -> (r: &'static str)
        ensures
            r@ == self.spec_name(),
    {
        match self {
            MappingKind::Get => "GetMapping",
            MappingKind::Post => "PostMapping",
            MappingKind::Put => "PutMapping",
            MappingKind::Delete => "DeleteMapping",
            MappingKind::Patch => "PatchMapping",
            MappingKind::Request => "RequestMapping",
        }
    }

    /// The annotation as it is written, with the marker `@`.
    pub fn marked_name(self) -> (r: &'static str)
        ensures
            r@ == self.spec_marked_name(),
    {
        match self {
            MappingKind::Get => "@GetMapping",
            MappingKind::Post => "@PostMapping",
            MappingKind::Put => "@PutMapping",
            MappingKind::Delete => "@DeleteMapping",
            MappingKind::Patch => "@PatchMapping",
            MappingKind::Request => "@RequestMapping",
        }
    }
}

/// The mapping annotation that goes by `name`, if there is one. Names are case-sensitive.
pub open spec fn kind_of(name: Seq<char>) -> Option<MappingKind> {
    if name == "GetMapping"@ {
        Some(MappingKind::Get)
    } else if name == "PostMapping"@ {
        Some(MappingKind::Post)
    } else if name == "PutMapping"@ {
        Some(MappingKind::Put)
    } else if name == "DeleteMapping"@ {
        Some(MappingKind::Delete)
    } else if name == "PatchMapping"@ {
        Some(MappingKind::Patch)
    } else if name == "RequestMapping"@ {
        Some(MappingKind::Request)
    } else {
        None
    }
}

/// An annotation begins at `at`: the marker `@`, then an identifier.
pub open spec fn annotation_at(s: Seq<char>, at: int) -> bool {
    0 <= at && at + 1 < s.len() && s[at] == '@' && is_ident_start(s[at + 1])
}

/// Where the name of the annotation at `at` ends. The name is the whole identifier
/// after the marker, so `@GetMappings` is not `@GetMapping`.
pub open spec fn annotation_end(s: Seq<char>, at: int) -> int {
    ident_end(s, at + 1)
}

/// The name of the annotation at `at`.
pub open spec fn annotation_name(s: Seq<char>, at: int) -> Seq<char> {
    s.subrange(at + 1, annotation_end(s, at))
}

/// The mapping annotation that begins at `at`, if one does.
pub open spec fn mapping_at(s: Seq<char>, at: int) -> Option<MappingKind> {
    if annotation_at(s, at) {
        kind_of(annotation_name(s, at))
    } else {
        None
    }
}

/// A controller annotation begins at `at`: `@Controller` or `@RestController`.
pub open spec fn controller_at(s: Seq<char>, at: int) -> bool {
    annotation_at(s, at) && (annotation_name(s, at) == "Controller"@ || annotation_name(s, at)
        == "RestController"@)
}

/// The name of an annotation is never empty, and ends within the text.
pub proof fn lemma_annotation_end(s: Seq<char>, at: int)
    requires
        annotation_at(s, at),
    ensures
        at + 1 < annotation_end(s, at) <= s.len(),
{
    lemma_ident_end(s, at + 1);
}

/// Where an annotation stands, its marker and its name are written: the text holds
/// `@` and the name, one after the other.
pub proof fn lemma_annotation_is_written(s: Seq<char>, at: int)
    requires
        annotation_at(s, at),
    ensures
        has_word_at(s, at, seq!['@'] + annotation_name(s, at)),
{
    lemma_annotation_end(s, at);
    let word = seq!['@'] + annotation_name(s, at);
    assert(s.subrange(at, at + word.len()) =~= word);
}

/// Reads the annotation that begins at `at`, and gives the end of its name.
pub fn read_annotation(s: &[char], at: usize) -> (r: Option<usize>)
    ensures
        r is Some == annotation_at(s@, at as int),
        r matches Some(e) ==> e == annotation_end(s@, at as int) && at + 1 < e <= s.len(),
{
    if at < s.len() && s[at] == '@' && at + 1 < s.len() && is_ident_start(s[at + 1]) {
        proof {
            lemma_annotation_end(s@, at as int);
        }
        Some(scan_ident(s, at + 1))
    } else {
        None
    }
}

/// Tells which mapping annotation the characters in `a..b` name.
pub fn read_kind(s: &[char], a: usize, b: usize) -> (r: Option<MappingKind>)
    requires
        a <= b <= s.len(),
    ensures
        r == kind_of(s@.subrange(a as int, b as int)),
{
    if spells(s, a, b, "GetMapping") {
        Some(MappingKind::Get)
    } else if spells(s, a, b, "PostMapping") {
        Some(MappingKind::Post)
    } else if spells(s, a, b, "PutMapping") {
        Some(MappingKind::Put)
    } else if spells(s, a, b, "DeleteMapping") {
        Some(MappingKind::Delete)
    } else if spells(s, a, b, "PatchMapping") {
        Some(MappingKind::Patch)
    } else if spells(s, a, b, "RequestMapping") {
        Some(MappingKind::Request)
    } else {
        None
    }
}

/// Reads the mapping annotation that begins at `at`, and gives its kind and the end of its name.
pub fn read_mapping(s: &[char], at: usize) -> (r: Option<(MappingKind, usize)>)
    ensures
        match r {
            Some((kind, e)) => mapping_at(s@, at as int) == Some(kind) && e == annotation_end(
                s@,
                at as int,
            ) && at + 1 < e <= s.len(),
            None => mapping_at(s@, at as int) is None,
        },
{
    match read_annotation(s, at) {
        None => None,
        Some(e) => match read_kind(s, at + 1, e) {
            None => None,
            Some(kind) => Some((kind, e)),
        },
    }
}

/// Reads the controller annotation that begins at `at`, and gives the end of its name.
pub fn read_controller(s: &[char], at: usize) -> (r: Option<usize>)
    ensures
        r is Some == controller_at(s@, at as int),
        r matches Some(e) ==> e == annotation_end(s@, at as int) && at + 1 < e <= s.len(),
{
    match read_annotation(s, at) {
        None => None,
        Some(e) => if spells(s, at + 1, e, "Controller") || spells(s, at + 1, e, "RestController") {
            Some(e)
        } else {
            None
        },
    }
}

/// The head of a class declaration begins at `at`: the keyword `class` as a word of its
/// own, then whitespace, then the identifier that names the class.
pub open spec fn class_head_at(s: Seq<char>, at: int) -> bool {
    &&& has_word_at(s, at, "class"@)
    &&& (at == 0 || !is_ident_char(s[at - 1]))
    &&& at + 5 < s.len()
    &&& is_whitespace(s[at + 5])
    &&& class_name_start(s, at) < s.len()
    &&& is_ident_start(s[class_name_start(s, at)])
}

/// Where the name of the class begins whose head is at `at`.
pub open spec fn class_name_start(s: Seq<char>, at: int) -> int {
    whitespace_end(s, at + 5)
}

/// Where the name of the class ends whose head is at `at`.
pub open spec fn class_name_end(s: Seq<char>, at: int) -> int {
    ident_end(s, class_name_start(s, at))
}

/// The name of a class lies after the keyword, within the text, and is a non-empty
/// identifier.
pub proof fn lemma_class_name(s: Seq<char>, at: int)
    requires
        class_head_at(s, at),
    ensures
        at + 5 < class_name_start(s, at) < class_name_end(s, at) <= s.len(),
        is_ident_start(s[class_name_start(s, at)]),
        forall|k: int|
            class_name_start(s, at) <= k < class_name_end(s, at) ==> is_ident_char(#[trigger] s[k]),
{
    lemma_whitespace_end(s, at + 5);
    lemma_ident_end(s, class_name_start(s, at));
}

/// Reads the head of a class declaration at `at`, and gives the bounds of the class's name.
pub fn read_class_head(s: &[char], at: usize) -> (r: Option<(usize, usize)>)
    ensures
        r is Some == class_head_at(s@, at as int),
        r matches Some((n, m)) ==> n == class_name_start(s@, at as int) && m == class_name_end(
            s@,
            at as int,
        ) && at + 5 < n < m <= s.len(),
{
    proof {
        reveal_strlit("class");
    }
    if !starts_with_at(s, at, "class") {
        return None;
    }
    if at > 0 && is_ident_char(s[at - 1]) {
        return None;
    }
    if at + 5 >= s.len() || !is_whitespace(s[at + 5]) {
        return None;
    }
    let n = skip_whitespace(s, at + 5);
    if n >= s.len() || !is_ident_start(s[n]) {
        return None;
    }
    proof {
        lemma_class_name(s@, at as int);
    }
    let m = scan_ident(s, n);
    Some((n, m))
}

/// The text holds the keyword `word` at `at`: the word, and no identifier character
/// right after it.
pub open spec fn keyword_at(s: Seq<char>, at: int, word: Seq<char>) -> bool {
    has_word_at(s, at, word) && (at + word.len() == s.len() || !is_ident_char(s[at + word.len()]))
}

/// Decides whether the text holds the keyword `word` at `at`.
pub fn is_keyword_at(s: &[char], at: usize, word: &str) -> (r: bool)
    ensures
        r == keyword_at(s@, at as int, word@),
{
    if !starts_with_at(s, at, word) {
        return false;
    }
    let n = word.unicode_len();
    assert(at + n <= s.len());
    at + n == s.len() || !is_ident_char(s[at + n])
}

} // verus!
