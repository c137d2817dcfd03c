use spring_controller_parser::balance::{
    find_body_open, find_literal_end, find_matching, lex_next, Lex,
};
use spring_controller_parser::grammar::{
    controller_spans, find_mark, match_block_end, match_block_start, next_controller_span,
    read_arguments, ArgumentList, Mark,
};
use spring_controller_parser::text::{
    find_char, is_ident_char, is_ident_start, is_whitespace, rfind_char, scan_ident,
    skip_whitespace, spells, starts_with_at, substring, to_chars, trim,
};
use spring_controller_parser::token::{
    is_keyword_at, read_annotation, read_class_head, read_controller, read_kind, read_mapping,
    MappingKind,
};
use spring_controller_parser::error::GrammarFault;
use spring_controller_parser::{Span, SpringControllerParserError};

fn cs(s: &str) -> Vec<char> {
    s.chars().collect()
}

#[test]
fn whitespace_is_unicode_white_space() {
    for n in 0..=0x10FFFFu32 {
        if let Some(c) = char::from_u32(n) {
            assert_eq!(is_whitespace(c), c.is_whitespace(), "U+{:04X}", n);
        }
    }
}

#[test]
fn identifier_characters() {
    for n in 0..=0x10FFFFu32 {
        if let Some(c) = char::from_u32(n) {
            let start = c.is_ascii_alphabetic() || c == '_';
            assert_eq!(is_ident_start(c), start, "U+{:04X}", n);
            assert_eq!(is_ident_char(c), start || c.is_ascii_digit(), "U+{:04X}", n);
        }
    }
}

#[test]
fn characters_of_a_string() {
    assert_eq!(to_chars("aé漢\u{1F600}b"), vec!['a', 'é', '漢', '\u{1F600}', 'b']);
    assert_eq!(to_chars(""), Vec::<char>::new());
}

#[test]
fn substring_takes_the_range() {
    let t = cs("aé漢\u{1F600}b");
    assert_eq!(substring(&t, 1, 4), "é漢\u{1F600}");
    assert_eq!(substring(&t, 0, 5), "aé漢\u{1F600}b");
    assert_eq!(substring(&t, 2, 2), "");
}

#[test]
fn searching_for_a_character() {
    let t = cs("a{b{c");
    assert_eq!(find_char(&t, 0, '{'), Some(1));
    assert_eq!(find_char(&t, 1, '{'), Some(1));
    assert_eq!(find_char(&t, 2, '{'), Some(3));
    assert_eq!(find_char(&t, 4, '{'), None);
    assert_eq!(find_char(&t, 9, '{'), None);
    assert_eq!(rfind_char(&t, 0, 5, '{'), Some(3));
    assert_eq!(rfind_char(&t, 0, 3, '{'), Some(1));
    assert_eq!(rfind_char(&t, 2, 3, '{'), None);
    assert_eq!(rfind_char(&t, 0, 0, '{'), None);
}

#[test]
fn skipping_and_trimming() {
    let t = cs(" \t\n ab \u{3000}c\r\n");
    assert_eq!(skip_whitespace(&t, 0), 4);
    assert_eq!(skip_whitespace(&t, 4), 4);
    assert_eq!(skip_whitespace(&t, 9), 11);
    assert_eq!(skip_whitespace(&t, 11), 11);
    assert_eq!(trim(&t, 0, 11), (4, 9));
    assert_eq!(trim(&t, 4, 6), (4, 6));
    assert_eq!(trim(&t, 6, 8), (6, 6));
    assert_eq!(trim(&t, 0, 4), (0, 0));
    assert_eq!(trim(&t, 3, 3), (3, 3));
    assert_eq!(scan_ident(&cs("ab_1-c"), 0), 4);
    assert_eq!(scan_ident(&cs("ab_1-c"), 4), 4);
    assert_eq!(scan_ident(&cs("ab_1"), 1), 4);
}

#[test]
fn words() {
    let t = cs("xclass Foo");
    assert!(starts_with_at(&t, 1, "class"));
    assert!(!starts_with_at(&t, 0, "class"));
    assert!(!starts_with_at(&t, 7, "Foo!"));
    assert!(starts_with_at(&t, 7, "Foo"));
    assert!(starts_with_at(&t, 10, ""));
    assert!(!starts_with_at(&t, 11, ""));
    assert!(spells(&t, 7, 10, "Foo"));
    assert!(!spells(&t, 7, 9, "Foo"));
    assert!(!spells(&t, 6, 10, "Foo"));
    assert!(!spells(&t, 7, 10, "Fo"));
    assert!(is_keyword_at(&cs("a extends B"), 2, "extends"));
    assert!(is_keyword_at(&cs("a extends"), 2, "extends"));
    assert!(!is_keyword_at(&cs("a extendsB"), 2, "extends"));
    assert!(!is_keyword_at(&cs("a extend"), 2, "extends"));
}

#[test]
fn literal_states() {
    assert_eq!(lex_next(Lex::Code, '"'), Lex::Str);
    assert_eq!(lex_next(Lex::Code, '\''), Lex::Chr);
    assert_eq!(lex_next(Lex::Code, '\\'), Lex::Code);
    assert_eq!(lex_next(Lex::Str, '"'), Lex::Code);
    assert_eq!(lex_next(Lex::Str, '\''), Lex::Str);
    assert_eq!(lex_next(Lex::Str, '\\'), Lex::StrEscape);
    assert_eq!(lex_next(Lex::StrEscape, '"'), Lex::Str);
    assert_eq!(lex_next(Lex::Chr, '\''), Lex::Code);
    assert_eq!(lex_next(Lex::Chr, '"'), Lex::Chr);
    assert_eq!(lex_next(Lex::Chr, '\\'), Lex::ChrEscape);
    assert_eq!(lex_next(Lex::ChrEscape, '\''), Lex::Chr);
    for lex in [Lex::Code, Lex::Str, Lex::StrEscape, Lex::Chr, Lex::ChrEscape] {
        assert_eq!(lex_next(lex, '\n'), Lex::Code);
    }
    assert_eq!(lex_next(Lex::Str, '\r'), Lex::Str);
}

#[test]
fn matching_delimiters() {
    let t = cs("{a{b}c{d{}}}e}");
    assert_eq!(find_matching(&t, 0, '{', '}'), Some(11));
    assert_eq!(find_matching(&t, 2, '{', '}'), Some(4));
    assert_eq!(find_matching(&t, 8, '{', '}'), Some(9));
    assert_eq!(find_matching(&t, 1, '{', '}'), None);
    assert_eq!(find_matching(&t, 20, '{', '}'), None);
    assert_eq!(find_matching(&cs("{{}"), 0, '{', '}'), None);
    assert_eq!(find_matching(&cs("{\"}\"}"), 0, '{', '}'), Some(4));
    assert_eq!(find_matching(&cs("{'}'}"), 0, '{', '}'), Some(4));
    assert_eq!(find_matching(&cs("{\"\\\"}\"}"), 0, '{', '}'), Some(6));
    assert_eq!(find_matching(&cs("{'\\''}"), 0, '{', '}'), Some(5));
    assert_eq!(find_matching(&cs("{\"}"), 0, '{', '}'), None);
    assert_eq!(find_matching(&cs("(a{)b)"), 0, '(', ')'), Some(3));
    assert_eq!(find_matching(&cs("{ // don't\n}"), 0, '{', '}'), Some(11));
    assert_eq!(find_matching(&cs("{ \"\\\n}"), 0, '{', '}'), Some(5));
}

#[test]
fn body_braces() {
    assert_eq!(find_body_open(&cs("f(a, {b}) {"), 0), Some(10));
    assert_eq!(find_body_open(&cs("f(a, {b}) {"), 2), Some(5));
    assert_eq!(find_body_open(&cs("\"{\" '{' {"), 0), Some(8));
    assert_eq!(find_body_open(&cs(") {"), 0), Some(2));
    assert_eq!(find_body_open(&cs("( {"), 0), None);
    assert_eq!(find_body_open(&cs("{"), 0), Some(0));
    assert_eq!(find_body_open(&cs("{"), 1), None);
    assert_eq!(find_body_open(&cs("{"), 5), None);
}

#[test]
fn string_literals() {
    assert_eq!(find_literal_end(&cs("\"abc\" \"d\""), 0), Some(4));
    assert_eq!(find_literal_end(&cs("\"abc\" \"d\""), 4), Some(6));
    assert_eq!(find_literal_end(&cs("\"abc\" \"d\""), 6), Some(8));
    assert_eq!(find_literal_end(&cs("\"abc\" \"d\""), 8), None);
    assert_eq!(find_literal_end(&cs("\"abc\" \"d\""), 1), None);
    assert_eq!(find_literal_end(&cs("\"\""), 0), Some(1));
    assert_eq!(find_literal_end(&cs("\"a\\\"b\""), 0), Some(5));
    assert_eq!(find_literal_end(&cs("\"a\\\\\"b\""), 0), Some(4));
    assert_eq!(find_literal_end(&cs("\"a'b\""), 0), Some(4));
    assert_eq!(find_literal_end(&cs("\"a\\\""), 0), None);
    assert_eq!(find_literal_end(&cs("\""), 0), None);
    assert_eq!(find_literal_end(&cs(""), 0), None);
    assert_eq!(find_literal_end(&cs("\"a\""), 7), None);
    assert_eq!(find_literal_end(&cs("\"a\nb\""), 0), Some(2));
}

#[test]
fn annotations() {
    let t = cs("@Get1_x(@ @1 @RestController");
    assert_eq!(read_annotation(&t, 0), Some(7));
    assert_eq!(read_annotation(&t, 1), None);
    assert_eq!(read_annotation(&t, 8), None);
    assert_eq!(read_annotation(&t, 10), None);
    assert_eq!(read_annotation(&t, 13), Some(28));
    assert_eq!(read_annotation(&cs("@"), 0), None);
    assert_eq!(read_annotation(&cs("@a"), 5), None);
    assert_eq!(read_controller(&t, 13), Some(28));
    assert_eq!(read_controller(&cs("@Controller."), 0), Some(11));
    assert_eq!(read_controller(&cs("@Controllers"), 0), None);
    assert_eq!(read_controller(&cs("@RestControlle"), 0), None);
    assert_eq!(read_controller(&cs("Controller"), 0), None);
}

#[test]
fn mapping_kinds() {
    let kinds = [
        (MappingKind::Get, "GetMapping"),
        (MappingKind::Post, "PostMapping"),
        (MappingKind::Put, "PutMapping"),
        (MappingKind::Delete, "DeleteMapping"),
        (MappingKind::Patch, "PatchMapping"),
        (MappingKind::Request, "RequestMapping"),
    ];
    for (kind, name) in kinds {
        assert_eq!(kind.name(), name);
        assert_eq!(kind.marked_name(), format!("@{}", name));
        let t = cs(&format!("@{}(", name));
        assert_eq!(read_mapping(&t, 0), Some((kind, name.len() + 1)));
        assert_eq!(read_kind(&t, 1, name.len() + 1), Some(kind));
        assert_eq!(read_kind(&t, 1, name.len()), None);
        assert_eq!(read_kind(&t, 0, name.len() + 1), None);
    }
    assert_eq!(read_mapping(&cs("@Mapping"), 0), None);
    assert_eq!(read_mapping(&cs("@getMapping"), 0), None);
    assert_eq!(read_mapping(&cs("GetMapping"), 0), None);
}

#[test]
fn class_heads() {
    assert_eq!(read_class_head(&cs("class Foo {"), 0), Some((6, 9)));
    assert_eq!(read_class_head(&cs(" class\n\n Foo{"), 1), Some((9, 12)));
    assert_eq!(read_class_head(&cs("aclass Foo {"), 1), None);
    assert_eq!(read_class_head(&cs("class Foo {"), 1), None);
    assert_eq!(read_class_head(&cs("class"), 0), None);
    assert_eq!(read_class_head(&cs("class "), 0), None);
    assert_eq!(read_class_head(&cs("class\u{a0}F"), 0), Some((6, 7)));
    assert_eq!(read_class_head(&cs("classFoo {"), 0), None);
    assert_eq!(read_class_head(&cs("class Foo {"), 50), None);
}

#[test]
fn argument_lists() {
    let t = cs("@A (x(y)) @B @C(");
    assert_eq!(read_arguments(&t, 2), ArgumentList::Closed { open: 3, close: 8 });
    assert_eq!(read_arguments(&t, 12), ArgumentList::Absent);
    assert_eq!(read_arguments(&t, 15), ArgumentList::Unclosed { open: 15 });
    assert_eq!(read_arguments(&t, 16), ArgumentList::Absent);
}

#[test]
fn marks() {
    let t = cs("x @GetMapping @RequestMapping( \"/a\" )\n @Controller class A { }");
    assert_eq!(find_mark(&t, 0, Mark::Mapping), Some(2));
    assert_eq!(find_mark(&t, 3, Mark::Mapping), Some(14));
    assert_eq!(find_mark(&t, 15, Mark::Mapping), None);
    assert_eq!(find_mark(&t, 0, Mark::RequestMapping), Some(14));
    assert_eq!(find_mark(&t, 0, Mark::Controller), Some(39));
    assert_eq!(find_mark(&t, 0, Mark::ClassHead), Some(51));
    assert_eq!(find_mark(&t, 52, Mark::ClassHead), None);
    assert_eq!(find_mark(&t, 0, Mark::BlockStart), Some(14));
    assert_eq!(find_mark(&t, 15, Mark::BlockStart), Some(39));
    assert_eq!(find_mark(&t, 40, Mark::BlockStart), None);
    assert_eq!(find_mark(&t, 0, Mark::ModifiersEnd), Some(2));
    assert_eq!(find_mark(&t, 40, Mark::ModifiersEnd), Some(51));
    assert_eq!(find_mark(&t, 99, Mark::ModifiersEnd), None);
}

#[test]
fn block_bounds() {
    let t = cs("x @GetMapping @RequestMapping( \"/a\" )\n @Controller class A { }");
    assert_eq!(match_block_start(&t, 14), Some(39));
    assert_eq!(match_block_start(&t, 39), Some(39));
    assert_eq!(match_block_start(&t, 2), None);
    assert_eq!(match_block_start(&t, 0), None);
    assert_eq!(match_block_start(&t, 99), None);
    assert_eq!(match_block_end(&t, 39), Ok(62));
    assert_eq!(match_block_end(&cs("@Controller"), 0), Err(GrammarFault::MissingClass));
    assert_eq!(match_block_end(&cs("@Controller class A;"), 0), Err(GrammarFault::MissingBody));
    assert_eq!(match_block_end(&cs("@Controller class A{"), 0), Err(GrammarFault::UnclosedBody));
}

#[test]
fn spans_one_by_one() {
    let t = cs("a @Controller class A {} b @RestController class B {{}} c @Controller");
    assert_eq!(next_controller_span(&t, 0), Ok(Some(Span { start: 2, end: 24 })));
    assert_eq!(next_controller_span(&t, 2), Ok(Some(Span { start: 2, end: 24 })));
    assert_eq!(next_controller_span(&t, 3), Ok(Some(Span { start: 27, end: 55 })));
    assert_eq!(next_controller_span(&t, 24), Ok(Some(Span { start: 27, end: 55 })));
    assert_eq!(
        next_controller_span(&t, 55),
        Err(SpringControllerParserError::GrammarError {
            position: 58,
            message: "no class declaration follows the controller annotation".to_string(),
        })
    );
    assert_eq!(next_controller_span(&t, 59), Ok(None));
    assert_eq!(next_controller_span(&t, 200), Ok(None));
    assert_eq!(
        controller_spans(&t),
        Err(SpringControllerParserError::GrammarError {
            position: 58,
            message: "no class declaration follows the controller annotation".to_string(),
        })
    );
    assert_eq!(
        controller_spans(&t[..57]),
        Ok(vec![Span { start: 2, end: 24 }, Span { start: 27, end: 55 }])
    );
    assert_eq!(controller_spans(&cs("class A {}")), Ok(vec![]));
}
