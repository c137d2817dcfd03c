use spring_controller_parser::error::GrammarFault;
use spring_controller_parser::{Grammar, Rule, Span, SpringControllerParserError};

#[test]
fn identifier_test() {
    let input = "MyTestController";
    let pair = Grammar::parse(Rule::Identifier, input).expect("No pair");
    assert_eq!(pair.as_str(), input);
}

#[test]
fn class_decl_test() {
    let input = "class MyTestController";
    let pair = Grammar::parse(Rule::ClassDecl, input).expect("No pair");
    assert_eq!(pair.as_str(), input);
}

#[test]
fn method_test() {
    let input = "public String hello() { return \"hi\"; }";
    let pair = Grammar::parse(Rule::Method, input).expect("No pair");
    assert!(pair.as_str().contains("hello"));
}

#[test]
fn mapping_args_test() {
    let input = "(\"/api/test\")";
    let pair = Grammar::parse(Rule::MappingArgs, input).expect("No pair");
    assert_eq!(pair.as_str(), input);
}

#[test]
fn mapping_annotation_test() {
    let cases = [
        "@RequestMapping(\"/api\")",
        "@GetMapping(\"/get\")",
        "@PostMapping(\"/post\")",
        "@DeleteMapping(\"/delete\")",
        "@PatchMapping(\"/patch\")",
        "@PutMapping(\"/put\")",
    ];

    for input in cases {
        let pair = Grammar::parse(Rule::MappingAnnotation, input).expect("No pair");
        assert_eq!(pair.as_str(), input);
    }
}

#[test]
fn controller_annotation_test() {
    let cases = ["@Controller", "@RestController"];

    for input in cases {
        let pair = Grammar::parse(Rule::ControllerAnnotation, input).expect("No pair");
        assert_eq!(pair.as_str(), input);
    }
}

#[test]
fn controller_block_test() {
    let input = r#"@RestController
        class MyControllerForTest {
            @GetMapping("/hi")
            public String hi() {
                return "Hi";
            }

            @PostMapping("/test")
            public void testData() {
            }
        }
    "#;

    let pair = Grammar::parse(Rule::ControllerBlock, input).expect("No pair");

    let text = pair.as_str();
    assert!(text.contains("@RestController"));
    assert!(text.contains("class MyControllerForTest"));
    assert!(text.contains("@GetMapping"));
    assert!(text.contains("hi"));
}

#[test]
fn controller_file_test() {
    let input = r#"
        @Controller
        class HelloController {
            @GetMapping("/hi")
            public String hi() {
                return "hi";
            }
        }

        @RestController
        class ApiTestController {
            @PostMapping("/test")
            public void test() {}
        }
    "#;

    let pair = Grammar::parse(Rule::ControllerFile, input).expect("No pair");

    let text = pair.as_str();
    assert!(text.contains("@Controller"));
    assert!(text.contains("HelloController"));
    assert!(text.contains("@RestController"));
    assert!(text.contains("ApiTestController"));
}

fn no_match() -> SpringControllerParserError {
    SpringControllerParserError::GrammarError {
        position: 0,
        message: GrammarFault::NoMatch.message(),
    }
}

#[test]
fn identifier_stops_at_the_first_other_character() {
    let pair = Grammar::parse(Rule::Identifier, "_a1b2 c").unwrap();
    assert_eq!(pair.as_str(), "_a1b2");
    assert_eq!(pair.as_span(), Span { start: 0, end: 5 });
    assert_eq!(pair.as_rule(), Rule::Identifier);
}

#[test]
fn identifier_cannot_begin_with_a_digit() {
    assert_eq!(Grammar::parse(Rule::Identifier, "1abc"), Err(no_match()));
    assert_eq!(Grammar::parse(Rule::Identifier, ""), Err(no_match()));
    assert_eq!(Grammar::parse(Rule::Identifier, " abc"), Err(no_match()));
}

#[test]
fn controller_annotation_is_case_sensitive_and_a_whole_word() {
    assert_eq!(Grammar::parse(Rule::ControllerAnnotation, "@controller"), Err(no_match()));
    assert_eq!(Grammar::parse(Rule::ControllerAnnotation, "@ControllerAdvice"), Err(no_match()));
    assert_eq!(Grammar::parse(Rule::ControllerAnnotation, "@Service"), Err(no_match()));
    let pair = Grammar::parse(Rule::ControllerAnnotation, "@Controller(\"x\")").unwrap();
    assert_eq!(pair.as_str(), "@Controller");
}

#[test]
fn mapping_annotation_without_arguments_ends_at_its_name() {
    let pair = Grammar::parse(Rule::MappingAnnotation, "@GetMapping public String ping()").unwrap();
    assert_eq!(pair.as_str(), "@GetMapping");
}

#[test]
fn mapping_annotation_takes_whitespace_before_its_arguments() {
    let pair = Grammar::parse(Rule::MappingAnnotation, "@GetMapping (\"/x\") void f()").unwrap();
    assert_eq!(pair.as_str(), "@GetMapping (\"/x\")");
}

#[test]
fn mapping_annotation_rejects_other_names_and_open_lists() {
    assert_eq!(Grammar::parse(Rule::MappingAnnotation, "@GetMappings(\"/x\")"), Err(no_match()));
    assert_eq!(Grammar::parse(Rule::MappingAnnotation, "@Autowired"), Err(no_match()));
    assert_eq!(Grammar::parse(Rule::MappingAnnotation, "@GetMapping(\"/x\""), Err(no_match()));
}

#[test]
fn mapping_args_are_balanced_and_literals_are_opaque() {
    let pair = Grammar::parse(Rule::MappingArgs, "(value = f(\")\"), x = ')') rest").unwrap();
    assert_eq!(pair.as_str(), "(value = f(\")\"), x = ')')");
    let pair = Grammar::parse(Rule::MappingArgs, "() {").unwrap();
    assert_eq!(pair.as_str(), "()");
    assert_eq!(Grammar::parse(Rule::MappingArgs, "(\"a\\\")\""), Err(no_match()));
    assert_eq!(Grammar::parse(Rule::MappingArgs, "x()"), Err(no_match()));
}

#[test]
fn class_decl_takes_modifiers() {
    let pair = Grammar::parse(Rule::ClassDecl, "public final class Foo {").unwrap();
    assert_eq!(pair.as_str(), "public final class Foo");
    let pair = Grammar::parse(Rule::ClassDecl, "class Foo<T> extends Bar {").unwrap();
    assert_eq!(pair.as_str(), "class Foo");
    assert_eq!(Grammar::parse(Rule::ClassDecl, "public interface Foo"), Err(no_match()));
    assert_eq!(Grammar::parse(Rule::ClassDecl, "class {"), Err(no_match()));
    assert_eq!(Grammar::parse(Rule::ClassDecl, "@X class Foo"), Err(no_match()));
    assert_eq!(Grammar::parse(Rule::ClassDecl, "public; class Foo"), Err(no_match()));
}

#[test]
fn class_decl_takes_the_clause_up_to_the_body() {
    let pair = Grammar::parse(
        Rule::ClassDecl,
        "public class Foo extends Bar\n    implements Baz, Qux  \n{ }",
    ).unwrap();
    assert_eq!(pair.as_str(), "public class Foo extends Bar\n    implements Baz, Qux");
    let pair = Grammar::parse(Rule::ClassDecl, "class Foo implements Baz ").unwrap();
    assert_eq!(pair.as_str(), "class Foo implements Baz");
    let pair = Grammar::parse(Rule::ClassDecl, "class Foo extendsBar {").unwrap();
    assert_eq!(pair.as_str(), "class Foo");
    let pair = Grammar::parse(Rule::ClassDecl, "class Foo extends").unwrap();
    assert_eq!(pair.as_str(), "class Foo extends");
}

#[test]
fn method_needs_a_parameter_list_and_a_balanced_body() {
    let pair = Grammar::parse(
        Rule::Method,
        "public int f(int x) throws E { if (x > 0) { return 1; } return 2; } int g() {}",
    ).unwrap();
    assert_eq!(
        pair.as_str(),
        "public int f(int x) throws E { if (x > 0) { return 1; } return 2; }"
    );
    assert_eq!(Grammar::parse(Rule::Method, "int x; void f() {}"), Err(no_match()));
    assert_eq!(Grammar::parse(Rule::Method, "void f() { "), Err(no_match()));
    assert_eq!(Grammar::parse(Rule::Method, "class A { void f() {} }"), Err(no_match()));
    assert_eq!(Grammar::parse(Rule::Method, "void f();"), Err(no_match()));
}

#[test]
fn controller_block_ends_at_the_matching_brace() {
    let input = "@Controller class A { void f() { if (x) { g(\"}\"); } char c = '}'; } } class B {}";
    let pair = Grammar::parse(Rule::ControllerBlock, input).unwrap();
    assert_eq!(
        pair.as_str(),
        "@Controller class A { void f() { if (x) { g(\"}\"); } char c = '}'; } }"
    );
}

#[test]
fn controller_block_may_begin_with_the_class_mapping() {
    let input = "@RequestMapping(\"/api\")\n@RestController\npublic class A {}\n";
    let pair = Grammar::parse(Rule::ControllerBlock, input).unwrap();
    assert_eq!(pair.as_str(), "@RequestMapping(\"/api\")\n@RestController\npublic class A {}");
    assert_eq!(
        Grammar::parse(Rule::ControllerBlock, "@RequestMapping(\"/api\")\npublic class A {}"),
        Err(no_match())
    );
    assert_eq!(Grammar::parse(Rule::ControllerBlock, " @Controller class A {}"), Err(no_match()));
}

#[test]
fn controller_block_faults_name_the_annotation() {
    assert_eq!(
        Grammar::parse(Rule::ControllerBlock, "@RequestMapping\n@Controller interface A {}"),
        Err(SpringControllerParserError::GrammarError {
            position: 16,
            message: "no class declaration follows the controller annotation".to_string(),
        })
    );
    assert_eq!(
        Grammar::parse(Rule::ControllerBlock, "@Controller class A"),
        Err(SpringControllerParserError::GrammarError {
            position: 0,
            message: "the controller class has no body".to_string(),
        })
    );
    assert_eq!(
        Grammar::parse(Rule::ControllerBlock, "@Controller class A { void f() { }"),
        Err(SpringControllerParserError::GrammarError {
            position: 0,
            message: "the body of the controller class is not closed".to_string(),
        })
    );
}

#[test]
fn controller_file_matches_text_without_controllers() {
    let pair = Grammar::parse(Rule::ControllerFile, "class A {}").unwrap();
    assert_eq!(pair.as_str(), "class A {}");
    let pair = Grammar::parse(Rule::ControllerFile, "").unwrap();
    assert_eq!(pair.as_str(), "");
}

#[test]
fn controller_file_fails_where_a_block_does() {
    assert_eq!(
        Grammar::parse(Rule::ControllerFile, "@Controller class A {}\n  @RestController class B {"),
        Err(SpringControllerParserError::GrammarError {
            position: 25,
            message: GrammarFault::UnclosedBody.message(),
        })
    );
}

#[test]
fn offsets_count_characters() {
    let pair = Grammar::parse(Rule::ControllerBlock, "@Controller class A { /* é ü */ }").unwrap();
    assert_eq!(pair.as_span(), Span { start: 0, end: 33 });
    assert_eq!(pair.as_str(), "@Controller class A { /* é ü */ }");
}

#[test]
fn fault_messages() {
    assert_eq!(GrammarFault::NoMatch.message(), "the text does not match the rule");
    assert_eq!(
        GrammarFault::MissingClass.message(),
        "no class declaration follows the controller annotation"
    );
    assert_eq!(GrammarFault::MissingBody.message(), "the controller class has no body");
    assert_eq!(
        GrammarFault::UnclosedBody.message(),
        "the body of the controller class is not closed"
    );
}
