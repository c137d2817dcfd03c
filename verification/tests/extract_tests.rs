use spring_controller_parser::extract::{
    extract_controller, extract_mapping, extract_method, extract_methods, extract_name,
    find_header, read_argument_value,
};
use spring_controller_parser::token::MappingKind;
use spring_controller_parser::{
    parse_controllers, Controller, ControllerMethod, Span, SpringControllerParserError,
};

fn cs(s: &str) -> Vec<char> {
    s.chars().collect()
}

const SPAN: Span = Span { start: 7, end: 99 };

fn method(annotation: &str, args: Option<&str>, header: &str) -> ControllerMethod {
    ControllerMethod {
        annotation: annotation.to_string(),
        annotation_args: args.map(|a| a.to_string()),
        header: header.to_string(),
    }
}

#[test]
fn name_is_the_identifier_after_the_keyword() {
    assert_eq!(extract_name(&cs("@Controller public class Foo {"), SPAN), Ok("Foo".to_string()));
    assert_eq!(extract_name(&cs("class Foo{"), SPAN), Ok("Foo".to_string()));
    assert_eq!(extract_name(&cs("class \n\t Foo_1<T> extends B {"), SPAN), Ok("Foo_1".to_string()));
    assert_eq!(extract_name(&cs("class A { class B {} }"), SPAN), Ok("A".to_string()));
    assert_eq!(extract_name(&cs("(class A"), SPAN), Ok("A".to_string()));
}

#[test]
fn name_is_missing_without_a_class_declaration() {
    let missing = Err(SpringControllerParserError::ClassNameMissing { span: SPAN });
    assert_eq!(extract_name(&cs("@Controller interface Foo {}"), SPAN), missing);
    assert_eq!(extract_name(&cs(""), SPAN), missing);
    assert_eq!(extract_name(&cs("subclass Foo {}"), SPAN), missing);
    assert_eq!(extract_name(&cs("_class Foo {}"), SPAN), missing);
    assert_eq!(extract_name(&cs("classes Foo {}"), SPAN), missing);
    assert_eq!(extract_name(&cs("class"), SPAN), missing);
    assert_eq!(extract_name(&cs("class  "), SPAN), missing);
    assert_eq!(extract_name(&cs("class {"), SPAN), missing);
    assert_eq!(extract_name(&cs("class 1Foo {"), SPAN), missing);
    assert_eq!(extract_name(&cs("Class Foo {"), SPAN), missing);
}

#[test]
fn name_skips_a_keyword_that_names_nothing() {
    assert_eq!(extract_name(&cs("x.class ; class Foo {}"), SPAN), Ok("Foo".to_string()));
}

#[test]
fn mapping_of_the_class() {
    assert_eq!(
        extract_mapping(&cs("@RequestMapping(\"/api\") class Foo {}"), SPAN),
        Ok(Some("/api".to_string()))
    );
    assert_eq!(
        extract_mapping(&cs("@RequestMapping(  \"/api/v1\"\n) @Controller class Foo {}"), SPAN),
        Ok(Some("/api/v1".to_string()))
    );
    assert_eq!(
        extract_mapping(&cs("@RequestMapping(\"\") class Foo {}"), SPAN),
        Ok(Some("".to_string()))
    );
    assert_eq!(
        extract_mapping(&cs("@RequestMapping(BASE) class Foo {}"), SPAN),
        Ok(Some("BASE".to_string()))
    );
    assert_eq!(
        extract_mapping(&cs("@RequestMapping(\"/a\") @RequestMapping(\"/b\") class Foo {}"), SPAN),
        Ok(Some("/a".to_string()))
    );
    assert_eq!(
        extract_mapping(&cs("@RequestMapping(value = \"/a\") class Foo {}"), SPAN),
        Ok(Some("/a".to_string()))
    );
}

#[test]
fn mapping_of_the_class_is_absent() {
    assert_eq!(extract_mapping(&cs("@Controller class Foo {}"), SPAN), Ok(None));
    assert_eq!(extract_mapping(&cs("@RequestMapping class Foo {}"), SPAN), Ok(None));
    assert_eq!(extract_mapping(&cs("@RequestMapping() class Foo {}"), SPAN), Ok(None));
    assert_eq!(extract_mapping(&cs("@RequestMapping(name = \"/a\") class Foo {}"), SPAN), Ok(None));
    assert_eq!(
        extract_mapping(&cs("class Foo { @RequestMapping(\"/m\") void f() {} }"), SPAN),
        Ok(None)
    );
    assert_eq!(extract_mapping(&cs("@GetMapping(\"/g\") class Foo {}"), SPAN), Ok(None));
    assert_eq!(extract_mapping(&cs("@RequestMappings(\"/g\") class Foo {}"), SPAN), Ok(None));
    assert_eq!(extract_mapping(&cs(""), SPAN), Ok(None));
}

#[test]
fn mapping_of_the_class_with_an_open_list() {
    assert_eq!(
        extract_mapping(&cs("@RequestMapping(\"/api\" class Foo {}"), SPAN),
        Err(SpringControllerParserError::AnnotationArgumentError {
            annotation: "@RequestMapping".to_string(),
            span: SPAN,
        })
    );
    assert_eq!(
        extract_mapping(&cs("@RequestMapping(\"/api) class Foo {}"), SPAN),
        Err(SpringControllerParserError::AnnotationArgumentError {
            annotation: "@RequestMapping".to_string(),
            span: SPAN,
        })
    );
}

#[test]
fn mapping_without_a_class_is_searched_in_the_whole_text() {
    assert_eq!(extract_mapping(&cs("x @RequestMapping(\"/a\")"), SPAN), Ok(Some("/a".to_string())));
}

#[test]
fn argument_values() {
    let t = cs("( \"/a\" )");
    assert_eq!(read_argument_value(&t, 0, t.len() - 1), Some("/a".to_string()));
    let t = cs("(\")");
    assert_eq!(read_argument_value(&t, 0, t.len() - 1), Some("\"".to_string()));
    let t = cs("(\"\")");
    assert_eq!(read_argument_value(&t, 0, t.len() - 1), Some("".to_string()));
    let t = cs("(\"a)");
    assert_eq!(read_argument_value(&t, 0, t.len() - 1), Some("\"a".to_string()));
    let t = cs("(a\")");
    assert_eq!(read_argument_value(&t, 0, t.len() - 1), Some("a\"".to_string()));
    let t = cs("(\" /a \")");
    assert_eq!(read_argument_value(&t, 0, t.len() - 1), Some(" /a ".to_string()));
    let t = cs("(\u{a0}\t\n)");
    assert_eq!(read_argument_value(&t, 0, t.len() - 1), None);
    let t = cs("()");
    assert_eq!(read_argument_value(&t, 0, 1), None);
    let t = cs("(_v=1)");
    assert_eq!(read_argument_value(&t, 0, t.len() - 1), None);
    let t = cs("(a + b)");
    assert_eq!(read_argument_value(&t, 0, t.len() - 1), Some("a + b".to_string()));
    let t = cs("(\"a\" = b)");
    assert_eq!(read_argument_value(&t, 0, t.len() - 1), Some("\"a\" = b".to_string()));
    let t = cs("(a) = b");
    assert_eq!(read_argument_value(&t, 0, 2), Some("a".to_string()));
}

fn value_of(list: &str) -> Option<String> {
    let t = cs(list);
    read_argument_value(&t, 0, t.len() - 1)
}

#[test]
fn named_argument_values() {
    assert_eq!(value_of("(path\n = \"/a\")"), Some("/a".to_string()));
    assert_eq!(value_of("( value=\"/a\" )"), Some("/a".to_string()));
    assert_eq!(value_of("(value = \"\")"), Some("".to_string()));
    assert_eq!(value_of("(value = \"a\\\"b\")"), Some("a\\\"b".to_string()));
    assert_eq!(value_of("(value = \"a)\")"), Some("a)".to_string()));
    assert_eq!(value_of("(value = \"/a\", method = RequestMethod.GET)"), None);
    assert_eq!(value_of("(value = \"/a\" + \"/b\")"), None);
    assert_eq!(value_of("(value = \"/a\", name = \"b\")"), None);
    assert_eq!(value_of("(value = {\"/a\"})"), None);
    assert_eq!(value_of("(value = CONST)"), None);
    assert_eq!(value_of("(value = \")"), None);
    assert_eq!(value_of("(value =)"), None);
    assert_eq!(value_of("(value = '/')"), None);
    assert_eq!(value_of("(name = \"/a\")"), None);
    assert_eq!(value_of("(values = \"/a\")"), None);
    assert_eq!(value_of("(Value = \"/a\")"), None);
    assert_eq!(value_of("(Path = \"/a\")"), None);
}

#[test]
fn headers() {
    let t = cs("  public void f()  {");
    assert_eq!(find_header(&t, 0, t.len() - 1), Some((2, 17)));
    let t = cs("\n\n  @A\n  void f()\n\n {");
    assert_eq!(find_header(&t, 0, t.len() - 1), Some((9, 17)));
    let t = cs("a\r\nb\r\n{");
    assert_eq!(find_header(&t, 0, t.len() - 1), Some((3, 4)));
    let t = cs("a\rb {");
    assert_eq!(find_header(&t, 0, t.len() - 1), Some((0, 3)));
    let t = cs(" \n \t {");
    assert_eq!(find_header(&t, 0, t.len() - 1), None);
    let t = cs("{");
    assert_eq!(find_header(&t, 0, 0), None);
    let t = cs("x\ny {");
    assert_eq!(find_header(&t, 2, t.len() - 1), Some((2, 3)));
}

#[test]
fn one_method() {
    let t = cs("  @GetMapping(\"/hi\") public String hi() { return \"hi\"; }");
    assert_eq!(
        extract_method(&t, MappingKind::Get, 2, SPAN),
        Ok((method("GetMapping", Some("/hi"), "public String hi()"), 41))
    );
    let t = cs("@PatchMapping\nvoid f()\n{}");
    assert_eq!(
        extract_method(&t, MappingKind::Patch, 0, SPAN),
        Ok((method("PatchMapping", None, "void f()"), 24))
    );
}

#[test]
fn one_method_fails() {
    let t = cs("@PostMapping(\"/x\") void f();");
    assert_eq!(
        extract_method(&t, MappingKind::Post, 0, SPAN),
        Err(SpringControllerParserError::MethodHeaderError {
            annotation: "@PostMapping".to_string(),
            span: SPAN,
        })
    );
    let t = cs("@PutMapping(\"/x\" void f() {}");
    assert_eq!(
        extract_method(&t, MappingKind::Put, 0, SPAN),
        Err(SpringControllerParserError::AnnotationArgumentError {
            annotation: "@PutMapping".to_string(),
            span: SPAN,
        })
    );
    let t = cs("@RequestMapping {}");
    assert_eq!(
        extract_method(&t, MappingKind::Request, 0, SPAN),
        Err(SpringControllerParserError::MethodHeaderError {
            annotation: "@RequestMapping".to_string(),
            span: SPAN,
        })
    );
    let t = cs("@DeleteMapping");
    assert_eq!(
        extract_method(&t, MappingKind::Delete, 0, SPAN),
        Err(SpringControllerParserError::MethodHeaderError {
            annotation: "@DeleteMapping".to_string(),
            span: SPAN,
        })
    );
}

#[test]
fn body_brace_is_outside_parentheses_and_literals() {
    let t = cs("@GetMapping(\"/x\")\n@ApiResponses({ @ApiResponse(code = 200) })\npublic String foo(@P({1}) int m) throws E {\n}");
    assert_eq!(
        extract_methods(&t, SPAN),
        Ok(vec![method("GetMapping", Some("/x"), "public String foo(@P({1}) int m) throws E")])
    );
    let t = cs("@GetMapping(\"/x\") @Doc(\"{\") @C('{') @D(\"\\\"{\") void f() {}");
    assert_eq!(
        extract_methods(&t, SPAN),
        Ok(vec![method("GetMapping", Some("/x"), "@Doc(\"{\") @C('{') @D(\"\\\"{\") void f()")])
    );
    let t = cs("@GetMapping(path = {\"/a\", \"/b\"}) void f() {}");
    assert_eq!(extract_methods(&t, SPAN), Ok(vec![method("GetMapping", None, "void f()")]));
    let t = cs("@GetMapping ) void f() {}");
    assert_eq!(extract_methods(&t, SPAN), Ok(vec![method("GetMapping", None, ") void f()")]));
    let t = cs("@GetMapping void f( {}");
    assert_eq!(
        extract_methods(&t, SPAN),
        Err(SpringControllerParserError::MethodHeaderError {
            annotation: "@GetMapping".to_string(),
            span: SPAN,
        })
    );
}

#[test]
fn methods_of_a_text_without_a_class() {
    let t = cs("@GetMapping(\"/a\") void a() {} @PostMapping(\"/b\") void b() {}");
    assert_eq!(
        extract_methods(&t, SPAN),
        Ok(vec![
            method("GetMapping", Some("/a"), "void a()"),
            method("PostMapping", Some("/b"), "void b()"),
        ])
    );
    assert_eq!(extract_methods(&cs(""), SPAN), Ok(vec![]));
    assert_eq!(extract_methods(&cs("void f() {}"), SPAN), Ok(vec![]));
}

#[test]
fn methods_are_looked_for_in_the_body_of_the_class() {
    let t = cs("@RequestMapping(\"/api\") @GetMapping(\"/odd\") class A { @PutMapping(\"/p\") void p() {} }");
    assert_eq!(extract_methods(&t, SPAN), Ok(vec![method("PutMapping", Some("/p"), "void p()")]));
    let t = cs("@GetMapping(\"/odd\") class A");
    assert_eq!(extract_methods(&t, SPAN), Ok(vec![]));
}

#[test]
fn controller_of_a_block() {
    let t = cs("@RestController\n@RequestMapping(\"/api\")\nclass A {\n  @GetMapping(\"/x\")\n  int x() { return 1; }\n}");
    assert_eq!(
        extract_controller(&t, SPAN),
        Ok(Controller {
            name: "A".to_string(),
            class_mapping: Some("/api".to_string()),
            methods: vec![method("GetMapping", Some("/x"), "int x()")],
        })
    );
}

#[test]
fn controller_annotation_may_have_an_argument() {
    let parsed = parse_controllers("@Controller(\"main\")\n@Validated\npublic class A { }").unwrap();
    assert_eq!(
        parsed,
        vec![Controller { name: "A".to_string(), class_mapping: None, methods: vec![] }]
    );
}

#[test]
fn controller_needs_its_annotation() {
    assert_eq!(
        extract_controller(&cs("class A { @GetMapping(\"/x\") int x() { return 1; } }"), SPAN),
        Err(SpringControllerParserError::NoControllersFound)
    );
    assert_eq!(
        extract_controller(&cs("@ControllerAdvice class A {}"), SPAN),
        Err(SpringControllerParserError::NoControllersFound)
    );
}

#[test]
fn controller_fails_with_the_first_failure() {
    assert_eq!(
        extract_controller(&cs("@Controller @RequestMapping( interface A"), SPAN),
        Err(SpringControllerParserError::ClassNameMissing { span: SPAN })
    );
    assert_eq!(
        extract_controller(&cs("@Controller @RequestMapping( class A { @GetMapping f(); }"), SPAN),
        Err(SpringControllerParserError::AnnotationArgumentError {
            annotation: "@RequestMapping".to_string(),
            span: SPAN,
        })
    );
    assert_eq!(
        extract_controller(&cs("@Controller class A { @GetMapping f(); @PutMapping( }"), SPAN),
        Err(SpringControllerParserError::MethodHeaderError {
            annotation: "@GetMapping".to_string(),
            span: SPAN,
        })
    );
}
