use oxidase::handler::StripHandler;
use oxidase::patch::apply_patches;
use oxidase::scope::{ScopeType, Span};

fn sp(start: usize, end: usize) -> Span {
    Span::new(start, end)
}

fn finish(h: StripHandler, source: &str, expected: &str) {
    let patches = h.into_patches();
    let mut buf: Vec<u8> = source.as_bytes().to_vec();
    assert!(apply_patches(&patches, &mut buf, false));
    assert_eq!(String::from_utf8(buf).unwrap(), expected);
}

fn pos(source: &str, pat: &str) -> usize {
    source.find(pat).unwrap()
}

#[test]
fn stmt_asi() {
    let source = "a\ninterface A {}\n/a/";
    let mut h = StripHandler::new(source.as_bytes().to_vec());
    h.handle_statement(sp(0, 1), false);
    h.handle_ts_interface_declaration(sp(2, 16));
    h.handle_statement(sp(2, 16), false);
    h.handle_statement(sp(17, 20), false);
    finish(h, source, "a\n;\n/a/");
}

#[test]
fn stmt_asi_first() {
    let source = "a; () => {\ninterface A {}\n/a/}";
    let mut h = StripHandler::new(source.as_bytes().to_vec());
    h.handle_statement(sp(0, 2), false);
    h.enter_scope(ScopeType::Other);
    let i = pos(source, "interface");
    h.handle_ts_interface_declaration(sp(i, i + 14));
    h.handle_statement(sp(i, i + 14), false);
    let a = pos(source, "/a/");
    h.handle_statement(sp(a, a + 3), false);
    h.leave_scope();
    h.handle_arrow_function_expression(None, sp(3, 5), None);
    h.handle_expression_statement(sp(3, 30), false, sp(0, 0), false);
    h.handle_statement(sp(3, 30), false);
    finish(h, source, "a; () => {\n\n/a/}");
}

#[test]
fn stmt_postfix_asi() {
    let source = "var a = x as X\n(1)";
    let mut h = StripHandler::new(source.as_bytes().to_vec());
    h.handle_ts_as_expression(9, 14);
    h.handle_statement(sp(0, 14), false);
    h.handle_statement(sp(15, 18), false);
    finish(h, source, "var a = x;\n(1)");
}

#[test]
fn stmt_inner_postfix_asi() {
    let source = "var a = () => x as X\n(1)";
    let mut h = StripHandler::new(source.as_bytes().to_vec());
    h.enter_scope(ScopeType::Other);
    h.handle_ts_as_expression(15, 20);
    h.leave_scope();
    h.handle_arrow_function_expression(None, sp(8, 10), None);
    h.handle_statement(sp(0, 20), false);
    h.handle_statement(sp(21, 24), false);
    finish(h, source, "var a = () => x;\n(1)");
}

#[test]
fn arrow_expression_no_asi() {
    let source = "f(() => 1)";
    let mut h = StripHandler::new(source.as_bytes().to_vec());
    h.enter_scope(ScopeType::Other);
    h.leave_scope();
    h.handle_arrow_function_expression(None, sp(2, 4), None);
    h.handle_call_expression(sp(0, 10), false);
    h.handle_expression_statement(sp(0, 10), true, sp(0, 10), false);
    h.handle_statement(sp(0, 10), false);
    finish(h, source, "f(() => 1)");
}

#[test]
fn if_asi1() {
    let source = "if (1) type A = string";
    let mut h = StripHandler::new(source.as_bytes().to_vec());
    h.handle_ts_type_alias_declaration(sp(7, 22));
    h.handle_statement(sp(7, 22), false);
    h.handle_if_statement(sp(7, 22), None);
    h.handle_statement(sp(0, 22), false);
    finish(h, source, "if (1) ;");
}

#[test]
fn if_asi2() {
    let source = "if (1) type A = string\nelse { type A = string }";
    let mut h = StripHandler::new(source.as_bytes().to_vec());
    h.handle_ts_type_alias_declaration(sp(7, 22));
    h.handle_statement(sp(7, 22), false);
    h.enter_scope(ScopeType::Other);
    h.handle_ts_type_alias_declaration(sp(30, 45));
    h.handle_statement(sp(30, 45), false);
    h.leave_scope();
    h.handle_if_statement(sp(7, 22), Some(sp(28, 47)));
    h.handle_statement(sp(0, 47), false);
    finish(h, source, "if (1) ;\nelse {  }");
}

#[test]
fn if_asi3() {
    let source = "if (1) type A = string\nelse type A = string";
    let mut h = StripHandler::new(source.as_bytes().to_vec());
    h.handle_ts_type_alias_declaration(sp(7, 22));
    h.handle_statement(sp(7, 22), false);
    h.handle_ts_type_alias_declaration(sp(28, 43));
    h.handle_statement(sp(28, 43), false);
    h.handle_if_statement(sp(7, 22), Some(sp(28, 43)));
    h.handle_statement(sp(0, 43), false);
    finish(h, source, "if (1) ;\nelse ;");
}

#[test]
fn if_asi4() {
    let source = "if (1) {} else type A = string";
    let mut h = StripHandler::new(source.as_bytes().to_vec());
    h.enter_scope(ScopeType::Other);
    h.leave_scope();
    h.handle_ts_type_alias_declaration(sp(15, 30));
    h.handle_statement(sp(15, 30), false);
    h.handle_if_statement(sp(7, 9), Some(sp(15, 30)));
    h.handle_statement(sp(0, 30), false);
    finish(h, source, "if (1) {} else ;");
}

#[test]
fn while_asi() {
    let source = "while (1) type A = string";
    let mut h = StripHandler::new(source.as_bytes().to_vec());
    h.handle_ts_type_alias_declaration(sp(10, 25));
    h.handle_statement(sp(10, 25), false);
    h.handle_while_statement(sp(10, 25));
    h.handle_statement(sp(0, 25), false);
    finish(h, source, "while (1) ;");
}

#[test]
fn for_asi() {
    let source = "for (;;) type A = string";
    let mut h = StripHandler::new(source.as_bytes().to_vec());
    h.handle_ts_type_alias_declaration(sp(9, 24));
    h.handle_statement(sp(9, 24), false);
    h.handle_for_statement(sp(9, 24));
    h.handle_statement(sp(0, 24), false);
    finish(h, source, "for (;;) ;");
}

#[test]
fn for_in_asi() {
    let source = "for (var a in {}) type A = string";
    let mut h = StripHandler::new(source.as_bytes().to_vec());
    h.handle_binding_identifier(sp(9, 10));
    h.handle_ts_type_alias_declaration(sp(18, 33));
    h.handle_statement(sp(18, 33), false);
    h.handle_for_in_statement(sp(18, 33));
    h.handle_statement(sp(0, 33), false);
    finish(h, source, "for (var a in {}) ;");
}

#[test]
fn for_of_asi() {
    let source = "for (var a of []) type A = string";
    let mut h = StripHandler::new(source.as_bytes().to_vec());
    h.handle_binding_identifier(sp(9, 10));
    h.handle_ts_type_alias_declaration(sp(18, 33));
    h.handle_statement(sp(18, 33), false);
    h.handle_for_of_statement(sp(18, 33));
    h.handle_statement(sp(0, 33), false);
    finish(h, source, "for (var a of []) ;");
}

fn element_modifiers(
    has_abstract: bool,
    has_accessibility: bool,
) -> oxidase::handler::ClassElementModifiers {
    oxidase::handler::ClassElementModifiers {
        has_abstract,
        has_declare: false,
        has_override: false,
        has_readonly: false,
        has_accessibility,
        has_static: false,
        has_async: false,
        has_accessor: false,
    }
}

#[test]
fn class_element_asi() {
    let source = r#"
class A {
    a = 1
    abstract b
    ['c'](){}
}"#;
    let mut h = StripHandler::new(source.as_bytes().to_vec());
    h.enter_scope(ScopeType::Class);
    let a1 = pos(source, "a = 1");
    h.handle_property_definition(sp(a1, a1 + 5), false);
    h.handle_class_element(sp(a1, a1 + 5));
    let ab = pos(source, "abstract");
    h.handle_class_element_modifiers(sp(ab, ab + 9), element_modifiers(true, false));
    h.handle_property_definition(sp(ab, ab + 10), true);
    h.handle_class_element(sp(ab, ab + 10));
    let c = pos(source, "['c']");
    h.enter_scope(ScopeType::Other);
    h.leave_scope();
    h.handle_method_definition(sp(c, c + 9), sp(c + 5, c + 9), false, Some(c + 7));
    h.handle_class_element(sp(c, c + 9));
    h.handle_class_body(pos(source, "{"));
    h.handle_class(sp(1, source.len()), false);
    h.leave_scope();
    h.handle_statement(sp(1, source.len()), false);
    finish(
        h,
        source,
        r#"
class A {
    a = 1
    ;
    ['c'](){}
}"#,
    );
}

#[test]
fn modifier_computed_prop_asi() {
    let source = r#"
class A {
    a = 1
    private ['c'](){}
}"#;
    let mut h = StripHandler::new(source.as_bytes().to_vec());
    h.enter_scope(ScopeType::Class);
    let a1 = pos(source, "a = 1");
    h.handle_property_definition(sp(a1, a1 + 5), false);
    h.handle_class_element(sp(a1, a1 + 5));
    let p = pos(source, "private");
    h.handle_class_element_modifiers(sp(p, p + 8), element_modifiers(false, true));
    let c = pos(source, "['c']");
    h.enter_scope(ScopeType::Other);
    h.leave_scope();
    h.handle_method_definition(sp(p, c + 9), sp(c + 5, c + 9), false, Some(c + 7));
    h.handle_class_element(sp(p, c + 9));
    h.handle_class_body(pos(source, "{"));
    h.handle_class(sp(1, source.len()), false);
    h.leave_scope();
    h.handle_statement(sp(1, source.len()), false);
    finish(
        h,
        source,
        r#"
class A {
    a = 1
    ;['c'](){}
}"#,
    );
}

#[test]
fn modifier_generator_asi() {
    let source = r#"
class A {
    a = 1
    private *c(){}
}"#;
    let mut h = StripHandler::new(source.as_bytes().to_vec());
    h.enter_scope(ScopeType::Class);
    let a1 = pos(source, "a = 1");
    h.handle_property_definition(sp(a1, a1 + 5), false);
    h.handle_class_element(sp(a1, a1 + 5));
    let p = pos(source, "private");
    h.handle_class_element_modifiers(sp(p, p + 8), element_modifiers(false, true));
    let c = pos(source, "*c()");
    h.enter_scope(ScopeType::Other);
    h.leave_scope();
    h.handle_method_definition(sp(p, c + 6), sp(c + 2, c + 6), false, Some(c + 4));
    h.handle_class_element(sp(p, c + 6));
    h.handle_class_body(pos(source, "{"));
    h.handle_class(sp(1, source.len()), false);
    h.leave_scope();
    h.handle_statement(sp(1, source.len()), false);
    finish(
        h,
        source,
        r#"
class A {
    a = 1
    ;*c(){}
}"#,
    );
}
