use oxidase::handler::{ParamPatternInfo, StripHandler};
use oxidase::patch::apply_patches;
use oxidase::scope::{ScopeType, Span};

fn sp(start: usize, end: usize) -> Span {
    Span::new(start, end)
}

fn finish(h: StripHandler, source: &str, expected: &str) {
    let patches = h.into_patches();
    let mut buf: Vec<u8> = source.as_bytes().to_vec();
    assert!(apply_patches(&patches, &mut buf, false));
    assert_eq!(String::from_utf8(buf).unwrap(), expected);
}

fn pos(source: &str, pat: &str) -> usize {
    source.find(pat).unwrap()
}

fn ident_pattern(id_start: usize, id_end: usize) -> ParamPatternInfo {
    ParamPatternInfo::Identifier {
        id_span: Span::new(id_start, id_end),
        optional_start: None,
        type_annotation_start: None,
    }
}

/// Replay the parser events of `class A { constructor(private a, readonly b) <body> }`.
fn two_prop_params(h: &mut StripHandler, source: &str) {
    h.enter_scope(ScopeType::Class);
    h.enter_scope(ScopeType::Other);
    let p = pos(source, "private");
    h.handle_formal_parameter_modifiers(sp(p, p + 7));
    h.handle_formal_parameter(true, ident_pattern(p + 8, p + 9));
    let r = pos(source, "readonly");
    h.handle_formal_parameter_modifiers(sp(r, r + 8));
    h.handle_formal_parameter(true, ident_pattern(r + 9, r + 10));
}

fn finish_ctor_class(mut h: StripHandler, source: &str, expected: &str) {
    let lparen = pos(source, "(private");
    let class_end = source.len();
    h.handle_method_definition(
        sp(pos(source, "constructor"), class_end - 2),
        sp(lparen, class_end - 2),
        true,
        Some(source.rfind('{').unwrap()),
    );
    h.handle_class_element(sp(pos(source, "constructor"), class_end - 2));
    h.handle_class_body(pos(source, "{"));
    h.handle_class(sp(0, class_end), false);
    h.leave_scope();
    h.handle_statement(sp(0, class_end), false);
    finish(h, source, expected);
}

#[test]
fn prop_param_empty_constructor() {
    let source = "class A { constructor(private a, readonly b) { } }";
    let mut h = StripHandler::new(source.as_bytes().to_vec());
    two_prop_params(&mut h, source);
    h.leave_scope();
    finish_ctor_class(
        h,
        source,
        "class A { a; b; constructor( a,  b) {this.a=a;this.b=b; } }",
    );
}

#[test]
fn prop_param_non_empty_constructor() {
    let source = "class A { constructor(private a, readonly b) { foo<T>(); } }";
    let mut h = StripHandler::new(source.as_bytes().to_vec());
    two_prop_params(&mut h, source);
    let t = pos(source, "<T>");
    h.handle_ts_type_parameter_instantiation(sp(t, t + 3));
    let f = pos(source, "foo");
    h.handle_call_expression(sp(f, f + 8), false);
    h.handle_expression_statement(sp(f, f + 9), true, sp(f, f + 8), false);
    h.handle_statement(sp(f, f + 9), false);
    h.leave_scope();
    finish_ctor_class(
        h,
        source,
        "class A { a; b; constructor( a,  b) {this.a=a;this.b=b; foo(); } }",
    );
}

#[test]
fn prop_param_super() {
    let source = "class A { constructor(private a, readonly b) { foo<T>(); super() } }";
    let mut h = StripHandler::new(source.as_bytes().to_vec());
    two_prop_params(&mut h, source);
    let t = pos(source, "<T>");
    h.handle_ts_type_parameter_instantiation(sp(t, t + 3));
    let f = pos(source, "foo");
    h.handle_call_expression(sp(f, f + 8), false);
    h.handle_expression_statement(sp(f, f + 9), true, sp(f, f + 8), false);
    h.handle_statement(sp(f, f + 9), false);
    let s = pos(source, "super");
    h.handle_call_expression(sp(s, s + 7), true);
    h.handle_expression_statement(sp(s, s + 7), true, sp(s, s + 7), false);
    h.handle_statement(sp(s, s + 7), false);
    h.leave_scope();
    finish_ctor_class(
        h,
        source,
        "class A { a; b; constructor( a,  b) { foo(); super();this.a=a;this.b=b; } }",
    );
}

#[test]
fn prop_param_super_semicolon() {
    let source = "class A { constructor(private a, readonly b) { foo<T>(); super(); } }";
    let mut h = StripHandler::new(source.as_bytes().to_vec());
    two_prop_params(&mut h, source);
    let t = pos(source, "<T>");
    h.handle_ts_type_parameter_instantiation(sp(t, t + 3));
    let f = pos(source, "foo");
    h.handle_call_expression(sp(f, f + 8), false);
    h.handle_expression_statement(sp(f, f + 9), true, sp(f, f + 8), false);
    h.handle_statement(sp(f, f + 9), false);
    let s = pos(source, "super");
    h.handle_call_expression(sp(s, s + 7), true);
    h.handle_expression_statement(sp(s, s + 8), true, sp(s, s + 7), false);
    h.handle_statement(sp(s, s + 8), false);
    h.leave_scope();
    finish_ctor_class(
        h,
        source,
        "class A { a; b; constructor( a,  b) { foo(); super();this.a=a;this.b=b; } }",
    );
}

#[test]
fn declare_class_with_codegen_inside() {
    let source = "declare class A { constructor(private a, readonly b) { } }";
    let mut h = StripHandler::new(source.as_bytes().to_vec());
    h.enter_scope(ScopeType::Class);
    h.enter_scope(ScopeType::Other);
    let p = pos(source, "private");
    h.handle_formal_parameter_modifiers(sp(p, p + 7));
    h.handle_formal_parameter(true, ident_pattern(p + 8, p + 9));
    let r = pos(source, "readonly");
    h.handle_formal_parameter_modifiers(sp(r, r + 8));
    h.handle_formal_parameter(true, ident_pattern(r + 9, r + 10));
    h.leave_scope();
    let lparen = pos(source, "(private");
    let ctor = pos(source, "constructor");
    h.handle_method_definition(
        sp(ctor, source.len() - 2),
        sp(lparen, source.len() - 2),
        true,
        Some(pos(source, "{ }")),
    );
    h.handle_class_element(sp(ctor, source.len() - 2));
    h.handle_class_body(pos(source, "{"));
    h.handle_class(sp(0, source.len()), true);
    h.leave_scope();
    h.handle_statement(sp(0, source.len()), false);
    finish(h, source, "");
}

#[test]
fn prop_param_with_type() {
    let source = "class X { a; constructor(a: number) { this.a = a; } }";
    let mut h = StripHandler::new(source.as_bytes().to_vec());
    h.enter_scope(ScopeType::Class);
    h.handle_property_definition(sp(10, 12), false);
    h.handle_class_element(sp(10, 12));
    h.enter_scope(ScopeType::Other);
    let c = pos(source, ": number");
    h.handle_ts_type_annotation(sp(c, c + 8));
    h.handle_formal_parameter(false, ident_pattern(c - 1, c));
    let a = pos(source, "this.a = a;");
    h.handle_expression_statement(sp(a, a + 11), false, sp(0, 0), false);
    h.handle_statement(sp(a, a + 11), false);
    h.leave_scope();
    let ctor = pos(source, "constructor");
    let lparen = pos(source, "(a:");
    h.handle_method_definition(
        sp(ctor, source.len() - 2),
        sp(lparen, source.len() - 2),
        true,
        Some(pos(source, "{ this")),
    );
    h.handle_class_element(sp(ctor, source.len() - 2));
    h.handle_class_body(8);
    h.handle_class(sp(0, source.len()), false);
    h.leave_scope();
    h.handle_statement(sp(0, source.len()), false);
    finish(h, source, "class X { a; constructor(a) { this.a = a; } }");
}

#[test]
fn prop_param_in_function_type() {
    let source = "class C1 { constructor(a: (public b) => void) {} }";
    let mut h = StripHandler::new(source.as_bytes().to_vec());
    h.enter_scope(ScopeType::Class);
    h.enter_scope(ScopeType::Other);
    let p = pos(source, "public");
    h.handle_formal_parameter_modifiers(sp(p, p + 6));
    h.handle_formal_parameter(true, ident_pattern(p + 7, p + 8));
    let ft = pos(source, "(public");
    h.handle_ts_function_type(ft);
    let ann = pos(source, ": (");
    h.handle_ts_type_annotation(sp(ann, pos(source, ") {")));
    h.leave_scope();
    let ctor = pos(source, "constructor");
    let lparen = pos(source, "(a:");
    h.handle_method_definition(
        sp(ctor, source.len() - 2),
        sp(lparen, source.len() - 2),
        true,
        Some(pos(source, "{}")),
    );
    h.handle_class_element(sp(ctor, source.len() - 2));
    h.handle_class_body(pos(source, "{"));
    h.handle_class(sp(0, source.len()), false);
    h.leave_scope();
    h.handle_statement(sp(0, source.len()), false);
    finish(h, source, "class C1 { constructor(a) {} }");
}

#[test]
fn prop_param_optional() {
    let source = "class A { constructor(public a?) {} }";
    let mut h = StripHandler::new(source.as_bytes().to_vec());
    h.enter_scope(ScopeType::Class);
    h.enter_scope(ScopeType::Other);
    let p = pos(source, "public");
    h.handle_formal_parameter_modifiers(sp(p, p + 6));
    h.handle_formal_parameter(
        true,
        ParamPatternInfo::Identifier {
            id_span: sp(p + 7, p + 8),
            optional_start: Some(p + 8),
            type_annotation_start: None,
        },
    );
    h.handle_ts_optional_mark(sp(p + 8, p + 9));
    h.leave_scope();
    let ctor = pos(source, "constructor");
    let lparen = pos(source, "(public");
    h.handle_method_definition(
        sp(ctor, source.len() - 2),
        sp(lparen, source.len() - 2),
        true,
        Some(pos(source, "{}")),
    );
    h.handle_class_element(sp(ctor, source.len() - 2));
    h.handle_class_body(8);
    h.handle_class(sp(0, source.len()), false);
    h.leave_scope();
    h.handle_statement(sp(0, source.len()), false);
    finish(h, source, "class A { a; constructor( a) {this.a=a;} }");
}

#[test]
fn prop_param_init() {
    let source = "class A { constructor(public a: string = 1) {} }";
    let mut h = StripHandler::new(source.as_bytes().to_vec());
    h.enter_scope(ScopeType::Class);
    h.enter_scope(ScopeType::Other);
    let p = pos(source, "public");
    h.handle_formal_parameter_modifiers(sp(p, p + 6));
    let ann = pos(source, ": string");
    h.handle_ts_type_annotation(sp(ann, ann + 8));
    h.handle_formal_parameter(
        true,
        ParamPatternInfo::Assignment { span: sp(p + 7, pos(source, ") {")) },
    );
    h.leave_scope();
    let ctor = pos(source, "constructor");
    let lparen = pos(source, "(public");
    h.handle_method_definition(
        sp(ctor, source.len() - 2),
        sp(lparen, source.len() - 2),
        true,
        Some(pos(source, "{}")),
    );
    h.handle_class_element(sp(ctor, source.len() - 2));
    h.handle_class_body(8);
    h.handle_class(sp(0, source.len()), false);
    h.leave_scope();
    h.handle_statement(sp(0, source.len()), false);
    finish(h, source, "class A { a; constructor( a = 1) {this.a=a;} }");
}

#[test]
fn export_import_eq() {
    let source = "class A { constructor(public a: string = 1) {} }";
    let mut h = StripHandler::new(source.as_bytes().to_vec());
    h.enter_scope(ScopeType::Class);
    h.enter_scope(ScopeType::Other);
    let p = pos(source, "public");
    h.handle_formal_parameter_modifiers(sp(p, p + 6));
    let ann = pos(source, ": string");
    h.handle_ts_type_annotation(sp(ann, ann + 8));
    h.handle_formal_parameter(
        true,
        ParamPatternInfo::Assignment { span: sp(p + 7, pos(source, ") {")) },
    );
    h.leave_scope();
    let ctor = pos(source, "constructor");
    let lparen = pos(source, "(public");
    h.handle_method_definition(
        sp(ctor, source.len() - 2),
        sp(lparen, source.len() - 2),
        true,
        Some(pos(source, "{}")),
    );
    h.handle_class_element(sp(ctor, source.len() - 2));
    h.handle_class_body(8);
    h.handle_class(sp(0, source.len()), false);
    h.leave_scope();
    h.handle_statement(sp(0, source.len()), false);
    finish(h, source, "class A { a; constructor( a = 1) {this.a=a;} }");
}

#[test]
fn prop_param_prologue() {
    let source = "class B { constructor(public arg) { \"a\"; alert(1) } }";
    let mut h = StripHandler::new(source.as_bytes().to_vec());
    h.enter_scope(ScopeType::Class);
    h.enter_scope(ScopeType::Other);
    let p = pos(source, "public");
    h.handle_formal_parameter_modifiers(sp(p, p + 6));
    h.handle_formal_parameter(true, ident_pattern(p + 7, p + 10));
    let d = pos(source, "\"a\";");
    h.handle_expression_statement(sp(d, d + 4), false, sp(0, 0), true);
    h.handle_statement(sp(d, d + 4), false);
    let al = pos(source, "alert");
    h.handle_call_expression(sp(al, al + 8), false);
    h.handle_expression_statement(sp(al, al + 8), true, sp(al, al + 8), false);
    h.handle_statement(sp(al, al + 8), false);
    h.leave_scope();
    let ctor = pos(source, "constructor");
    let lparen = pos(source, "(public");
    h.handle_method_definition(
        sp(ctor, source.len() - 2),
        sp(lparen, source.len() - 2),
        true,
        Some(pos(source, "{ \"a\"")),
    );
    h.handle_class_element(sp(ctor, source.len() - 2));
    h.handle_class_body(8);
    h.handle_class(sp(0, source.len()), false);
    h.leave_scope();
    h.handle_statement(sp(0, source.len()), false);
    finish(
        h,
        source,
        "class B { arg; constructor( arg) { \"a\";this.arg=arg; alert(1) } }",
    );
}
