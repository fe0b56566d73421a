use oxidase::handler::{ClassElementModifiers, ParamPatternInfo, StripHandler};
use oxidase::patch::apply_patches;
use oxidase::scope::{ScopeType, Span};

fn sp(start: usize, end: usize) -> Span {
    Span::new(start, end)
}

fn finish(h: StripHandler, source: &str, expected: &str) {
    let patches = h.into_patches();
    let mut buf: Vec<u8> = source.as_bytes().to_vec();
    assert!(apply_patches(&patches, &mut buf, false));
    assert_eq!(String::from_utf8(buf).unwrap(), expected);
}

fn pos(source: &str, pat: &str) -> usize {
    source.find(pat).unwrap()
}

fn no_modifiers() -> ClassElementModifiers {
    ClassElementModifiers {
        has_abstract: false,
        has_declare: false,
        has_override: false,
        has_readonly: false,
        has_accessibility: false,
        has_static: false,
        has_async: false,
        has_accessor: false,
    }
}

#[test]
fn strip_stmt() {
    let source = "a;interface X{} b;declare function x();c";
    let mut h = StripHandler::new(source.as_bytes().to_vec());
    h.handle_statement(sp(0, 2), false);
    h.handle_ts_interface_declaration(sp(2, 15));
    h.handle_statement(sp(2, 15), false);
    h.handle_statement(sp(16, 18), false);
    h.enter_scope(ScopeType::Other);
    h.leave_scope();
    h.handle_function(sp(18, 39), true, false);
    h.handle_statement(sp(18, 39), false);
    h.handle_statement(sp(39, 40), false);
    finish(h, source, "a; b;c");
}

#[test]
fn strip_type_alias() {
    let source = "type A = string";
    let mut h = StripHandler::new(source.as_bytes().to_vec());
    h.handle_ts_type_alias_declaration(sp(0, 15));
    h.handle_statement(sp(0, 15), false);
    finish(h, source, "");
}

#[test]
fn strip_export_stripped_decl() {
    let source = "export type A = string";
    let mut h = StripHandler::new(source.as_bytes().to_vec());
    h.handle_ts_type_alias_declaration(sp(7, 22));
    h.handle_export_named_declaration(sp(0, 22), false, Some(sp(7, 22)), false);
    h.handle_statement(sp(0, 22), true);
    finish(h, source, "");
}

#[test]
fn strip_stripped_decl_asi() {
    let source = "var a = 1\nexport type A = string\n/a/.test()";
    let mut h = StripHandler::new(source.as_bytes().to_vec());
    h.handle_statement(sp(0, 9), false);
    h.handle_ts_type_alias_declaration(sp(17, 32));
    h.handle_export_named_declaration(sp(10, 32), false, Some(sp(17, 32)), false);
    h.handle_statement(sp(10, 32), true);
    h.handle_statement(sp(33, 43), false);
    finish(h, source, "var a = 1\n;\n/a/.test()");
}

#[test]
fn strip_import_eq() {
    let source = "import x = require('a')";
    let mut h = StripHandler::new(source.as_bytes().to_vec());
    h.handle_ts_import_equals_declaration(sp(0, 23), false, 7, true);
    h.handle_statement(sp(0, 23), false);
    finish(h, source, "const x = require('a')");
}

#[test]
fn strip_export_eq() {
    let source = "var x = 1 as string; export = x as string;";
    let mut h = StripHandler::new(source.as_bytes().to_vec());
    h.handle_ts_as_expression(9, 19);
    h.handle_statement(sp(0, 20), false);
    h.handle_ts_as_expression(31, 41);
    h.handle_ts_export_assignment(21, 30);
    h.handle_statement(sp(21, 42), false);
    finish(h, source, "var x = 1; module.exports = x;");
}

#[test]
fn strip_declare_function_with_type_annotation() {
    let source = "declare function x(a: string): string";
    let mut h = StripHandler::new(source.as_bytes().to_vec());
    h.enter_scope(ScopeType::Other);
    h.handle_ts_type_annotation(sp(20, 28));
    h.handle_ts_type_annotation(sp(29, 37));
    h.leave_scope();
    h.handle_function(sp(0, 37), true, false);
    h.handle_statement(sp(0, 37), false);
    finish(h, source, "");
}

#[test]
fn strip_rewind() {
    let source = "(foo<((a: string) => string), 1 + 1>(1))";
    let mut h = StripHandler::new(source.as_bytes().to_vec());
    // speculative parse of `foo<...>` as type arguments, then rewind
    let cp = h.checkpoint();
    h.handle_ts_type_annotation(sp(8, 16));
    h.handle_ts_type_parameter_instantiation(sp(4, 36));
    h.rewind(cp);
    // the real parse: a comparison against an arrow function
    h.enter_scope(ScopeType::Other);
    h.handle_ts_type_annotation(sp(8, 16));
    h.leave_scope();
    h.handle_arrow_function_expression(None, sp(6, 17), None);
    h.handle_statement(sp(0, 40), false);
    finish(h, source, "(foo<((a) => string), 1 + 1>(1))");
}

#[test]
fn strip_type_annotation() {
    let source = "var a: number = 0; function b(x: string): void {}";
    let mut h = StripHandler::new(source.as_bytes().to_vec());
    h.handle_ts_type_annotation(sp(5, 13));
    h.handle_statement(sp(0, 18), false);
    h.enter_scope(ScopeType::Other);
    h.handle_ts_type_annotation(sp(31, 39));
    h.handle_ts_type_annotation(sp(40, 46));
    h.leave_scope();
    h.handle_function(sp(19, 49), false, true);
    h.handle_statement(sp(19, 49), false);
    finish(h, source, "var a = 0; function b(x) {}");
}

#[test]
fn strip_type_param() {
    let source = "a<string>(); function a<T>() {}";
    let mut h = StripHandler::new(source.as_bytes().to_vec());
    h.handle_ts_type_parameter_instantiation(sp(1, 9));
    h.handle_call_expression(sp(0, 11), false);
    h.handle_expression_statement(sp(0, 12), true, sp(0, 11), false);
    h.handle_statement(sp(0, 12), false);
    h.enter_scope(ScopeType::Other);
    h.handle_ts_type_parameter_declaration(sp(23, 26));
    h.leave_scope();
    h.handle_function(sp(13, 31), false, true);
    h.handle_statement(sp(13, 31), false);
    finish(h, source, "a(); function a() {}");
}

#[test]
fn strip_type_force_cast() {
    let source = "1 as A;2 satisfies B;";
    let mut h = StripHandler::new(source.as_bytes().to_vec());
    h.handle_ts_as_expression(1, 6);
    h.handle_statement(sp(0, 7), false);
    h.handle_ts_satisfies_expression(8, 20);
    h.handle_statement(sp(7, 21), false);
    finish(h, source, "1;2;");
}

#[test]
fn strip_import_export_type_specifier() {
}

#[test]
fn strip_type_assertion() {
    // The wrapping rule is uniform: the erased `<number>` becomes `(` and a
    // matching `)` closes the assertion expression.
    let source = "var a = <number>1";
    let mut h = StripHandler::new(source.as_bytes().to_vec());
    h.handle_ts_type_assertion_annotation(sp(8, 16));
    h.handle_ts_type_assertion(17);
    h.handle_statement(sp(0, 17), false);
    finish(h, source, "var a = (1)");
}

#[test]
fn strip_class_abstract_basic() {
    let source = "abstract class A {}";
    let mut h = StripHandler::new(source.as_bytes().to_vec());
    h.handle_class_modifiers(sp(0, 9), true);
    h.enter_scope(ScopeType::Class);
    h.handle_class_body(17);
    h.handle_class(sp(0, 19), false);
    h.leave_scope();
    h.handle_statement(sp(0, 19), false);
    finish(h, source, "class A {}");
}

#[test]
fn strip_class_abstract_complex() {
    let source = "@foo\nexport abstract class A {}";
    let mut h = StripHandler::new(source.as_bytes().to_vec());
    let a = pos(source, "abstract");
    h.handle_class_modifiers(sp(a, a + 9), true);
    h.enter_scope(ScopeType::Class);
    h.handle_class_body(pos(source, "{}"));
    h.handle_class(sp(0, source.len()), false);
    h.leave_scope();
    h.handle_export_named_declaration(
        sp(5, source.len()),
        false,
        Some(sp(0, source.len())),
        false,
    );
    h.handle_statement(sp(0, source.len()), false);
    finish(h, source, "@foo\nexport class A {}");
}

#[test]
fn strip_this_paramater() {
    let source = "function a(this: A) {}";
    let mut h = StripHandler::new(source.as_bytes().to_vec());
    h.enter_scope(ScopeType::Other);
    h.handle_ts_type_annotation(sp(15, 18));
    h.handle_ts_this_parameter(sp(11, 18));
    h.leave_scope();
    h.handle_function(sp(0, 22), false, true);
    h.handle_statement(sp(0, 22), false);
    finish(h, source, "function a() {}");
}

#[test]
fn strip_this_paramater_comma() {
    let source = "function a(this: A  ,) {}";
    let mut h = StripHandler::new(source.as_bytes().to_vec());
    h.enter_scope(ScopeType::Other);
    h.handle_ts_type_annotation(sp(15, 18));
    h.handle_ts_this_parameter(sp(11, 21));
    h.leave_scope();
    h.handle_function(sp(0, 25), false, true);
    h.handle_statement(sp(0, 25), false);
    finish(h, source, "function a() {}");
}

#[test]
fn strip_property_modifiers() {
    let source = "class A { private readonly a; }";
    let mut h = StripHandler::new(source.as_bytes().to_vec());
    h.enter_scope(ScopeType::Class);
    let mut m = no_modifiers();
    m.has_accessibility = true;
    m.has_readonly = true;
    h.handle_class_element_modifiers(sp(10, 27), m);
    h.handle_property_definition(sp(10, 29), false);
    h.handle_class_element(sp(10, 29));
    h.handle_class_body(8);
    h.handle_class(sp(0, 31), false);
    h.leave_scope();
    h.handle_statement(sp(0, 31), false);
    finish(h, source, "class A { a; }");
}

#[test]
fn strip_property_optional() {
    let source = "class A { a? }";
    let mut h = StripHandler::new(source.as_bytes().to_vec());
    h.enter_scope(ScopeType::Class);
    h.handle_ts_optional_mark(sp(11, 12));
    h.handle_property_definition(sp(10, 12), false);
    h.handle_class_element(sp(10, 12));
    h.handle_class_body(8);
    h.handle_class(sp(0, 14), false);
    h.leave_scope();
    h.handle_statement(sp(0, 14), false);
    finish(h, source, "class A { a }");
}

#[test]
fn strip_method_modifiers() {
    let source = "class A { private async abstract static a() { } }";
    let mut h = StripHandler::new(source.as_bytes().to_vec());
    h.enter_scope(ScopeType::Class);
    let mut m = no_modifiers();
    m.has_accessibility = true;
    m.has_async = true;
    m.has_abstract = true;
    m.has_static = true;
    h.handle_class_element_modifiers(sp(10, 40), m);
    h.enter_scope(ScopeType::Other);
    h.leave_scope();
    h.handle_method_definition(sp(10, 47), sp(41, 47), false, Some(44));
    h.handle_class_element(sp(10, 47));
    h.handle_class_body(8);
    h.handle_class(sp(0, 49), false);
    h.leave_scope();
    h.handle_statement(sp(0, 49), false);
    finish(h, source, "class A { static async a() { } }");
}

#[test]
fn strip_import_type_single() {
    let source = "import { type A } from 'a'";
    let mut h = StripHandler::new(source.as_bytes().to_vec());
    h.handle_import_specifier(sp(9, 16), true);
    h.handle_import_declaration(sp(0, 26), false);
    h.handle_statement(sp(0, 26), false);
    finish(h, source, "import { } from 'a'");
}

#[test]
fn strip_import_type_trailing_comma() {
    let source = "import { A, type A, } from 'a'";
    let mut h = StripHandler::new(source.as_bytes().to_vec());
    h.handle_import_specifier(sp(9, 10), false);
    h.handle_import_specifier(sp(12, 20), true);
    h.handle_import_declaration(sp(0, 30), false);
    h.handle_statement(sp(0, 30), false);
    finish(h, source, "import { A, } from 'a'");
}

#[test]
fn strip_import_type_first() {
    let source = "import { type A, B } from 'a'";
    let mut h = StripHandler::new(source.as_bytes().to_vec());
    h.handle_import_specifier(sp(9, 17), true);
    h.handle_import_specifier(sp(17, 18), false);
    h.handle_import_declaration(sp(0, 29), false);
    h.handle_statement(sp(0, 29), false);
    finish(h, source, "import { B } from 'a'");
}

#[test]
fn strip_import_type_successive() {
    let source = "import { type B, type A, } from 'a'";
    let mut h = StripHandler::new(source.as_bytes().to_vec());
    h.handle_import_specifier(sp(9, 17), true);
    h.handle_import_specifier(sp(17, 25), true);
    h.handle_import_declaration(sp(0, 35), false);
    h.handle_statement(sp(0, 35), false);
    finish(h, source, "import { } from 'a'");
}

#[test]
fn strip_index_signature_with_modifiers() {
    let source = "class A { static [a: string]: string }";
    let mut h = StripHandler::new(source.as_bytes().to_vec());
    h.enter_scope(ScopeType::Class);
    let mut m = no_modifiers();
    m.has_static = true;
    h.handle_class_element_modifiers(sp(10, 17), m);
    h.handle_ts_type_annotation(sp(19, 27));
    h.handle_ts_type_annotation(sp(28, 36));
    h.handle_ts_index_signature(sp(10, 36));
    h.handle_class_element(sp(10, 36));
    h.handle_class_body(8);
    h.handle_class(sp(0, 38), false);
    h.leave_scope();
    h.handle_statement(sp(0, 38), false);
    finish(h, source, "class A {  }");
}

#[test]
fn strip_var_definite() {
    let source = "var a! = null";
    let mut h = StripHandler::new(source.as_bytes().to_vec());
    h.handle_ts_definite_mark(sp(5, 6));
    h.handle_statement(sp(0, 13), false);
    finish(h, source, "var a = null");
}

#[test]
fn strip_expr_definite() {
    let source = "var a = null!;";
    let mut h = StripHandler::new(source.as_bytes().to_vec());
    h.handle_ts_definite_mark(sp(12, 13));
    h.handle_statement(sp(0, 14), false);
    finish(h, source, "var a = null;");
}

#[test]
fn strip_class_implements() {
    let source = "class A implements B, C { }";
    let mut h = StripHandler::new(source.as_bytes().to_vec());
    h.handle_ts_class_implements(sp(8, 24));
    h.enter_scope(ScopeType::Class);
    h.handle_class_body(24);
    h.handle_class(sp(0, 27), false);
    h.leave_scope();
    h.handle_statement(sp(0, 27), false);
    finish(h, source, "class A { }");
}

#[test]
fn strip_method_overload() {
    let source = "class A { a() }";
    let mut h = StripHandler::new(source.as_bytes().to_vec());
    h.enter_scope(ScopeType::Class);
    h.enter_scope(ScopeType::Other);
    h.leave_scope();
    h.handle_function(sp(11, 13), false, false);
    h.handle_method_definition(sp(10, 13), sp(11, 13), false, None);
    h.handle_class_element(sp(10, 13));
    h.handle_class_body(8);
    h.handle_class(sp(0, 15), false);
    h.leave_scope();
    h.handle_statement(sp(0, 15), false);
    finish(h, source, "class A {  }");
}

#[test]
fn strip_abstract_prop() {
    let source = "class A { abstract a: string }";
    let mut h = StripHandler::new(source.as_bytes().to_vec());
    h.enter_scope(ScopeType::Class);
    let mut m = no_modifiers();
    m.has_abstract = true;
    h.handle_class_element_modifiers(sp(10, 19), m);
    h.handle_ts_type_annotation(sp(20, 28));
    h.handle_property_definition(sp(10, 28), true);
    h.handle_class_element(sp(10, 28));
    h.handle_class_body(8);
    h.handle_class(sp(0, 30), false);
    h.leave_scope();
    h.handle_statement(sp(0, 30), false);
    finish(h, source, "class A {  }");
}

#[test]
fn strip_abstract_accessor() {
    let source = "class A { abstract accessor a: string }";
    let mut h = StripHandler::new(source.as_bytes().to_vec());
    h.enter_scope(ScopeType::Class);
    let mut m = no_modifiers();
    m.has_abstract = true;
    m.has_accessor = true;
    h.handle_class_element_modifiers(sp(10, 28), m);
    h.handle_ts_type_annotation(sp(29, 37));
    h.handle_accessor_property(sp(10, 37), true);
    h.handle_class_element(sp(10, 37));
    h.handle_class_body(8);
    h.handle_class(sp(0, 39), false);
    h.leave_scope();
    h.handle_statement(sp(0, 39), false);
    finish(h, source, "class A {  }");
}

#[test]
fn strip_accessor_modifier() {
    let source = "class Z { private accessor a; }";
    let mut h = StripHandler::new(source.as_bytes().to_vec());
    h.enter_scope(ScopeType::Class);
    let mut m = no_modifiers();
    m.has_accessibility = true;
    m.has_accessor = true;
    h.handle_class_element_modifiers(sp(10, 27), m);
    h.handle_accessor_property(sp(10, 29), false);
    h.handle_class_element(sp(10, 29));
    h.handle_class_body(8);
    h.handle_class(sp(0, 31), false);
    h.leave_scope();
    h.handle_statement(sp(0, 31), false);
    finish(h, source, "class Z { accessor a; }");
}

#[test]
fn strip_getter_modifier() {
    let source = "class Z { private get a() {} }";
    let mut h = StripHandler::new(source.as_bytes().to_vec());
    h.enter_scope(ScopeType::Class);
    let mut m = no_modifiers();
    m.has_accessibility = true;
    h.handle_class_element_modifiers(sp(10, 18), m);
    h.enter_scope(ScopeType::Other);
    h.leave_scope();
    h.handle_method_definition(sp(10, 28), sp(23, 28), false, Some(26));
    h.handle_class_element(sp(10, 28));
    h.handle_class_body(8);
    h.handle_class(sp(0, 30), false);
    h.leave_scope();
    h.handle_statement(sp(0, 30), false);
    finish(h, source, "class Z { get a() {} }");
}

#[test]
fn strip_function_overload() {
    let source = "function a()";
    let mut h = StripHandler::new(source.as_bytes().to_vec());
    h.enter_scope(ScopeType::Other);
    h.leave_scope();
    h.handle_function(sp(0, 12), false, false);
    h.handle_statement(sp(0, 12), false);
    finish(h, source, "");
}

#[test]
fn strip_export_decl() {
    let source = "export function a()";
    let mut h = StripHandler::new(source.as_bytes().to_vec());
    h.enter_scope(ScopeType::Other);
    h.leave_scope();
    h.handle_function(sp(7, 19), false, false);
    h.handle_export_named_declaration(sp(0, 19), false, Some(sp(7, 19)), false);
    h.handle_statement(sp(0, 19), true);
    finish(h, source, "");
}

#[test]
fn strip_export_default_decl() {
    let source = "export default function a()";
    let mut h = StripHandler::new(source.as_bytes().to_vec());
    h.enter_scope(ScopeType::Other);
    h.leave_scope();
    h.handle_function(sp(15, 27), false, false);
    h.handle_export_default_declaration(sp(0, 27), sp(15, 27));
    h.handle_statement(sp(0, 27), false);
    finish(h, source, "");
}

#[test]
fn wrap_object_with_type_assertion_after_arrow() {
    let source = "() => <Type>{ a: 1 }";
    let mut h = StripHandler::new(source.as_bytes().to_vec());
    h.enter_scope(ScopeType::Other);
    h.handle_ts_type_assertion_annotation(sp(6, 12));
    h.handle_ts_type_assertion(20);
    h.leave_scope();
    h.handle_arrow_function_expression(None, sp(0, 2), None);
    h.handle_statement(sp(0, 20), false);
    finish(h, source, "() => ({ a: 1 })");
}

// keep the unused parameter-pattern import exercised alongside the suite
#[test]
fn strip_param_pattern_other_records_nothing() {
    let source = "class A { constructor(public [a]) {} }";
    let mut h = StripHandler::new(source.as_bytes().to_vec());
    h.enter_scope(ScopeType::Class);
    h.enter_scope(ScopeType::Other);
    let p = pos(source, "public");
    h.handle_formal_parameter_modifiers(sp(p, p + 6));
    h.handle_formal_parameter(true, ParamPatternInfo::OtherPattern);
    h.leave_scope();
    let v = pos(source, "(public");
    h.handle_method_definition(sp(10, 36), sp(v, 36), true, Some(pos(source, "{}")));
    h.handle_class_element(sp(10, 36));
    h.handle_class_body(8);
    h.handle_class(sp(0, source.len()), false);
    h.leave_scope();
    h.handle_statement(sp(0, source.len()), false);
    finish(h, source, "class A { constructor( [a]) {} }");
}
