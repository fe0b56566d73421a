use oxidase::handler::{EnumMemberNameInfo, ModuleNameInfo, StripHandler};
use oxidase::ident::is_identifier_name;
use oxidase::line_term::{contains_line_terminators, line_terminator_start_iter};
use oxidase::patch::{apply_patches, Patch};
use oxidase::patch_builder::PatchBuilder;
use oxidase::scope::{ScopeType, Span};

fn sp(start: usize, end: usize) -> Span {
    Span::new(start, end)
}

fn patch(start: usize, end: usize, replacement: &str) -> Patch {
    Patch { start, end, replacement: replacement.as_bytes().to_vec() }
}

fn apply(patches: Vec<Patch>, source: &str, blank: bool) -> String {
    let mut buf: Vec<u8> = source.as_bytes().to_vec();
    assert!(apply_patches(&patches, &mut buf, blank));
    String::from_utf8(buf).unwrap()
}

fn finish(h: StripHandler, source: &str, blank: bool, expected: &str) {
    let patches = h.into_patches();
    let mut buf: Vec<u8> = source.as_bytes().to_vec();
    assert!(apply_patches(&patches, &mut buf, blank));
    assert_eq!(String::from_utf8(buf).unwrap(), expected);
}

#[test]
fn basic() {
    let out = apply(vec![patch(0, 0, "x"), patch(1, 3, "0")], "abc\nd", true);
    assert_eq!(out, "xa0 \nd");
}

#[test]
fn all_removed() {
    let out = apply(vec![patch(0, 5, "")], "abc\nd", true);
    assert_eq!(out, "   \n ");
}

#[test]
fn applier_keeps_two_byte_wide_terminators() {
    let source = "a\u{2028}b\u{2029}c";
    let out = apply(vec![patch(0, source.len(), "")], source, true);
    assert_eq!(out, " \u{2028} \u{2029} ");
    let compact = apply(vec![patch(0, source.len(), "")], source, false);
    assert_eq!(compact, "\u{2028}\u{2029}");
}

#[test]
fn applier_empty_patch_list_is_identity() {
    // the applier applied to no patches leaves the buffer unchanged
    let source = "var a = 1;\nfunction f() { return a; }";
    assert_eq!(apply(vec![], source, true), source);
    assert_eq!(apply(vec![], source, false), source);
}

#[test]
fn applier_rejects_overlapping_patches() {
    let source = "abcdef";
    let mut buf: Vec<u8> = source.as_bytes().to_vec();
    let ps = vec![patch(0, 3, ""), patch(2, 4, "")];
    assert!(!apply_patches(&ps, &mut buf, true));
    assert_eq!(buf, source.as_bytes());
    let ps2 = vec![patch(0, 99, "")];
    assert!(!apply_patches(&ps2, &mut buf, true));
    assert_eq!(buf, source.as_bytes());
}

#[test]
fn applier_locality_outside_bytes_keep_order() {
    // bytes outside the patched spans appear, in order, in the output
    let source = "0123456789";
    let out = apply(vec![patch(2, 4, "X"), patch(6, 7, "")], source, false);
    assert_eq!(out, "01X45789");
}

#[test]
fn applier_line_count_preserved() {
    let source = "type A = 1\nvar b\ntype C = 2\n";
    let out = apply(
        vec![patch(0, 10, ""), patch(17, 27, ";")],
        source,
        true,
    );
    let count = |s: &str| line_terminator_start_iter(s.as_bytes()).len();
    assert_eq!(count(source), count(&out));
    assert_eq!(out, "          \nvar b\n;         \n");
}

#[test]
fn log_rejects_out_of_order_patches() {
    let mut log = PatchBuilder::new();
    assert!(log.push(patch(5, 8, "")));
    assert!(!log.push(patch(2, 3, "")));
    assert!(!log.push(patch(4, 99, "x")));
    assert!(log.push(patch(8, 9, "y")));
    let ps = log.into_patches();
    assert_eq!(ps.len(), 2);
    assert!(ps[0].end <= ps[1].start);
}

#[test]
fn log_rejects_line_terminator_in_replacement() {
    let mut log = PatchBuilder::new();
    assert!(!log.push(patch(0, 1, "a\nb")));
    assert!(!log.push(patch(0, 1, "a\rb")));
    assert!(!log.push(patch(0, 1, "a\u{2028}b")));
    assert!(log.push(patch(0, 1, "a b")));
    assert_eq!(log.len(), 1);
}

#[test]
fn log_is_ordered_after_every_operation() {
    // the final log, inspected through the test hook, is monotone and
    // non-overlapping
    let mut log = PatchBuilder::new();
    assert!(log.push(patch(4, 6, "")));
    assert!(log.push_merging_tail(patch(2, 8, "")));
    assert!(log.binary_search_insert(patch(0, 1, "x")));
    assert!(log.push(patch(9, 9, ";")));
    let ps = log.into_patches();
    for i in 0..ps.len() {
        assert!(ps[i].start <= ps[i].end);
        assert!(!contains_line_terminators(&ps[i].replacement));
        if i + 1 < ps.len() {
            assert!(ps[i].end <= ps[i + 1].start);
        }
    }
    assert_eq!(ps.len(), 3);
}

#[test]
fn rewind_restores_checkpoint_state() {
    // rewinding discards exactly the patches and scopes pushed since the
    // checkpoint
    let source = "interface A {}\ninterface B {}";
    let mut h = StripHandler::new(source.as_bytes().to_vec());
    h.handle_ts_interface_declaration(sp(0, 14));
    let cp = h.checkpoint();
    h.enter_scope(ScopeType::Other);
    h.handle_ts_interface_declaration(sp(15, 29));
    h.handle_ts_type_annotation(sp(16, 20));
    h.rewind(cp);
    let second = h.checkpoint();
    assert_eq!(second.patch_len, cp.patch_len);
    assert_eq!(second.scope_stack_len, cp.scope_stack_len);
    let ps = h.into_patches();
    assert_eq!(ps.len(), 1);
    assert_eq!((ps[0].start, ps[0].end), (0, 14));
}

#[test]
fn identifier_names() {
    assert!(is_identifier_name("abc"));
    assert!(is_identifier_name("$_a9"));
    assert!(is_identifier_name("\u{00e9}t\u{00e9}"));
    assert!(!is_identifier_name(""));
    assert!(!is_identifier_name("9a"));
    assert!(!is_identifier_name("!X"));
    assert!(!is_identifier_name("a b"));
}

#[test]
fn enum_lowering() {
    let source = "enum A { X, \"!X\", Y = 1, \"!Y\" }";
    let mut h = StripHandler::new(source.as_bytes().to_vec());
    h.handle_ts_enum_head(0, sp(5, 6));
    h.enter_scope(ScopeType::TsEnum);
    h.handle_ts_enum_member_name(EnumMemberNameInfo::Identifier { span: sp(9, 10) });
    h.handle_ts_enum_member(10, false);
    h.handle_ts_enum_member_name(EnumMemberNameInfo::StringLiteral {
        span: sp(12, 16),
        value: String::from("!X"),
    });
    h.handle_ts_enum_member(16, false);
    h.handle_ts_enum_member_name(EnumMemberNameInfo::Identifier { span: sp(18, 19) });
    h.handle_ts_enum_member(23, true);
    h.handle_ts_enum_member_name(EnumMemberNameInfo::StringLiteral {
        span: sp(25, 29),
        value: String::from("!Y"),
    });
    h.handle_ts_enum_member(29, false);
    h.leave_scope();
    h.handle_ts_enum_declaration(sp(0, 31), false, sp(5, 6));
    h.handle_statement(sp(0, 31), false);
    finish(
        h,
        source,
        false,
        "var A;(function(A){ { X=0;var X;this[this.X=X]='X'; this[this[\"!X\"]=X+1]=\"!X\"; \
         Y = 1;var Y;this[this.Y=Y]='Y'; this[this[\"!Y\"]=Y+1]=\"!Y\"; }}).call(A||(A={}),A);",
    );
}

#[test]
fn secondary_enum_reuses_bindings() {
    let source = "enum A { X }\nenum A { Y = X }";
    let mut h = StripHandler::new(source.as_bytes().to_vec());
    h.handle_ts_enum_head(0, sp(5, 6));
    h.enter_scope(ScopeType::TsEnum);
    h.handle_ts_enum_member_name(EnumMemberNameInfo::Identifier { span: sp(9, 10) });
    h.handle_ts_enum_member(10, false);
    h.leave_scope();
    h.handle_ts_enum_declaration(sp(0, 12), false, sp(5, 6));
    h.handle_statement(sp(0, 12), false);
    h.handle_ts_enum_head(13, sp(18, 19));
    h.enter_scope(ScopeType::TsEnum);
    h.handle_ts_enum_member_name(EnumMemberNameInfo::Identifier { span: sp(22, 23) });
    h.handle_ts_enum_member(27, true);
    h.leave_scope();
    h.handle_ts_enum_declaration(sp(13, 29), false, sp(18, 19));
    h.handle_statement(sp(13, 29), false);
    finish(
        h,
        source,
        false,
        "var A;(function(A){ { X=0;var X;this[this.X=X]='X'; }}).call(A||(A={}),A);\n\
         var A;(function(A){var {X}=A; { Y = X;var Y;this[this.Y=Y]='Y'; }}).call(A||(A={}),A);",
    );
}

#[test]
fn namespace_lowering() {
    let source = "namespace A { export var x = 1; }";
    let mut h = StripHandler::new(source.as_bytes().to_vec());
    h.handle_ts_module_declaration_name(ModuleNameInfo::Identifier { span: sp(10, 11) });
    h.enter_scope(ScopeType::TsModule);
    h.handle_binding_identifier(sp(25, 26));
    h.handle_statement(sp(14, 31), true);
    h.leave_scope();
    h.handle_ts_module_declaration(sp(0, 33), false, 10, None);
    h.handle_statement(sp(0, 33), false);
    finish(
        h,
        source,
        false,
        "var A;(function(A){ {  var x = 1;this.x=x; }}).call(A||(A={}),A);",
    );
}

#[test]
fn type_annotation_erasure() {
    let source = "var a: number = 0; function b(x: string): void {}";
    let mut h = StripHandler::new(source.as_bytes().to_vec());
    h.handle_ts_type_annotation(sp(5, 13));
    h.handle_statement(sp(0, 18), false);
    h.enter_scope(ScopeType::Other);
    h.handle_ts_type_annotation(sp(31, 39));
    h.handle_ts_type_annotation(sp(40, 46));
    h.leave_scope();
    h.handle_function(sp(19, 49), false, true);
    h.handle_statement(sp(19, 49), false);
    finish(h, source, false, "var a = 0; function b(x) {}");
}

#[test]
fn arrow_with_return_type() {
    // the parentheses are repainted; the arrow and the body keep their
    // columns under blank-space application
    let source = "() : T => 1";
    let mut h = StripHandler::new(source.as_bytes().to_vec());
    h.enter_scope(ScopeType::Other);
    h.handle_ts_type_annotation(sp(3, 6));
    h.leave_scope();
    h.handle_arrow_function_expression(None, sp(0, 2), Some(sp(3, 6)));
    h.handle_statement(sp(0, 11), false);
    finish(h, source, true, "(    ) => 1");
}

#[test]
fn arrow_with_type_parameters() {
    let source = "<T>() => 1";
    let mut h = StripHandler::new(source.as_bytes().to_vec());
    h.enter_scope(ScopeType::Other);
    h.handle_ts_type_parameter_declaration(sp(0, 3));
    h.leave_scope();
    h.handle_arrow_function_expression(Some(sp(0, 3)), sp(3, 5), None);
    h.handle_statement(sp(0, 10), false);
    finish(h, source, false, "() => 1");
}

#[test]
fn line_terminator_preservation() {
    // the terminator keeps its byte offset under blank-space application
    let source = "type A = string\n";
    let mut h = StripHandler::new(source.as_bytes().to_vec());
    h.handle_ts_type_alias_declaration(sp(0, 15));
    h.handle_statement(sp(0, 15), false);
    finish(h, source, true, "               \n");
}

#[test]
fn identity_on_pure_javascript() {
    // no TypeScript construct, no patch: the buffer is unchanged
    let source = "var a = 1;\nfunction f(x) { return x + a; }\nf(a);";
    let mut h = StripHandler::new(source.as_bytes().to_vec());
    h.handle_statement(sp(0, 10), false);
    h.enter_scope(ScopeType::Other);
    h.handle_statement(sp(26, 39), false);
    h.leave_scope();
    h.handle_function(sp(11, 42), false, true);
    h.handle_statement(sp(11, 42), false);
    h.handle_call_expression(sp(43, 47), false);
    h.handle_expression_statement(sp(43, 48), true, sp(43, 47), false);
    h.handle_statement(sp(43, 48), false);
    finish(h, source, false, source);
}

#[test]
fn import_equals_var_form() {
    let source = "import x = Y.Z";
    let mut h = StripHandler::new(source.as_bytes().to_vec());
    h.handle_ts_import_equals_declaration(sp(0, 14), false, 7, false);
    h.handle_statement(sp(0, 14), false);
    finish(h, source, false, "var x = Y.Z");
}

#[test]
fn import_equals_type_kind_stripped() {
    let source = "import type x = Y.Z";
    let mut h = StripHandler::new(source.as_bytes().to_vec());
    h.handle_ts_import_equals_declaration(sp(0, 19), true, 12, false);
    h.handle_statement(sp(0, 19), false);
    finish(h, source, false, "");
}

#[test]
fn namespace_export_declaration_stripped() {
    let source = "export as namespace Foo;";
    let mut h = StripHandler::new(source.as_bytes().to_vec());
    h.handle_ts_namespace_export_declaration(sp(0, 24));
    h.handle_statement(sp(0, 24), false);
    finish(h, source, false, "");
}

#[test]
fn declare_var_stripped() {
    let source = "declare var a: number;";
    let mut h = StripHandler::new(source.as_bytes().to_vec());
    h.handle_ts_type_annotation(sp(13, 21));
    h.handle_variable_declaration(sp(0, 22), true);
    h.handle_statement(sp(0, 22), false);
    finish(h, source, false, "");
}

#[test]
fn export_type_specifier_stripped() {
    let source = "export { type A, B }";
    let mut h = StripHandler::new(source.as_bytes().to_vec());
    h.handle_export_specifier(sp(9, 17), true);
    h.handle_export_specifier(sp(17, 18), false);
    h.handle_export_named_declaration(sp(0, 20), false, None, false);
    h.handle_statement(sp(0, 20), true);
    finish(h, source, false, "export { B }");
}

#[test]
fn export_all_type_stripped() {
    let source = "export type * from 'm'";
    let mut h = StripHandler::new(source.as_bytes().to_vec());
    h.handle_export_all_declaration(sp(0, 22), true);
    h.handle_statement(sp(0, 22), false);
    finish(h, source, false, "");
}

#[test]
fn do_while_body_asi() {
    let source = "do type A = 1\nwhile (0)";
    let mut h = StripHandler::new(source.as_bytes().to_vec());
    h.handle_ts_type_alias_declaration(sp(3, 13));
    h.handle_statement(sp(3, 13), false);
    h.handle_do_while_statement(sp(3, 13));
    h.handle_statement(sp(0, 23), false);
    finish(h, source, false, "do ;\nwhile (0)");
}

#[test]
fn test_window_push() {
    let mut deque = oxidase::window::Window::<u32>::repeating(0, 3);
    assert_eq!(deque.as_slice(), &[0, 0, 0]);
    deque.push(1);
    assert_eq!(deque.as_slice(), &[0, 0, 1]);
    deque.push(2);
    assert_eq!(deque.as_slice(), &[0, 1, 2]);
    deque.push(3);
    assert_eq!(deque.as_slice(), &[1, 2, 3]);
    deque.push(4);
    assert_eq!(deque.as_slice(), &[2, 3, 4]);
}

#[test]
fn nested_namespace_flattening() {
    let source = "namespace A.B { var x }";
    let mut h = StripHandler::new(source.as_bytes().to_vec());
    h.handle_ts_module_declaration_name(ModuleNameInfo::Identifier { span: sp(10, 11) });
    h.enter_scope(ScopeType::TsModule);
    h.handle_ts_module_declaration_name(ModuleNameInfo::Identifier { span: sp(12, 13) });
    h.enter_scope(ScopeType::TsModule);
    h.handle_binding_identifier(sp(20, 21));
    h.handle_statement(sp(16, 21), false);
    h.leave_scope();
    h.handle_ts_module_declaration(sp(12, 23), false, 12, None);
    h.leave_scope();
    h.handle_ts_module_declaration(sp(0, 23), false, 10, Some(12));
    h.handle_statement(sp(0, 23), false);
    finish(
        h,
        source,
        false,
        "var A;(function(A){var B;(function(B){ { var x }\
         }).call(B=A.B||(A.B={}),A.B);}).call(A||(A={}),A);",
    );
}

#[test]
fn ambient_namespace_stripped() {
    let source = "declare namespace A { }";
    let mut h = StripHandler::new(source.as_bytes().to_vec());
    h.handle_ts_module_declaration_name(ModuleNameInfo::Identifier { span: sp(18, 19) });
    h.enter_scope(ScopeType::TsModule);
    h.leave_scope();
    h.handle_ts_module_declaration(sp(0, 23), true, 18, None);
    h.handle_statement(sp(0, 23), false);
    finish(h, source, false, "");
}

#[test]
fn parameter_properties_with_super() {
    // init inserted right after the super-call statement, `;` joined on
    let source = "class A { constructor(private a, readonly b) { foo(); super() } }";
    let mut h = StripHandler::new(source.as_bytes().to_vec());
    h.enter_scope(ScopeType::Class);
    h.enter_scope(ScopeType::Other);
    h.handle_formal_parameter_modifiers(sp(22, 29));
    h.handle_formal_parameter(
        true,
        oxidase::handler::ParamPatternInfo::Identifier {
            id_span: sp(30, 31),
            optional_start: None,
            type_annotation_start: None,
        },
    );
    h.handle_formal_parameter_modifiers(sp(33, 41));
    h.handle_formal_parameter(
        true,
        oxidase::handler::ParamPatternInfo::Identifier {
            id_span: sp(42, 43),
            optional_start: None,
            type_annotation_start: None,
        },
    );
    h.handle_call_expression(sp(47, 52), false);
    h.handle_expression_statement(sp(47, 53), true, sp(47, 52), false);
    h.handle_statement(sp(47, 53), false);
    h.handle_call_expression(sp(54, 61), true);
    h.handle_expression_statement(sp(54, 61), true, sp(54, 61), false);
    h.handle_statement(sp(54, 61), false);
    h.leave_scope();
    h.handle_method_definition(sp(10, 63), sp(21, 63), true, Some(45));
    h.handle_class_element(sp(10, 63));
    h.handle_class_body(8);
    h.handle_class(sp(0, source.len()), false);
    h.leave_scope();
    h.handle_statement(sp(0, source.len()), false);
    finish(
        h,
        source,
        false,
        "class A { a; b; constructor( a,  b) { foo(); super();this.a=a;this.b=b; } }",
    );
}
