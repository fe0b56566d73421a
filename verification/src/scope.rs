//! Per-parser-scope state that the strip handler mirrors.
//!
//! Scope records exist between the parser's enter/leave events for a scope.
//! A tagged kind carries the state of the construct that opened the scope:
//! a class body, a constructor with parameter properties, an enum body, or a
//! namespace body.

use vstd::prelude::*;

verus! {

/// A byte range `[start, end)` of the original source.
#[derive(Clone, Copy, PartialEq, Eq, Structural, Debug)]
pub struct Span {
    pub start: usize,
    pub end: usize,
}

impl Span {
    /// The span `[start, end)`.
    pub fn new(start: usize, end: usize) -> (r: Span)
        ensures
            r.start == start,
            r.end == end,
    {
        Span { start, end }
    }

    /// The empty span at `at`.
    pub fn empty(at: usize) -> (r: Span)
        ensures
            r.start == at,
            r.end == at,
    {
        Span { start: at, end: at }
    }
}

/// How the previous statement's patch covered it.
#[derive(Clone, Copy, PartialEq, Eq, Structural, Debug)]
pub enum StatementStripKind {
    /// The whole statement was stripped.
    Whole,
    /// Only the statement's tail was stripped.
    Tail,
}

/// The patch, if any, that ended exactly at the previous statement's end.
#[derive(Clone, Copy, PartialEq, Eq, Structural, Debug)]
pub struct StatementPatch {
    pub index: usize,
    pub kind: StatementStripKind,
}

/// What the handler remembers of the last statement seen in a scope.
#[derive(Clone, Copy, PartialEq, Eq, Structural, Debug)]
pub struct LastStatement {
    pub is_first: bool,
    pub patch: Option<StatementPatch>,
}

/// The enum declaration currently being handled in a scope.
#[derive(Clone, Debug)]
pub struct CurrentEnumDeclaration {
    pub enum_name: Vec<u8>,
    pub index_of_patch_before_enum_name: usize,
    pub is_secondary: bool,
}

/// The namespace declaration currently being handled in a scope.
#[derive(Clone, Debug)]
pub struct CurrentNamespaceDeclaration {
    pub namespace_name: Vec<u8>,
    pub index_of_patch_before_namespace_name: usize,
    pub is_ambient: bool,
}

/// The identifier members that earlier enum declarations of one name have
/// introduced in a scope.
#[derive(Clone, Debug)]
pub struct EnumMemberSet {
    pub enum_name: Vec<u8>,
    pub member_identifiers: Vec<Vec<u8>>,
}

/// State of a class-body scope.
#[derive(Clone, Debug)]
pub struct ClassScope {
    /// Index of the patch that rewrote the current element's modifier list.
    pub current_element_modifier_patch_index: Option<usize>,
    /// Whether an element of this class body has been handled already.
    pub has_seen_element: bool,
    /// Identifier spans of the parameter properties of the first constructor.
    pub parameter_prop_id_spans_in_first_constructor: Vec<Span>,
    /// Identifier spans of the parameter properties of the latest function.
    pub parameter_prop_id_spans: Vec<Span>,
    /// Where the property initializations are to be inserted.
    pub parameter_prop_init_insert_start: Option<usize>,
}

/// Progress of the scan for the directive prologue of a function body.
#[derive(Clone, Copy, PartialEq, Eq, Structural, Debug)]
pub enum PrologueScanState {
    /// No statement seen yet.
    Init,
    /// All statements so far were string-literal directives.
    InPrologues { last_prologue_stmt_end: usize },
    /// The prologue has ended; its last statement ended here, if it existed.
    End { last_prologue_stmt_end: Option<usize> },
}

/// State of a function scope that carries parameter properties.
#[derive(Clone, Debug)]
pub struct FunctionWithParamPropsScope {
    pub parameter_prop_id_spans: Vec<Span>,
    pub super_call_stmt_end: Option<usize>,
    pub last_super_call_expr_span: Option<Span>,
    pub prologue_scan_state: PrologueScanState,
}

/// One enum member name: its text and whether it is a plain identifier.
#[derive(Clone, Debug)]
pub struct EnumName {
    pub value: Vec<u8>,
    pub is_identifier: bool,
}

/// State of an enum-body scope.
#[derive(Clone, Debug)]
pub struct EnumScope {
    pub member_names: Vec<EnumName>,
}

/// State of a namespace-body scope.
#[derive(Clone, Debug)]
pub struct NamespaceScope {
    pub current_stmt_binding_identifiers: Vec<Vec<u8>>,
    pub is_ambient: bool,
}

/// The tagged kind of a scope.
#[derive(Clone, Debug)]
pub enum ScopeKind {
    Other,
    Class(ClassScope),
    FunctionWithParamProps(FunctionWithParamPropsScope),
    Enum(EnumScope),
    Namespace(NamespaceScope),
}

/// What kind of scope the parser reports on entry.
#[derive(Clone, Copy, PartialEq, Eq, Structural, Debug)]
pub enum ScopeType {
    Class,
    TsEnum,
    TsModule,
    Other,
}

/// One scope record of the handler's stack.
#[derive(Clone, Debug)]
pub struct Scope {
    pub last_statement: Option<LastStatement>,
    pub kind: ScopeKind,
    pub enum_members_by_name: Vec<EnumMemberSet>,
    pub current_enum_decl: Option<CurrentEnumDeclaration>,
    pub current_namespace_decl: Option<CurrentNamespaceDeclaration>,
}

impl Scope {
    /// A fresh scope of the given kind, with nothing seen yet.
    pub fn fresh(kind: ScopeKind) -> (r: Scope)
        ensures
            r.last_statement.is_none(),
            r.kind == kind,
            r.enum_members_by_name@ == Seq::<EnumMemberSet>::empty(),
            r.current_enum_decl.is_none(),
            r.current_namespace_decl.is_none(),
    {
        Scope {
            last_statement: None,
            kind,
            enum_members_by_name: Vec::new(),
            current_enum_decl: None,
            current_namespace_decl: None,
        }
    }
}

/// A checkpoint of the handler: enough to undo all speculative patches and
/// scope state pushed since it was taken.
#[derive(Clone, Copy, PartialEq, Eq, Structural, Debug)]
pub struct StripHandlerCheckpoint {
    pub patch_len: usize,
    pub scope_stack_len: usize,
}

} // verus!
