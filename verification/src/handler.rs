//! The strip handler: the parser-event listener that encodes every erasure
//! and local rewrite as patches over the original source.
//!
//! A parser walks the TypeScript program and reports each relevant
//! production with the byte spans the rules need, child productions before
//! their parent, plus scope enter/leave and checkpoint/rewind around
//! speculative alternatives. The handler turns those reports into an ordered
//! patch log; applying the log to the source yields the JavaScript output.

use vstd::prelude::*;
use vstd::string::StringSliceAdditionalSpecFns;
use vstd::utf8::encode_utf8;

use crate::ident::{is_identifier_name, spec_is_identifier_name};
use crate::line_term::lt_free;
use crate::patch::Patch;
use crate::patch_builder::{drop_tail_covered, insert_index, PatchBuilder};
use crate::scope::{
    ClassScope, CurrentEnumDeclaration, CurrentNamespaceDeclaration, EnumMemberSet, EnumName,
    EnumScope, FunctionWithParamPropsScope, LastStatement, NamespaceScope, PrologueScanState,
    Scope, ScopeKind, ScopeType, Span, StatementPatch, StatementStripKind, StripHandlerCheckpoint,
};

verus! {

/// The patch has exactly this span and replacement.
pub open spec fn patch_is(p: Patch, start: int, end: int, rep: Seq<u8>) -> bool {
    p.start == start && p.end == end && p.replacement@ == rep
}

/// How a strict append leaves the log: appended after the tail when it fits,
/// otherwise rejected and the log unchanged.
pub open spec fn push_outcome(
    old_log: Seq<Patch>,
    new_log: Seq<Patch>,
    start: int,
    end: int,
    rep: Seq<u8>,
) -> bool {
    if start <= end && lt_free(rep) && (old_log.len() == 0 || old_log.last().end <= start) {
        new_log.len() == old_log.len() + 1 && new_log.drop_last() == old_log && patch_is(
            new_log.last(),
            start,
            end,
            rep,
        )
    } else {
        new_log == old_log
    }
}

/// How a tail-merging append leaves the log: trailing patches that start at
/// or after `start` are dropped, then the patch is appended when it fits.
pub open spec fn merge_tail_outcome(
    old_log: Seq<Patch>,
    new_log: Seq<Patch>,
    start: int,
    end: int,
    rep: Seq<u8>,
) -> bool {
    let kept = drop_tail_covered(old_log, start as nat);
    if start <= end && lt_free(rep) && (kept.len() == 0 || kept.last().end <= start) {
        new_log.len() == kept.len() + 1 && new_log.drop_last() == kept && patch_is(
            new_log.last(),
            start,
            end,
            rep,
        )
    } else {
        new_log == old_log
    }
}

/// How a position-searched insert leaves the log: the patch lands before the
/// first patch that ends after its start, when it fits there.
pub open spec fn bsearch_outcome(
    old_log: Seq<Patch>,
    new_log: Seq<Patch>,
    start: int,
    end: int,
    rep: Seq<u8>,
) -> bool {
    let pos = insert_index(old_log, start as nat);
    if start <= end && lt_free(rep) && (pos == old_log.len() || end <= old_log[pos].start) {
        &&& new_log.len() == old_log.len() + 1
        &&& new_log.take(pos) == old_log.take(pos)
        &&& patch_is(new_log[pos], start, end, rep)
        &&& new_log.skip(pos + 1) == old_log.skip(pos)
    } else {
        new_log == old_log
    }
}


/// A byte that must not be concatenated onto a stripped statement: the
/// ASI-interesting set `(`, `[`, backquote, `+`, `-`, `/`.
pub open spec fn hazard_byte(b: u8) -> bool {
    b == 40 || b == 91 || b == 96 || b == 43 || b == 45 || b == 47
}

/// What the handler records of a statement that just ended: the last patch,
/// when it ends exactly at the statement's end with an empty replacement,
/// as a whole-strip or a tail-strip.
pub open spec fn current_stmt_patch_spec(log: Seq<Patch>, span: Span) -> Option<StatementPatch> {
    if log.len() > 0 && log.last().replacement@.len() == 0 && log.last().end == span.end {
        if log.last().start == span.start {
            Some(
                StatementPatch {
                    index: (log.len() - 1) as usize,
                    kind: StatementStripKind::Whole,
                },
            )
        } else {
            Some(
                StatementPatch { index: (log.len() - 1) as usize, kind: StatementStripKind::Tail },
            )
        }
    } else {
        None
    }
}

/// Which logged patch the statement ASI rule rewrites, or -1: the previous
/// statement ended in a patch, the new statement starts with a hazard byte,
/// and the previous patch was a tail-strip, or a whole-strip that was not
/// the first statement of its scope.
pub open spec fn stmt_asi_index(
    log: Seq<Patch>,
    last_statement: Option<LastStatement>,
    src: Seq<u8>,
    span: Span,
) -> int {
    match last_statement {
        None => -1,
        Some(l) => match l.patch {
            None => -1,
            Some(sp) => if span.start < src.len() && hazard_byte(src[span.start as int]) && ((
            sp.kind is Tail) || !l.is_first) && sp.index < log.len() {
                sp.index as int
            } else {
                -1
            },
        },
    }
}

/// The log after appending `;` to the replacement of the patch at `i`.
pub open spec fn log_semicolonized(old_log: Seq<Patch>, new_log: Seq<Patch>, i: int) -> bool {
    &&& new_log.len() == old_log.len()
    &&& forall|j: int| 0 <= j < old_log.len() && j != i ==> new_log[j] == old_log[j]
    &&& 0 <= i < old_log.len() ==> patch_is(
        new_log[i],
        old_log[i].start as int,
        old_log[i].end as int,
        old_log[i].replacement@ + ";".spec_bytes(),
    )
}

/// The statement ASI rule applied to the log, as one relation.
pub open spec fn stmt_asi_outcome(
    old_log: Seq<Patch>,
    new_log: Seq<Patch>,
    last_statement: Option<LastStatement>,
    src: Seq<u8>,
    span: Span,
) -> bool {
    let i = stmt_asi_index(old_log, last_statement, src, span);
    if i == -1 {
        new_log == old_log
    } else {
        log_semicolonized(old_log, new_log, i)
    }
}

/// One step of the directive-prologue scan on a statement's end.
pub open spec fn prologue_step(st: PrologueScanState, stmt_end: usize) -> PrologueScanState {
    match st {
        PrologueScanState::Init => PrologueScanState::End { last_prologue_stmt_end: None },
        PrologueScanState::InPrologues { last_prologue_stmt_end } => {
            if last_prologue_stmt_end != stmt_end {
                PrologueScanState::End {
                    last_prologue_stmt_end: Some(last_prologue_stmt_end),
                }
            } else {
                st
            }
        },
        PrologueScanState::End { .. } => st,
    }
}

/// The one-byte UTF-8 encoding of `;`.
pub proof fn lemma_semi_bytes()
    ensures
        ";".spec_bytes() =~= seq![59u8],
{
    reveal_strlit(";");
    let s = ";";
    assert(s@ =~= seq![';']);
    vstd::string::is_ascii_spec_bytes(s);
    assert(s.spec_bytes() =~= Seq::new(s@.len(), |i| s@.index(i) as u8));
}


/// The identifier spans at the tail that start at or after `start`, dropped.
pub open spec fn drop_trailing_spans(spans: Seq<Span>, start: nat) -> Seq<Span>
    decreases spans.len(),
{
    if spans.len() == 0 {
        spans
    } else if spans.last().start >= start {
        drop_trailing_spans(spans.drop_last(), start)
    } else {
        spans
    }
}

/// The if/loop-body ASI rule: when the last patch stripped the whole body,
/// its replacement becomes `;`.
pub open spec fn body_asi_outcome(old_log: Seq<Patch>, new_log: Seq<Patch>, span: Span) -> bool {
    if old_log.len() > 0 && old_log.last().start == span.start && old_log.last().end == span.end
        && old_log.last().replacement@.len() == 0 {
        log_semicolonized(old_log, new_log, old_log.len() - 1)
    } else {
        new_log == old_log
    }
}

/// Index of the first patch that starts exactly at `start`, or -1.
pub open spec fn index_with_start(log: Seq<Patch>, start: nat) -> int
    decreases log.len(),
{
    if log.len() == 0 {
        -1
    } else if log[0].start == start {
        0
    } else {
        let rest = index_with_start(log.drop_first(), start);
        if rest == -1 {
            -1
        } else {
            1 + rest
        }
    }
}

/// `index_with_start` finds the first match.
pub proof fn lemma_index_with_start_found(log: Seq<Patch>, start: nat, i: int)
    requires
        0 <= i < log.len(),
        log[i].start == start,
        forall|j: int| 0 <= j < i ==> (#[trigger] log[j]).start != start,
    ensures
        index_with_start(log, start) == i,
    decreases log.len(),
{
    if i == 0 {
    } else {
        assert(log.drop_first()[i - 1] == log[i as int]);
        assert(forall|j: int| 0 <= j < i - 1 ==> (#[trigger] log.drop_first()[j]) == log[j + 1]);
        lemma_index_with_start_found(log.drop_first(), start, i - 1);
    }
}

/// `index_with_start` reports -1 when nothing matches.
pub proof fn lemma_index_with_start_none(log: Seq<Patch>, start: nat)
    requires
        forall|j: int| 0 <= j < log.len() ==> (#[trigger] log[j]).start != start,
    ensures
        index_with_start(log, start) == -1,
    decreases log.len(),
{
    if log.len() > 0 {
        assert(forall|j: int|
            0 <= j < log.len() - 1 ==> (#[trigger] log.drop_first()[j]) == log[j + 1]);
        lemma_index_with_start_none(log.drop_first(), start);
    }
}

/// How moving one patch's span leaves the log: when the new span still sits
/// between the patch's neighbours the span is updated in place, otherwise
/// the move is rejected and the log is unchanged.
pub open spec fn respan_outcome(
    old_log: Seq<Patch>,
    new_log: Seq<Patch>,
    index: int,
    new_start: int,
    new_end: int,
) -> bool {
    let applicable = 0 <= index < old_log.len() && new_start <= new_end && (index == 0
        || old_log[index - 1].end <= new_start) && (index + 1 == old_log.len() || new_end
        <= old_log[index + 1].start);
    if applicable {
        &&& new_log.len() == old_log.len()
        &&& forall|j: int| 0 <= j < old_log.len() && j != index ==> new_log[j] == old_log[j]
        &&& patch_is(new_log[index], new_start, new_end, old_log[index].replacement@)
    } else {
        new_log == old_log
    }
}

/// The `if` statement rule, with `mid` the log between the alternate
/// rewrite and the consequent rewrite.
pub open spec fn if_outcome(
    old_log: Seq<Patch>,
    mid: Seq<Patch>,
    new_log: Seq<Patch>,
    consequent_span: Span,
    alternate_span: Option<Span>,
) -> bool {
    &&& match alternate_span {
        Some(alt) => body_asi_outcome(old_log, mid, alt),
        None => mid == old_log,
    }
    &&& match alternate_span {
        None => body_asi_outcome(mid, new_log, consequent_span),
        Some(_) => {
            let i = index_with_start(mid, consequent_span.start as nat);
            if 0 <= i < mid.len() && mid[i].end == consequent_span.end && mid[i].start
                == consequent_span.start && mid[i].replacement@.len() == 0 {
                log_semicolonized(mid, new_log, i)
            } else {
                new_log == mid
            }
        },
    }
}

/// The modifier keywords a class element may carry. The TypeScript-only
/// ones are erased; `static`, `async` and `accessor` remain JavaScript.
#[derive(Clone, Copy, PartialEq, Eq, Structural, Debug)]
pub struct ClassElementModifiers {
    pub has_abstract: bool,
    pub has_declare: bool,
    pub has_override: bool,
    pub has_readonly: bool,
    pub has_accessibility: bool,
    pub has_static: bool,
    pub has_async: bool,
    pub has_accessor: bool,
}

impl ClassElementModifiers {
    /// Some TypeScript-only modifier is present, so the list is rewritten.
    pub open spec fn spec_any_ts(self) -> bool {
        self.has_abstract || self.has_declare || self.has_override || self.has_readonly
            || self.has_accessibility
    }
}

/// What replaces a class element's modifier list: the JavaScript modifiers,
/// each with a trailing space, in canonical order.
pub open spec fn modifier_replacement(m: ClassElementModifiers) -> Seq<u8> {
    (if m.has_static {
        "static ".spec_bytes()
    } else {
        Seq::<u8>::empty()
    }) + (if m.has_async {
        "async ".spec_bytes()
    } else {
        Seq::<u8>::empty()
    }) + (if m.has_accessor {
        "accessor ".spec_bytes()
    } else {
        Seq::<u8>::empty()
    })
}


/// The bytes of `sp` in `src`; empty when the span is out of range.
pub open spec fn span_bytes(src: Seq<u8>, sp: Span) -> Seq<u8> {
    if sp.start <= sp.end && sp.end <= src.len() {
        src.subrange(sp.start as int, sp.end as int)
    } else {
        Seq::<u8>::empty()
    }
}

/// Index of the first member set recorded under `name`, or -1.
pub open spec fn enum_sets_index(sets: Seq<EnumMemberSet>, name: Seq<u8>) -> int
    decreases sets.len(),
{
    if sets.len() == 0 {
        -1
    } else if sets[0].enum_name@ == name {
        0
    } else {
        let rest = enum_sets_index(sets.drop_first(), name);
        if rest == -1 {
            -1
        } else {
            1 + rest
        }
    }
}

/// `a,b,c`: the identifiers joined with commas.
pub open spec fn joined_ids(ids: Seq<Seq<u8>>) -> Seq<u8>
    decreases ids.len(),
{
    if ids.len() == 0 {
        Seq::<u8>::empty()
    } else if ids.len() == 1 {
        ids[0]
    } else {
        ids[0] + ",".spec_bytes() + joined_ids(ids.drop_first())
    }
}

/// What opens an enum body after its name: `;(function(A){`, plus, for a
/// secondary enum with known members, `var {X,Y}=A;` to reuse the existing
/// bindings.
pub open spec fn enum_open_bytes(name: Seq<u8>, existing: Option<Seq<Seq<u8>>>) -> Seq<u8> {
    ";(function(".spec_bytes() + name + "){".spec_bytes() + (match existing {
        Some(ids) => if ids.len() > 0 {
            "var {".spec_bytes() + joined_ids(ids) + "}=".spec_bytes() + name + ";".spec_bytes()
        } else {
            Seq::<u8>::empty()
        },
        None => Seq::<u8>::empty(),
    })
}

/// What replaces a non-identifier enum member name: `this[this[<name>]`.
pub open spec fn enum_quoted_name_bytes(name: Seq<u8>) -> Seq<u8> {
    "this[this[".spec_bytes() + name + "]".spec_bytes()
}

/// What follows an enum member's value position, folding the member into
/// the reverse map; for a member without initializer it first supplies the
/// value `0`, or the previous member plus one.
pub open spec fn enum_member_tail_bytes(names: Seq<EnumName>, has_initializer: bool) -> Seq<u8> {
    let auto = if has_initializer {
        Seq::<u8>::empty()
    } else {
        "=".spec_bytes() + (if names.len() >= 2 {
            (if names[names.len() - 2].is_identifier {
                names[names.len() - 2].value@
            } else {
                "this[".spec_bytes() + names[names.len() - 2].value@ + "]".spec_bytes()
            }) + "+1".spec_bytes()
        } else {
            "0".spec_bytes()
        })
    };
    let v = names.last().value@;
    auto + (if names.last().is_identifier {
        ";var ".spec_bytes() + v + ";this[this.".spec_bytes() + v + "=".spec_bytes() + v
            + "]='".spec_bytes() + v + "';".spec_bytes()
    } else {
        "]=".spec_bytes() + v + ";".spec_bytes()
    })
}

/// What closes a lowered enum: `}).call(A||(A={}),A);`.
pub open spec fn enum_close_bytes(name: Seq<u8>) -> Seq<u8> {
    "}).call(".spec_bytes() + name + "||(".spec_bytes() + name + "={}),".spec_bytes() + name
        + ");".spec_bytes()
}

/// A byte that ends the scan for an assignment-pattern parameter name:
/// `?`, `=`, `,`, `)`, `/`, `:`.
pub open spec fn param_stop_byte(b: u8) -> bool {
    b == 63 || b == 61 || b == 44 || b == 41 || b == 47 || b == 58
}

/// Where the scan for an assignment-pattern parameter name stops: the first
/// stop byte at or after `pos`, bounded by `limit` and the source's end.
pub open spec fn param_scan_end(src: Seq<u8>, pos: int, limit: int) -> int
    decreases limit + 1 - pos,
{
    if pos > limit || pos >= src.len() || pos < 0 {
        pos
    } else if param_stop_byte(src[pos]) {
        pos
    } else {
        param_scan_end(src, pos + 1, limit)
    }
}

/// The identifier span a parameter-property event records, if any.
pub open spec fn param_prop_span(src: Seq<u8>, pattern: ParamPatternInfo) -> Option<Span> {
    match pattern {
        ParamPatternInfo::Identifier { id_span, optional_start, type_annotation_start } => Some(
            Span {
                start: id_span.start,
                end: match optional_start {
                    Some(o) => o,
                    None => match type_annotation_start {
                        Some(t) => t,
                        None => id_span.end,
                    },
                },
            },
        ),
        ParamPatternInfo::Assignment { span } => {
            if span.start < src.len() && (src[span.start as int] == 123 || src[span.start as int]
                == 91) {
                None
            } else {
                Some(
                    Span {
                        start: span.start,
                        end: param_scan_end(
                            src,
                            span.start as int,
                            span.end as int,
                        ) as usize,
                    },
                )
            }
        },
        ParamPatternInfo::OtherPattern => None,
    }
}

/// How the parser reports an enum member's name.
#[derive(Clone, Debug)]
pub enum EnumMemberNameInfo {
    /// A plain identifier member.
    Identifier { span: Span },
    /// A string-literal member, with its cooked value.
    StringLiteral { span: Span, value: String },
    /// Any other member name form.
    OtherName { span: Span },
}

/// What precedes a namespace name: `var A;(function(`.
pub open spec fn ns_open_bytes(name: Seq<u8>) -> Seq<u8> {
    "var ".spec_bytes() + name + ";(function(".spec_bytes()
}

/// What closes a lowered namespace: `}).call(A||(A={}),A);`.
pub open spec fn ns_close_bytes(name: Seq<u8>) -> Seq<u8> {
    "}).call(".spec_bytes() + name + "||(".spec_bytes() + name + "={}),".spec_bytes() + name
        + ");".spec_bytes()
}

/// What closes a nested namespace `B` of `A.B`:
/// `}).call(B=A.B||(A.B={}),A.B);`.
pub open spec fn ns_close_nested_bytes(name: Seq<u8>, parent: Seq<u8>) -> Seq<u8> {
    "}).call(".spec_bytes() + name + "=".spec_bytes() + parent + ".".spec_bytes() + name
        + "||(".spec_bytes() + parent + ".".spec_bytes() + name + "={}),".spec_bytes() + parent
        + ".".spec_bytes() + name + ");".spec_bytes()
}

/// The suffix assignments that replace a namespace-body `export`:
/// `this.a=a;this.b=b;` for the statement's bound identifiers.
pub open spec fn ns_export_assignment_bytes(ids: Seq<Seq<u8>>) -> Seq<u8>
    decreases ids.len(),
{
    if ids.len() == 0 {
        Seq::<u8>::empty()
    } else {
        "this.".spec_bytes() + ids[0] + "=".spec_bytes() + ids[0] + ";".spec_bytes()
            + ns_export_assignment_bytes(ids.drop_first())
    }
}

/// The whole patch text appended after an exported namespace statement:
/// a `;` when the statement does not already end in one, then the suffix
/// assignments.
pub open spec fn ns_export_patch_bytes(src: Seq<u8>, span: Span, ids: Seq<Seq<u8>>) -> Seq<u8> {
    (if span.end >= 1 && span.end - 1 < src.len() && src[span.end - 1] != 59 {
        ";".spec_bytes()
    } else {
        Seq::<u8>::empty()
    }) + ns_export_assignment_bytes(ids)
}

/// The dot-swallowing step of lowering `namespace A.B`: the patch after
/// the outer name is widened to end at the inner declaration's start.
pub open spec fn module_inner_outcome(
    mid1: Seq<Patch>,
    mid2: Seq<Patch>,
    inner_module_start: Option<usize>,
    idx: int,
) -> bool {
    match inner_module_start {
        None => mid2 == mid1,
        Some(inner) => {
            let after_start = if 0 <= idx + 1 < mid1.len() {
                mid1[idx + 1].start as int
            } else {
                0
            };
            if idx < usize::MAX {
                respan_outcome(mid1, mid2, idx + 1, after_start, inner as int)
            } else {
                mid2 == mid1
            }
        },
    }
}

/// The field declarations inserted after a class body's `{`: ` a; b;`.
pub open spec fn prop_decls_bytes(ids: Seq<Seq<u8>>) -> Seq<u8>
    decreases ids.len(),
{
    if ids.len() == 0 {
        Seq::<u8>::empty()
    } else {
        " ".spec_bytes() + ids[0] + ";".spec_bytes() + prop_decls_bytes(ids.drop_first())
    }
}

/// The property initializations injected into a constructor:
/// `this.a=a;this.b=b;`.
pub open spec fn prop_init_bytes(ids: Seq<Seq<u8>>) -> Seq<u8>
    decreases ids.len(),
{
    if ids.len() == 0 {
        Seq::<u8>::empty()
    } else {
        "this.".spec_bytes() + ids[0] + "=".spec_bytes() + ids[0] + ";".spec_bytes()
            + prop_init_bytes(ids.drop_first())
    }
}

/// The identifier texts of parameter-property spans.
pub open spec fn spans_ids(src: Seq<u8>, spans: Seq<Span>) -> Seq<Seq<u8>> {
    spans.map_values(|sp: Span| span_bytes(src, sp))
}

/// A byte buffer with these bytes is among the recorded identifiers.
pub open spec fn ids_contain(ids: Seq<Vec<u8>>, x: Seq<u8>) -> bool {
    exists|k: int| 0 <= k < ids.len() && (#[trigger] ids[k])@ == x
}

/// These bytes are among the identifier texts.
pub open spec fn id_seqs_contain(ids: Seq<Seq<u8>>, x: Seq<u8>) -> bool {
    exists|k: int| 0 <= k < ids.len() && #[trigger] ids[k] == x
}

/// The identifier texts after folding an enum body's member names in: each
/// identifier member not yet present is appended, in member order.
pub open spec fn merged_member_ids(ids: Seq<Seq<u8>>, names: Seq<EnumName>) -> Seq<Seq<u8>>
    decreases names.len(),
{
    if names.len() == 0 {
        ids
    } else {
        let ids2 = if names[0].is_identifier && !id_seqs_contain(ids, names[0].value@) {
            ids.push(names[0].value@)
        } else {
            ids
        };
        merged_member_ids(ids2, names.drop_first())
    }
}

/// The first phase of handling a method definition: a method whose
/// function part was stripped whole is stripped whole itself.
pub open spec fn method_strip_outcome(
    old_log: Seq<Patch>,
    mid: Seq<Patch>,
    span: Span,
    value_span: Span,
) -> bool {
    if old_log.len() > 0 && old_log.last().start == value_span.start && old_log.last().end
        == value_span.end && old_log.last().replacement@.len() == 0 {
        merge_tail_outcome(old_log, mid, span.start as int, span.end as int, Seq::<u8>::empty())
    } else {
        mid == old_log
    }
}

/// The second phase of handling a constructor: the property
/// initializations land after the super call or prologue (joining an
/// existing `;`), or else right after the body's `{`.
pub open spec fn ctor_init_outcome(
    mid: Seq<Patch>,
    new_log: Seq<Patch>,
    src: Seq<u8>,
    ids: Seq<Seq<u8>>,
    insert_start: Option<usize>,
    body_start: usize,
) -> bool {
    match insert_start {
        Some(s) => {
            let code = ";".spec_bytes() + prop_init_bytes(ids);
            if s >= 1 && s - 1 < src.len() && src[s - 1] == 59 {
                bsearch_outcome(mid, new_log, s - 1, s as int, code)
            } else {
                bsearch_outcome(mid, new_log, s as int, s as int, code)
            }
        },
        None => if body_start < usize::MAX {
            bsearch_outcome(
                mid,
                new_log,
                body_start + 1,
                body_start + 1,
                prop_init_bytes(ids),
            )
        } else {
            new_log == mid
        },
    }
}

/// The whole method-definition rule as one relation over the log.
pub open spec fn method_definition_outcome(
    old_log: Seq<Patch>,
    mid: Seq<Patch>,
    new_log: Seq<Patch>,
    src: Seq<u8>,
    span: Span,
    value_span: Span,
    builds_init: bool,
    ids: Seq<Seq<u8>>,
    insert_start: Option<usize>,
    body_start: usize,
) -> bool {
    &&& method_strip_outcome(old_log, mid, span, value_span)
    &&& if builds_init {
        ctor_init_outcome(mid, new_log, src, ids, insert_start, body_start)
    } else {
        new_log == mid
    }
}

/// The arrow type-parameter rule: the `<T>` strip patch becomes `(` and
/// runs through the opening parenthesis of the parameters.
pub open spec fn arrow_tp_outcome(
    old_log: Seq<Patch>,
    new_log: Seq<Patch>,
    tp: Option<Span>,
    params: Span,
) -> bool {
    match tp {
        None => new_log == old_log,
        Some(t) => {
            let i = index_with_start(old_log, t.start as nat);
            let applicable = 0 <= i < old_log.len() && old_log[i].end == t.end
                && old_log[i].replacement@.len() == 0 && params.start < usize::MAX && t.start
                <= params.start + 1 && (i + 1 == old_log.len() || params.start + 1
                <= old_log[i + 1].start);
            if applicable {
                &&& new_log.len() == old_log.len()
                &&& forall|j: int| 0 <= j < old_log.len() && j != i ==> new_log[j] == old_log[j]
                &&& patch_is(new_log[i], t.start as int, params.start + 1, "(".spec_bytes())
            } else {
                new_log == old_log
            }
        },
    }
}

/// The arrow return-type rule: the `: T` strip is repainted to start at the
/// parameters' closing parenthesis and to spare the last byte before `=>`,
/// where a `)` is inserted.
pub open spec fn arrow_rt_outcome(
    mid: Seq<Patch>,
    new_log: Seq<Patch>,
    rt: Option<Span>,
    params: Span,
) -> bool {
    match rt {
        None => new_log == mid,
        Some(r) => {
            let i = index_with_start(mid, r.start as nat);
            let applicable = 0 <= i < mid.len() && params.end >= 1 && mid[i].end >= 1
                && params.end - 1 <= mid[i].end - 1 && (i == 0 || mid[i - 1].end <= params.end
                - 1) && (i + 1 == mid.len() || mid[i].end <= mid[i + 1].start);
            if applicable {
                &&& new_log.len() == mid.len() + 1
                &&& forall|j: int| 0 <= j < i ==> new_log[j] == mid[j]
                &&& patch_is(
                    new_log[i],
                    params.end - 1,
                    mid[i].end - 1,
                    mid[i].replacement@,
                )
                &&& patch_is(new_log[i + 1], mid[i].end - 1, mid[i].end as int, ")".spec_bytes())
                &&& forall|j: int| i + 1 < j < new_log.len() ==> new_log[j] == mid[j - 1]
            } else {
                new_log == mid
            }
        },
    }
}

/// The whole arrow-function rule as one relation over the log.
pub open spec fn arrow_outcome(
    old_log: Seq<Patch>,
    mid: Seq<Patch>,
    new_log: Seq<Patch>,
    tp: Option<Span>,
    params: Span,
    rt: Option<Span>,
) -> bool {
    arrow_tp_outcome(old_log, mid, tp, params) && arrow_rt_outcome(mid, new_log, rt, params)
}

/// How the parser reports a namespace declaration's name.
#[derive(Clone, Copy, PartialEq, Eq, Structural, Debug)]
pub enum ModuleNameInfo {
    /// `namespace A` with a plain identifier name.
    Identifier { span: Span },
    /// A string-literal module name; left alone.
    OtherModuleName,
}

/// How the parser reports a constructor parameter's binding pattern.
#[derive(Clone, Copy, PartialEq, Eq, Structural, Debug)]
pub enum ParamPatternInfo {
    /// A plain identifier, with the starts of its optional mark and type
    /// annotation when present.
    Identifier { id_span: Span, optional_start: Option<usize>, type_annotation_start: Option<
        usize,
    > },
    /// An initialized parameter (`a = 1`); its name is scanned from the
    /// source text.
    Assignment { span: Span },
    /// A destructuring pattern; it declares no property.
    OtherPattern,
}

/// Copy `src[sp.start..sp.end]` out, or nothing when out of range.
fn span_to_bytes(src: &Vec<u8>, sp: Span) -> (r: Vec<u8>)
    ensures
        r@ == span_bytes(src@, sp),
{
    let mut r: Vec<u8> = Vec::new();
    if !(sp.start <= sp.end && sp.end <= src.len()) {
        return r;
    }
    let mut j: usize = sp.start;
    while j < sp.end
        invariant
            sp.start <= j <= sp.end <= src@.len(),
            r@ == src@.subrange(sp.start as int, j as int),
        decreases sp.end - j,
    {
        r.push(src[j]);
        proof {
            assert(src@.subrange(sp.start as int, j + 1 as int) =~= src@.subrange(
                sp.start as int,
                j as int,
            ) + seq![src@[j as int]]);
        }
        j = j + 1;
    }
    r
}

/// Append another byte buffer's contents.
fn push_bytes(v: &mut Vec<u8>, other: &Vec<u8>)
    ensures
        final(v)@ == old(v)@ + other@,
{
    let ghost v0 = v@;
    v.extend_from_slice(other.as_slice());
    proof {
        assert(v@ =~= v0 + other@);
    }
}

/// Find the member set recorded under `name`.
fn find_member_set(sets: &Vec<EnumMemberSet>, name: &Vec<u8>) -> (r: (bool, usize))
    ensures
        r.0 ==> 0 <= enum_sets_index(sets@, name@) == r.1 < sets@.len() && sets@[r.1 as int].enum_name@ == name@ && (forall|j: int|
            0 <= j < r.1 ==> (#[trigger] sets@[j]).enum_name@ != name@),
        !r.0 ==> enum_sets_index(sets@, name@) == -1 && (forall|j: int|
            0 <= j < sets@.len() ==> (#[trigger] sets@[j]).enum_name@ != name@),
{
    let n = sets.len();
    let mut i: usize = 0;
    let mut found: bool = false;
    while i < n
        invariant_except_break
            !found,
        invariant
            i <= n == sets@.len(),
            forall|j: int| 0 <= j < i ==> (#[trigger] sets@[j]).enum_name@ != name@,
        ensures
            i <= n == sets@.len(),
            forall|j: int| 0 <= j < i ==> (#[trigger] sets@[j]).enum_name@ != name@,
            found ==> i < n && sets@[i as int].enum_name@ == name@,
            !found ==> i == n,
        decreases n - i,
    {
        if bytes_eq(&sets[i].enum_name, name) {
            found = true;
            break ;
        }
        i = i + 1;
    }
    proof {
        if found {
            lemma_enum_sets_index_found(sets@, name@, i as int);
        } else {
            lemma_enum_sets_index_none(sets@, name@);
        }
    }
    (found, i)
}

/// Whether `x`'s bytes are already among `ids`.
fn find_id(ids: &Vec<Vec<u8>>, x: &Vec<u8>) -> (r: (bool, usize))
    ensures
        r.0 == ids_contain(ids@, x@),
{
    let n = ids.len();
    let mut i: usize = 0;
    while i < n
        invariant
            i <= n == ids@.len(),
            forall|j: int| 0 <= j < i ==> (#[trigger] ids@[j])@ != x@,
        decreases n - i,
    {
        if bytes_eq(&ids[i], x) {
            proof {
                assert(ids_contain(ids@, x@));
            }
            return (true, i);
        }
        i = i + 1;
    }
    proof {
        assert(!ids_contain(ids@, x@));
    }
    (false, 0)
}

/// Byte-for-byte equality of two buffers.
fn bytes_eq(a: &Vec<u8>, b: &Vec<u8>) -> (r: bool)
    ensures
        r == (a@ == b@),
{
    if a.len() != b.len() {
        proof {
            assert(a@.len() != b@.len());
        }
        return false;
    }
    let mut j: usize = 0;
    while j < a.len()
        invariant
            j <= a@.len() == b@.len(),
            forall|i: int| 0 <= i < j ==> a@[i] == b@[i],
        decreases a@.len() - j,
    {
        if a[j] != b[j] {
            return false;
        }
        j = j + 1;
    }
    proof {
        assert(a@ =~= b@);
    }
    true
}

/// A copy of a byte buffer.
fn name_clone(v: &Vec<u8>) -> (r: Vec<u8>)
    ensures
        r@ == v@,
{
    let mut r: Vec<u8> = Vec::new();
    push_bytes(&mut r, v);
    r
}

/// `enum_sets_index` finds the first match.
pub proof fn lemma_enum_sets_index_found(sets: Seq<EnumMemberSet>, name: Seq<u8>, i: int)
    requires
        0 <= i < sets.len(),
        sets[i].enum_name@ == name,
        forall|j: int| 0 <= j < i ==> (#[trigger] sets[j]).enum_name@ != name,
    ensures
        enum_sets_index(sets, name) == i,
    decreases sets.len(),
{
    if i == 0 {
    } else {
        assert(sets.drop_first()[i - 1] == sets[i as int]);
        assert(forall|j: int| 0 <= j < i - 1 ==> (#[trigger] sets.drop_first()[j]) == sets[j + 1]);
        lemma_enum_sets_index_found(sets.drop_first(), name, i - 1);
    }
}

/// `enum_sets_index` reports -1 when nothing matches.
pub proof fn lemma_enum_sets_index_none(sets: Seq<EnumMemberSet>, name: Seq<u8>)
    requires
        forall|j: int| 0 <= j < sets.len() ==> (#[trigger] sets[j]).enum_name@ != name,
    ensures
        enum_sets_index(sets, name) == -1,
    decreases sets.len(),
{
    if sets.len() > 0 {
        assert(forall|j: int|
            0 <= j < sets.len() - 1 ==> (#[trigger] sets.drop_first()[j]) == sets[j + 1]);
        lemma_enum_sets_index_none(sets.drop_first(), name);
    }
}

/// Copy a string's UTF-8 bytes into a fresh buffer.
fn str_to_bytes(s: &str) -> (v: Vec<u8>)
    ensures
        v@ == s.spec_bytes(),
{
    let mut v: Vec<u8> = Vec::new();
    v.extend_from_slice(s.as_bytes());
    proof {
        assert(v@ =~= s.spec_bytes());
    }
    v
}

/// Append a string's UTF-8 bytes to a buffer.
fn push_str_bytes(v: &mut Vec<u8>, s: &str)
    ensures
        final(v)@ == old(v)@ + s.spec_bytes(),
{
    let ghost v0 = v@;
    v.extend_from_slice(s.as_bytes());
    proof {
        assert(v@ =~= v0 + s.spec_bytes());
    }
}

/// The parser-event handler that accumulates the patch log.
pub struct StripHandler {
    source: Vec<u8>,
    patches: PatchBuilder,
    scope_stack: Vec<Scope>,
}

impl StripHandler {
    /// The source bytes the handler was built over.
    pub closed spec fn src(self) -> Seq<u8> {
        self.source@
    }

    /// The patch log accumulated so far.
    pub closed spec fn log(self) -> Seq<Patch> {
        self.patches@
    }

    /// The scope stack, bottom first; never empty.
    pub closed spec fn scopes(self) -> Seq<Scope> {
        self.scope_stack@
    }

    /// Neither log nor scopes moved.
    pub open spec fn unchanged(self, other: StripHandler) -> bool {
        self.log() == other.log() && self.scopes() == other.scopes() && self.src() == other.src()
    }

    /// A handler over `source`, with one base scope and an empty log.
    pub fn new(source: Vec<u8>) -> (r: StripHandler)
        ensures
            r.src() == source@,
            r.log() == Seq::<Patch>::empty(),
            r.scopes().len() == 1,
            r.scopes()[0].kind is Other,
            r.scopes()[0].last_statement.is_none(),
    {
        let mut scope_stack: Vec<Scope> = Vec::new();
        scope_stack.push(Scope::fresh(ScopeKind::Other));
        StripHandler { source, patches: PatchBuilder::new(), scope_stack }
    }

    /// How many scopes are open beyond the base scope.
    pub fn scope_len(&self) -> (r: usize)
        ensures
            r == if self.scopes().len() > 0 {
                self.scopes().len() - 1
            } else {
                0
            },
    {
        let n = self.scope_stack.len();
        if n > 0 {
            n - 1
        } else {
            0
        }
    }

    /// Hand the finished patch log out; it is ordered, non-overlapping, and
    /// free of line terminators in every replacement.
    pub fn into_patches(self) -> (r: Vec<Patch>)
        ensures
            r@ == self.log(),
            crate::patch_builder::log_wf(r@),
    {
        self.patches.into_patches()
    }

    /// Record the state to restore on rewind: patch count and scope depth.
    pub fn checkpoint(&self) -> (r: StripHandlerCheckpoint)
        ensures
            r.patch_len == self.log().len(),
            r.scope_stack_len == self.scopes().len(),
    {
        StripHandlerCheckpoint {
            patch_len: self.patches.len(),
            scope_stack_len: self.scope_stack.len(),
        }
    }

    /// Drop every patch and scope pushed since the checkpoint. Scope records
    /// popped here are discarded; the base scope always stays.
    pub fn rewind(&mut self, checkpoint: StripHandlerCheckpoint)
        ensures
            final(self).src() == old(self).src(),
            final(self).log() == if checkpoint.patch_len < old(self).log().len() {
                old(self).log().take(checkpoint.patch_len as int)
            } else {
                old(self).log()
            },
            final(self).scopes() == if 1 <= checkpoint.scope_stack_len < old(
                self,
            ).scopes().len() {
                old(self).scopes().take(checkpoint.scope_stack_len as int)
            } else if checkpoint.scope_stack_len < 1 && old(self).scopes().len() > 1 {
                old(self).scopes().take(1)
            } else {
                old(self).scopes()
            },
    {
        self.patches.truncate(checkpoint.patch_len);
        let floor: usize = if checkpoint.scope_stack_len < 1 {
            1
        } else {
            checkpoint.scope_stack_len
        };
        let ghost pre = self.scope_stack@;
        self.scope_stack.truncate(floor);
        proof {
            if (floor as int) < pre.len() {
                assert(self.scope_stack@ =~= pre.take(floor as int));
            } else {
                assert(self.scope_stack@ =~= pre);
            }
        }
    }

    /// Open a scope of the reported type.
    pub fn enter_scope(&mut self, scope_type: ScopeType)
        ensures
            final(self).src() == old(self).src(),
            final(self).log() == old(self).log(),
            final(self).scopes().len() == old(self).scopes().len() + 1,
            final(self).scopes().drop_last() == old(self).scopes(),
            final(self).scopes().last().last_statement.is_none(),
            final(self).scopes().last().current_enum_decl.is_none(),
            final(self).scopes().last().current_namespace_decl.is_none(),
            match scope_type {
                ScopeType::Class => final(self).scopes().last().kind matches ScopeKind::Class(cs)
                    && cs.current_element_modifier_patch_index.is_none() && !cs.has_seen_element
                    && cs.parameter_prop_id_spans_in_first_constructor@.len() == 0
                    && cs.parameter_prop_id_spans@.len() == 0
                    && cs.parameter_prop_init_insert_start.is_none(),
                ScopeType::TsEnum => final(self).scopes().last().kind matches ScopeKind::Enum(es)
                    && es.member_names@.len() == 0,
                ScopeType::TsModule => final(self).scopes().last().kind matches
                    ScopeKind::Namespace(ns) && ns.current_stmt_binding_identifiers@.len() == 0
                    && ns.is_ambient,
                ScopeType::Other => final(self).scopes().last().kind is Other,
            },
    {
        let kind = match scope_type {
            ScopeType::Class => ScopeKind::Class(
                ClassScope {
                    current_element_modifier_patch_index: None,
                    has_seen_element: false,
                    parameter_prop_id_spans_in_first_constructor: Vec::new(),
                    parameter_prop_id_spans: Vec::new(),
                    parameter_prop_init_insert_start: None,
                },
            ),
            ScopeType::TsEnum => ScopeKind::Enum(EnumScope { member_names: Vec::new() }),
            ScopeType::TsModule => ScopeKind::Namespace(
                NamespaceScope { current_stmt_binding_identifiers: Vec::new(), is_ambient: true },
            ),
            ScopeType::Other => ScopeKind::Other,
        };
        self.scope_stack.push(Scope::fresh(kind));
    }

    /// Append a patch strictly after the log's tail.
    fn emit_push(&mut self, start: usize, end: usize, rep: Vec<u8>)
        ensures
            final(self).src() == old(self).src(),
            final(self).scopes() == old(self).scopes(),
            push_outcome(old(self).log(), final(self).log(), start as int, end as int, rep@),
    {
        let ok = self.patches.push(Patch { start, end, replacement: rep });
        proof {
            if ok {
                assert(self.patches@.drop_last() =~= old(self).log());
            }
        }
    }

    /// Append a patch, merging away the trailing patches it supersedes.
    fn emit_merge_tail(&mut self, start: usize, end: usize, rep: Vec<u8>)
        ensures
            final(self).src() == old(self).src(),
            final(self).scopes() == old(self).scopes(),
            merge_tail_outcome(old(self).log(), final(self).log(), start as int, end as int, rep@),
    {
        let ok = self.patches.push_merging_tail(Patch { start, end, replacement: rep });
        proof {
            if ok {
                assert(self.patches@.drop_last() =~= drop_tail_covered(
                    old(self).log(),
                    start as nat,
                ));
            }
        }
    }

    /// Insert a patch at the position its span calls for.
    fn emit_bsearch(&mut self, start: usize, end: usize, rep: Vec<u8>)
        ensures
            final(self).src() == old(self).src(),
            final(self).scopes() == old(self).scopes(),
            bsearch_outcome(old(self).log(), final(self).log(), start as int, end as int, rep@),
    {
        let ghost pos = insert_index(old(self).log(), start as nat);
        let patch = Patch { start, end, replacement: rep };
        let ghost patch_snapshot = patch;
        let ok = self.patches.binary_search_insert(patch);
        proof {
            if ok {
                crate::patch_builder::lemma_insert_index_bounds(old(self).log(), start as nat);
                old(self).log().insert_ensures(pos, patch_snapshot);
                assert(self.patches@.take(pos) =~= old(self).log().take(pos));
                assert(self.patches@.skip(pos + 1) =~= old(self).log().skip(pos));
            }
        }
    }

    /// Strip a type annotation (`: T`).
    pub fn handle_ts_type_annotation(&mut self, span: Span)
        ensures
            final(self).src() == old(self).src(),
            final(self).scopes() == old(self).scopes(),
            merge_tail_outcome(
                old(self).log(),
                final(self).log(),
                span.start as int,
                span.end as int,
                Seq::<u8>::empty(),
            ),
    {
        self.emit_merge_tail(span.start, span.end, Vec::new());
    }

    /// Strip a type parameter declaration (`<T, U>` on a definition).
    pub fn handle_ts_type_parameter_declaration(&mut self, span: Span)
        ensures
            final(self).src() == old(self).src(),
            final(self).scopes() == old(self).scopes(),
            merge_tail_outcome(
                old(self).log(),
                final(self).log(),
                span.start as int,
                span.end as int,
                Seq::<u8>::empty(),
            ),
    {
        self.emit_merge_tail(span.start, span.end, Vec::new());
    }

    /// Strip a type argument instantiation (`<T>` on a call or `new`).
    pub fn handle_ts_type_parameter_instantiation(&mut self, span: Span)
        ensures
            final(self).src() == old(self).src(),
            final(self).scopes() == old(self).scopes(),
            merge_tail_outcome(
                old(self).log(),
                final(self).log(),
                span.start as int,
                span.end as int,
                Seq::<u8>::empty(),
            ),
    {
        self.emit_merge_tail(span.start, span.end, Vec::new());
    }

    /// Strip the `as T` suffix: from the expression's end to the node's end.
    pub fn handle_ts_as_expression(&mut self, expression_end: usize, span_end: usize)
        ensures
            final(self).src() == old(self).src(),
            final(self).scopes() == old(self).scopes(),
            merge_tail_outcome(
                old(self).log(),
                final(self).log(),
                expression_end as int,
                span_end as int,
                Seq::<u8>::empty(),
            ),
    {
        self.emit_merge_tail(expression_end, span_end, Vec::new());
    }

    /// Strip the `satisfies T` suffix.
    pub fn handle_ts_satisfies_expression(&mut self, expression_end: usize, span_end: usize)
        ensures
            final(self).src() == old(self).src(),
            final(self).scopes() == old(self).scopes(),
            merge_tail_outcome(
                old(self).log(),
                final(self).log(),
                expression_end as int,
                span_end as int,
                Seq::<u8>::empty(),
            ),
    {
        self.emit_merge_tail(expression_end, span_end, Vec::new());
    }

    /// Strip a `this` parameter, span through its trailing comma if any.
    pub fn handle_ts_this_parameter(&mut self, span: Span)
        ensures
            final(self).src() == old(self).src(),
            final(self).scopes() == old(self).scopes(),
            merge_tail_outcome(
                old(self).log(),
                final(self).log(),
                span.start as int,
                span.end as int,
                Seq::<u8>::empty(),
            ),
    {
        self.emit_merge_tail(span.start, span.end, Vec::new());
    }

    /// Strip an index signature (`[k: string]: T`).
    pub fn handle_ts_index_signature(&mut self, span: Span)
        ensures
            final(self).src() == old(self).src(),
            final(self).scopes() == old(self).scopes(),
            merge_tail_outcome(
                old(self).log(),
                final(self).log(),
                span.start as int,
                span.end as int,
                Seq::<u8>::empty(),
            ),
    {
        self.emit_merge_tail(span.start, span.end, Vec::new());
    }

    /// Strip a whole interface declaration.
    pub fn handle_ts_interface_declaration(&mut self, span: Span)
        ensures
            final(self).src() == old(self).src(),
            final(self).scopes() == old(self).scopes(),
            merge_tail_outcome(
                old(self).log(),
                final(self).log(),
                span.start as int,
                span.end as int,
                Seq::<u8>::empty(),
            ),
    {
        self.emit_merge_tail(span.start, span.end, Vec::new());
    }

    /// Strip a whole type-alias declaration.
    pub fn handle_ts_type_alias_declaration(&mut self, span: Span)
        ensures
            final(self).src() == old(self).src(),
            final(self).scopes() == old(self).scopes(),
            merge_tail_outcome(
                old(self).log(),
                final(self).log(),
                span.start as int,
                span.end as int,
                Seq::<u8>::empty(),
            ),
    {
        self.emit_merge_tail(span.start, span.end, Vec::new());
    }

    /// Strip `export as namespace Foo;`.
    pub fn handle_ts_namespace_export_declaration(&mut self, span: Span)
        ensures
            final(self).src() == old(self).src(),
            final(self).scopes() == old(self).scopes(),
            push_outcome(
                old(self).log(),
                final(self).log(),
                span.start as int,
                span.end as int,
                Seq::<u8>::empty(),
            ),
    {
        self.emit_push(span.start, span.end, Vec::new());
    }

    /// Strip an `implements` clause.
    pub fn handle_ts_class_implements(&mut self, span: Span)
        ensures
            final(self).src() == old(self).src(),
            final(self).scopes() == old(self).scopes(),
            merge_tail_outcome(
                old(self).log(),
                final(self).log(),
                span.start as int,
                span.end as int,
                Seq::<u8>::empty(),
            ),
    {
        self.emit_merge_tail(span.start, span.end, Vec::new());
    }

    /// Strip a `declare` variable declaration whole.
    pub fn handle_variable_declaration(&mut self, span: Span, declare: bool)
        ensures
            final(self).src() == old(self).src(),
            final(self).scopes() == old(self).scopes(),
            declare ==> merge_tail_outcome(
                old(self).log(),
                final(self).log(),
                span.start as int,
                span.end as int,
                Seq::<u8>::empty(),
            ),
            !declare ==> final(self).log() == old(self).log(),
    {
        if declare {
            self.emit_merge_tail(span.start, span.end, Vec::new());
        }
    }

    /// Strip a function that is ambient or has no body (an overload
    /// signature) whole.
    pub fn handle_function(&mut self, span: Span, declare: bool, has_body: bool)
        ensures
            final(self).src() == old(self).src(),
            final(self).scopes() == old(self).scopes(),
            (declare || !has_body) ==> merge_tail_outcome(
                old(self).log(),
                final(self).log(),
                span.start as int,
                span.end as int,
                Seq::<u8>::empty(),
            ),
            !(declare || !has_body) ==> final(self).log() == old(self).log(),
    {
        if declare || !has_body {
            self.emit_merge_tail(span.start, span.end, Vec::new());
        }
    }

    /// Strip a `declare` class whole.
    pub fn handle_class(&mut self, span: Span, declare: bool)
        ensures
            final(self).src() == old(self).src(),
            final(self).scopes() == old(self).scopes(),
            declare ==> merge_tail_outcome(
                old(self).log(),
                final(self).log(),
                span.start as int,
                span.end as int,
                Seq::<u8>::empty(),
            ),
            !declare ==> final(self).log() == old(self).log(),
    {
        if declare {
            self.emit_merge_tail(span.start, span.end, Vec::new());
        }
    }

    /// Strip the `abstract` modifier of a class (span through its trailing
    /// whitespace).
    pub fn handle_class_modifiers(&mut self, span: Span, has_abstract: bool)
        ensures
            final(self).src() == old(self).src(),
            final(self).scopes() == old(self).scopes(),
            has_abstract ==> merge_tail_outcome(
                old(self).log(),
                final(self).log(),
                span.start as int,
                span.end as int,
                Seq::<u8>::empty(),
            ),
            !has_abstract ==> final(self).log() == old(self).log(),
    {
        if has_abstract {
            self.emit_merge_tail(span.start, span.end, Vec::new());
        }
    }

    /// Strip a property definition that is `declare` or `abstract` whole.
    pub fn handle_property_definition(&mut self, span: Span, declare_or_abstract: bool)
        ensures
            final(self).src() == old(self).src(),
            final(self).scopes() == old(self).scopes(),
            declare_or_abstract ==> merge_tail_outcome(
                old(self).log(),
                final(self).log(),
                span.start as int,
                span.end as int,
                Seq::<u8>::empty(),
            ),
            !declare_or_abstract ==> final(self).log() == old(self).log(),
    {
        if declare_or_abstract {
            self.emit_merge_tail(span.start, span.end, Vec::new());
        }
    }

    /// Strip an accessor property that is `declare` or `abstract` whole.
    pub fn handle_accessor_property(&mut self, span: Span, declare_or_abstract: bool)
        ensures
            final(self).src() == old(self).src(),
            final(self).scopes() == old(self).scopes(),
            declare_or_abstract ==> merge_tail_outcome(
                old(self).log(),
                final(self).log(),
                span.start as int,
                span.end as int,
                Seq::<u8>::empty(),
            ),
            !declare_or_abstract ==> final(self).log() == old(self).log(),
    {
        if declare_or_abstract {
            self.emit_merge_tail(span.start, span.end, Vec::new());
        }
    }

    /// Strip a definite-assignment `!` mark.
    pub fn handle_ts_definite_mark(&mut self, span: Span)
        ensures
            final(self).src() == old(self).src(),
            final(self).scopes() == old(self).scopes(),
            merge_tail_outcome(
                old(self).log(),
                final(self).log(),
                span.start as int,
                span.end as int,
                Seq::<u8>::empty(),
            ),
    {
        self.emit_merge_tail(span.start, span.end, Vec::new());
    }

    /// Strip an optional `?` mark.
    pub fn handle_ts_optional_mark(&mut self, span: Span)
        ensures
            final(self).src() == old(self).src(),
            final(self).scopes() == old(self).scopes(),
            merge_tail_outcome(
                old(self).log(),
                final(self).log(),
                span.start as int,
                span.end as int,
                Seq::<u8>::empty(),
            ),
    {
        self.emit_merge_tail(span.start, span.end, Vec::new());
    }

    /// Strip a `type`-kind export specifier.
    pub fn handle_export_specifier(&mut self, span: Span, is_type: bool)
        ensures
            final(self).src() == old(self).src(),
            final(self).scopes() == old(self).scopes(),
            is_type ==> push_outcome(
                old(self).log(),
                final(self).log(),
                span.start as int,
                span.end as int,
                Seq::<u8>::empty(),
            ),
            !is_type ==> final(self).log() == old(self).log(),
    {
        if is_type {
            self.emit_push(span.start, span.end, Vec::new());
        }
    }

    /// Strip a `type`-kind import specifier.
    pub fn handle_import_specifier(&mut self, span: Span, is_type: bool)
        ensures
            final(self).src() == old(self).src(),
            final(self).scopes() == old(self).scopes(),
            is_type ==> push_outcome(
                old(self).log(),
                final(self).log(),
                span.start as int,
                span.end as int,
                Seq::<u8>::empty(),
            ),
            !is_type ==> final(self).log() == old(self).log(),
    {
        if is_type {
            self.emit_push(span.start, span.end, Vec::new());
        }
    }

    /// Strip a whole `type`-kind import declaration.
    pub fn handle_import_declaration(&mut self, span: Span, is_type: bool)
        ensures
            final(self).src() == old(self).src(),
            final(self).scopes() == old(self).scopes(),
            is_type ==> merge_tail_outcome(
                old(self).log(),
                final(self).log(),
                span.start as int,
                span.end as int,
                Seq::<u8>::empty(),
            ),
            !is_type ==> final(self).log() == old(self).log(),
    {
        if is_type {
            self.emit_merge_tail(span.start, span.end, Vec::new());
        }
    }

    /// Strip a whole `export type * ...` declaration.
    pub fn handle_export_all_declaration(&mut self, span: Span, is_type: bool)
        ensures
            final(self).src() == old(self).src(),
            final(self).scopes() == old(self).scopes(),
            is_type ==> merge_tail_outcome(
                old(self).log(),
                final(self).log(),
                span.start as int,
                span.end as int,
                Seq::<u8>::empty(),
            ),
            !is_type ==> final(self).log() == old(self).log(),
    {
        if is_type {
            self.emit_merge_tail(span.start, span.end, Vec::new());
        }
    }

    /// Rewrite `export = E` to `module.exports = E`: the span from the
    /// start of the assignment to the expression's start is replaced.
    pub fn handle_ts_export_assignment(&mut self, span_start: usize, expression_start: usize)
        ensures
            final(self).src() == old(self).src(),
            final(self).scopes() == old(self).scopes(),
            bsearch_outcome(
                old(self).log(),
                final(self).log(),
                span_start as int,
                expression_start as int,
                "module.exports = ".spec_bytes(),
            ),
    {
        self.emit_bsearch(span_start, expression_start, str_to_bytes("module.exports = "));
    }

    /// Rewrite `import X = ...` to `var X = ...` or, for
    /// `= require(...)`, to `const X = ...`: the span from the declaration's
    /// start to the bound identifier's start is replaced. A `type`-kind
    /// import-equals is stripped whole.
    pub fn handle_ts_import_equals_declaration(
        &mut self,
        span: Span,
        is_type: bool,
        id_start: usize,
        is_external_module_reference: bool,
    )
        ensures
            final(self).src() == old(self).src(),
            final(self).scopes() == old(self).scopes(),
            is_type ==> merge_tail_outcome(
                old(self).log(),
                final(self).log(),
                span.start as int,
                span.end as int,
                Seq::<u8>::empty(),
            ),
            !is_type ==> bsearch_outcome(
                old(self).log(),
                final(self).log(),
                span.start as int,
                id_start as int,
                if is_external_module_reference {
                    "const ".spec_bytes()
                } else {
                    "var ".spec_bytes()
                },
            ),
    {
        if is_type {
            self.emit_merge_tail(span.start, span.end, Vec::new());
            return ;
        }
        let rep = if is_external_module_reference {
            str_to_bytes("const ")
        } else {
            str_to_bytes("var ")
        };
        self.emit_bsearch(span.start, id_start, rep);
    }

    /// Wrap a `<T>expr` assertion: the stripped `<T>` annotation becomes `(`.
    pub fn handle_ts_type_assertion_annotation(&mut self, span: Span)
        ensures
            final(self).src() == old(self).src(),
            final(self).scopes() == old(self).scopes(),
            merge_tail_outcome(
                old(self).log(),
                final(self).log(),
                span.start as int,
                span.end as int,
                "(".spec_bytes(),
            ),
    {
        self.emit_merge_tail(span.start, span.end, str_to_bytes("("));
    }

    /// Close the wrapping of a `<T>expr` assertion: `)` after the expression.
    pub fn handle_ts_type_assertion(&mut self, span_end: usize)
        ensures
            final(self).src() == old(self).src(),
            final(self).scopes() == old(self).scopes(),
            push_outcome(
                old(self).log(),
                final(self).log(),
                span_end as int,
                span_end as int,
                ")".spec_bytes(),
            ),
    {
        self.emit_push(span_end, span_end, str_to_bytes(")"));
    }

    /// Rewrite the previous statement's strip to end in `;` when the new
    /// statement starts with an ASI-interesting byte, and remember how this
    /// statement's tail was patched.
    fn statement_asi(&mut self, span: Span)
        ensures
            final(self).src() == old(self).src(),
            old(self).scopes().len() == 0 ==> final(self).unchanged(*old(self)),
            old(self).scopes().len() > 0 ==> {
                &&& stmt_asi_outcome(
                    old(self).log(),
                    final(self).log(),
                    old(self).scopes().last().last_statement,
                    old(self).src(),
                    span,
                )
                &&& final(self).scopes().len() == old(self).scopes().len()
                &&& final(self).scopes().drop_last() == old(self).scopes().drop_last()
                &&& final(self).scopes().last().last_statement == Some(
                    LastStatement {
                        is_first: old(self).scopes().last().last_statement.is_none(),
                        patch: current_stmt_patch_spec(final(self).log(), span),
                    },
                )
                &&& final(self).scopes().last().kind == old(self).scopes().last().kind
                &&& final(self).scopes().last().enum_members_by_name == old(
                    self,
                ).scopes().last().enum_members_by_name
                &&& final(self).scopes().last().current_enum_decl == old(
                    self,
                ).scopes().last().current_enum_decl
                &&& final(self).scopes().last().current_namespace_decl == old(
                    self,
                ).scopes().last().current_namespace_decl
            },
    {
        let n = self.scope_stack.len();
        if n == 0 {
            return ;
        }
        let ls: Option<LastStatement> = self.scope_stack[n - 1].last_statement;
        let mut is_first: bool = true;
        if let Some(last_statement) = ls {
            is_first = false;
            if let Some(sp) = last_statement.patch {
                if span.start < self.source.len() {
                    let b: u8 = self.source[span.start];
                    if b == 40 || b == 91 || b == 96 || b == 43 || b == 45 || b == 47 {
                        let need: bool = match sp.kind {
                            StatementStripKind::Whole => !last_statement.is_first,
                            StatementStripKind::Tail => true,
                        };
                        if need && sp.index < self.patches.len() {
                            let mut nr: Vec<u8> = match self.patches.get(sp.index) {
                                Some(p) => p.replacement.clone(),
                                None => Vec::new(),
                            };
                            let ghost old_rep = nr@;
                            nr.push(59);
                            proof {
                                use_type_invariant(&self.patches);
                                assert(old_rep == self.patches@[sp.index as int].replacement@);
                                crate::line_term::lemma_lt_free_push(old_rep, 59);
                                lemma_semi_bytes();
                                assert(nr@ =~= old_rep + ";".spec_bytes());
                            }
                            let _ = self.patches.set_replacement(sp.index, nr);
                        }
                    }
                }
            }
        }
        let mut current: Option<StatementPatch> = None;
        let log_len = self.patches.len();
        match self.patches.last() {
            Some(lp) => {
                if lp.replacement.len() == 0 && lp.end == span.end {
                    let kind = if lp.start == span.start {
                        StatementStripKind::Whole
                    } else {
                        StatementStripKind::Tail
                    };
                    current = Some(StatementPatch { index: log_len - 1, kind });
                }
            },
            None => {},
        }
        let ghost scopes0 = self.scope_stack@;
        match self.scope_stack.pop() {
            Some(mut scope) => {
                scope.last_statement = Some(LastStatement { is_first, patch: current });
                self.scope_stack.push(scope);
                proof {
                    assert(self.scope_stack@.drop_last() =~= scopes0.drop_last());
                }
            },
            None => {},
        }
    }

    /// A statement has ended: run the per-scope bookkeeping (directive
    /// prologue scan; namespace ambient tracking and `export` lowering),
    /// forget any current enum or namespace declaration, then run the
    /// statement ASI rule.
    #[verifier::rlimit(100)]
    #[verifier::spinoff_prover]
    pub fn handle_statement(&mut self, span: Span, is_export_named_declaration: bool)
        ensures
            final(self).src() == old(self).src(),
            old(self).scopes().len() == 0 ==> final(self).unchanged(*old(self)),
            old(self).scopes().len() > 0 ==> {
                &&& final(self).scopes().len() == old(self).scopes().len()
                &&& final(self).scopes().drop_last() == old(self).scopes().drop_last()
                &&& final(self).scopes().last().last_statement == Some(
                    LastStatement {
                        is_first: old(self).scopes().last().last_statement.is_none(),
                        patch: current_stmt_patch_spec(final(self).log(), span),
                    },
                )
                &&& final(self).scopes().last().current_enum_decl.is_none()
                &&& final(self).scopes().last().current_namespace_decl.is_none()
                &&& match old(self).scopes().last().kind {
                    ScopeKind::FunctionWithParamProps(f) => {
                        &&& final(self).scopes().last().kind == ScopeKind::FunctionWithParamProps(
                            FunctionWithParamPropsScope {
                                prologue_scan_state: prologue_step(
                                    f.prologue_scan_state,
                                    span.end,
                                ),
                                ..f
                            },
                        )
                        &&& stmt_asi_outcome(
                            old(self).log(),
                            final(self).log(),
                            old(self).scopes().last().last_statement,
                            old(self).src(),
                            span,
                        )
                    },
                    ScopeKind::Namespace(ns) => {
                        let covered = old(self).log().len() > 0 && (old(
                            self,
                        ).log().last().replacement@.len() == 0 || old(
                            self,
                        ).log().last().replacement@ =~= ";".spec_bytes()) && old(
                            self,
                        ).log().last().start == span.start && old(self).log().last().end
                            == span.end;
                        let already_removed = old(self).log().len() > 0 && old(
                            self,
                        ).log().last().start == span.start;
                        let exporting = is_export_named_declaration && !already_removed
                            && span.start <= usize::MAX - 6;
                        let assignments = ns_export_patch_bytes(
                            old(self).src(),
                            span,
                            ns.current_stmt_binding_identifiers@.map_values(|v: Vec<u8>| v@),
                        );
                        &&& final(self).scopes().last().kind matches ScopeKind::Namespace(ns2)
                            && ns2.current_stmt_binding_identifiers@.len() == 0 && ns2.is_ambient
                            == (ns.is_ambient && covered)
                        &&& if exporting {
                            exists|mid1: Seq<Patch>, mid2: Seq<Patch>|
                                #[trigger] push_outcome(
                                    mid1,
                                    mid2,
                                    span.end as int,
                                    span.end as int,
                                    assignments,
                                ) && bsearch_outcome(
                                    old(self).log(),
                                    mid1,
                                    span.start as int,
                                    span.start + 6,
                                    Seq::<u8>::empty(),
                                ) && stmt_asi_outcome(
                                    mid2,
                                    final(self).log(),
                                    old(self).scopes().last().last_statement,
                                    old(self).src(),
                                    span,
                                )
                        } else {
                            stmt_asi_outcome(
                                old(self).log(),
                                final(self).log(),
                                old(self).scopes().last().last_statement,
                                old(self).src(),
                                span,
                            )
                        }
                    },
                    _ => {
                        &&& final(self).scopes().last().kind == old(self).scopes().last().kind
                        &&& stmt_asi_outcome(
                            old(self).log(),
                            final(self).log(),
                            old(self).scopes().last().last_statement,
                            old(self).src(),
                            span,
                        )
                    },
                }
            },
    {
        let n = self.scope_stack.len();
        if n == 0 {
            return ;
        }
        let ghost scopes0 = self.scope_stack@;
        let ghost mut ns_mid1 = self.patches@;
        let ghost mut ns_mid2 = self.patches@;
        let mut scope = match self.scope_stack.pop() {
            Some(s) => s,
            None => { return ; },
        };
        scope.current_enum_decl = None;
        scope.current_namespace_decl = None;
        match scope.kind {
            ScopeKind::FunctionWithParamProps(mut f) => {
                f.prologue_scan_state = match f.prologue_scan_state {
                    PrologueScanState::Init => PrologueScanState::End {
                        last_prologue_stmt_end: None,
                    },
                    PrologueScanState::InPrologues { last_prologue_stmt_end } => {
                        if last_prologue_stmt_end != span.end {
                            PrologueScanState::End {
                                last_prologue_stmt_end: Some(last_prologue_stmt_end),
                            }
                        } else {
                            PrologueScanState::InPrologues { last_prologue_stmt_end }
                        }
                    },
                    PrologueScanState::End { last_prologue_stmt_end } => PrologueScanState::End {
                        last_prologue_stmt_end,
                    },
                };
                scope.kind = ScopeKind::FunctionWithParamProps(f);
            },
            ScopeKind::Namespace(mut ns) => {
                proof {
                    lemma_semi_bytes();
                }
                let covered: bool = match self.patches.last() {
                    Some(p) => (p.replacement.len() == 0 || (p.replacement.len() == 1
                        && p.replacement[0] == 59)) && p.start == span.start && p.end == span.end,
                    None => false,
                };
                ns.is_ambient = ns.is_ambient && covered;
                if is_export_named_declaration {
                    let export_start = span.start;
                    let already_removed: bool = match self.patches.last() {
                        Some(p) => p.start == export_start,
                        None => false,
                    };
                    if !already_removed && export_start <= usize::MAX - 6 {
                        self.emit_bsearch(export_start, export_start + 6, Vec::new());
                        proof {
                            ns_mid1 = self.patches@;
                        }
                        let mut assignments: Vec<u8> = Vec::new();
                        if span.end >= 1 && span.end - 1 < self.source.len() {
                            if self.source[span.end - 1] != 59 {
                                assignments.push(59);
                            }
                        }
                        let ghost lead_part = assignments@;
                        let ghost ids = ns.current_stmt_binding_identifiers@.map_values(
                            |v: Vec<u8>| v@,
                        );
                        proof {
                            assert(ids.skip(0) =~= ids);
                            assert(lead_part + ns_export_assignment_bytes(ids) =~= lead_part
                                + ns_export_assignment_bytes(ids));
                        }
                        let m = ns.current_stmt_binding_identifiers.len();
                        let mut k: usize = 0;
                        while k < m
                            invariant
                                k <= m == ns.current_stmt_binding_identifiers@.len(),
                                ids == ns.current_stmt_binding_identifiers@.map_values(
                                    |v: Vec<u8>| v@,
                                ),
                                lead_part + ns_export_assignment_bytes(ids) == assignments@
                                    + ns_export_assignment_bytes(ids.skip(k as int)),
                            decreases m - k,
                        {
                            proof {
                                assert(ids.skip(k as int)[0] == ids[k as int]);
                                assert(ids.skip(k as int).drop_first() =~= ids.skip(k + 1));
                                assert(ids[k as int] == ns.current_stmt_binding_identifiers@[k
                                    as int]@);
                            }
                            let ghost built0 = assignments@;
                            push_str_bytes(&mut assignments, "this.");
                            push_bytes(&mut assignments, &ns.current_stmt_binding_identifiers[k]);
                            push_str_bytes(&mut assignments, "=");
                            push_bytes(&mut assignments, &ns.current_stmt_binding_identifiers[k]);
                            push_str_bytes(&mut assignments, ";");
                            proof {
                                assert(ns_export_assignment_bytes(ids.skip(k as int))
                                    == "this.".spec_bytes() + ids[k as int] + "=".spec_bytes()
                                    + ids[k as int] + ";".spec_bytes()
                                    + ns_export_assignment_bytes(ids.skip(k + 1)));
                                assert(built0 + ns_export_assignment_bytes(ids.skip(k as int))
                                    =~= assignments@ + ns_export_assignment_bytes(
                                    ids.skip(k + 1),
                                ));
                            }
                            k = k + 1;
                        }
                        proof {
                            assert(ns_export_assignment_bytes(ids.skip(m as int)) =~= Seq::<
                                u8,
                            >::empty());
                            assert(assignments@ + ns_export_assignment_bytes(ids.skip(m as int))
                                =~= assignments@);
                            lemma_semi_bytes();
                            assert(assignments@ =~= (if lead_part.len() > 0 {
                                ";".spec_bytes()
                            } else {
                                Seq::<u8>::empty()
                            }) + ns_export_assignment_bytes(ids));
                        }
                        self.emit_push(span.end, span.end, assignments);
                        proof {
                            ns_mid2 = self.patches@;
                        }
                    }
                }
                ns.current_stmt_binding_identifiers = Vec::new();
                scope.kind = ScopeKind::Namespace(ns);
            },
            other_kind => {
                scope.kind = other_kind;
            },
        }
        self.scope_stack.push(scope);
        proof {
            assert(self.scope_stack@.drop_last() =~= scopes0.drop_last());
        }
        let ghost before_asi = self.patches@;
        self.statement_asi(span);
        proof {
            match old(self).scopes().last().kind {
                ScopeKind::Namespace(ns0) => {
                    let already_removed = old(self).log().len() > 0 && old(
                        self,
                    ).log().last().start == span.start;
                    let exporting = is_export_named_declaration && !already_removed && span.start
                        <= usize::MAX - 6;
                    if exporting {
                        let ids_g = ns0.current_stmt_binding_identifiers@.map_values(
                            |v: Vec<u8>| v@,
                        );
                        let assignments_g = ns_export_patch_bytes(old(self).src(), span, ids_g);
                        lemma_semi_bytes();
                        assert(bsearch_outcome(
                            old(self).log(),
                            ns_mid1,
                            span.start as int,
                            span.start + 6,
                            Seq::<u8>::empty(),
                        ));
                        assert(push_outcome(
                            ns_mid1,
                            ns_mid2,
                            span.end as int,
                            span.end as int,
                            assignments_g,
                        ));
                        assert(ns_mid2 == before_asi);
                        assert(stmt_asi_outcome(
                            ns_mid2,
                            self.patches@,
                            old(self).scopes().last().last_statement,
                            old(self).src(),
                            span,
                        ));
                    } else {
                        assert(stmt_asi_outcome(
                            old(self).log(),
                            self.patches@,
                            old(self).scopes().last().last_statement,
                            old(self).src(),
                            span,
                        ));
                    }
                },
                _ => {},
            }
        }
    }

    /// An expression statement has ended: track super-call statements and
    /// directive prologues in a constructor that carries parameter
    /// properties.
    pub fn handle_expression_statement(
        &mut self,
        span: Span,
        expression_is_call: bool,
        call_expression_span: Span,
        expression_is_string_literal: bool,
    )
        ensures
            final(self).src() == old(self).src(),
            final(self).log() == old(self).log(),
            old(self).scopes().len() == 0 ==> final(self).unchanged(*old(self)),
            old(self).scopes().len() > 0 ==> {
                &&& final(self).scopes().len() == old(self).scopes().len()
                &&& final(self).scopes().drop_last() == old(self).scopes().drop_last()
                &&& match old(self).scopes().last().kind {
                    ScopeKind::FunctionWithParamProps(f) => final(self).scopes().last().kind
                        == ScopeKind::FunctionWithParamProps(
                        FunctionWithParamPropsScope {
                            super_call_stmt_end: if expression_is_call
                                && f.last_super_call_expr_span == Some(call_expression_span) {
                                Some(span.end)
                            } else {
                                f.super_call_stmt_end
                            },
                            prologue_scan_state: if expression_is_string_literal && !(
                            f.prologue_scan_state is End) {
                                PrologueScanState::InPrologues {
                                    last_prologue_stmt_end: span.end,
                                }
                            } else {
                                f.prologue_scan_state
                            },
                            ..f
                        },
                    ),
                    _ => final(self).scopes().last() == old(self).scopes().last(),
                }
            },
    {
        let n = self.scope_stack.len();
        if n == 0 {
            return ;
        }
        let ghost scopes0 = self.scope_stack@;
        let mut scope = match self.scope_stack.pop() {
            Some(s) => s,
            None => { return ; },
        };
        match scope.kind {
            ScopeKind::FunctionWithParamProps(mut f) => {
                if expression_is_call {
                    match f.last_super_call_expr_span {
                        Some(sup) => {
                            if sup == call_expression_span {
                                f.super_call_stmt_end = Some(span.end);
                            }
                        },
                        None => {},
                    }
                }
                if expression_is_string_literal {
                    match f.prologue_scan_state {
                        PrologueScanState::End { .. } => {},
                        _ => {
                            f.prologue_scan_state = PrologueScanState::InPrologues {
                                last_prologue_stmt_end: span.end,
                            };
                        },
                    }
                }
                scope.kind = ScopeKind::FunctionWithParamProps(f);
            },
            other_kind => {
                scope.kind = other_kind;
            },
        }
        self.scope_stack.push(scope);
        proof {
            assert(self.scope_stack@.drop_last() =~= scopes0.drop_last());
        }
    }

    /// A call expression has ended: remember the span of a `super(...)`
    /// call inside a constructor that carries parameter properties.
    pub fn handle_call_expression(&mut self, span: Span, callee_is_super: bool)
        ensures
            final(self).src() == old(self).src(),
            final(self).log() == old(self).log(),
            old(self).scopes().len() == 0 ==> final(self).unchanged(*old(self)),
            old(self).scopes().len() > 0 ==> {
                &&& final(self).scopes().len() == old(self).scopes().len()
                &&& final(self).scopes().drop_last() == old(self).scopes().drop_last()
                &&& match old(self).scopes().last().kind {
                    ScopeKind::FunctionWithParamProps(f) => final(self).scopes().last().kind
                        == ScopeKind::FunctionWithParamProps(
                        FunctionWithParamPropsScope {
                            last_super_call_expr_span: if callee_is_super {
                                Some(span)
                            } else {
                                f.last_super_call_expr_span
                            },
                            ..f
                        },
                    ),
                    _ => final(self).scopes().last() == old(self).scopes().last(),
                }
            },
    {
        let n = self.scope_stack.len();
        if n == 0 {
            return ;
        }
        let ghost scopes0 = self.scope_stack@;
        let mut scope = match self.scope_stack.pop() {
            Some(s) => s,
            None => { return ; },
        };
        match scope.kind {
            ScopeKind::FunctionWithParamProps(mut f) => {
                if callee_is_super {
                    f.last_super_call_expr_span = Some(span);
                }
                scope.kind = ScopeKind::FunctionWithParamProps(f);
            },
            other_kind => {
                scope.kind = other_kind;
            },
        }
        self.scope_stack.push(scope);
        proof {
            assert(self.scope_stack@.drop_last() =~= scopes0.drop_last());
        }
    }

    /// Set the replacement of the patch at `index` to `;`, when that patch
    /// exists and currently has an empty replacement.
    fn semicolonize(&mut self, index: usize)
        ensures
            final(self).src() == old(self).src(),
            final(self).scopes() == old(self).scopes(),
            if index < old(self).log().len() && old(self).log()[index as int].replacement@.len()
                == 0 {
                log_semicolonized(old(self).log(), final(self).log(), index as int)
            } else {
                final(self).log() == old(self).log()
            },
    {
        let cond: bool = match self.patches.get(index) {
            Some(p) => p.replacement.len() == 0,
            None => false,
        };
        if !cond {
            return ;
        }
        let mut nr: Vec<u8> = Vec::new();
        nr.push(59);
        proof {
            lemma_semi_bytes();
            assert(nr@ =~= ";".spec_bytes());
            assert(lt_free(nr@));
            assert(old(self).log()[index as int].replacement@ + ";".spec_bytes() =~= nr@);
        }
        let _ = self.patches.set_replacement(index, nr);
    }

    /// The body of a non-block loop statement was stripped whole: make the
    /// strip a bare `;` so the loop keeps a body.
    fn non_block_body_asi(&mut self, span: Span)
        ensures
            final(self).src() == old(self).src(),
            final(self).scopes() == old(self).scopes(),
            body_asi_outcome(old(self).log(), final(self).log(), span),
    {
        let n = self.patches.len();
        if n == 0 {
            return ;
        }
        let cond: bool = match self.patches.last() {
            Some(p) => p.start == span.start && p.end == span.end && p.replacement.len() == 0,
            None => false,
        };
        if cond {
            self.semicolonize(n - 1);
        }
    }

    /// `do ... while` body ASI.
    pub fn handle_do_while_statement(&mut self, body_span: Span)
        ensures
            final(self).src() == old(self).src(),
            final(self).scopes() == old(self).scopes(),
            body_asi_outcome(old(self).log(), final(self).log(), body_span),
    {
        self.non_block_body_asi(body_span);
    }

    /// `while` body ASI.
    pub fn handle_while_statement(&mut self, body_span: Span)
        ensures
            final(self).src() == old(self).src(),
            final(self).scopes() == old(self).scopes(),
            body_asi_outcome(old(self).log(), final(self).log(), body_span),
    {
        self.non_block_body_asi(body_span);
    }

    /// `for` body ASI.
    pub fn handle_for_statement(&mut self, body_span: Span)
        ensures
            final(self).src() == old(self).src(),
            final(self).scopes() == old(self).scopes(),
            body_asi_outcome(old(self).log(), final(self).log(), body_span),
    {
        self.non_block_body_asi(body_span);
    }

    /// `for ... in` body ASI.
    pub fn handle_for_in_statement(&mut self, body_span: Span)
        ensures
            final(self).src() == old(self).src(),
            final(self).scopes() == old(self).scopes(),
            body_asi_outcome(old(self).log(), final(self).log(), body_span),
    {
        self.non_block_body_asi(body_span);
    }

    /// `for ... of` body ASI.
    pub fn handle_for_of_statement(&mut self, body_span: Span)
        ensures
            final(self).src() == old(self).src(),
            final(self).scopes() == old(self).scopes(),
            body_asi_outcome(old(self).log(), final(self).log(), body_span),
    {
        self.non_block_body_asi(body_span);
    }

    /// An `if` statement has ended: a consequent or alternate statement
    /// stripped whole becomes a bare `;`.
    pub fn handle_if_statement(&mut self, consequent_span: Span, alternate_span: Option<Span>)
        ensures
            final(self).src() == old(self).src(),
            final(self).scopes() == old(self).scopes(),
            exists|mid: Seq<Patch>|
                if_outcome(old(self).log(), mid, final(self).log(), consequent_span, alternate_span),
    {
        match alternate_span {
            Some(alt) => {
                self.non_block_body_asi(alt);
                let ghost mid = self.patches@;
                // search for the patch that starts at the consequent
                let n = self.patches.len();
                let mut i: usize = 0;
                let mut found: bool = false;
                while i < n
                    invariant_except_break
                        !found,
                    invariant
                        i <= n == self.patches@.len(),
                        self.patches@ == mid,
                        forall|j: int|
                            0 <= j < i ==> (#[trigger] mid[j]).start
                                != consequent_span.start,
                    ensures
                        i <= n == self.patches@.len(),
                        self.patches@ == mid,
                        forall|j: int|
                            0 <= j < i ==> (#[trigger] mid[j]).start
                                != consequent_span.start,
                        found ==> i < n && mid[i as int].start == consequent_span.start,
                        !found ==> i == n,
                    decreases n - i,
                {
                    let is_match: bool = match self.patches.get(i) {
                        Some(p) => p.start == consequent_span.start,
                        None => false,
                    };
                    if is_match {
                        found = true;
                        break ;
                    }
                    i = i + 1;
                }
                proof {
                    if found {
                        lemma_index_with_start_found(mid, consequent_span.start as nat, i as int);
                    } else {
                        lemma_index_with_start_none(mid, consequent_span.start as nat);
                    }
                }
                if found {
                    let cond: bool = match self.patches.get(i) {
                        Some(p) => p.end == consequent_span.end && p.start
                            == consequent_span.start && p.replacement.len() == 0,
                        None => false,
                    };
                    if cond {
                        self.semicolonize(i);
                    }
                }
                proof {
                    assert(if_outcome(
                        old(self).log(),
                        mid,
                        self.patches@,
                        consequent_span,
                        alternate_span,
                    ));
                }
            },
            None => {
                self.non_block_body_asi(consequent_span);
                proof {
                    assert(if_outcome(
                        old(self).log(),
                        old(self).log(),
                        self.patches@,
                        consequent_span,
                        alternate_span,
                    ));
                }
            },
        }
    }

    /// An object-literal method whose function value was stripped whole is
    /// stripped whole itself.
    pub fn handle_object_property(
        &mut self,
        span: Span,
        is_method: bool,
        function_value_span: Option<Span>,
    )
        ensures
            final(self).src() == old(self).src(),
            final(self).scopes() == old(self).scopes(),
            ({
                let covered = is_method && old(self).log().len() > 0 && match function_value_span {
                    Some(fs) => old(self).log().last().start == fs.start && old(
                        self,
                    ).log().last().end == fs.end,
                    None => false,
                };
                if covered {
                    merge_tail_outcome(
                        old(self).log(),
                        final(self).log(),
                        span.start as int,
                        span.end as int,
                        Seq::<u8>::empty(),
                    )
                } else {
                    final(self).log() == old(self).log()
                }
            }),
    {
        if !is_method {
            return ;
        }
        let fs = match function_value_span {
            Some(fs) => fs,
            None => { return ; },
        };
        let covered: bool = match self.patches.last() {
            Some(p) => p.start == fs.start && p.end == fs.end,
            None => false,
        };
        if covered {
            self.emit_merge_tail(span.start, span.end, Vec::new());
        }
    }

    /// An `export`ed declaration that was already stripped whole takes the
    /// whole export statement with it; a `type`-kind export is stripped
    /// whole; a secondary enum's prelude patch is widened to cover the
    /// `export` keyword.
    pub fn handle_export_named_declaration(
        &mut self,
        span: Span,
        is_type: bool,
        declaration_span: Option<Span>,
        declaration_is_enum: bool,
    )
        ensures
            final(self).src() == old(self).src(),
            final(self).scopes() == old(self).scopes(),
            is_type ==> merge_tail_outcome(
                old(self).log(),
                final(self).log(),
                span.start as int,
                span.end as int,
                Seq::<u8>::empty(),
            ),
            !is_type ==> match declaration_span {
                None => final(self).log() == old(self).log(),
                Some(decl) => {
                    let covered = old(self).log().len() > 0 && old(
                        self,
                    ).log().last().replacement@.len() == 0 && old(self).log().last().start
                        == decl.start && old(self).log().last().end == decl.end;
                    if covered {
                        merge_tail_outcome(
                            old(self).log(),
                            final(self).log(),
                            span.start as int,
                            span.end as int,
                            Seq::<u8>::empty(),
                        )
                    } else if declaration_is_enum && old(self).scopes().len() > 0 && old(
                        self,
                    ).scopes().last().current_enum_decl is Some {
                        let ced = old(self).scopes().last().current_enum_decl->Some_0;
                        if ced.is_secondary {
                            let idx = ced.index_of_patch_before_enum_name as int;
                            let widened_end = if 0 <= idx < old(self).log().len() {
                                old(self).log()[idx].end as int
                            } else {
                                0
                            };
                            respan_outcome(
                                old(self).log(),
                                final(self).log(),
                                idx,
                                span.start as int,
                                widened_end,
                            )
                        } else {
                            final(self).log() == old(self).log()
                        }
                    } else {
                        final(self).log() == old(self).log()
                    }
                },
            },
    {
        if is_type {
            self.emit_merge_tail(span.start, span.end, Vec::new());
            return ;
        }
        let decl_span = match declaration_span {
            Some(d) => d,
            None => { return ; },
        };
        let stripped: bool = match self.patches.last() {
            Some(p) => p.replacement.len() == 0 && p.start == decl_span.start && p.end
                == decl_span.end,
            None => false,
        };
        if stripped {
            self.emit_merge_tail(span.start, span.end, Vec::new());
        } else if declaration_is_enum {
            let n = self.scope_stack.len();
            if n == 0 {
                return ;
            }
            let (is_secondary, idx): (bool, usize) = match &self.scope_stack[n
                - 1].current_enum_decl {
                Some(ced) => (ced.is_secondary, ced.index_of_patch_before_enum_name),
                None => { return ; },
            };
            if is_secondary {
                let old_end: usize = match self.patches.get(idx) {
                    Some(p) => p.end,
                    None => { return ; },
                };
                if span.start <= old_end {
                    let _ = self.patches.set_span(idx, span.start, old_end);
                }
            }
        }
    }

    /// An `export default` declaration whose declaration was stripped whole
    /// is stripped whole itself.
    pub fn handle_export_default_declaration(&mut self, span: Span, declaration_span: Span)
        ensures
            final(self).src() == old(self).src(),
            final(self).scopes() == old(self).scopes(),
            ({
                let covered = old(self).log().len() > 0 && old(self).log().last().start
                    == declaration_span.start && old(self).log().last().end
                    == declaration_span.end;
                if covered {
                    merge_tail_outcome(
                        old(self).log(),
                        final(self).log(),
                        span.start as int,
                        span.end as int,
                        Seq::<u8>::empty(),
                    )
                } else {
                    final(self).log() == old(self).log()
                }
            }),
    {
        let covered: bool = match self.patches.last() {
            Some(p) => p.start == declaration_span.start && p.end == declaration_span.end,
            None => false,
        };
        if covered {
            self.emit_merge_tail(span.start, span.end, Vec::new());
        }
    }

    /// A binding identifier was declared: inside a namespace body, remember
    /// it for the `export` lowering of the current statement.
    pub fn handle_binding_identifier(&mut self, span: Span)
        ensures
            final(self).src() == old(self).src(),
            final(self).log() == old(self).log(),
            old(self).scopes().len() == 0 ==> final(self).unchanged(*old(self)),
            old(self).scopes().len() > 0 ==> {
                &&& final(self).scopes().len() == old(self).scopes().len()
                &&& final(self).scopes().drop_last() == old(self).scopes().drop_last()
                &&& match old(self).scopes().last().kind {
                    ScopeKind::Namespace(ns) => if span.start <= span.end && span.end <= old(
                        self,
                    ).src().len() {
                        &&& final(self).scopes().last().kind matches ScopeKind::Namespace(ns2)
                            && ns2.current_stmt_binding_identifiers@.map_values(|v: Vec<u8>| v@)
                            == ns.current_stmt_binding_identifiers@.map_values(
                            |v: Vec<u8>| v@,
                        ).push(old(self).src().subrange(span.start as int, span.end as int))
                            && ns2.is_ambient == ns.is_ambient
                    } else {
                        final(self).scopes().last() == old(self).scopes().last()
                    },
                    _ => final(self).scopes().last() == old(self).scopes().last(),
                }
            },
    {
        let n = self.scope_stack.len();
        if n == 0 {
            return ;
        }
        if !(span.start <= span.end && span.end <= self.source.len()) {
            return ;
        }
        let ghost scopes0 = self.scope_stack@;
        let mut scope = match self.scope_stack.pop() {
            Some(s) => s,
            None => { return ; },
        };
        match scope.kind {
            ScopeKind::Namespace(mut ns) => {
                let mut id: Vec<u8> = Vec::new();
                let mut j: usize = span.start;
                while j < span.end
                    invariant
                        span.start <= j <= span.end <= self.source@.len(),
                        self.source@ == old(self).src(),
                        id@ == old(self).src().subrange(span.start as int, j as int),
                    decreases span.end - j,
                {
                    id.push(self.source[j]);
                    proof {
                        assert(old(self).src().subrange(span.start as int, j + 1 as int)
                            =~= old(self).src().subrange(span.start as int, j as int)
                            + seq![old(self).src()[j as int]]);
                    }
                    j = j + 1;
                }
                let ghost ids0 = ns.current_stmt_binding_identifiers@;
                ns.current_stmt_binding_identifiers.push(id);
                proof {
                    assert(ns.current_stmt_binding_identifiers@.map_values(|v: Vec<u8>| v@)
                        =~= ids0.map_values(|v: Vec<u8>| v@).push(
                        old(self).src().subrange(span.start as int, span.end as int),
                    ));
                }
                scope.kind = ScopeKind::Namespace(ns);
            },
            other_kind => {
                scope.kind = other_kind;
            },
        }
        self.scope_stack.push(scope);
        proof {
            assert(self.scope_stack@.drop_last() =~= scopes0.drop_last());
        }
    }

    /// A function type has ended: parameter properties recorded inside it
    /// were not real constructor parameters; drop them.
    pub fn handle_ts_function_type(&mut self, span_start: usize)
        ensures
            final(self).src() == old(self).src(),
            final(self).log() == old(self).log(),
            old(self).scopes().len() == 0 ==> final(self).unchanged(*old(self)),
            old(self).scopes().len() > 0 ==> {
                &&& final(self).scopes().len() == old(self).scopes().len()
                &&& final(self).scopes().drop_last() == old(self).scopes().drop_last()
                &&& match old(self).scopes().last().kind {
                    ScopeKind::FunctionWithParamProps(f) => final(self).scopes().last().kind
                        matches ScopeKind::FunctionWithParamProps(f2)
                        && f2.parameter_prop_id_spans@ == drop_trailing_spans(
                        f.parameter_prop_id_spans@,
                        span_start as nat,
                    ) && f2.super_call_stmt_end == f.super_call_stmt_end
                        && f2.last_super_call_expr_span == f.last_super_call_expr_span
                        && f2.prologue_scan_state == f.prologue_scan_state,
                    _ => final(self).scopes().last() == old(self).scopes().last(),
                }
            },
    {
        let n = self.scope_stack.len();
        if n == 0 {
            return ;
        }
        let ghost scopes0 = self.scope_stack@;
        let mut scope = match self.scope_stack.pop() {
            Some(s) => s,
            None => { return ; },
        };
        match scope.kind {
            ScopeKind::FunctionWithParamProps(mut f) => {
                let ghost spans0 = f.parameter_prop_id_spans@;
                let mut keep = f.parameter_prop_id_spans.len();
                proof {
                    assert(f.parameter_prop_id_spans@.take(keep as int)
                        =~= f.parameter_prop_id_spans@);
                }
                while keep > 0 && f.parameter_prop_id_spans[keep - 1].start >= span_start
                    invariant
                        keep <= f.parameter_prop_id_spans@.len(),
                        f.parameter_prop_id_spans@ == spans0,
                        drop_trailing_spans(spans0, span_start as nat) == drop_trailing_spans(
                            spans0.take(keep as int),
                            span_start as nat,
                        ),
                    decreases keep,
                {
                    proof {
                        assert(spans0.take(keep as int).last() == spans0[keep - 1]);
                        assert(spans0.take(keep as int).drop_last() =~= spans0.take(keep - 1));
                    }
                    keep = keep - 1;
                }
                proof {
                    if keep > 0 {
                        assert(spans0.take(keep as int).last() == spans0[keep - 1]);
                    }
                    assert(drop_trailing_spans(spans0.take(keep as int), span_start as nat)
                        == spans0.take(keep as int));
                }
                f.parameter_prop_id_spans.truncate(keep);
                scope.kind = ScopeKind::FunctionWithParamProps(f);
            },
            other_kind => {
                scope.kind = other_kind;
            },
        }
        self.scope_stack.push(scope);
        proof {
            assert(self.scope_stack@.drop_last() =~= scopes0.drop_last());
        }
    }

    /// Rewrite a class element's modifier list: the TypeScript-only
    /// modifiers vanish; `static`, `async` and `accessor` are kept, in that
    /// order. The patch's index is remembered for the class-element ASI
    /// rule. The span covers the modifier list through its trailing
    /// whitespace.
    pub fn handle_class_element_modifiers(&mut self, span: Span, modifiers: ClassElementModifiers)
        ensures
            final(self).src() == old(self).src(),
            old(self).scopes().len() == 0 ==> final(self).unchanged(*old(self)),
            old(self).scopes().len() > 0 ==> {
                &&& final(self).scopes().len() == old(self).scopes().len()
                &&& final(self).scopes().drop_last() == old(self).scopes().drop_last()
                &&& match old(self).scopes().last().kind {
                    ScopeKind::Class(cs) => if modifiers.spec_any_ts() {
                        &&& push_outcome(
                            old(self).log(),
                            final(self).log(),
                            span.start as int,
                            span.end as int,
                            modifier_replacement(modifiers),
                        )
                        &&& final(self).scopes().last().kind matches ScopeKind::Class(cs2)
                            && cs2 == ClassScope {
                            current_element_modifier_patch_index: if final(self).log().len()
                                == old(self).log().len() + 1 {
                                Some(old(self).log().len() as usize)
                            } else {
                                cs.current_element_modifier_patch_index
                            },
                            ..cs
                        }
                    } else {
                        final(self).log() == old(self).log() && final(self).scopes().last()
                            == old(self).scopes().last()
                    },
                    _ => final(self).log() == old(self).log() && final(self).scopes().last()
                        == old(self).scopes().last(),
                }
            },
    {
        if !(modifiers.has_abstract || modifiers.has_declare || modifiers.has_override
            || modifiers.has_readonly || modifiers.has_accessibility) {
            return ;
        }
        let n = self.scope_stack.len();
        if n == 0 {
            return ;
        }
        let is_class: bool = match &self.scope_stack[n - 1].kind {
            ScopeKind::Class(_) => true,
            _ => false,
        };
        if !is_class {
            return ;
        }
        let mut rep: Vec<u8> = Vec::new();
        if modifiers.has_static {
            push_str_bytes(&mut rep, "static ");
        }
        if modifiers.has_async {
            push_str_bytes(&mut rep, "async ");
        }
        if modifiers.has_accessor {
            push_str_bytes(&mut rep, "accessor ");
        }
        proof {
            assert(rep@ =~= modifier_replacement(modifiers));
        }
        let index_before = self.patches.len();
        let ghost log0 = self.patches@;
        self.emit_push(span.start, span.end, rep);
        let accepted = self.patches.len() > index_before;
        let ghost scopes0 = self.scope_stack@;
        let mut scope = match self.scope_stack.pop() {
            Some(s) => s,
            None => { return ; },
        };
        match scope.kind {
            ScopeKind::Class(mut cs) => {
                if accepted {
                    cs.current_element_modifier_patch_index = Some(index_before);
                }
                scope.kind = ScopeKind::Class(cs);
            },
            other_kind => {
                scope.kind = other_kind;
            },
        }
        self.scope_stack.push(scope);
        proof {
            assert(self.scope_stack@.drop_last() =~= scopes0.drop_last());
        }
    }

    /// A class element has ended: apply the class-element ASI rule (a
    /// following element whose emptied modifier patch starts the element is
    /// prefixed with `;`), then reset the per-element state.
    pub fn handle_class_element(&mut self, span: Span)
        ensures
            final(self).src() == old(self).src(),
            old(self).scopes().len() == 0 ==> final(self).unchanged(*old(self)),
            old(self).scopes().len() > 0 ==> {
                &&& final(self).scopes().len() == old(self).scopes().len()
                &&& final(self).scopes().drop_last() == old(self).scopes().drop_last()
                &&& match old(self).scopes().last().kind {
                    ScopeKind::Class(cs) => {
                        &&& final(self).scopes().last().kind matches ScopeKind::Class(cs2)
                            && cs2 == ClassScope {
                            current_element_modifier_patch_index: None,
                            has_seen_element: true,
                            ..cs
                        }
                        &&& ({
                            let rewrite = cs.has_seen_element && match (
                            cs.current_element_modifier_patch_index) {
                                Some(i) => i < old(self).log().len() && old(
                                    self,
                                ).log()[i as int].start == span.start && old(
                                    self,
                                ).log()[i as int].replacement@.len() == 0,
                                None => false,
                            };
                            if rewrite {
                                log_semicolonized(
                                    old(self).log(),
                                    final(self).log(),
                                    cs.current_element_modifier_patch_index->Some_0 as int,
                                )
                            } else {
                                final(self).log() == old(self).log()
                            }
                        })
                    },
                    _ => final(self).log() == old(self).log() && final(self).scopes().last()
                        == old(self).scopes().last(),
                }
            },
    {
        let n = self.scope_stack.len();
        if n == 0 {
            return ;
        }
        let (was_seen, stored): (bool, Option<usize>) = match &self.scope_stack[n - 1].kind {
            ScopeKind::Class(cs) => (cs.has_seen_element, cs.current_element_modifier_patch_index),
            _ => { return ; },
        };
        if was_seen {
            match stored {
                Some(i) => {
                    let cond: bool = match self.patches.get(i) {
                        Some(p) => p.start == span.start && p.replacement.len() == 0,
                        None => false,
                    };
                    if cond {
                        self.semicolonize(i);
                    }
                },
                None => {},
            }
        }
        let ghost scopes0 = self.scope_stack@;
        let mut scope = match self.scope_stack.pop() {
            Some(s) => s,
            None => { return ; },
        };
        match scope.kind {
            ScopeKind::Class(mut cs) => {
                cs.current_element_modifier_patch_index = None;
                cs.has_seen_element = true;
                scope.kind = ScopeKind::Class(cs);
            },
            other_kind => {
                scope.kind = other_kind;
            },
        }
        self.scope_stack.push(scope);
        proof {
            assert(self.scope_stack@.drop_last() =~= scopes0.drop_last());
        }
    }

    /// An enum head (`enum A`) was seen: remember the declaration, open the
    /// IIFE after the name (`;(function(A){`, reusing existing members of a
    /// secondary enum), and turn the keywords before the name into `var `.
    pub fn handle_ts_enum_head(&mut self, span_start: usize, id_span: Span)
        ensures
            final(self).src() == old(self).src(),
            old(self).scopes().len() == 0 ==> final(self).unchanged(*old(self)),
            old(self).scopes().len() > 0 ==> {
                let name = span_bytes(old(self).src(), id_span);
                let sets = old(self).scopes().last().enum_members_by_name@;
                let found = enum_sets_index(sets, name) != -1;
                let existing = if found {
                    Some(
                        sets[enum_sets_index(sets, name)].member_identifiers@.map_values(
                            |v: Vec<u8>| v@,
                        ),
                    )
                } else {
                    None
                };
                &&& final(self).scopes().len() == old(self).scopes().len()
                &&& final(self).scopes().drop_last() == old(self).scopes().drop_last()
                &&& final(self).scopes().last().current_enum_decl matches Some(ced)
                    && ced.enum_name@ == name && ced.index_of_patch_before_enum_name == old(
                    self,
                ).log().len() && ced.is_secondary == found
                &&& final(self).scopes().last().kind == old(self).scopes().last().kind
                &&& final(self).scopes().last().last_statement == old(
                    self,
                ).scopes().last().last_statement
                &&& final(self).scopes().last().enum_members_by_name == old(
                    self,
                ).scopes().last().enum_members_by_name
                &&& exists|mid: Seq<Patch>|
                    push_outcome(
                        old(self).log(),
                        mid,
                        span_start as int,
                        id_span.start as int,
                        "var ".spec_bytes(),
                    ) && push_outcome(
                        mid,
                        final(self).log(),
                        id_span.end as int,
                        id_span.end as int,
                        enum_open_bytes(name, existing),
                    )
            },
    {
        let n = self.scope_stack.len();
        if n == 0 {
            return ;
        }
        let name = span_to_bytes(&self.source, id_span);
        let ghost scopes0 = self.scope_stack@;
        let mut scope = match self.scope_stack.pop() {
            Some(s) => s,
            None => { return ; },
        };
        // look the name up among the enums already seen in this scope
        let sets_len = scope.enum_members_by_name.len();
        let ghost sets = scope.enum_members_by_name@;
        let mut k: usize = 0;
        let mut found: bool = false;
        while k < sets_len
            invariant_except_break
                !found,
            invariant
                k <= sets_len == sets.len(),
                scope.enum_members_by_name@ == sets,
                name@ == span_bytes(old(self).src(), id_span),
                forall|j: int| 0 <= j < k ==> (#[trigger] sets[j]).enum_name@ != name@,
            ensures
                k <= sets_len == sets.len(),
                scope.enum_members_by_name@ == sets,
                name@ == span_bytes(old(self).src(), id_span),
                forall|j: int| 0 <= j < k ==> (#[trigger] sets[j]).enum_name@ != name@,
                found ==> k < sets.len() && sets[k as int].enum_name@ == name@,
                !found ==> k == sets_len,
            decreases sets_len - k,
        {
            if bytes_eq(&scope.enum_members_by_name[k].enum_name, &name) {
                found = true;
                break ;
            }
            k = k + 1;
        }
        proof {
            if found {
                lemma_enum_sets_index_found(sets, name@, k as int);
            } else {
                lemma_enum_sets_index_none(sets, name@);
            }
        }
        let mut existing_ids: Vec<u8> = Vec::new();
        let mut has_existing_nonempty: bool = false;
        if found {
            let entry = &scope.enum_members_by_name[k];
            let m = entry.member_identifiers.len();
            if m > 0 {
                has_existing_nonempty = true;
                let ghost ids = entry.member_identifiers@.map_values(|v: Vec<u8>| v@);
                proof {
                    assert(ids.skip(0) =~= ids);
                    assert(Seq::<u8>::empty() + joined_ids(ids) =~= joined_ids(ids));
                }
                let mut t: usize = 0;
                while t < m
                    invariant
                        0 < m == entry.member_identifiers@.len(),
                        t <= m,
                        ids == entry.member_identifiers@.map_values(|v: Vec<u8>| v@),
                        joined_ids(ids) == existing_ids@ + joined_ids(ids.skip(t as int)),
                    decreases m - t,
                {
                    proof {
                        assert(ids.skip(t as int)[0] == ids[t as int]);
                        assert(ids.skip(t as int).drop_first() =~= ids.skip(t + 1));
                        assert(ids[t as int] == entry.member_identifiers@[t as int]@);
                    }
                    let ghost built0 = existing_ids@;
                    push_bytes(&mut existing_ids, &entry.member_identifiers[t]);
                    if t + 1 < m {
                        push_str_bytes(&mut existing_ids, ",");
                        proof {
                            assert(joined_ids(ids.skip(t as int)) == ids[t as int]
                                + ",".spec_bytes() + joined_ids(ids.skip(t + 1)));
                            assert(built0 + joined_ids(ids.skip(t as int)) =~= existing_ids@
                                + joined_ids(ids.skip(t + 1)));
                        }
                    } else {
                        proof {
                            assert(ids.skip(t as int).len() == 1);
                            assert(joined_ids(ids.skip(t as int)) == ids[t as int]);
                            assert(joined_ids(ids.skip(t + 1)) =~= Seq::<u8>::empty());
                            assert(built0 + joined_ids(ids.skip(t as int)) =~= existing_ids@
                                + joined_ids(ids.skip(t + 1)));
                        }
                    }
                    t = t + 1;
                }
                proof {
                    assert(joined_ids(ids.skip(m as int)) =~= Seq::<u8>::empty());
                    assert(existing_ids@ + joined_ids(ids.skip(m as int)) =~= existing_ids@);
                }
            }
        }
        scope.current_enum_decl = Some(
            CurrentEnumDeclaration {
                enum_name: name_clone(&name),
                index_of_patch_before_enum_name: self.patches.len(),
                is_secondary: found,
            },
        );
        self.scope_stack.push(scope);
        proof {
            assert(self.scope_stack@.drop_last() =~= scopes0.drop_last());
        }
        self.emit_push(span_start, id_span.start, str_to_bytes("var "));
        let ghost mid = self.patches@;
        let mut rep: Vec<u8> = Vec::new();
        push_str_bytes(&mut rep, ";(function(");
        push_bytes(&mut rep, &name);
        push_str_bytes(&mut rep, "){");
        if has_existing_nonempty {
            push_str_bytes(&mut rep, "var {");
            push_bytes(&mut rep, &existing_ids);
            push_str_bytes(&mut rep, "}=");
            push_bytes(&mut rep, &name);
            push_str_bytes(&mut rep, ";");
        }
        proof {
            let sets_g = old(self).scopes().last().enum_members_by_name@;
            let name_g = span_bytes(old(self).src(), id_span);
            let existing_g = if enum_sets_index(sets_g, name_g) != -1 {
                Some(
                    sets_g[enum_sets_index(sets_g, name_g)].member_identifiers@.map_values(
                        |v: Vec<u8>| v@,
                    ),
                )
            } else {
                None
            };
            assert(rep@ =~= enum_open_bytes(name_g, existing_g));
        }
        self.emit_push(id_span.end, id_span.end, rep);
        proof {
            let sets_g = old(self).scopes().last().enum_members_by_name@;
            let name_g = span_bytes(old(self).src(), id_span);
            let existing_g = if enum_sets_index(sets_g, name_g) != -1 {
                Some(
                    sets_g[enum_sets_index(sets_g, name_g)].member_identifiers@.map_values(
                        |v: Vec<u8>| v@,
                    ),
                )
            } else {
                None
            };
            assert(push_outcome(
                old(self).log(),
                mid,
                span_start as int,
                id_span.start as int,
                "var ".spec_bytes(),
            ) && push_outcome(
                mid,
                self.patches@,
                id_span.end as int,
                id_span.end as int,
                enum_open_bytes(name_g, existing_g),
            ));
        }
    }

    /// An enum member's name was seen: record it; a string-literal name that
    /// is a valid identifier is unquoted in place, any other non-identifier
    /// name starts the reverse-map pattern `this[this[<name>]`.
    pub fn handle_ts_enum_member_name(&mut self, name_info: EnumMemberNameInfo)
        ensures
            final(self).src() == old(self).src(),
            old(self).scopes().len() == 0 ==> final(self).unchanged(*old(self)),
            old(self).scopes().len() > 0 ==> match old(self).scopes().last().kind {
                ScopeKind::Enum(es) => {
                    &&& final(self).scopes().len() == old(self).scopes().len()
                    &&& final(self).scopes().drop_last() == old(self).scopes().drop_last()
                    &&& final(self).scopes().last().kind matches ScopeKind::Enum(es2)
                        && es2.member_names@.len() == es.member_names@.len() + 1
                        && es2.member_names@.drop_last() == es.member_names@ && match name_info {
                        EnumMemberNameInfo::Identifier { span } => {
                            &&& es2.member_names@.last().value@ == span_bytes(
                                old(self).src(),
                                span,
                            )
                            &&& es2.member_names@.last().is_identifier
                            &&& final(self).log() == old(self).log()
                        },
                        EnumMemberNameInfo::StringLiteral { span, value } => {
                            if spec_is_identifier_name(value@) {
                                &&& es2.member_names@.last().value@ == encode_utf8(value@)
                                &&& es2.member_names@.last().is_identifier
                                &&& merge_tail_outcome(
                                    old(self).log(),
                                    final(self).log(),
                                    span.start as int,
                                    span.end as int,
                                    encode_utf8(value@),
                                )
                            } else {
                                &&& es2.member_names@.last().value@ == span_bytes(
                                    old(self).src(),
                                    span,
                                )
                                &&& !es2.member_names@.last().is_identifier
                                &&& merge_tail_outcome(
                                    old(self).log(),
                                    final(self).log(),
                                    span.start as int,
                                    span.end as int,
                                    enum_quoted_name_bytes(span_bytes(old(self).src(), span)),
                                )
                            }
                        },
                        EnumMemberNameInfo::OtherName { span } => {
                            &&& es2.member_names@.last().value@ == span_bytes(
                                old(self).src(),
                                span,
                            )
                            &&& !es2.member_names@.last().is_identifier
                            &&& merge_tail_outcome(
                                old(self).log(),
                                final(self).log(),
                                span.start as int,
                                span.end as int,
                                enum_quoted_name_bytes(span_bytes(old(self).src(), span)),
                            )
                        },
                    }
                },
                _ => final(self).unchanged(*old(self)),
            },
    {
        let n = self.scope_stack.len();
        if n == 0 {
            return ;
        }
        let is_enum: bool = match &self.scope_stack[n - 1].kind {
            ScopeKind::Enum(_) => true,
            _ => false,
        };
        if !is_enum {
            return ;
        }
        let name: EnumName = match &name_info {
            EnumMemberNameInfo::Identifier { span } => EnumName {
                value: span_to_bytes(&self.source, *span),
                is_identifier: true,
            },
            EnumMemberNameInfo::StringLiteral { span, value } => {
                if is_identifier_name(value.as_str()) {
                    let mut v: Vec<u8> = Vec::new();
                    push_str_bytes(&mut v, value.as_str());
                    EnumName { value: v, is_identifier: true }
                } else {
                    EnumName { value: span_to_bytes(&self.source, *span), is_identifier: false }
                }
            },
            EnumMemberNameInfo::OtherName { span } => EnumName {
                value: span_to_bytes(&self.source, *span),
                is_identifier: false,
            },
        };
        let sp: Span = match &name_info {
            EnumMemberNameInfo::Identifier { span } => *span,
            EnumMemberNameInfo::StringLiteral { span, .. } => *span,
            EnumMemberNameInfo::OtherName { span } => *span,
        };
        if !name.is_identifier {
            let mut rep: Vec<u8> = Vec::new();
            push_str_bytes(&mut rep, "this[this[");
            push_bytes(&mut rep, &name.value);
            push_str_bytes(&mut rep, "]");
            proof {
                assert(rep@ =~= enum_quoted_name_bytes(span_bytes(old(self).src(), sp)));
            }
            self.emit_merge_tail(sp.start, sp.end, rep);
        } else {
            let is_string: bool = match &name_info {
                EnumMemberNameInfo::StringLiteral { .. } => true,
                _ => false,
            };
            if is_string {
                self.emit_merge_tail(sp.start, sp.end, name_clone(&name.value));
            }
        }
        let ghost scopes0 = self.scope_stack@;
        let mut scope = match self.scope_stack.pop() {
            Some(s) => s,
            None => { return ; },
        };
        match scope.kind {
            ScopeKind::Enum(mut es) => {
                let ghost names0 = es.member_names@;
                es.member_names.push(name);
                proof {
                    assert(es.member_names@.drop_last() =~= names0);
                }
                scope.kind = ScopeKind::Enum(es);
            },
            other_kind => {
                scope.kind = other_kind;
            },
        }
        self.scope_stack.push(scope);
        proof {
            assert(self.scope_stack@.drop_last() =~= scopes0.drop_last());
        }
    }

    /// An enum member has ended: after its value position (and through a
    /// trailing comma), supply the auto value when there was no initializer
    /// and fold the member into the enum object and its reverse map.
    #[verifier::rlimit(100)]
    #[verifier::spinoff_prover]
    pub fn handle_ts_enum_member(&mut self, span_end: usize, has_initializer: bool)
        ensures
            final(self).src() == old(self).src(),
            final(self).scopes() == old(self).scopes(),
            ({
                if old(self).scopes().len() > 0 {
                    match old(self).scopes().last().kind {
                        ScopeKind::Enum(es) => if es.member_names@.len() > 0 {
                            let tail_end = if span_end < old(self).src().len() && old(
                                self,
                            ).src()[span_end as int] == 44 {
                                span_end + 1
                            } else {
                                span_end as int
                            };
                            push_outcome(
                                old(self).log(),
                                final(self).log(),
                                span_end as int,
                                tail_end,
                                enum_member_tail_bytes(es.member_names@, has_initializer),
                            )
                        } else {
                            final(self).log() == old(self).log()
                        },
                        _ => final(self).log() == old(self).log(),
                    }
                } else {
                    final(self).log() == old(self).log()
                }
            }),
    {
        let n = self.scope_stack.len();
        if n == 0 {
            return ;
        }
        let mut rep: Vec<u8> = Vec::new();
        match &self.scope_stack[n - 1].kind {
            ScopeKind::Enum(es) => {
                let m = es.member_names.len();
                if m == 0 {
                    return ;
                }
                if !has_initializer {
                    push_str_bytes(&mut rep, "=");
                    if m >= 2 {
                        let prev = &es.member_names[m - 2];
                        if prev.is_identifier {
                            push_bytes(&mut rep, &prev.value);
                        } else {
                            push_str_bytes(&mut rep, "this[");
                            push_bytes(&mut rep, &prev.value);
                            push_str_bytes(&mut rep, "]");
                        }
                        push_str_bytes(&mut rep, "+1");
                    } else {
                        push_str_bytes(&mut rep, "0");
                    }
                }
                let cur = &es.member_names[m - 1];
                if cur.is_identifier {
                    push_str_bytes(&mut rep, ";var ");
                    push_bytes(&mut rep, &cur.value);
                    push_str_bytes(&mut rep, ";this[this.");
                    push_bytes(&mut rep, &cur.value);
                    push_str_bytes(&mut rep, "=");
                    push_bytes(&mut rep, &cur.value);
                    push_str_bytes(&mut rep, "]='");
                    push_bytes(&mut rep, &cur.value);
                    push_str_bytes(&mut rep, "';");
                } else {
                    push_str_bytes(&mut rep, "]=");
                    push_bytes(&mut rep, &cur.value);
                    push_str_bytes(&mut rep, ";");
                }
                proof {
                    assert(es.member_names@.last() == es.member_names@[m - 1]);
                    assert(rep@ =~= enum_member_tail_bytes(es.member_names@, has_initializer));
                }
            },
            _ => { return ; },
        }
        let mut end = span_end;
        if span_end < self.source.len() {
            if self.source[span_end] == 44 {
                end = span_end + 1;
            }
        }
        self.emit_push(span_end, end, rep);
    }

    /// An enum declaration has ended: a `declare` enum is stripped whole;
    /// otherwise the IIFE is closed with `}).call(A||(A={}),A);`.
    pub fn handle_ts_enum_declaration(&mut self, span: Span, declare: bool, id_span: Span)
        ensures
            final(self).src() == old(self).src(),
            final(self).scopes() == old(self).scopes(),
            declare ==> merge_tail_outcome(
                old(self).log(),
                final(self).log(),
                span.start as int,
                span.end as int,
                Seq::<u8>::empty(),
            ),
            !declare ==> push_outcome(
                old(self).log(),
                final(self).log(),
                span.end as int,
                span.end as int,
                enum_close_bytes(span_bytes(old(self).src(), id_span)),
            ),
    {
        if declare {
            self.emit_merge_tail(span.start, span.end, Vec::new());
            return ;
        }
        let id = span_to_bytes(&self.source, id_span);
        let mut rep: Vec<u8> = Vec::new();
        push_str_bytes(&mut rep, "}).call(");
        push_bytes(&mut rep, &id);
        push_str_bytes(&mut rep, "||(");
        push_bytes(&mut rep, &id);
        push_str_bytes(&mut rep, "={}),");
        push_bytes(&mut rep, &id);
        push_str_bytes(&mut rep, ");");
        proof {
            assert(rep@ =~= enum_close_bytes(span_bytes(old(self).src(), id_span)));
        }
        self.emit_push(span.end, span.end, rep);
    }

    /// A formal parameter that carries a property-making modifier
    /// (`override`, `readonly`, or an accessibility keyword) declares a
    /// parameter property; record its identifier span in the function's
    /// scope.
    pub fn handle_formal_parameter(&mut self, makes_property: bool, pattern: ParamPatternInfo)
        ensures
            final(self).src() == old(self).src(),
            final(self).log() == old(self).log(),
            !makes_property ==> final(self).scopes() == old(self).scopes(),
            old(self).scopes().len() == 0 ==> final(self).unchanged(*old(self)),
            makes_property && old(self).scopes().len() > 0 ==> {
                &&& final(self).scopes().len() == old(self).scopes().len()
                &&& final(self).scopes().drop_last() == old(self).scopes().drop_last()
                &&& match param_prop_span(old(self).src(), pattern) {
                    Some(sp) => match old(self).scopes().last().kind {
                        ScopeKind::Other => final(self).scopes().last().kind matches
                            ScopeKind::FunctionWithParamProps(f2) && f2.parameter_prop_id_spans@
                            == seq![sp] && f2.super_call_stmt_end.is_none()
                            && f2.last_super_call_expr_span.is_none() && f2.prologue_scan_state
                            is Init,
                        ScopeKind::FunctionWithParamProps(f) => final(self).scopes().last().kind matches ScopeKind::FunctionWithParamProps(f2)
                            && f2.parameter_prop_id_spans@ == f.parameter_prop_id_spans@.push(sp)
                            && f2.super_call_stmt_end == f.super_call_stmt_end
                            && f2.last_super_call_expr_span == f.last_super_call_expr_span
                            && f2.prologue_scan_state == f.prologue_scan_state,
                        _ => final(self).scopes().last() == old(self).scopes().last(),
                    },
                    None => final(self).scopes() == old(self).scopes(),
                }
            },
    {
        if !makes_property {
            return ;
        }
        self.handle_property_parameter(pattern);
    }

    /// Record a parameter property's identifier span: for a plain
    /// identifier, up to its optional mark or type annotation; for an
    /// initialized parameter, the source is scanned up to the first byte
    /// that can end the name. Destructuring patterns declare no property.
    fn handle_property_parameter(&mut self, pattern: ParamPatternInfo)
        ensures
            final(self).src() == old(self).src(),
            final(self).log() == old(self).log(),
            old(self).scopes().len() == 0 ==> final(self).unchanged(*old(self)),
            old(self).scopes().len() > 0 ==> {
                &&& final(self).scopes().len() == old(self).scopes().len()
                &&& final(self).scopes().drop_last() == old(self).scopes().drop_last()
                &&& match param_prop_span(old(self).src(), pattern) {
                    Some(sp) => match old(self).scopes().last().kind {
                        ScopeKind::Other => final(self).scopes().last().kind matches
                            ScopeKind::FunctionWithParamProps(f2) && f2.parameter_prop_id_spans@
                            == seq![sp] && f2.super_call_stmt_end.is_none()
                            && f2.last_super_call_expr_span.is_none() && f2.prologue_scan_state
                            is Init,
                        ScopeKind::FunctionWithParamProps(f) => final(self).scopes().last().kind matches ScopeKind::FunctionWithParamProps(f2)
                            && f2.parameter_prop_id_spans@ == f.parameter_prop_id_spans@.push(sp)
                            && f2.super_call_stmt_end == f.super_call_stmt_end
                            && f2.last_super_call_expr_span == f.last_super_call_expr_span
                            && f2.prologue_scan_state == f.prologue_scan_state,
                        _ => final(self).scopes().last() == old(self).scopes().last(),
                    },
                    None => final(self).scopes() == old(self).scopes(),
                }
            },
    {
        let n = self.scope_stack.len();
        if n == 0 {
            return ;
        }
        let param_id_span: Span = match pattern {
            ParamPatternInfo::Identifier { id_span, optional_start, type_annotation_start } => {
                let end: usize = match optional_start {
                    Some(o) => o,
                    None => match type_annotation_start {
                        Some(t) => t,
                        None => id_span.end,
                    },
                };
                Span { start: id_span.start, end }
            },
            ParamPatternInfo::Assignment { span } => {
                if span.start < self.source.len() && (self.source[span.start] == 123
                    || self.source[span.start] == 91) {
                    return ;
                }
                let mut end: usize = span.start;
                while end <= span.end && end < self.source.len() && !(self.source[end] == 63
                    || self.source[end] == 61 || self.source[end] == 44 || self.source[end] == 41
                    || self.source[end] == 47 || self.source[end] == 58)
                    invariant
                        span.start <= end,
                        param_scan_end(self.source@, span.start as int, span.end as int)
                            == param_scan_end(self.source@, end as int, span.end as int),
                    decreases span.end + 1 - end,
                {
                    end = end + 1;
                }
                Span { start: span.start, end }
            },
            ParamPatternInfo::OtherPattern => { return ; },
        };
        let ghost scopes0 = self.scope_stack@;
        let mut scope = match self.scope_stack.pop() {
            Some(s) => s,
            None => { return ; },
        };
        match scope.kind {
            ScopeKind::Other => {
                let mut spans: Vec<Span> = Vec::new();
                spans.push(param_id_span);
                scope.kind = ScopeKind::FunctionWithParamProps(
                    FunctionWithParamPropsScope {
                        parameter_prop_id_spans: spans,
                        super_call_stmt_end: None,
                        last_super_call_expr_span: None,
                        prologue_scan_state: PrologueScanState::Init,
                    },
                );
            },
            ScopeKind::FunctionWithParamProps(mut f) => {
                f.parameter_prop_id_spans.push(param_id_span);
                scope.kind = ScopeKind::FunctionWithParamProps(f);
            },
            other_kind => {
                scope.kind = other_kind;
            },
        }
        self.scope_stack.push(scope);
        proof {
            assert(self.scope_stack@.drop_last() =~= scopes0.drop_last());
        }
    }

    /// A namespace declaration's name was seen: remember the declaration and
    /// emit the prelude around the name: `var A;(function(` before it, `){`
    /// after it.
    pub fn handle_ts_module_declaration_name(&mut self, name_info: ModuleNameInfo)
        ensures
            final(self).src() == old(self).src(),
            old(self).scopes().len() == 0 ==> final(self).unchanged(*old(self)),
            name_info is OtherModuleName ==> final(self).unchanged(*old(self)),
            old(self).scopes().len() > 0 ==> match name_info {
                ModuleNameInfo::Identifier { span } => {
                    let name = span_bytes(old(self).src(), span);
                    &&& final(self).scopes().len() == old(self).scopes().len()
                    &&& final(self).scopes().drop_last() == old(self).scopes().drop_last()
                    &&& final(self).scopes().last().current_namespace_decl matches Some(cnd)
                        && cnd.namespace_name@ == name
                        && cnd.index_of_patch_before_namespace_name == old(self).log().len()
                        && cnd.is_ambient
                    &&& final(self).scopes().last().kind == old(self).scopes().last().kind
                    &&& final(self).scopes().last().last_statement == old(
                        self,
                    ).scopes().last().last_statement
                    &&& final(self).scopes().last().current_enum_decl == old(
                        self,
                    ).scopes().last().current_enum_decl
                    &&& exists|mid: Seq<Patch>|
                        push_outcome(
                            old(self).log(),
                            mid,
                            span.start as int,
                            span.start as int,
                            ns_open_bytes(name),
                        ) && push_outcome(
                            mid,
                            final(self).log(),
                            span.end as int,
                            span.end as int,
                            "){".spec_bytes(),
                        )
                },
                ModuleNameInfo::OtherModuleName => true,
            },
    {
        let span: Span = match name_info {
            ModuleNameInfo::Identifier { span } => span,
            ModuleNameInfo::OtherModuleName => { return ; },
        };
        let n = self.scope_stack.len();
        if n == 0 {
            return ;
        }
        let name = span_to_bytes(&self.source, span);
        let ghost scopes0 = self.scope_stack@;
        let mut scope = match self.scope_stack.pop() {
            Some(s) => s,
            None => { return ; },
        };
        scope.current_namespace_decl = Some(
            CurrentNamespaceDeclaration {
                namespace_name: name_clone(&name),
                index_of_patch_before_namespace_name: self.patches.len(),
                is_ambient: true,
            },
        );
        self.scope_stack.push(scope);
        proof {
            assert(self.scope_stack@.drop_last() =~= scopes0.drop_last());
        }
        let mut rep: Vec<u8> = Vec::new();
        push_str_bytes(&mut rep, "var ");
        push_bytes(&mut rep, &name);
        push_str_bytes(&mut rep, ";(function(");
        proof {
            assert(rep@ =~= ns_open_bytes(span_bytes(old(self).src(), span)));
        }
        self.emit_push(span.start, span.start, rep);
        let ghost mid = self.patches@;
        self.emit_push(span.end, span.end, str_to_bytes("){"));
        proof {
            assert(push_outcome(
                old(self).log(),
                mid,
                span.start as int,
                span.start as int,
                ns_open_bytes(span_bytes(old(self).src(), span)),
            ) && push_outcome(
                mid,
                self.patches@,
                span.end as int,
                span.end as int,
                "){".spec_bytes(),
            ));
        }
    }

    /// A namespace declaration has ended. A `declare` or ambient-only
    /// namespace is stripped whole. Otherwise the prelude patch is widened
    /// to cover the keywords, a nested `A.B` loses its dot, and the body is
    /// closed with `}).call(...)`; the enclosing namespace, if any, is
    /// thereby known non-ambient.
    #[verifier::rlimit(100)]
    #[verifier::spinoff_prover]
    pub fn handle_ts_module_declaration(
        &mut self,
        span: Span,
        declare: bool,
        id_start: usize,
        inner_module_start: Option<usize>,
    )
        ensures
            final(self).src() == old(self).src(),
            declare ==> final(self).scopes() == old(self).scopes() && merge_tail_outcome(
                old(self).log(),
                final(self).log(),
                span.start as int,
                span.end as int,
                Seq::<u8>::empty(),
            ),
            ({
                let ambient = !declare && old(self).scopes().len() > 0 && match old(
                    self,
                ).scopes().last().current_namespace_decl {
                    Some(cnd) => cnd.is_ambient,
                    None => false,
                };
                ambient ==> final(self).scopes() == old(self).scopes() && merge_tail_outcome(
                    old(self).log(),
                    final(self).log(),
                    span.start as int,
                    span.end as int,
                    Seq::<u8>::empty(),
                )
            }),
            final(self).scopes().len() == old(self).scopes().len(),
            old(self).scopes().len() > 0 ==> final(self).scopes().drop_last() == old(
                self,
            ).scopes().drop_last(),
            ({
                let n = old(self).scopes().len();
                let lowered = !declare && n > 0 && match old(
                    self,
                ).scopes().last().current_namespace_decl {
                    Some(cnd) => !cnd.is_ambient,
                    None => false,
                };
                let nested = span.start == id_start && n >= 2 && old(self).scopes()[n
                    - 2].current_namespace_decl is Some;
                let nested_parent = if nested {
                    Some(
                        old(self).scopes()[n - 2].current_namespace_decl->Some_0.namespace_name@,
                    )
                } else {
                    None
                };
                let prelude_idx = old(self).scopes().last().current_namespace_decl
                    ->Some_0.index_of_patch_before_namespace_name as int;
                let prelude_name = old(self).scopes().last().current_namespace_decl
                    ->Some_0.namespace_name@;
                let prelude_end = if 0 <= prelude_idx < old(self).log().len() {
                    old(self).log()[prelude_idx].end as int
                } else {
                    0
                };
                let close = match nested_parent {
                    Some(parent) => ns_close_nested_bytes(prelude_name, parent),
                    None => ns_close_bytes(prelude_name),
                };
                lowered ==> exists|mid1: Seq<Patch>, mid2: Seq<Patch>|
                    #[trigger] module_inner_outcome(mid1, mid2, inner_module_start, prelude_idx)
                        && respan_outcome(
                        old(self).log(),
                        mid1,
                        prelude_idx,
                        span.start as int,
                        prelude_end,
                    ) && push_outcome(
                        mid2,
                        final(self).log(),
                        span.end as int,
                        span.end as int,
                        close,
                    )
            }),
            ({
                let n = old(self).scopes().len();
                let lowered = !declare && n > 0 && match old(
                    self,
                ).scopes().last().current_namespace_decl {
                    Some(cnd) => !cnd.is_ambient,
                    None => false,
                };
                if lowered {
                    &&& final(self).scopes().last().last_statement == old(
                        self,
                    ).scopes().last().last_statement
                    &&& final(self).scopes().last().enum_members_by_name == old(
                        self,
                    ).scopes().last().enum_members_by_name
                    &&& final(self).scopes().last().current_enum_decl == old(
                        self,
                    ).scopes().last().current_enum_decl
                    &&& final(self).scopes().last().current_namespace_decl == old(
                        self,
                    ).scopes().last().current_namespace_decl
                    &&& match old(self).scopes().last().kind {
                        ScopeKind::Namespace(ns) => final(self).scopes().last().kind
                            == ScopeKind::Namespace(NamespaceScope { is_ambient: false, ..ns }),
                        _ => final(self).scopes().last().kind == old(self).scopes().last().kind,
                    }
                } else {
                    final(self).scopes() == old(self).scopes()
                }
            }),
    {
        if declare {
            self.emit_merge_tail(span.start, span.end, Vec::new());
            return ;
        }
        let n = self.scope_stack.len();
        if n == 0 {
            return ;
        }
        let (ns_name, idx): (Vec<u8>, usize) = match &self.scope_stack[n
            - 1].current_namespace_decl {
            Some(cnd) => {
                if cnd.is_ambient {
                    self.emit_merge_tail(span.start, span.end, Vec::new());
                    return ;
                }
                (name_clone(&cnd.namespace_name), cnd.index_of_patch_before_namespace_name)
            },
            None => { return ; },
        };
        // widen the prelude patch to start at the declaration's start
        match self.patches.get(idx) {
            Some(p) => {
                let prelude_end = p.end;
                if span.start <= prelude_end {
                    let _ = self.patches.set_span(idx, span.start, prelude_end);
                }
            },
            None => {},
        }
        let ghost mid1 = self.patches@;
        proof {
            let prelude_end_g = if 0 <= idx < old(self).log().len() {
                old(self).log()[idx as int].end as int
            } else {
                0
            };
            assert(respan_outcome(
                old(self).log(),
                mid1,
                idx as int,
                span.start as int,
                prelude_end_g,
            ));
        }
        // for `namespace A.B`, widen the `){` patch to swallow the dot
        match inner_module_start {
            Some(inner) => {
                if idx < usize::MAX {
                    match self.patches.get(idx + 1) {
                        Some(p) => {
                            let after_start = p.start;
                            if after_start <= inner {
                                let _ = self.patches.set_span(idx + 1, after_start, inner);
                            }
                        },
                        None => {},
                    }
                }
            },
            None => {},
        }
        let ghost mid2 = self.patches@;
        proof {
            match inner_module_start {
                None => {
                    assert(mid2 == mid1);
                },
                Some(inner) => {
                    assert(module_inner_outcome(mid1, mid2, inner_module_start, idx as int));
                },
            }
        }
        let mut rep: Vec<u8> = Vec::new();
        if span.start == id_start && n >= 2 {
            // `namespace B` of `namespace A.B`: bind through the parent
            let parent_name: Option<Vec<u8>> = match &self.scope_stack[n
                - 2].current_namespace_decl {
                Some(pnd) => Some(name_clone(&pnd.namespace_name)),
                None => None,
            };
            match parent_name {
                Some(parent) => {
                    push_str_bytes(&mut rep, "}).call(");
                    push_bytes(&mut rep, &ns_name);
                    push_str_bytes(&mut rep, "=");
                    push_bytes(&mut rep, &parent);
                    push_str_bytes(&mut rep, ".");
                    push_bytes(&mut rep, &ns_name);
                    push_str_bytes(&mut rep, "||(");
                    push_bytes(&mut rep, &parent);
                    push_str_bytes(&mut rep, ".");
                    push_bytes(&mut rep, &ns_name);
                    push_str_bytes(&mut rep, "={}),");
                    push_bytes(&mut rep, &parent);
                    push_str_bytes(&mut rep, ".");
                    push_bytes(&mut rep, &ns_name);
                    push_str_bytes(&mut rep, ");");
                    proof {
                        assert(rep@ =~= ns_close_nested_bytes(ns_name@, parent@));
                    }
                },
                None => {
                    push_str_bytes(&mut rep, "}).call(");
                    push_bytes(&mut rep, &ns_name);
                    push_str_bytes(&mut rep, "||(");
                    push_bytes(&mut rep, &ns_name);
                    push_str_bytes(&mut rep, "={}),");
                    push_bytes(&mut rep, &ns_name);
                    push_str_bytes(&mut rep, ");");
                    proof {
                        assert(rep@ =~= ns_close_bytes(ns_name@));
                    }
                },
            }
        } else {
            push_str_bytes(&mut rep, "}).call(");
            push_bytes(&mut rep, &ns_name);
            push_str_bytes(&mut rep, "||(");
            push_bytes(&mut rep, &ns_name);
            push_str_bytes(&mut rep, "={}),");
            push_bytes(&mut rep, &ns_name);
            push_str_bytes(&mut rep, ");");
            proof {
                assert(rep@ =~= ns_close_bytes(ns_name@));
            }
        }
        self.emit_push(span.end, span.end, rep);
        let ghost scopes0 = self.scope_stack@;
        let mut scope = match self.scope_stack.pop() {
            Some(s) => s,
            None => { return ; },
        };
        match scope.kind {
            ScopeKind::Namespace(mut ns) => {
                ns.is_ambient = false;
                scope.kind = ScopeKind::Namespace(ns);
            },
            other_kind => {
                scope.kind = other_kind;
            },
        }
        self.scope_stack.push(scope);
        proof {
            assert(self.scope_stack@.drop_last() =~= scopes0.drop_last());
            let prelude_idx = old(self).scopes().last().current_namespace_decl
                ->Some_0.index_of_patch_before_namespace_name as int;
            let prelude_name = old(self).scopes().last().current_namespace_decl
                ->Some_0.namespace_name@;
            let prelude_end = if 0 <= prelude_idx < old(self).log().len() {
                old(self).log()[prelude_idx].end as int
            } else {
                0
            };
            let n_g = old(self).scopes().len();
            let nested = span.start == id_start && n_g >= 2 && old(self).scopes()[n_g
                - 2].current_namespace_decl is Some;
            let nested_parent = if nested {
                Some(
                    old(self).scopes()[n_g - 2].current_namespace_decl->Some_0.namespace_name@,
                )
            } else {
                None
            };
            let close = match nested_parent {
                Some(parent) => ns_close_nested_bytes(prelude_name, parent),
                None => ns_close_bytes(prelude_name),
            };
            assert(idx as int == prelude_idx);
            assert(respan_outcome(old(self).log(), mid1, prelude_idx, span.start as int,
                prelude_end));
            assert(module_inner_outcome(mid1, mid2, inner_module_start, prelude_idx));
            assert(push_outcome(mid2, self.patches@, span.end as int, span.end as int, close));
        }
    }

    /// A class body was completed: insert the field declarations for the
    /// parameter properties of the first constructor right after the `{`.
    pub fn handle_class_body(&mut self, span_start: usize)
        ensures
            final(self).src() == old(self).src(),
            final(self).scopes() == old(self).scopes(),
            old(self).scopes().len() > 0 && span_start < usize::MAX ==> match old(
                self,
            ).scopes().last().kind {
                ScopeKind::Class(cs) => bsearch_outcome(
                    old(self).log(),
                    final(self).log(),
                    span_start + 1,
                    span_start + 1,
                    prop_decls_bytes(
                        spans_ids(
                            old(self).src(),
                            cs.parameter_prop_id_spans_in_first_constructor@,
                        ),
                    ),
                ),
                _ => final(self).log() == old(self).log(),
            },
    {
        let n = self.scope_stack.len();
        if n == 0 || span_start >= usize::MAX {
            return ;
        }
        let mut rep: Vec<u8> = Vec::new();
        match &self.scope_stack[n - 1].kind {
            ScopeKind::Class(cs) => {
                let spans = &cs.parameter_prop_id_spans_in_first_constructor;
                let m = spans.len();
                let ghost ids = spans_ids(old(self).src(), spans@);
                proof {
                    assert(ids.skip(0) =~= ids);
                    assert(Seq::<u8>::empty() + prop_decls_bytes(ids) =~= prop_decls_bytes(ids));
                }
                let mut t: usize = 0;
                while t < m
                    invariant
                        t <= m == spans@.len(),
                        self.source@ == old(self).src(),
                        ids == spans_ids(old(self).src(), spans@),
                        prop_decls_bytes(ids) == rep@ + prop_decls_bytes(ids.skip(t as int)),
                    decreases m - t,
                {
                    proof {
                        assert(ids.skip(t as int)[0] == ids[t as int]);
                        assert(ids.skip(t as int).drop_first() =~= ids.skip(t + 1));
                        assert(ids[t as int] == span_bytes(old(self).src(), spans@[t as int]));
                    }
                    let ghost built0 = rep@;
                    push_str_bytes(&mut rep, " ");
                    let id = span_to_bytes(&self.source, spans[t]);
                    push_bytes(&mut rep, &id);
                    push_str_bytes(&mut rep, ";");
                    proof {
                        assert(prop_decls_bytes(ids.skip(t as int)) == " ".spec_bytes()
                            + ids[t as int] + ";".spec_bytes() + prop_decls_bytes(
                            ids.skip(t + 1),
                        ));
                        assert(built0 + prop_decls_bytes(ids.skip(t as int)) =~= rep@
                            + prop_decls_bytes(ids.skip(t + 1)));
                    }
                    t = t + 1;
                }
                proof {
                    assert(prop_decls_bytes(ids.skip(m as int)) =~= Seq::<u8>::empty());
                    assert(rep@ + prop_decls_bytes(ids.skip(m as int)) =~= rep@);
                }
            },
            _ => { return ; },
        }
        self.emit_bsearch(span_start + 1, span_start + 1, rep);
    }

    /// A method definition has ended. One whose function part was stripped
    /// whole (overload signature, ambient body) is stripped whole. For a
    /// constructor with a body, the parameter-property initializations are
    /// assembled and inserted at the recorded insert point (or after the
    /// body's `{`); for any other method the parameter-property state it
    /// produced is discarded.
    #[verifier::rlimit(100)]
    #[verifier::spinoff_prover]
    pub fn handle_method_definition(
        &mut self,
        span: Span,
        value_span: Span,
        is_constructor: bool,
        body_start: Option<usize>,
    )
        ensures
            final(self).src() == old(self).src(),
            old(self).scopes().len() == 0 ==> final(self).scopes() == old(self).scopes(),
            old(self).scopes().len() > 0 ==> {
                &&& final(self).scopes().len() == old(self).scopes().len()
                &&& final(self).scopes().drop_last() == old(self).scopes().drop_last()
                &&& match old(self).scopes().last().kind {
                    ScopeKind::Class(cs) => {
                        let builds = is_constructor && body_start.is_some();
                        let b0 = if body_start is Some {
                            body_start->Some_0
                        } else {
                            0
                        };
                        &&& exists|mid: Seq<Patch>|
                            method_strip_outcome(old(self).log(), mid, span, value_span) && (if
                            builds {
                                ctor_init_outcome(
                                    mid,
                                    final(self).log(),
                                    old(self).src(),
                                    spans_ids(old(self).src(), cs.parameter_prop_id_spans@),
                                    cs.parameter_prop_init_insert_start,
                                    b0,
                                )
                            } else {
                                final(self).log() == mid
                            })
                        &&& if builds {
                            final(self).scopes().last().kind == old(self).scopes().last().kind
                        } else {
                            final(self).scopes().last().kind matches ScopeKind::Class(cs2)
                                && cs2 == ClassScope {
                                parameter_prop_id_spans_in_first_constructor: if
                                    cs.parameter_prop_id_spans_in_first_constructor@.len() > 0
                                    && cs.parameter_prop_id_spans_in_first_constructor@[0].start
                                    >= span.start {
                                    cs2.parameter_prop_id_spans_in_first_constructor
                                } else {
                                    cs.parameter_prop_id_spans_in_first_constructor
                                },
                                parameter_prop_id_spans: cs2.parameter_prop_id_spans,
                                parameter_prop_init_insert_start: None,
                                ..cs
                            } && cs2.parameter_prop_id_spans@.len() == 0 && (
                            cs.parameter_prop_id_spans_in_first_constructor@.len() > 0
                                && cs.parameter_prop_id_spans_in_first_constructor@[0].start
                                >= span.start
                                ==> cs2.parameter_prop_id_spans_in_first_constructor@.len() == 0)
                        }
                    },
                    _ => {
                        &&& exists|mid: Seq<Patch>|
                            method_strip_outcome(old(self).log(), mid, span, value_span)
                                && final(self).log() == mid
                        &&& final(self).scopes().last() == old(self).scopes().last()
                    },
                }
            },
    {
        let n = self.scope_stack.len();
        if n == 0 {
            return ;
        }
        let stripped_fn: bool = match self.patches.last() {
            Some(p) => p.start == value_span.start && p.end == value_span.end
                && p.replacement.len() == 0,
            None => false,
        };
        if stripped_fn {
            self.emit_merge_tail(span.start, span.end, Vec::new());
        }
        let ghost mid = self.patches@;
        let ghost scopes0 = self.scope_stack@;
        let mut scope = match self.scope_stack.pop() {
            Some(s) => s,
            None => { return ; },
        };
        match scope.kind {
            ScopeKind::Class(mut cs) => {
                let builds = is_constructor && body_start.is_some();
                if builds {
                    // assemble ` this.a = a; this.b = b;`
                    let mut items: Vec<u8> = Vec::new();
                    let spans = &cs.parameter_prop_id_spans;
                    let m = spans.len();
                    let ghost ids = spans_ids(old(self).src(), spans@);
                    proof {
                        assert(ids.skip(0) =~= ids);
                        assert(Seq::<u8>::empty() + prop_init_bytes(ids) =~= prop_init_bytes(
                            ids,
                        ));
                    }
                    let mut t: usize = 0;
                    while t < m
                        invariant
                            t <= m == spans@.len(),
                            self.source@ == old(self).src(),
                            ids == spans_ids(old(self).src(), spans@),
                            prop_init_bytes(ids) == items@ + prop_init_bytes(ids.skip(t as int)),
                        decreases m - t,
                    {
                        proof {
                            assert(ids.skip(t as int)[0] == ids[t as int]);
                            assert(ids.skip(t as int).drop_first() =~= ids.skip(t + 1));
                            assert(ids[t as int] == span_bytes(old(self).src(), spans@[t as int]));
                        }
                        let ghost built0 = items@;
                        push_str_bytes(&mut items, "this.");
                        let id = span_to_bytes(&self.source, spans[t]);
                        push_bytes(&mut items, &id);
                        push_str_bytes(&mut items, "=");
                        push_bytes(&mut items, &id);
                        push_str_bytes(&mut items, ";");
                        proof {
                            assert(prop_init_bytes(ids.skip(t as int)) == "this.".spec_bytes()
                                + ids[t as int] + "=".spec_bytes() + ids[t as int]
                                + ";".spec_bytes() + prop_init_bytes(ids.skip(t + 1)));
                            assert(built0 + prop_init_bytes(ids.skip(t as int)) =~= items@
                                + prop_init_bytes(ids.skip(t + 1)));
                        }
                        t = t + 1;
                    }
                    proof {
                        assert(prop_init_bytes(ids.skip(m as int)) =~= Seq::<u8>::empty());
                        assert(items@ + prop_init_bytes(ids.skip(m as int)) =~= items@);
                    }
                    match cs.parameter_prop_init_insert_start {
                        Some(insert_start) => {
                            let mut code: Vec<u8> = Vec::new();
                            push_str_bytes(&mut code, ";");
                            push_bytes(&mut code, &items);
                            proof {
                                assert(code@ =~= ";".spec_bytes() + prop_init_bytes(ids));
                            }
                            if insert_start >= 1 && insert_start - 1 < self.source.len()
                                && self.source[insert_start - 1] == 59 {
                                self.emit_bsearch(insert_start - 1, insert_start, code);
                            } else {
                                self.emit_bsearch(insert_start, insert_start, code);
                            }
                        },
                        None => {
                            let b: usize = match body_start {
                                Some(b) => b,
                                None => 0,
                            };
                            if b < usize::MAX {
                                self.emit_bsearch(b + 1, b + 1, items);
                            }
                        },
                    }
                } else {
                    let clear_first: bool = match cs
                        .parameter_prop_id_spans_in_first_constructor
                        .len() {
                        0 => false,
                        _ => cs.parameter_prop_id_spans_in_first_constructor[0].start
                            >= span.start,
                    };
                    if clear_first {
                        cs.parameter_prop_id_spans_in_first_constructor = Vec::new();
                    }
                    cs.parameter_prop_id_spans = Vec::new();
                    cs.parameter_prop_init_insert_start = None;
                }
                scope.kind = ScopeKind::Class(cs);
            },
            other_kind => {
                scope.kind = other_kind;
            },
        }
        self.scope_stack.push(scope);
        proof {
            assert(self.scope_stack@.drop_last() =~= scopes0.drop_last());
            assert(method_strip_outcome(old(self).log(), mid, span, value_span));
            let b0: usize = if body_start is Some {
                body_start->Some_0
            } else {
                0
            };
            match old(self).scopes().last().kind {
                ScopeKind::Class(cs) => {
                    let builds = is_constructor && body_start.is_some();
                    if builds {
                        assert(ctor_init_outcome(
                            mid,
                            self.patches@,
                            old(self).src(),
                            spans_ids(old(self).src(), cs.parameter_prop_id_spans@),
                            cs.parameter_prop_init_insert_start,
                            b0,
                        ));
                    }
                },
                _ => {},
            }
        }
    }

    /// An arrow function has ended: a stripped type-parameter list is
    /// repainted into the opening parenthesis, and a stripped return type is
    /// repainted so that the parameters' closing parenthesis moves to just
    /// before the arrow, keeping the arrow's column.
    #[verifier::rlimit(100)]
    #[verifier::spinoff_prover]
    pub fn handle_arrow_function_expression(
        &mut self,
        type_parameters_span: Option<Span>,
        params_span: Span,
        return_type_span: Option<Span>,
    )
        ensures
            final(self).src() == old(self).src(),
            final(self).scopes() == old(self).scopes(),
            exists|mid: Seq<Patch>|
                arrow_tp_outcome(old(self).log(), mid, type_parameters_span, params_span)
                    && arrow_rt_outcome(mid, final(self).log(), return_type_span, params_span),
    {
        match type_parameters_span {
            Some(t) => {
                let (found, i) = self.find_patch_by_start(t.start);
                if found {
                    let n = self.patches.len();
                    let applicable: bool = match self.patches.get(i) {
                        Some(p) => p.end == t.end && p.replacement.len() == 0 && params_span.start
                            < usize::MAX && t.start <= params_span.start + 1 && (i + 1 == n || {
                            match self.patches.get(i + 1) {
                                Some(q) => params_span.start + 1 <= q.start,
                                None => false,
                            }
                        }),
                        None => false,
                    };
                    if applicable {
                        let mut rep: Vec<u8> = Vec::new();
                        rep.push(40);
                        proof {
                            reveal_strlit("(");
                            vstd::string::is_ascii_spec_bytes("(");
                            assert(rep@ =~= "(".spec_bytes());
                            assert(lt_free(rep@));
                            use_type_invariant(&self.patches);
                        }
                        let ok1 = self.patches.set_replacement(i, rep);
                        proof {
                            use_type_invariant(&self.patches);
                        }
                        let ok2 = self.patches.set_span(i, t.start, params_span.start + 1);
                    }
                }
            },
            None => {},
        }
        let ghost mid = self.patches@;
        proof {
            assert(arrow_tp_outcome(old(self).log(), mid, type_parameters_span, params_span));
        }
        match return_type_span {
            Some(r) => {
                let (found, i) = self.find_patch_by_start(r.start);
                if found {
                    let n = self.patches.len();
                    let (applicable, p_end): (bool, usize) = match self.patches.get(i) {
                        Some(p) => (params_span.end >= 1 && p.end >= 1 && params_span.end - 1
                            <= p.end - 1 && (i == 0 || {
                            match self.patches.get(i - 1) {
                                Some(q) => q.end <= params_span.end - 1,
                                None => false,
                            }
                        }) && (i + 1 == n || {
                            match self.patches.get(i + 1) {
                                Some(q) => p.end <= q.start,
                                None => false,
                            }
                        }), p.end),
                        None => (false, 0),
                    };
                    if applicable {
                        proof {
                            use_type_invariant(&self.patches);
                        }
                        let ok1 = self.patches.set_span(i, params_span.end - 1, p_end - 1);
                        let mut rep: Vec<u8> = Vec::new();
                        rep.push(41);
                        proof {
                            reveal_strlit(")");
                            vstd::string::is_ascii_spec_bytes(")");
                            assert(rep@ =~= ")".spec_bytes());
                            assert(lt_free(rep@));
                            use_type_invariant(&self.patches);
                        }
                        let ghost log1 = self.patches@;
                        let closing = Patch { start: p_end - 1, end: p_end, replacement: rep };
                        let ghost closing_snapshot = closing;
                        let ok2 = self.patches.insert(i + 1, closing);
                        proof {
                            if ok2 {
                                log1.insert_ensures(i + 1, closing_snapshot);
                            }
                        }
                    }
                }
            },
            None => {},
        }
        proof {
            assert(arrow_rt_outcome(mid, self.patches@, return_type_span, params_span));
        }
    }

    /// Find the index of the first patch that starts exactly at `start`.
    fn find_patch_by_start(&self, start: usize) -> (r: (bool, usize))
        ensures
            r.0 ==> 0 <= index_with_start(self.log(), start as nat) == r.1 < self.log().len()
                && self.log()[r.1 as int].start == start,
            !r.0 ==> index_with_start(self.log(), start as nat) == -1,
    {
        let n = self.patches.len();
        let mut i: usize = 0;
        let mut found: bool = false;
        while i < n
            invariant_except_break
                !found,
            invariant
                i <= n == self.log().len(),
                forall|j: int| 0 <= j < i ==> (#[trigger] self.log()[j]).start != start,
            ensures
                i <= n == self.log().len(),
                forall|j: int| 0 <= j < i ==> (#[trigger] self.log()[j]).start != start,
                found ==> i < n && self.log()[i as int].start == start,
                !found ==> i == n,
            decreases n - i,
        {
            let is_match: bool = match self.patches.get(i) {
                Some(p) => p.start == start,
                None => false,
            };
            if is_match {
                found = true;
                break ;
            }
            i = i + 1;
        }
        proof {
            if found {
                lemma_index_with_start_found(self.log(), start as nat, i as int);
            } else {
                lemma_index_with_start_none(self.log(), start as nat);
            }
        }
        (found, i)
    }

    /// The parser left a scope: pop it and fold its findings into the
    /// parent. A constructor scope hands its parameter properties and init
    /// insert point to the class; an enum body hands its identifier members
    /// to the scope's per-name member sets; a non-ambient namespace body
    /// marks the namespace declaration non-ambient.
    #[verifier::rlimit(100)]
    #[verifier::spinoff_prover]
    pub fn leave_scope(&mut self)
        ensures
            final(self).src() == old(self).src(),
            final(self).log() == old(self).log(),
            old(self).scopes().len() < 2 ==> final(self).scopes() == old(self).scopes(),
            old(self).scopes().len() >= 2 ==> {
                let popped = old(self).scopes().last();
                let par = old(self).scopes()[old(self).scopes().len() - 2];
                let newlast = final(self).scopes().last();
                &&& final(self).scopes().len() == old(self).scopes().len() - 1
                &&& final(self).scopes().drop_last() == old(self).scopes().drop_last().drop_last()
                &&& match popped.kind {
                    ScopeKind::FunctionWithParamProps(f) => match par.kind {
                        ScopeKind::Class(cs) => newlast.kind matches ScopeKind::Class(cs2) && cs2
                            == ClassScope {
                            parameter_prop_id_spans_in_first_constructor: if
                                cs.parameter_prop_id_spans_in_first_constructor@.len() == 0 {
                                cs2.parameter_prop_id_spans_in_first_constructor
                            } else {
                                cs.parameter_prop_id_spans_in_first_constructor
                            },
                            parameter_prop_id_spans: f.parameter_prop_id_spans,
                            parameter_prop_init_insert_start: match f.super_call_stmt_end {
                                Some(e) => Some(e),
                                None => match f.prologue_scan_state {
                                    PrologueScanState::InPrologues { last_prologue_stmt_end } => {
                                        Some(last_prologue_stmt_end)
                                    },
                                    PrologueScanState::End { last_prologue_stmt_end } => {
                                        last_prologue_stmt_end
                                    },
                                    PrologueScanState::Init => None,
                                },
                            },
                            ..cs
                        } && (cs.parameter_prop_id_spans_in_first_constructor@.len() == 0
                            ==> cs2.parameter_prop_id_spans_in_first_constructor@
                            == f.parameter_prop_id_spans@) && newlast == Scope {
                            kind: newlast.kind,
                            ..par
                        },
                        _ => newlast == par,
                    },
                    ScopeKind::Enum(es) => {
                        &&& newlast == Scope { enum_members_by_name: newlast.enum_members_by_name, ..par }
                        &&& match par.current_enum_decl {
                            None => newlast.enum_members_by_name == par.enum_members_by_name,
                            Some(ced) => {
                                let sets0 = par.enum_members_by_name@;
                                let newsets = newlast.enum_members_by_name@;
                                let i0 = enum_sets_index(sets0, ced.enum_name@);
                                if i0 == -1 {
                                    &&& newsets.len() == sets0.len() + 1
                                    &&& newsets.take(sets0.len() as int) == sets0
                                    &&& newsets.last().enum_name@ == ced.enum_name@
                                    &&& newsets.last().member_identifiers@.map_values(
                                        |v: Vec<u8>| v@,
                                    ) == merged_member_ids(
                                        Seq::<Seq<u8>>::empty(),
                                        es.member_names@,
                                    )
                                } else {
                                    &&& newsets.len() == sets0.len()
                                    &&& forall|j: int|
                                        0 <= j < sets0.len() && j != i0 ==> #[trigger] newsets[j]
                                            == sets0[j]
                                    &&& newsets[i0].enum_name@ == ced.enum_name@
                                    &&& newsets[i0].member_identifiers@.map_values(
                                        |v: Vec<u8>| v@,
                                    ) == merged_member_ids(
                                        sets0[i0].member_identifiers@.map_values(|v: Vec<u8>| v@),
                                        es.member_names@,
                                    )
                                }
                            },
                        }
                    },
                    ScopeKind::Namespace(ns) => if !ns.is_ambient {
                        newlast == Scope { current_namespace_decl: newlast.current_namespace_decl, ..par }
                            && match par.current_namespace_decl {
                            Some(cnd) => newlast.current_namespace_decl matches Some(cnd2) && cnd2
                                == CurrentNamespaceDeclaration { is_ambient: false, ..cnd },
                            None => newlast.current_namespace_decl.is_none(),
                        }
                    } else {
                        newlast == par
                    },
                    _ => newlast == par,
                }
            },
    {
        let n = self.scope_stack.len();
        if n < 2 {
            return ;
        }
        let ghost scopes0 = self.scope_stack@;
        let popped = match self.scope_stack.pop() {
            Some(s) => s,
            None => { return ; },
        };
        let mut parent = match self.scope_stack.pop() {
            Some(s) => s,
            None => { return ; },
        };
        match popped.kind {
            ScopeKind::FunctionWithParamProps(f) => {
                match parent.kind {
                    ScopeKind::Class(mut cs) => {
                        if cs.parameter_prop_id_spans_in_first_constructor.len() == 0 {
                            let mut copy: Vec<Span> = Vec::new();
                            let m = f.parameter_prop_id_spans.len();
                            let mut t: usize = 0;
                            while t < m
                                invariant
                                    t <= m == f.parameter_prop_id_spans@.len(),
                                    copy@ == f.parameter_prop_id_spans@.take(t as int),
                                decreases m - t,
                            {
                                copy.push(f.parameter_prop_id_spans[t]);
                                proof {
                                    assert(f.parameter_prop_id_spans@.take(t + 1)
                                        =~= f.parameter_prop_id_spans@.take(t as int).push(
                                        f.parameter_prop_id_spans@[t as int],
                                    ));
                                }
                                t = t + 1;
                            }
                            proof {
                                assert(copy@ =~= f.parameter_prop_id_spans@);
                            }
                            cs.parameter_prop_id_spans_in_first_constructor = copy;
                        }
                        cs.parameter_prop_init_insert_start = match f.super_call_stmt_end {
                            Some(e) => Some(e),
                            None => match f.prologue_scan_state {
                                PrologueScanState::InPrologues { last_prologue_stmt_end } => Some(
                                    last_prologue_stmt_end,
                                ),
                                PrologueScanState::End { last_prologue_stmt_end } => {
                                    last_prologue_stmt_end
                                },
                                PrologueScanState::Init => None,
                            },
                        };
                        cs.parameter_prop_id_spans = f.parameter_prop_id_spans;
                        parent.kind = ScopeKind::Class(cs);
                    },
                    other_kind => {
                        parent.kind = other_kind;
                    },
                }
            },
            ScopeKind::Enum(es) => {
                match &parent.current_enum_decl {
                    Some(ced) => {
                        let mut sets = parent.enum_members_by_name;
                        let ghost sets_g = sets@;
                        let (found, at) = find_member_set(&sets, &ced.enum_name);
                        let idx: usize;
                        if found {
                            idx = at;
                        } else {
                            sets.push(
                                EnumMemberSet {
                                    enum_name: name_clone(&ced.enum_name),
                                    member_identifiers: Vec::new(),
                                },
                            );
                            idx = sets.len() - 1;
                            proof {
                                assert(sets@[idx as int].enum_name@ == ced.enum_name@);
                                assert forall|j: int| 0 <= j < idx implies (#[trigger] sets@[j]).enum_name@
                                    != ced.enum_name@ by {
                                    assert(sets@[j] == sets_g[j]);
                                }
                                lemma_enum_sets_index_found(sets@, ced.enum_name@, idx as int);
                            }
                        }
                        let ghost sets_with_entry = sets@;
                        proof {
                            sets_with_entry.remove_ensures(idx as int);
                        }
                        let mut entry = sets.remove(idx);
                        let ghost entry_ids0 = entry.member_identifiers@.map_values(
                            |v: Vec<u8>| v@,
                        );
                        let m = es.member_names.len();
                        let mut t: usize = 0;
                        proof {
                            assert(es.member_names@.skip(0) =~= es.member_names@);
                        }
                        while t < m
                            invariant
                                t <= m == es.member_names@.len(),
                                entry.enum_name@ == ced.enum_name@,
                                merged_member_ids(entry_ids0, es.member_names@)
                                    == merged_member_ids(
                                    entry.member_identifiers@.map_values(|v: Vec<u8>| v@),
                                    es.member_names@.skip(t as int),
                                ),
                            decreases m - t,
                        {
                            let ghost names_rest = es.member_names@.skip(t as int);
                            let ghost cur_ids = entry.member_identifiers@.map_values(
                                |v: Vec<u8>| v@,
                            );
                            proof {
                                assert(names_rest[0] == es.member_names@[t as int]);
                                assert(names_rest.drop_first() =~= es.member_names@.skip(t + 1));
                            }
                            if es.member_names[t].is_identifier {
                                let has_pos = find_id(
                                    &entry.member_identifiers,
                                    &es.member_names[t].value,
                                );
                                proof {
                                    // membership carries over to the identifier texts
                                    if has_pos.0 {
                                        let w = choose|w: int|
                                            0 <= w < entry.member_identifiers@.len() && (
                                            #[trigger] entry.member_identifiers@[w])@
                                                == es.member_names@[t as int].value@;
                                        assert(cur_ids[w] == es.member_names@[t as int].value@);
                                        assert(id_seqs_contain(
                                            cur_ids,
                                            es.member_names@[t as int].value@,
                                        ));
                                    } else {
                                        assert forall|w: int| 0 <= w < cur_ids.len() implies
                                            #[trigger] cur_ids[w] != es.member_names@[t
                                            as int].value@ by {
                                            assert(entry.member_identifiers@[w]@ == cur_ids[w]);
                                        }
                                        assert(!id_seqs_contain(
                                            cur_ids,
                                            es.member_names@[t as int].value@,
                                        ));
                                    }
                                }
                                if !has_pos.0 {
                                    entry.member_identifiers.push(
                                        name_clone(&es.member_names[t].value),
                                    );
                                    proof {
                                        assert(entry.member_identifiers@.map_values(
                                            |v: Vec<u8>| v@,
                                        ) =~= cur_ids.push(es.member_names@[t as int].value@));
                                    }
                                }
                            }
                            t = t + 1;
                        }
                        proof {
                            assert(es.member_names@.skip(m as int) =~= Seq::<EnumName>::empty());
                            assert(merged_member_ids(entry_ids0, es.member_names@)
                                == entry.member_identifiers@.map_values(|v: Vec<u8>| v@));
                        }
                        let ghost sets_before = sets@;
                        let ghost entry_g = entry;
                        sets.insert(idx, entry);
                        proof {
                            sets_before.insert_ensures(idx as int, entry_g);
                            assert(sets@[idx as int].enum_name@ == ced.enum_name@);
                            assert forall|j: int| 0 <= j < idx implies (#[trigger] sets@[j]).enum_name@
                                != ced.enum_name@ by {
                                assert(sets@[j] == sets_before[j]);
                                assert(sets_before[j] == sets_with_entry[j]);
                                assert(sets_with_entry[j] == sets_g[j]);
                            }
                            lemma_enum_sets_index_found(sets@, ced.enum_name@, idx as int);
                            // relate the result to the parent's sets, entry by entry
                            if found {
                                assert(idx < sets_g.len());
                                assert(sets_with_entry == sets_g);
                                assert(entry_ids0 == sets_g[idx as int].member_identifiers@
                                    .map_values(|v: Vec<u8>| v@));
                                assert forall|j: int|
                                    0 <= j < sets_g.len() && j != idx implies #[trigger] sets@[j]
                                        == sets_g[j] by {
                                    if j < idx {
                                        assert(sets@[j] == sets_before[j]);
                                        assert(sets_before[j] == sets_with_entry[j]);
                                    } else {
                                        assert(sets@[j] == sets_before[j - 1]);
                                        assert(sets_before[j - 1] == sets_with_entry[j]);
                                    }
                                }
                            } else {
                                assert(idx == sets_g.len());
                                assert(sets_with_entry == sets_g.push(
                                    sets_with_entry[idx as int],
                                ));
                                assert(entry_ids0 =~= Seq::<Seq<u8>>::empty());
                                assert forall|j: int| 0 <= j < sets_g.len() implies #[trigger]
                                    sets@[j] == sets_g[j] by {
                                    assert(sets@[j] == sets_before[j]);
                                    assert(sets_before[j] == sets_with_entry[j]);
                                    assert(sets_with_entry[j] == sets_g[j]);
                                }
                                assert(sets@.take(sets_g.len() as int) =~= sets_g);
                                assert(sets@.last() == sets@[idx as int]);
                            }
                        }
                        parent.enum_members_by_name = sets;
                    },
                    None => {},
                }
            },
            ScopeKind::Namespace(ns) => {
                if !ns.is_ambient {
                    match parent.current_namespace_decl {
                        Some(mut cnd) => {
                            cnd.is_ambient = false;
                            parent.current_namespace_decl = Some(cnd);
                        },
                        None => {
                            parent.current_namespace_decl = None;
                        },
                    }
                }
            },
            _ => {},
        }
        self.scope_stack.push(parent);
        proof {
            assert(self.scope_stack@.drop_last() =~= scopes0.drop_last().drop_last());
        }
    }

    /// Strip a formal parameter's modifier keywords (`public a` loses
    /// `public`; the parameter itself stays).
    pub fn handle_formal_parameter_modifiers(&mut self, span: Span)
        ensures
            final(self).src() == old(self).src(),
            final(self).scopes() == old(self).scopes(),
            merge_tail_outcome(
                old(self).log(),
                final(self).log(),
                span.start as int,
                span.end as int,
                Seq::<u8>::empty(),
            ),
    {
        self.emit_merge_tail(span.start, span.end, Vec::new());
    }

    /// Rewind is a left inverse of checkpoint: whatever events ran in
    /// between, provided their effects were confined to appending patches
    /// and pushing scopes (which the parser contract requires of
    /// speculation), rewinding restores the observable state the checkpoint
    /// recorded, exactly.
    pub proof fn lemma_rewind_left_inverse(
        log_at_checkpoint: Seq<Patch>,
        scopes_at_checkpoint: Seq<Scope>,
        log_now: Seq<Patch>,
        scopes_now: Seq<Scope>,
        checkpoint: StripHandlerCheckpoint,
    )
        requires
            checkpoint.patch_len == log_at_checkpoint.len(),
            checkpoint.scope_stack_len == scopes_at_checkpoint.len(),
            scopes_at_checkpoint.len() >= 1,
            log_now.len() >= log_at_checkpoint.len(),
            log_now.take(log_at_checkpoint.len() as int) == log_at_checkpoint,
            scopes_now.len() >= scopes_at_checkpoint.len(),
            scopes_now.take(scopes_at_checkpoint.len() as int) == scopes_at_checkpoint,
        ensures
            (if checkpoint.patch_len < log_now.len() {
                log_now.take(checkpoint.patch_len as int)
            } else {
                log_now
            }) == log_at_checkpoint,
            (if 1 <= checkpoint.scope_stack_len < scopes_now.len() {
                scopes_now.take(checkpoint.scope_stack_len as int)
            } else {
                scopes_now
            }) == scopes_at_checkpoint,
    {
        if checkpoint.patch_len >= log_now.len() {
            assert(log_now =~= log_at_checkpoint);
        }
        if checkpoint.scope_stack_len >= scopes_now.len() {
            assert(scopes_now =~= scopes_at_checkpoint);
        }
    }
}

} // verus!
