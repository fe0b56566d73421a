//! Byte-range patches over a source buffer, and the pass that applies them.
//!
//! A patch replaces the byte range `[start, end)` of the original source with
//! `replacement`. The applier rewrites the whole buffer in one pass; every
//! line terminator inside a replaced range that lies beyond the replacement
//! text is preserved byte-for-byte, so the output has exactly as many line
//! terminators as the input, at stable line positions.

use vstd::prelude::*;

use crate::line_term::{is_lt_start, lemma_lt_free_count_zero, lt_count, lt_count_from, lt_free};

verus! {

/// An ordered byte-range replacement over the original source.
pub struct Patch {
    /// Inclusive start of the replaced byte range.
    pub start: usize,
    /// Exclusive end of the replaced byte range.
    pub end: usize,
    /// The bytes that replace the range; never contains a line terminator.
    pub replacement: Vec<u8>,
}

impl Clone for Patch {
    fn clone(&self) -> (r: Self)
        ensures
            r.start == self.start,
            r.end == self.end,
            r.replacement@ == self.replacement@,
    {
        Patch { start: self.start, end: self.end, replacement: self.replacement.clone() }
    }
}

impl Patch {
    /// A patch that deletes `[start, end)` outright.
    pub fn strip(start: usize, end: usize) -> (r: Patch)
        ensures
            r.start == start,
            r.end == end,
            r.replacement@ == Seq::<u8>::empty(),
    {
        Patch { start, end, replacement: Vec::new() }
    }

    /// The patch's span does not run backwards and stays inside the source.
    pub open spec fn spec_wf(self, src_len: nat) -> bool {
        self.start <= self.end <= src_len
    }
}

/// Patches are ordered and non-overlapping: each ends at or before the next
/// one starts.
pub open spec fn patches_sorted(ps: Seq<Patch>) -> bool {
    forall|i: int| 0 <= i < ps.len() - 1 ==> (#[trigger] ps[i]).end <= ps[i + 1].start
}

/// Every patch span lies inside a source of length `src_len`.
pub open spec fn patches_bounded(ps: Seq<Patch>, src_len: nat) -> bool {
    forall|i: int| 0 <= i < ps.len() ==> (#[trigger] ps[i]).spec_wf(src_len)
}

/// No replacement contains a line terminator.
pub open spec fn patches_lt_free(ps: Seq<Patch>) -> bool {
    forall|i: int| 0 <= i < ps.len() ==> lt_free((#[trigger] ps[i]).replacement@)
}

/// What the applier itself needs of a patch list.
pub open spec fn patches_applicable(ps: Seq<Patch>, src_len: nat) -> bool {
    patches_sorted(ps) && patches_bounded(ps, src_len)
}

/// A three-byte line terminator (U+2028 or U+2029) lies wholly inside
/// `[i, end)` of `s`, starting at `i`.
pub open spec fn is_triple_at(s: Seq<u8>, i: int, end: int) -> bool {
    i + 3 <= end && s[i] == 226 && s[i + 1] == 128 && (s[i + 2] == 168 || s[i + 2] == 169)
}

/// The bytes that stand in for the removed range `[i, end)` of the original:
/// every line terminator wholly inside the range is kept byte-for-byte; any
/// other byte becomes a space when `blank` is set, and vanishes otherwise.
pub open spec fn pad_bytes(orig: Seq<u8>, i: int, end: int, blank: bool) -> Seq<u8>
    decreases end - i,
{
    if i < 0 || i >= end || end > orig.len() {
        Seq::<u8>::empty()
    } else if orig[i] == 10 || orig[i] == 13 {
        seq![orig[i]] + pad_bytes(orig, i + 1, end, blank)
    } else if is_triple_at(orig, i, end) {
        seq![226u8, 128u8, orig[i + 2]] + pad_bytes(orig, i + 3, end, blank)
    } else if blank {
        seq![32u8] + pad_bytes(orig, i + 1, end, blank)
    } else {
        pad_bytes(orig, i + 1, end, blank)
    }
}

/// Start of the pad region of patch `p`: what the replacement does not cover.
pub open spec fn pad_start(p: Patch) -> int {
    if p.start + p.replacement@.len() < p.end {
        p.start + p.replacement@.len()
    } else {
        p.end as int
    }
}

/// The applier's result from source position `from` on, for the remaining
/// patches `ps`: the untouched gap up to the first patch, its replacement,
/// the pad standing in for the rest of its span, then the rest recursively.
pub open spec fn apply_from(ps: Seq<Patch>, orig: Seq<u8>, from: int, blank: bool) -> Seq<u8>
    decreases ps.len(),
{
    if ps.len() == 0 {
        orig.subrange(from, orig.len() as int)
    } else {
        let p = ps[0];
        orig.subrange(from, p.start as int) + p.replacement@ + pad_bytes(
            orig,
            pad_start(p),
            p.end as int,
            blank,
        ) + apply_from(ps.drop_first(), orig, p.end as int, blank)
    }
}

/// The whole output of applying `ps` to `orig`.
pub open spec fn apply_spec(ps: Seq<Patch>, orig: Seq<u8>, blank: bool) -> Seq<u8> {
    apply_from(ps, orig, 0, blank)
}

/// Append `src[from..to]` to `out`.
fn push_range(out: &mut Vec<u8>, src: &Vec<u8>, from: usize, to: usize)
    requires
        from <= to <= src.len(),
    ensures
        final(out)@ == old(out)@ + src@.subrange(from as int, to as int),
{
    let mut j: usize = from;
    while j < to
        invariant
            from <= j <= to <= src.len(),
            out@ == old(out)@ + src@.subrange(from as int, j as int),
        decreases to - j,
    {
        out.push(src[j]);
        proof {
            assert(src@.subrange(from as int, j + 1 as int) == src@.subrange(
                from as int,
                j as int,
            ) + seq![src@[j as int]]);
        }
        j = j + 1;
    }
    proof {
        assert(out@ == old(out)@ + src@.subrange(from as int, to as int));
    }
}

/// Append the pad bytes for the removed range `[i, end)` of `src`.
fn write_pad(out: &mut Vec<u8>, src: &Vec<u8>, start: usize, end: usize, blank: bool)
    requires
        start <= end <= src.len(),
    ensures
        final(out)@ == old(out)@ + pad_bytes(src@, start as int, end as int, blank),
{
    let mut i: usize = start;
    let ghost mut taken: Seq<u8> = Seq::empty();
    proof {
        assert(old(out)@ + taken =~= old(out)@);
    }
    while i < end
        invariant
            start <= i <= end <= src.len(),
            out@ == old(out)@ + taken,
            pad_bytes(src@, start as int, end as int, blank) == taken + pad_bytes(
                src@,
                i as int,
                end as int,
                blank,
            ),
        decreases end - i,
    {
        let ghost taken0 = taken;
        let ghost rest0 = pad_bytes(src@, i as int, end as int, blank);
        let b: u8 = src[i];
        if b == 10 || b == 13 {
            out.push(b);
            proof {
                taken = taken0 + seq![b];
                assert(rest0 == seq![b] + pad_bytes(src@, i + 1, end as int, blank));
                assert(taken0 + rest0 =~= taken + pad_bytes(src@, i + 1, end as int, blank));
                assert(out@ =~= old(out)@ + taken);
            }
            i = i + 1;
        } else if b == 226 && end - i >= 3 && src[i + 1] == 128 && (src[i + 2] == 168 || src[i + 2]
            == 169) {
            out.push(226);
            out.push(128);
            out.push(src[i + 2]);
            proof {
                taken = taken0 + seq![226u8, 128u8, src@[i + 2]];
                assert(is_triple_at(src@, i as int, end as int));
                assert(rest0 == seq![226u8, 128u8, src@[i + 2]] + pad_bytes(
                    src@,
                    i + 3,
                    end as int,
                    blank,
                ));
                assert(taken0 + rest0 =~= taken + pad_bytes(src@, i + 3, end as int, blank));
                assert(out@ =~= old(out)@ + taken);
            }
            i = i + 3;
        } else {
            if blank {
                out.push(32);
            }
            proof {
                assert(!is_triple_at(src@, i as int, end as int));
                if blank {
                    taken = taken0 + seq![32u8];
                    assert(rest0 == seq![32u8] + pad_bytes(src@, i + 1, end as int, blank));
                    assert(taken0 + rest0 =~= taken + pad_bytes(src@, i + 1, end as int, blank));
                } else {
                    assert(rest0 == pad_bytes(src@, i + 1, end as int, blank));
                }
                assert(out@ =~= old(out)@ + taken);
            }
            i = i + 1;
        }
    }
    proof {
        assert(pad_bytes(src@, i as int, end as int, blank) =~= Seq::<u8>::empty());
        assert(taken + pad_bytes(src@, i as int, end as int, blank) =~= taken);
    }
}

/// Check that the patches run forward, do not overlap, and stay inside a
/// source of `src_len` bytes.
pub fn patches_applicable_check(patches: &Vec<Patch>, src_len: usize) -> (ok: bool)
    ensures
        ok == patches_applicable(patches@, src_len as nat),
{
    let n = patches.len();
    let mut i: usize = 0;
    let mut prev_end: usize = 0;
    while i < n
        invariant
            i <= n == patches@.len(),
            forall|k: int| 0 <= k < i ==> (#[trigger] patches@[k]).spec_wf(src_len as nat),
            forall|k: int| 0 <= k < i - 1 ==> (#[trigger] patches@[k]).end <= patches@[k + 1].start,
            i > 0 ==> prev_end == patches@[i - 1].end,
        decreases n - i,
    {
        let p_start = patches[i].start;
        let p_end = patches[i].end;
        if p_start > p_end || p_end > src_len {
            return false;
        }
        if i > 0 && p_start < prev_end {
            return false;
        }
        prev_end = p_end;
        i = i + 1;
    }
    true
}

/// Apply the patches to the source buffer, in log order.
///
/// Each patch's range is replaced by its replacement text; the remainder of
/// the range becomes spaces when `prefer_blank_space` is set (keeping every
/// later byte at its original offset whenever no earlier patch grew), or is
/// removed otherwise. Either way, line terminators beyond the replacement
/// text are kept byte-for-byte. Returns false, leaving the buffer untouched,
/// if the patches are unordered, overlapping, or out of range.
pub fn apply_patches(patches: &Vec<Patch>, source: &mut Vec<u8>, prefer_blank_space: bool) -> (ok:
    bool)
    ensures
        ok == patches_applicable(patches@, old(source)@.len() as nat),
        ok ==> final(source)@ == apply_spec(patches@, old(source)@, prefer_blank_space),
        !ok ==> final(source)@ == old(source)@,
        ok && patches_line_safe(patches@, old(source)@) && byte_boundary_ok(old(source)@, 0)
            ==> crate::line_term::lt_count(final(source)@) == crate::line_term::lt_count(
            old(source)@,
        ),
{
    proof {
        if patches_applicable(patches@, source@.len() as nat) && patches_line_safe(
            patches@,
            source@,
        ) && byte_boundary_ok(source@, 0) {
            lemma_apply_preserves_line_count(patches@, source@, prefer_blank_space);
        }
    }
    let src_len = source.len();
    if !patches_applicable_check(patches, src_len) {
        return false;
    }
    let n = patches.len();
    let mut out: Vec<u8> = Vec::new();
    let mut pos: usize = 0;
    let mut i: usize = 0;
    proof {
        assert(patches@.skip(0) =~= patches@);
        assert(out@ + apply_from(patches@, source@, 0, prefer_blank_space) =~= apply_from(
            patches@,
            source@,
            0,
            prefer_blank_space,
        ));
    }
    while i < n
        invariant
            i <= n == patches@.len(),
            patches_applicable(patches@, source@.len() as nat),
            src_len == source@.len(),
            pos <= src_len,
            i > 0 ==> pos == patches@[i - 1].end,
            i < n ==> pos <= patches@[i as int].start,
            apply_spec(patches@, source@, prefer_blank_space) == out@ + apply_from(
                patches@.skip(i as int),
                source@,
                pos as int,
                prefer_blank_space,
            ),
        decreases n - i,
    {
        let ghost ps = patches@;
        let ghost tail = ps.skip(i as int);
        let ghost p = ps[i as int];
        let ghost out0 = out@;
        proof {
            assert(tail[0] == p);
            assert(tail.drop_first() =~= ps.skip(i + 1));
            assert(p.spec_wf(src_len as nat));
            if i + 1 < n {
                assert(ps[i as int].end <= ps[i + 1].start);
                assert(ps.skip(i + 1)[0] == ps[i + 1]);
            }
        }
        let p_start = patches[i].start;
        let p_end = patches[i].end;
        let rep_len = patches[i].replacement.len();
        push_range(&mut out, source, pos, p_start);
        let ghost out_with_gap = out@;
        out.extend_from_slice(patches[i].replacement.as_slice());
        proof {
            assert(out@ =~= out_with_gap + p.replacement@);
        }
        let ghost the_pad = pad_bytes(source@, pad_start(p), p_end as int, prefer_blank_space);
        if rep_len < p_end - p_start {
            proof {
                assert(pad_start(p) == p_start + rep_len);
            }
            write_pad(&mut out, source, p_start + rep_len, p_end, prefer_blank_space);
        } else {
            proof {
                assert(pad_start(p) == p_end as int);
                assert(the_pad =~= Seq::<u8>::empty());
                assert(out@ =~= out@ + the_pad);
            }
        }
        proof {
            let gap = source@.subrange(pos as int, p_start as int);
            assert(out@ =~= out0 + (gap + p.replacement@ + the_pad));
            assert(apply_from(tail, source@, pos as int, prefer_blank_space) == gap
                + p.replacement@ + the_pad + apply_from(
                ps.skip(i + 1),
                source@,
                p.end as int,
                prefer_blank_space,
            ));
            assert(out0 + (gap + p.replacement@ + the_pad) + apply_from(
                ps.skip(i + 1),
                source@,
                p.end as int,
                prefer_blank_space,
            ) =~= out0 + apply_from(tail, source@, pos as int, prefer_blank_space));
        }
        pos = p_end;
        i = i + 1;
    }
    push_range(&mut out, source, pos, src_len);
    proof {
        assert(patches@.skip(n as int) =~= Seq::<Patch>::empty());
        assert(apply_from(patches@.skip(n as int), source@, pos as int, prefer_blank_space)
            =~= source@.subrange(pos as int, src_len as int));
    }
    *source = out;
    true
}


/// Applying an empty patch list leaves the buffer unchanged.
pub proof fn lemma_apply_empty(orig: Seq<u8>, blank: bool)
    ensures
        apply_spec(Seq::<Patch>::empty(), orig, blank) == orig,
{
    assert(apply_spec(Seq::<Patch>::empty(), orig, blank) =~= orig);
}

/// Output length of the segment a patch contributes: its replacement and
/// the pad standing in for the rest of its span.
pub open spec fn seg_len(p: Patch, orig: Seq<u8>, blank: bool) -> int {
    p.replacement@.len() + pad_bytes(orig, pad_start(p), p.end as int, blank).len() as int
}

/// Where, in the applier's output from `from` on, the gap before patch `g`
/// begins (for `g == ps.len()`, the tail gap after the last patch).
pub open spec fn gap_offset(ps: Seq<Patch>, orig: Seq<u8>, from: int, blank: bool, g: int) -> int
    decreases g,
{
    if g <= 0 {
        0
    } else {
        (ps[0].start - from) + seg_len(ps[0], orig, blank) + gap_offset(
            ps.drop_first(),
            orig,
            ps[0].end as int,
            blank,
            g - 1,
        )
    }
}

/// Applier locality: every byte range of the original that lies outside the
/// patch spans appears, in order and contiguously, in the output; the gap
/// before patch `g` starts at `gap_offset`.
pub proof fn lemma_apply_locality(ps: Seq<Patch>, orig: Seq<u8>, from: int, blank: bool, g: int)
    requires
        patches_applicable(ps, orig.len() as nat),
        0 <= from <= orig.len(),
        ps.len() > 0 ==> from <= ps[0].start,
        0 <= g <= ps.len(),
    ensures
        ({
            let gap_start = if g == 0 {
                from
            } else {
                ps[g - 1].end as int
            };
            let gap_end = if g == ps.len() {
                orig.len() as int
            } else {
                ps[g].start as int
            };
            let off = gap_offset(ps, orig, from, blank, g);
            &&& 0 <= off
            &&& off + (gap_end - gap_start) <= apply_from(ps, orig, from, blank).len()
            &&& apply_from(ps, orig, from, blank).subrange(off, off + (gap_end - gap_start))
                == orig.subrange(gap_start, gap_end)
        }),
    decreases g,
{
    lemma_sorted_within(ps, orig.len() as nat);
    if ps.len() == 0 {
        assert(apply_from(ps, orig, from, blank).subrange(0, orig.len() - from) =~= orig.subrange(
            from,
            orig.len() as int,
        ));
    } else {
        let p = ps[0];
        let head = orig.subrange(from, p.start as int) + p.replacement@ + pad_bytes(
            orig,
            pad_start(p),
            p.end as int,
            blank,
        );
        let tail = apply_from(ps.drop_first(), orig, p.end as int, blank);
        assert(apply_from(ps, orig, from, blank) =~= head + tail);
        if g == 0 {
            assert(apply_from(ps, orig, from, blank).subrange(0, p.start - from) =~= orig.subrange(
                from,
                p.start as int,
            ));
        } else {
            assert(forall|j: int|
                0 <= j < ps.len() - 1 ==> (#[trigger] ps.drop_first()[j]) == ps[j + 1]);
            lemma_apply_locality(ps.drop_first(), orig, p.end as int, blank, g - 1);
            let off1 = gap_offset(ps.drop_first(), orig, p.end as int, blank, g - 1);
            let gap_start = if g == 1 {
                p.end as int
            } else {
                ps[g - 1].end as int
            };
            let gap_end = if g == ps.len() {
                orig.len() as int
            } else {
                ps[g].start as int
            };
            assert(tail.subrange(off1, off1 + (gap_end - gap_start)) == orig.subrange(
                gap_start,
                gap_end,
            ));
            let off = gap_offset(ps, orig, from, blank, g);
            assert(head.len() == (p.start - from) + seg_len(p, orig, blank));
            assert(off == head.len() + off1);
            assert(off + (gap_end - gap_start) <= head.len() + tail.len());
            assert(apply_from(ps, orig, from, blank).subrange(off, off + (gap_end - gap_start))
                =~= tail.subrange(off1, off1 + (gap_end - gap_start)));
        }
    }
}

/// In a sorted, bounded patch list each patch lies after its predecessors.
pub proof fn lemma_sorted_within(ps: Seq<Patch>, src_len: nat)
    requires
        patches_applicable(ps, src_len),
    ensures
        forall|i: int, j: int|
            0 <= i < j < ps.len() ==> #[trigger] ps[i].end <= #[trigger] ps[j].start,
    decreases ps.len(),
{
    if ps.len() > 1 {
        assert(forall|j: int|
            0 <= j < ps.len() - 1 ==> (#[trigger] ps.drop_first()[j]) == ps[j + 1]);
        lemma_sorted_within(ps.drop_first(), src_len);
        assert forall|i: int, j: int| 0 <= i < j < ps.len() implies #[trigger] ps[i].end
            <= #[trigger] ps[j].start by {
            if i == 0 {
                if j > 1 {
                    assert(ps.drop_first()[0].end <= ps.drop_first()[j - 1].start);
                }
            } else {
                assert(ps.drop_first()[i - 1].end <= ps.drop_first()[j - 1].start);
            }
        }
    }
}


/// Position `i` of `s` is not inside a multi-byte UTF-8 sequence.
pub open spec fn byte_boundary_ok(s: Seq<u8>, i: int) -> bool {
    i == s.len() || s[i] < 128 || s[i] >= 192
}

/// A replacement may not begin with a UTF-8 continuation byte.
pub open spec fn rep_boundary_ok(p: Patch) -> bool {
    p.replacement@.len() == 0 || p.replacement@[0] < 128 || p.replacement@[0] >= 192
}

/// What the line-count argument needs of each patch: spans on character
/// boundaries, a clean replacement, and no line terminator starting in the
/// part of the span that the replacement overwrites.
pub open spec fn patches_line_safe(ps: Seq<Patch>, orig: Seq<u8>) -> bool {
    forall|i: int|
        0 <= i < ps.len() ==> {
            let p = #[trigger] ps[i];
            &&& byte_boundary_ok(orig, p.start as int)
            &&& byte_boundary_ok(orig, p.end as int)
            &&& rep_boundary_ok(p)
            &&& lt_free(p.replacement@)
            &&& forall|j: int| p.start <= j < pad_start(p) ==> !is_lt_start(orig, j)
        }
}

/// Number of line-terminator starts of `s` at positions in `[i, end)`.
pub open spec fn count_range(s: Seq<u8>, i: int, end: int) -> nat
    decreases end - i,
{
    if i < 0 || i >= end {
        0
    } else {
        (if is_lt_start(s, i) {
            1nat
        } else {
            0nat
        }) + count_range(s, i + 1, end)
    }
}

/// Range counts add up.
pub proof fn lemma_count_range_split(s: Seq<u8>, a: int, b: int, c: int)
    requires
        0 <= a <= b <= c,
    ensures
        count_range(s, a, c) == count_range(s, a, b) + count_range(s, b, c),
    decreases b - a,
{
    if a < b {
        lemma_count_range_split(s, a + 1, b, c);
    }
}

/// A range without terminator starts counts zero.
pub proof fn lemma_count_range_zero(s: Seq<u8>, a: int, b: int)
    requires
        forall|j: int| a <= j < b ==> !is_lt_start(s, j),
    ensures
        count_range(s, a, b) == 0,
    decreases b - a,
{
    if a >= 0 && a < b {
        lemma_count_range_zero(s, a + 1, b);
    }
}

/// Counting to the end of the sequence is the terminator count.
pub proof fn lemma_count_range_full(s: Seq<u8>, i: int)
    requires
        0 <= i,
    ensures
        count_range(s, i, s.len() as int) == lt_count_from(s, i),
    decreases s.len() - i,
{
    if i < s.len() {
        lemma_count_range_full(s, i + 1);
    }
}

/// The suffix of a concatenation counts like the second part alone.
proof fn lemma_concat_count_tail(a: Seq<u8>, b: Seq<u8>, j: int)
    requires
        0 <= j <= b.len(),
    ensures
        lt_count_from(a + b, a.len() + j) == lt_count_from(b, j),
    decreases b.len() - j,
{
    if j < b.len() {
        assert((a + b)[a.len() + j] == b[j]);
        if a.len() + j + 2 < (a + b).len() {
            assert((a + b)[a.len() + j + 1] == b[j + 1]);
            assert((a + b)[a.len() + j + 2] == b[j + 2]);
        }
        lemma_concat_count_tail(a, b, j + 1);
    }
}

proof fn lemma_concat_count_from(a: Seq<u8>, b: Seq<u8>, i: int)
    requires
        0 <= i <= a.len(),
        b.len() == 0 || (b[0] != 128 && b[0] != 168 && b[0] != 169),
    ensures
        lt_count_from(a + b, i) == lt_count_from(a, i) + lt_count_from(b, 0),
    decreases a.len() - i,
{
    if i == a.len() {
        lemma_concat_count_tail(a, b, 0);
    } else {
        assert((a + b)[i] == a[i]);
        assert(is_lt_start(a + b, i) == is_lt_start(a, i)) by {
            if i + 1 < a.len() {
                assert((a + b)[i + 1] == a[i + 1]);
            } else if i + 1 < (a + b).len() {
                assert((a + b)[i + 1] == b[0]);
            }
            if i + 2 < a.len() {
                assert((a + b)[i + 2] == a[i + 2]);
            } else if i + 2 < (a + b).len() {
                assert((a + b)[i + 2] == b[i + 2 - a.len()]);
                if i + 2 == a.len() {
                    assert((a + b)[i + 2] == b[0]);
                }
            }
        }
        lemma_concat_count_from(a, b, i + 1);
    }
}

/// Terminator counts add over concatenation when the second part does not
/// begin with a byte that could complete a terminator.
pub proof fn lemma_concat_count(a: Seq<u8>, b: Seq<u8>)
    requires
        b.len() == 0 || (b[0] != 128 && b[0] != 168 && b[0] != 169),
    ensures
        lt_count(a + b) == lt_count(a) + lt_count(b),
{
    lemma_concat_count_from(a, b, 0);
}

proof fn lemma_subrange_count_from(s: Seq<u8>, a: int, b: int, j: int)
    requires
        0 <= a <= b <= s.len(),
        0 <= j <= b - a,
        byte_boundary_ok(s, b),
    ensures
        lt_count_from(s.subrange(a, b), j) == count_range(s, a + j, b),
    decreases b - a - j,
{
    let sub = s.subrange(a, b);
    if j < b - a {
        assert(sub[j] == s[a + j]);
        assert(is_lt_start(sub, j) == is_lt_start(s, a + j)) by {
            if j + 1 < b - a {
                assert(sub[j + 1] == s[a + j + 1]);
            }
            if j + 2 < b - a {
                assert(sub[j + 2] == s[a + j + 2]);
            }
            if s[a + j] == 226 && j + 2 >= b - a {
                // a terminator would have to cross the boundary at b
                if a + j + 2 < s.len() && s[a + j + 1] == 128 && (s[a + j + 2] == 168 || s[a + j
                    + 2] == 169) {
                    if a + j + 1 == b {
                        assert(s[b] == 128);
                        assert(false);
                    } else {
                        assert(a + j + 2 == b);
                        assert(s[b] == 168 || s[b] == 169);
                        assert(false);
                    }
                }
            }
        }
        lemma_subrange_count_from(s, a, b, j + 1);
    }
}

/// Counting terminators of a subrange that ends on a character boundary
/// matches counting positions of the whole sequence.
pub proof fn lemma_subrange_count(s: Seq<u8>, a: int, b: int)
    requires
        0 <= a <= b <= s.len(),
        byte_boundary_ok(s, b),
    ensures
        lt_count(s.subrange(a, b)) == count_range(s, a, b),
{
    lemma_subrange_count_from(s, a, b, 0);
}

/// The pad's first byte can never complete a terminator.
proof fn lemma_pad_first(orig: Seq<u8>, i: int, end: int, blank: bool)
    ensures
        pad_bytes(orig, i, end, blank).len() == 0 || (pad_bytes(orig, i, end, blank)[0] != 128
            && pad_bytes(orig, i, end, blank)[0] != 168 && pad_bytes(orig, i, end, blank)[0]
            != 169),
    decreases end - i,
{
    if !(i < 0 || i >= end || end > orig.len()) {
        if orig[i] == 10 || orig[i] == 13 {
        } else if is_triple_at(orig, i, end) {
        } else if blank {
        } else {
            lemma_pad_first(orig, i + 1, end, blank);
        }
    }
}

/// The pad has exactly as many terminator starts as the original range it
/// stands in for.
pub proof fn lemma_pad_count(orig: Seq<u8>, start: int, end: int, blank: bool)
    requires
        0 <= start <= end <= orig.len(),
        byte_boundary_ok(orig, end),
    ensures
        lt_count(pad_bytes(orig, start, end, blank)) == count_range(orig, start, end),
    decreases end - start,
{
    if start >= end {
    } else if orig[start] == 10 || orig[start] == 13 {
        lemma_pad_count(orig, start + 1, end, blank);
        lemma_pad_first(orig, start + 1, end, blank);
        lemma_concat_count(seq![orig[start]], pad_bytes(orig, start + 1, end, blank));
        assert(lt_count(seq![orig[start]]) == 1) by {
            assert(is_lt_start(seq![orig[start]], 0));
            assert(lt_count_from(seq![orig[start]], 1) == 0);
        }
    } else if is_triple_at(orig, start, end) {
        lemma_pad_count(orig, start + 3, end, blank);
        lemma_pad_first(orig, start + 3, end, blank);
        let three = seq![226u8, 128u8, orig[start + 2]];
        lemma_concat_count(three, pad_bytes(orig, start + 3, end, blank));
        assert(lt_count(three) == 1) by {
            assert(is_lt_start(three, 0));
            assert(!is_lt_start(three, 1));
            assert(!is_lt_start(three, 2));
            assert(lt_count_from(three, 3) == 0);
            assert(lt_count_from(three, 2) == 0);
            assert(lt_count_from(three, 1) == 0);
        }
        assert(is_lt_start(orig, start));
        assert(!is_lt_start(orig, start + 1));
        assert(!is_lt_start(orig, start + 2));
        assert(count_range(orig, start + 2, end) == count_range(orig, start + 3, end));
        assert(count_range(orig, start + 1, end) == count_range(orig, start + 2, end));
        assert(count_range(orig, start, end) == 1 + count_range(orig, start + 3, end));
    } else {
        assert(!is_lt_start(orig, start)) by {
            if orig[start] == 226 && start + 2 < orig.len() && orig[start + 1] == 128 && (
            orig[start + 2] == 168 || orig[start + 2] == 169) {
                // the terminator would have to cross the boundary at end
                if start + 1 == end {
                    assert(orig[end] == 128);
                } else {
                    assert(start + 2 == end);
                    assert(orig[end] == 168 || orig[end] == 169);
                }
                assert(false);
            }
        }
        lemma_pad_count(orig, start + 1, end, blank);
        if blank {
            lemma_pad_first(orig, start + 1, end, blank);
            lemma_concat_count(seq![32u8], pad_bytes(orig, start + 1, end, blank));
            assert(lt_count(seq![32u8]) == 0) by {
                assert(!is_lt_start(seq![32u8], 0));
                assert(lt_count_from(seq![32u8], 1) == 0);
            }
        }
    }
}

/// The applier's output never begins with a byte that could complete a
/// terminator.
proof fn lemma_apply_first(ps: Seq<Patch>, orig: Seq<u8>, from: int, blank: bool)
    requires
        patches_applicable(ps, orig.len() as nat),
        patches_line_safe(ps, orig),
        0 <= from <= orig.len(),
        ps.len() > 0 ==> from <= ps[0].start,
        byte_boundary_ok(orig, from),
    ensures
        ({
            let out = apply_from(ps, orig, from, blank);
            out.len() == 0 || (out[0] != 128 && out[0] != 168 && out[0] != 169)
        }),
    decreases ps.len(),
{
    if ps.len() == 0 {
        if from < orig.len() {
            assert(apply_from(ps, orig, from, blank)[0] == orig[from]);
        }
    } else {
        let p = ps[0];
        let gap = orig.subrange(from, p.start as int);
        let pad = pad_bytes(orig, pad_start(p), p.end as int, blank);
        let rest = apply_from(ps.drop_first(), orig, p.end as int, blank);
        if gap.len() > 0 {
            assert((gap + p.replacement@ + pad + rest)[0] == orig[from]);
        } else if p.replacement@.len() > 0 {
            assert((gap + p.replacement@ + pad + rest)[0] == p.replacement@[0]);
        } else if pad.len() > 0 {
            lemma_pad_first(orig, pad_start(p), p.end as int, blank);
            assert((gap + p.replacement@ + pad + rest)[0] == pad[0]);
        } else {
            assert(forall|j: int|
                0 <= j < ps.len() - 1 ==> (#[trigger] ps.drop_first()[j]) == ps[j + 1]);
            lemma_apply_first(ps.drop_first(), orig, p.end as int, blank);
            if rest.len() > 0 {
                assert((gap + p.replacement@ + pad + rest)[0] == rest[0]);
            }
        }
    }
}

proof fn lemma_apply_count_from(ps: Seq<Patch>, orig: Seq<u8>, from: int, blank: bool)
    requires
        patches_applicable(ps, orig.len() as nat),
        patches_line_safe(ps, orig),
        0 <= from <= orig.len(),
        ps.len() > 0 ==> from <= ps[0].start,
        byte_boundary_ok(orig, from),
    ensures
        lt_count(apply_from(ps, orig, from, blank)) == count_range(orig, from, orig.len() as int),
    decreases ps.len(),
{
    if ps.len() == 0 {
        lemma_subrange_count(orig, from, orig.len() as int);
    } else {
        let p = ps[0];
        let gap = orig.subrange(from, p.start as int);
        let rep = p.replacement@;
        let pad = pad_bytes(orig, pad_start(p), p.end as int, blank);
        let rest = apply_from(ps.drop_first(), orig, p.end as int, blank);
        assert(forall|j: int|
            0 <= j < ps.len() - 1 ==> (#[trigger] ps.drop_first()[j]) == ps[j + 1]);
        lemma_apply_count_from(ps.drop_first(), orig, p.end as int, blank);
        lemma_apply_first(ps.drop_first(), orig, p.end as int, blank);
        lemma_pad_first(orig, pad_start(p), p.end as int, blank);
        // stitch the three concatenations, right to left
        lemma_concat_count(pad, rest);
        assert(rep + (pad + rest) =~= rep + pad + rest);
        assert((pad + rest).len() == 0 || ((pad + rest)[0] != 128 && (pad + rest)[0] != 168 && (
        pad + rest)[0] != 169));
        lemma_concat_count(rep, pad + rest);
        assert(gap + (rep + pad + rest) =~= gap + rep + pad + rest);
        assert((rep + pad + rest).len() == 0 || ((rep + pad + rest)[0] != 128 && (rep + pad
            + rest)[0] != 168 && (rep + pad + rest)[0] != 169));
        lemma_concat_count(gap, rep + pad + rest);
        // each piece counts like its original range
        lemma_subrange_count(orig, from, p.start as int);
        lemma_lt_free_count_zero(rep, 0);
        lemma_pad_count(orig, pad_start(p), p.end as int, blank);
        lemma_count_range_zero(orig, p.start as int, pad_start(p));
        lemma_count_range_split(orig, from, p.start as int, orig.len() as int);
        lemma_count_range_split(orig, p.start as int, pad_start(p), orig.len() as int);
        lemma_count_range_split(orig, pad_start(p), p.end as int, orig.len() as int);
        assert(apply_from(ps, orig, from, blank) == gap + rep + pad + rest);
    }
}

/// The output has exactly as many line terminators as the input: the
/// applier removes none and its replacements contain none. The
/// `patches_line_safe` hypothesis holds what the parser contract promises
/// of the spans a handler logs: they lie on character boundaries, and no
/// terminator starts in the part of a span its replacement overwrites.
pub proof fn lemma_apply_preserves_line_count(ps: Seq<Patch>, orig: Seq<u8>, blank: bool)
    requires
        patches_applicable(ps, orig.len() as nat),
        patches_line_safe(ps, orig),
        byte_boundary_ok(orig, 0),
    ensures
        lt_count(apply_spec(ps, orig, blank)) == lt_count(orig),
{
    lemma_apply_count_from(ps, orig, 0, blank);
    lemma_count_range_full(orig, 0);
}


/// With blank-space application the pad is as long as the range it stands
/// in for.
pub proof fn lemma_pad_len_blank(orig: Seq<u8>, i: int, end: int)
    requires
        0 <= i <= end <= orig.len(),
    ensures
        pad_bytes(orig, i, end, true).len() == end - i,
    decreases end - i,
{
    if i < end {
        if orig[i] == 10 || orig[i] == 13 {
            lemma_pad_len_blank(orig, i + 1, end);
        } else if is_triple_at(orig, i, end) {
            lemma_pad_len_blank(orig, i + 3, end);
        } else {
            lemma_pad_len_blank(orig, i + 1, end);
        }
    }
}

/// Total growth of a patch list: what each replacement adds beyond its
/// span.
pub open spec fn growth(ps: Seq<Patch>) -> int
    decreases ps.len(),
{
    if ps.len() == 0 {
        0
    } else {
        (if ps[0].replacement@.len() > ps[0].end - ps[0].start {
            ps[0].replacement@.len() - (ps[0].end - ps[0].start)
        } else {
            0
        }) + growth(ps.drop_first())
    }
}

/// With blank-space application the output is as long as the input plus
/// the accumulated growth, so a patch list of pure erasures and shrinking
/// replacements leaves every later byte at its original offset.
pub proof fn lemma_apply_len_blank(ps: Seq<Patch>, orig: Seq<u8>, from: int)
    requires
        patches_applicable(ps, orig.len() as nat),
        0 <= from <= orig.len(),
        ps.len() > 0 ==> from <= ps[0].start,
    ensures
        apply_from(ps, orig, from, true).len() == (orig.len() - from) + growth(ps),
    decreases ps.len(),
{
    if ps.len() > 0 {
        let p = ps[0];
        assert(forall|j: int|
            0 <= j < ps.len() - 1 ==> (#[trigger] ps.drop_first()[j]) == ps[j + 1]);
        lemma_apply_len_blank(ps.drop_first(), orig, p.end as int);
        if p.start + p.replacement@.len() < p.end {
            lemma_pad_len_blank(orig, pad_start(p), p.end as int);
        } else {
            assert(pad_bytes(orig, pad_start(p), p.end as int, true) =~= Seq::<u8>::empty());
        }
    }
}

} // verus!
