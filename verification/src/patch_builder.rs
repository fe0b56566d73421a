//! The append-only patch log.
//!
//! The log keeps its patches ordered and non-overlapping, with no line
//! terminator in any replacement, after every operation. Three append shapes
//! (strict, tail-merging, position-searched) cover every emission site
//! without ever sorting. An operation that would break the order rejects its
//! patch and reports so, leaving the log unchanged.

use vstd::prelude::*;

use crate::line_term::{contains_line_terminators, lt_free};
use crate::patch::{patches_lt_free, patches_sorted, Patch};

verus! {

/// Every span runs forward.
pub open spec fn patches_spans_forward(ps: Seq<Patch>) -> bool {
    forall|i: int| 0 <= i < ps.len() ==> (#[trigger] ps[i]).start <= ps[i].end
}

/// The invariant the log maintains after every operation: ordered,
/// non-overlapping, forward spans, line-terminator-free replacements.
pub open spec fn log_wf(ps: Seq<Patch>) -> bool {
    patches_sorted(ps) && patches_spans_forward(ps) && patches_lt_free(ps)
}

/// A patch alone is acceptable: forward span, clean replacement.
pub open spec fn patch_ok(p: Patch) -> bool {
    p.start <= p.end && lt_free(p.replacement@)
}

/// The log after dropping every trailing patch that starts at or after
/// `start` (a wider enclosing patch supersedes them).
pub open spec fn drop_tail_covered(ps: Seq<Patch>, start: nat) -> Seq<Patch>
    decreases ps.len(),
{
    if ps.len() == 0 {
        ps
    } else if ps.last().start >= start {
        drop_tail_covered(ps.drop_last(), start)
    } else {
        ps
    }
}

/// Index of the first patch that ends after `start`: where a patch starting
/// at `start` belongs.
pub open spec fn insert_index(ps: Seq<Patch>, start: nat) -> int
    decreases ps.len(),
{
    if ps.len() == 0 {
        0
    } else if ps[0].end <= start {
        1 + insert_index(ps.drop_first(), start)
    } else {
        0
    }
}

/// The insert position is always within the log.
pub proof fn lemma_insert_index_bounds(ps: Seq<Patch>, start: nat)
    ensures
        0 <= insert_index(ps, start) <= ps.len(),
    decreases ps.len(),
{
    if ps.len() > 0 && ps[0].end <= start {
        lemma_insert_index_bounds(ps.drop_first(), start);
    }
}

/// The append-only builder of the patch log.
pub struct PatchBuilder {
    patches: Vec<Patch>,
}

impl View for PatchBuilder {
    type V = Seq<Patch>;

    closed spec fn view(&self) -> Seq<Patch> {
        self.patches@
    }
}

/// Check a patch's own shape at run time.
fn check_patch(p: &Patch) -> (r: bool)
    ensures
        r == patch_ok(*p),
{
    p.start <= p.end && !contains_line_terminators(p.replacement.as_slice())
}

impl PatchBuilder {
    /// The log's invariant, maintained by every operation.
    #[verifier::type_invariant]
    pub open spec fn inv(self) -> bool {
        log_wf(self@)
    }

    /// An empty log.
    pub fn new() -> (r: Self)
        ensures
            r@ == Seq::<Patch>::empty(),
    {
        PatchBuilder { patches: Vec::new() }
    }

    /// How many patches the log holds.
    pub fn len(&self) -> (r: usize)
        ensures
            r == self@.len(),
    {
        self.patches.len()
    }

    /// Read the patch at `index`.
    pub fn get(&self, index: usize) -> (r: Option<&Patch>)
        ensures
            match r {
                Some(p) => index < self@.len() && *p == self@[index as int],
                None => index >= self@.len(),
            },
    {
        if index < self.patches.len() {
            Some(&self.patches[index])
        } else {
            None
        }
    }

    /// Read the last patch.
    pub fn last(&self) -> (r: Option<&Patch>)
        ensures
            match r {
                Some(p) => self@.len() > 0 && *p == self@.last(),
                None => self@.len() == 0,
            },
    {
        if self.patches.len() > 0 {
            Some(&self.patches[self.patches.len() - 1])
        } else {
            None
        }
    }

    /// Append a patch after everything logged so far; the canonical path.
    /// Rejects a patch that would run backwards, overlap the tail, or carry a
    /// line terminator.
    pub fn push(&mut self, patch: Patch) -> (ok: bool)
        ensures
            ok == (patch_ok(patch) && (old(self)@.len() == 0 || old(self)@.last().end
                <= patch.start)),
            ok ==> final(self)@ == old(self)@.push(patch),
            !ok ==> final(self)@ == old(self)@,
    {
        proof {
            use_type_invariant(&*self);
        }
        if !check_patch(&patch) {
            return false;
        }
        let n = self.patches.len();
        if n > 0 && self.patches[n - 1].end > patch.start {
            return false;
        }
        let mut ps: Vec<Patch> = Vec::new();
        core::mem::swap(&mut ps, &mut self.patches);
        ps.push(patch);
        core::mem::swap(&mut ps, &mut self.patches);
        proof {
            assert forall|i: int| 0 <= i < self@.len() - 1 implies (#[trigger] self@[i]).end
                <= self@[i + 1].start by {}
        }
        true
    }

    /// Append a patch, first dropping every trailing patch that the new span
    /// supersedes: while the last patch starts at or after the new patch's
    /// start, pop it. Rejects when the survivor underneath still overlaps.
    #[verifier::rlimit(30)]
    pub fn push_merging_tail(&mut self, patch: Patch) -> (ok: bool)
        ensures
            ok == (patch_ok(patch) && (drop_tail_covered(old(self)@, patch.start as nat).len() == 0
                || drop_tail_covered(old(self)@, patch.start as nat).last().end <= patch.start)),
            ok ==> final(self)@ == drop_tail_covered(old(self)@, patch.start as nat).push(patch),
            !ok ==> final(self)@ == old(self)@,
    {
        proof {
            use_type_invariant(&*self);
        }
        if !check_patch(&patch) {
            return false;
        }
        let mut keep: usize = self.patches.len();
        proof {
            assert(self@.take(keep as int) =~= self@);
        }
        while keep > 0 && self.patches[keep - 1].start >= patch.start
        invariant
            keep <= self@.len(),
            drop_tail_covered(self@, patch.start as nat) == drop_tail_covered(
                self@.take(keep as int),
                patch.start as nat,
            ),
        decreases keep,
        {
            proof {
                assert(self@.take(keep as int).last() == self@[keep - 1]);
                assert(self@.take(keep as int).drop_last() =~= self@.take(keep - 1));
            }
            keep = keep - 1;
        }
        proof {
            use_type_invariant(&*self);
            if keep > 0 {
                assert(self@.take(keep as int).last() == self@[keep - 1]);
            }
            assert(drop_tail_covered(self@.take(keep as int), patch.start as nat) == self@.take(
                keep as int,
            ));
        }
        if keep > 0 && self.patches[keep - 1].end > patch.start {
            return false;
        }
        let mut ps: Vec<Patch> = Vec::new();
        core::mem::swap(&mut ps, &mut self.patches);
        ps.truncate(keep);
        ps.push(patch);
        core::mem::swap(&mut ps, &mut self.patches);
        proof {
            assert forall|i: int| 0 <= i < self@.len() - 1 implies (#[trigger] self@[i]).end
                <= self@[i + 1].start by {
                assert(old(self)@.take(keep as int)[i] == old(self)@[i]);
            }
            assert(forall|i: int|
                0 <= i < self@.len() - 1 ==> #[trigger] self@[i].start <= self@[i].end);
        }
        true
    }

    /// Insert a patch at the position its span calls for: before the first
    /// patch that ends after its start. Used when a patch must precede
    /// patches emitted by later child productions. Rejects when the patch
    /// does not fit between its would-be neighbours.
    #[verifier::rlimit(30)]
    pub fn binary_search_insert(&mut self, patch: Patch) -> (ok: bool)
        ensures
            ok ==> final(self)@ == old(self)@.insert(
                insert_index(old(self)@, patch.start as nat),
                patch,
            ),
            ok == (patch_ok(patch) && {
                let pos = insert_index(old(self)@, patch.start as nat);
                pos == old(self)@.len() || patch.end <= old(self)@[pos].start
            }),
            !ok ==> final(self)@ == old(self)@,
    {
        proof {
            use_type_invariant(&*self);
        }
        if !check_patch(&patch) {
            return false;
        }
        let n = self.patches.len();
        let mut pos: usize = 0;
        proof {
            assert(self@.skip(0) =~= self@);
        }
        while pos < n && self.patches[pos].end <= patch.start
        invariant
            pos <= n == self@.len(),
            insert_index(self@, patch.start as nat) == pos + insert_index(
                self@.skip(pos as int),
                patch.start as nat,
            ),
            forall|i: int| 0 <= i < pos ==> (#[trigger] self@[i]).end <= patch.start,
        decreases n - pos,
        {
            proof {
                assert(self@.skip(pos as int)[0] == self@[pos as int]);
                assert(self@.skip(pos as int).drop_first() =~= self@.skip(pos + 1));
            }
            pos = pos + 1;
        }
        proof {
            use_type_invariant(&*self);
            if pos < n {
                assert(self@.skip(pos as int)[0] == self@[pos as int]);
            }
            assert(insert_index(self@, patch.start as nat) == pos);
        }
        if pos < n && self.patches[pos].start < patch.end {
            return false;
        }
        let mut ps: Vec<Patch> = Vec::new();
        core::mem::swap(&mut ps, &mut self.patches);
        ps.insert(pos, patch);
        core::mem::swap(&mut ps, &mut self.patches);
        proof {
            let ps = old(self)@;
            assert forall|i: int| 0 <= i < self@.len() - 1 implies (#[trigger] self@[i]).end
                <= self@[i + 1].start by {
                if i < pos - 1 {
                    assert(self@[i] == ps[i] && self@[i + 1] == ps[i + 1]);
                } else if i == pos - 1 {
                    assert(self@[i] == ps[i] && self@[i + 1] == patch);
                } else if i == pos {
                    assert(self@[i] == patch);
                    if i + 1 < self@.len() {
                        assert(self@[i + 1] == ps[i]);
                    }
                } else {
                    assert(self@[i] == ps[i - 1] && self@[i + 1] == ps[i]);
                }
            }
            assert(forall|i: int|
                0 <= i < self@.len() ==> #[trigger] self@[i].start <= self@[i].end);
            assert(forall|i: int| 0 <= i < self@.len() ==> lt_free(#[trigger] self@[i].replacement@));
        }
        true
    }

    /// Insert a patch at `index`. Rejects when the neighbours would not stay
    /// ordered around it.
    #[verifier::rlimit(100)]
    pub fn insert(&mut self, index: usize, patch: Patch) -> (ok: bool)
        ensures
            ok == (patch_ok(patch) && index <= old(self)@.len() && (index == 0 || old(self)@[index
                - 1].end <= patch.start) && (index == old(self)@.len() || patch.end <= old(
                self,
            )@[index as int].start)),
            ok ==> final(self)@ == old(self)@.insert(index as int, patch),
            !ok ==> final(self)@ == old(self)@,
    {
        proof {
            use_type_invariant(&*self);
        }
        if !check_patch(&patch) {
            return false;
        }
        let n = self.patches.len();
        if index > n {
            return false;
        }
        if index > 0 && self.patches[index - 1].end > patch.start {
            return false;
        }
        if index < n && patch.end > self.patches[index].start {
            return false;
        }
        let mut ps: Vec<Patch> = Vec::new();
        core::mem::swap(&mut ps, &mut self.patches);
        ps.insert(index, patch);
        core::mem::swap(&mut ps, &mut self.patches);
        proof {
            let ps = old(self)@;
            assert forall|i: int| 0 <= i < self@.len() - 1 implies (#[trigger] self@[i]).end
                <= self@[i + 1].start by {
                if i < index - 1 {
                    assert(self@[i] == ps[i] && self@[i + 1] == ps[i + 1]);
                } else if i == index - 1 {
                    assert(self@[i] == ps[i] && self@[i + 1] == patch);
                } else if i == index {
                    assert(self@[i] == patch);
                    if i + 1 < self@.len() {
                        assert(self@[i + 1] == ps[i]);
                    }
                } else {
                    assert(self@[i] == ps[i - 1] && self@[i + 1] == ps[i]);
                }
            }
            assert(forall|i: int|
                0 <= i < self@.len() ==> #[trigger] self@[i].start <= self@[i].end);
            assert(forall|i: int| 0 <= i < self@.len() ==> lt_free(#[trigger] self@[i].replacement@));
        }
        true
    }

    /// Replace the replacement text of the patch at `index`; ordering is
    /// untouched. Rejects an out-of-range index or a dirty replacement.
    pub fn set_replacement(&mut self, index: usize, replacement: Vec<u8>) -> (ok: bool)
        ensures
            ok == (index < old(self)@.len() && lt_free(replacement@)),
            ok ==> final(self)@ == old(self)@.update(
                index as int,
                Patch {
                    start: old(self)@[index as int].start,
                    end: old(self)@[index as int].end,
                    replacement,
                },
            ),
            !ok ==> final(self)@ == old(self)@,
    {
        proof {
            use_type_invariant(&*self);
        }
        if index >= self.patches.len() {
            return false;
        }
        if contains_line_terminators(replacement.as_slice()) {
            return false;
        }
        let start = self.patches[index].start;
        let end = self.patches[index].end;
        let mut ps: Vec<Patch> = Vec::new();
        core::mem::swap(&mut ps, &mut self.patches);
        let _old_patch = ps.remove(index);
        ps.insert(index, Patch { start, end, replacement });
        core::mem::swap(&mut ps, &mut self.patches);
        proof {
            assert(self@ =~= old(self)@.update(
                index as int,
                Patch { start, end, replacement: final(self)@[index as int].replacement },
            ));
            assert(forall|i: int|
                0 <= i < self@.len() - 1 ==> (#[trigger] self@[i]).end <= self@[i + 1].start);
        }
        true
    }

    /// Move the span of the patch at `index` to `[new_start, new_end)`.
    /// Rejects when the patch would no longer sit between its neighbours.
    pub fn set_span(&mut self, index: usize, new_start: usize, new_end: usize) -> (ok: bool)
        ensures
            ok == (index < old(self)@.len() && new_start <= new_end && (index == 0 || old(
                self,
            )@[index - 1].end <= new_start) && (index + 1 == old(self)@.len() || index + 1 < old(
                self,
            )@.len() && new_end <= old(self)@[index + 1].start)),
            ok ==> final(self)@ == old(self)@.update(
                index as int,
                Patch {
                    start: new_start,
                    end: new_end,
                    replacement: old(self)@[index as int].replacement,
                },
            ),
            !ok ==> final(self)@ == old(self)@,
    {
        proof {
            use_type_invariant(&*self);
        }
        let n = self.patches.len();
        if index >= n || new_start > new_end {
            return false;
        }
        if index > 0 && self.patches[index - 1].end > new_start {
            return false;
        }
        if index + 1 < n && new_end > self.patches[index + 1].start {
            return false;
        }
        let mut ps: Vec<Patch> = Vec::new();
        core::mem::swap(&mut ps, &mut self.patches);
        let old_patch = ps.remove(index);
        let updated = Patch { start: new_start, end: new_end, replacement: old_patch.replacement };
        ps.insert(index, updated);
        core::mem::swap(&mut ps, &mut self.patches);
        proof {
            let ps = old(self)@;
            assert(self@ =~= ps.update(index as int, updated));
            assert forall|i: int| 0 <= i < self@.len() - 1 implies (#[trigger] self@[i]).end
                <= self@[i + 1].start by {
                if i != index && i + 1 != index {
                    assert(self@[i] == ps[i] && self@[i + 1] == ps[i + 1]);
                }
            }
            assert(updated.replacement@ == ps[index as int].replacement@);
        }
        true
    }

    /// Cut the log back to its first `len` patches; used by rewind.
    pub fn truncate(&mut self, len: usize)
        ensures
            len < old(self)@.len() ==> final(self)@ == old(self)@.take(len as int),
            len >= old(self)@.len() ==> final(self)@ == old(self)@,
    {
        proof {
            use_type_invariant(&*self);
        }
        let mut ps: Vec<Patch> = Vec::new();
        core::mem::swap(&mut ps, &mut self.patches);
        ps.truncate(len);
        core::mem::swap(&mut ps, &mut self.patches);
        proof {
            if (len as int) < old(self)@.len() {
                assert(forall|i: int|
                    0 <= i < self@.len() ==> self@[i] == old(self)@.take(len as int)[i]);
            }
        }
    }

    /// Hand the finished, still well-formed log out.
    pub fn into_patches(self) -> (r: Vec<Patch>)
        ensures
            r@ == self@,
            log_wf(r@),
    {
        proof {
            use_type_invariant(&self);
        }
        self.patches
    }
}

} // verus!
