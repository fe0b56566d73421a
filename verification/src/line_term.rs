//! Line terminators of ECMAScript source text, viewed as UTF-8 bytes.
//!
//! The exhaustive set is U+000A, U+000D, U+2028 and U+2029; the last two are
//! the three-byte UTF-8 sequences `E2 80 A8` and `E2 80 A9`.

use vstd::prelude::*;

verus! {

/// A line terminator starts at `i`: either a one-byte terminator (LF or CR)
/// or the full three-byte encoding of U+2028 / U+2029.
pub open spec fn is_lt_start(s: Seq<u8>, i: int) -> bool {
    &&& 0 <= i < s.len()
    &&& {
        ||| s[i] == 10
        ||| s[i] == 13
        ||| (s[i] == 226 && i + 2 < s.len() && s[i + 1] == 128 && (s[i + 2] == 168 || s[i + 2]
            == 169))
    }
}

/// No line terminator starts anywhere in `s`.
pub open spec fn lt_free(s: Seq<u8>) -> bool {
    forall|i: int| 0 <= i < s.len() ==> !is_lt_start(s, i)
}

/// Number of positions at which a line terminator starts, counted from `i` on.
pub open spec fn lt_count_from(s: Seq<u8>, i: int) -> nat
    decreases s.len() - i,
{
    if i < 0 || i >= s.len() {
        0
    } else {
        (if is_lt_start(s, i) {
            1nat
        } else {
            0nat
        }) + lt_count_from(s, i + 1)
    }
}

/// Number of positions at which a line terminator starts.
pub open spec fn lt_count(s: Seq<u8>) -> nat {
    lt_count_from(s, 0)
}

/// Whether a line terminator starts at position `i` of `buf`.
fn lt_start_at(buf: &[u8], i: usize) -> (r: bool)
    requires
        i < buf.len(),
    ensures
        r == is_lt_start(buf@, i as int),
{
    let b: u8 = buf[i];
    if b == 10 || b == 13 {
        true
    } else if b == 226 && buf.len() - i > 2 {
        buf[i + 1] == 128 && (buf[i + 2] == 168 || buf[i + 2] == 169)
    } else {
        false
    }
}

/// True if any line terminator starts inside `buf`.
pub fn contains_line_terminators(buf: &[u8]) -> (r: bool)
    ensures
        r == !lt_free(buf@),
{
    let mut i: usize = 0;
    while i < buf.len()
        invariant
            i <= buf.len(),
            forall|j: int| 0 <= j < i ==> !is_lt_start(buf@, j),
        decreases buf.len() - i,
    {
        if lt_start_at(buf, i) {
            return true;
        }
        i = i + 1;
    }
    false
}

/// The positions at which a line terminator starts, in increasing order.
pub fn line_terminator_start_iter(buf: &[u8]) -> (r: Vec<usize>)
    ensures
        forall|k: int| 0 <= k < r@.len() ==> is_lt_start(buf@, #[trigger] r@[k] as int),
        forall|j: int| 0 <= j < buf@.len() && is_lt_start(buf@, j) ==> r@.contains(j as usize),
        forall|k1: int, k2: int| 0 <= k1 < k2 < r@.len() ==> r@[k1] < r@[k2],
{
    let mut r: Vec<usize> = Vec::new();
    let mut i: usize = 0;
    while i < buf.len()
        invariant
            i <= buf.len(),
            forall|k: int| 0 <= k < r@.len() ==> is_lt_start(buf@, #[trigger] r@[k] as int),
            forall|k: int| 0 <= k < r@.len() ==> r@[k] < i,
            forall|j: int| 0 <= j < i && is_lt_start(buf@, j) ==> r@.contains(j as usize),
            forall|k1: int, k2: int| 0 <= k1 < k2 < r@.len() ==> r@[k1] < r@[k2],
        decreases buf.len() - i,
    {
        let ghost r0 = r@;
        if lt_start_at(buf, i) {
            r.push(i);
            proof {
                assert(r@[r@.len() - 1] == i);
                assert forall|j: int| 0 <= j < i + 1 && is_lt_start(buf@, j) implies r@.contains(
                    j as usize,
                ) by {
                    if j < i {
                        let k = choose|k: int| 0 <= k < r0.len() && r0[k] == j as usize;
                        assert(r@[k] == j as usize);
                    } else {
                        assert(r@[r@.len() - 1] == j as usize);
                    }
                }
            }
        } else {
            proof {
                assert forall|j: int| 0 <= j < i + 1 && is_lt_start(buf@, j) implies r@.contains(
                    j as usize,
                ) by {
                    assert(j < i || !is_lt_start(buf@, j));
                }
            }
        }
        i = i + 1;
    }
    r
}

/// A line-terminator-free sequence has a zero terminator count.
pub proof fn lemma_lt_free_count_zero(s: Seq<u8>, i: int)
    requires
        lt_free(s),
        0 <= i,
    ensures
        lt_count_from(s, i) == 0,
    decreases s.len() - i,
{
    if i < s.len() {
        lemma_lt_free_count_zero(s, i + 1);
    }
}

/// Appending a byte that is no terminator byte and cannot complete a
/// three-byte terminator keeps a sequence terminator-free.
pub proof fn lemma_lt_free_push(s: Seq<u8>, b: u8)
    requires
        lt_free(s),
        b != 10,
        b != 13,
        b != 168,
        b != 169,
    ensures
        lt_free(s.push(b)),
{
    let t = s.push(b);
    assert forall|i: int| 0 <= i < t.len() implies !is_lt_start(t, i) by {
        if i < s.len() {
            assert(!is_lt_start(s, i));
            assert(t[i] == s[i]);
            if i + 1 < s.len() {
                assert(t[i + 1] == s[i + 1]);
            }
            if i + 2 < s.len() {
                assert(t[i + 2] == s[i + 2]);
            }
        } else {
            assert(t[i] == b);
        }
    }
}

} // verus!
