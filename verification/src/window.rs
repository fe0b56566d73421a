//! A fixed-width sliding window over the latest values pushed.

use vstd::prelude::*;

verus! {

/// The last `width` values pushed, oldest first.
pub struct Window<T> {
    items: Vec<T>,
}

impl<T: Copy> Window<T> {
    /// The window's contents, oldest first.
    pub closed spec fn contents(self) -> Seq<T> {
        self.items@
    }

    /// A window of `width` copies of `val`.
    pub fn repeating(val: T, width: usize) -> (r: Window<T>)
        ensures
            r.contents().len() == width,
            forall|i: int| 0 <= i < width ==> r.contents()[i] == val,
    {
        let mut items: Vec<T> = Vec::new();
        let mut k: usize = 0;
        while k < width
            invariant
                k <= width,
                items@.len() == k,
                forall|i: int| 0 <= i < k ==> items@[i] == val,
            decreases width - k,
        {
            items.push(val);
            k = k + 1;
        }
        Window { items }
    }

    /// Slide the window left and append `value` as the newest entry.
    pub fn push(&mut self, value: T)
        ensures
            final(self).contents().len() == old(self).contents().len(),
            old(self).contents().len() > 0 ==> final(self).contents() == old(
                self,
            ).contents().skip(1).push(value),
    {
        let mut work: Vec<T> = Vec::new();
        core::mem::swap(&mut work, &mut self.items);
        if work.len() > 0 {
            let ghost pre = work@;
            let _ = work.remove(0);
            work.push(value);
            proof {
                assert(work@ =~= pre.skip(1).push(value));
            }
        }
        core::mem::swap(&mut work, &mut self.items);
    }

    /// Read the window's values, oldest first.
    pub fn as_slice(&self) -> (r: &[T])
        ensures
            r@ == self.contents(),
    {
        self.items.as_slice()
    }
}

} // verus!
