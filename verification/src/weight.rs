//! The pluggable size oracle: every cached value reports the number of bytes
//! it occupies, measured once at insertion time. The oracle is deterministic:
//! it is a function of the value alone.

use vstd::prelude::*;

verus! {

/// Size oracle implemented by every cacheable value type.
///
/// `spec_heap_size` is the mathematical size of a value; `heap_size` computes
/// it. `duplicate` produces an observably equal value (same view, same
/// measured size); it stands in for `Clone`, whose derived code carries no
/// specification.
pub trait HeapSize: View + Sized {
    /// The measured byte size of the value, as a specification-level function.
    spec fn spec_heap_size(&self) -> usize;

    /// Measures the byte size of the value.
    fn heap_size(&self) -> (s: usize)
        ensures
            s == self.spec_heap_size(),
    ;

    /// Produces a copy of the value with the same view and the same measured
    /// size.
    fn duplicate(&self) -> (r: Self)
        ensures
            r@ == self@,
            r.spec_heap_size() == self.spec_heap_size(),
    ;
}

impl HeapSize for Vec<u8> {
    open spec fn spec_heap_size(&self) -> usize {
        self@.len() as usize
    }

    fn heap_size(&self) -> (s: usize) {
        self.len()
    }

    fn duplicate(&self) -> (r: Self) {
        let r = self.clone();
        proof {
            assert(r@ =~= self@);
        }
        r
    }
}

} // verus!
