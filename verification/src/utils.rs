//! A small option helper: run a side effect exactly when a value is
//! absent, handing the value through unchanged.

use vstd::prelude::*;

verus! {

/// Runs `f` where `self` is the absent case and returns `self` itself;
/// a present value passes through with `f` never run.
pub trait MapNone: Sized {
    /// Whether this value is the absent case, the one `map_none` acts
    /// on.
    spec fn absent(self) -> bool;

    fn map_none<F: FnOnce() -> ()>(self, f: F) -> (r: Self)
        requires
            f.requires(()),
        ensures
            r == self,
            self.absent() ==> f.ensures((), ()),
    ;
}

impl<T> MapNone for Option<T> {
    open spec fn absent(self) -> bool {
        self is None
    }

    fn map_none<F: FnOnce() -> ()>(self, f: F) -> (r: Self) {
        match self {
            Some(t) => Some(t),
            None => {
                f();
                None
            },
        }
    }
}

} // verus!
