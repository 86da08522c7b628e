//! Small additions to what every type can do.

use vstd::prelude::*;

verus! {

/// Calls in the middle of a chain of calls, for every type.
pub trait AnyExt: Sized {
    /// Hands the value to `f` and returns what `f` returns.
    fn apply<R, F: FnOnce(Self) -> R>(self, f: F) -> (r: R)
        requires
            f.requires((self,)),
        ensures
            f.ensures((self,), r),
    {
        f(self)
    }

    /// Lets `f` change the value, and returns it.
    fn also<F: FnOnce(&mut Self)>(self, f: F) -> (r: Self)
        requires
            forall|value: &mut Self| *value == self ==> f.requires((value,)),
        ensures
            exists|value: &mut Self|
                *value == self && *final(value) == r && #[trigger] f.ensures((value,), ()),
    {
        let mut value = self;
        f(&mut value);
        value
    }
}

impl<T> AnyExt for T {
}

} // verus!
