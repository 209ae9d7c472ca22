//! Building fixed-size arrays element by element.
use vstd::prelude::*;

verus! {

/// Relies on `array_init::array_init`: it calls the initializer once for each
/// index below `N` and stores the value at that index.
#[verifier::external_body]
pub(crate) fn init_array<T, F: Fn(usize) -> T, const N: usize>(f: F) -> (r: [T; N])
    requires
        forall|i: usize| i < N ==> #[trigger] f.requires((i,)),
    ensures
        forall|i: int| 0 <= i < N ==> f.ensures((i as usize,), #[trigger] r@[i]),
{
    array_init::array_init(f)
}

} // verus!
