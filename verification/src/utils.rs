use vstd::prelude::*;

verus! {

/// Marks the path that a branch hint calls unlikely.
#[inline]
fn cold() {
}

/// Hints to the compiler that the condition is likely to be true.
#[inline]
pub fn likely(condition: bool) -> (r: bool)
    ensures
        r == condition,
{
    if !condition {
        cold()
    }
    condition
}

/// Hints to the compiler that the condition is likely to be false.
#[inline]
pub fn unlikely(condition: bool) -> (r: bool)
    ensures
        r == condition,
{
    if condition {
        cold()
    }
    condition
}

} // verus!
