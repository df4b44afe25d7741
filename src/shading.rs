//! The recursion budget of reflected and refracted rays.
use vstd::prelude::*;

verus! {

/// The budget left for a reflected or refracted ray traced from a surface
/// reached with `remaining` bounces to spare: one less, or none where the
/// budget is spent, in which case that ray contributes black.
pub fn bounce_budget(remaining: i32) -> (r: Option<i32>)
    ensures
        remaining <= 0 ==> r.is_none(),
        remaining > 0 ==> r == Some((remaining - 1) as i32),
{
    if remaining <= 0 {
        None
    } else {
        Some(remaining - 1)
    }
}

} // verus!
