//! The rule by which a ray meets a sphere.

use crate::double::Double;
use vstd::prelude::*;

verus! {

/// Whether a ray meets a sphere, given where the ray comes closest to the
/// center of the sphere. `along` is how far along the ray that point lies,
/// counted from the origin of the ray in the direction of the ray; `apart`
/// is how far it lies from the center. The ray meets the sphere where the
/// point lies ahead of the origin and within the radius.
pub fn sphere_intersects(along: &Double, apart: &Double, radius: &Double) -> (meets: bool)
    ensures
        meets == (apart.units() <= radius.units() && along.units() > 0),
{
    let zero = Double::zero();
    !radius.lt(apart) && zero.lt(along)
}

} // verus!
