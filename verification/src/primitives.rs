//! The three rotations of a vector, each in the plane of two of its
//! coordinates.

use vstd::prelude::*;

verus! {

/// A rotation about one of three fixed axes.
#[derive(Clone, Copy, Debug, PartialEq, Eq, Structural)]
pub enum Rotation {
    /// In the plane of the first and second coordinates.
    XY,
    /// In the plane of the first and third coordinates.
    Z,
    /// In the plane of the second and third coordinates: about the axis
    /// along which the camera looks.
    Planar,
}

impl Rotation {
    /// The two coordinates that the rotation turns, counted from zero; the
    /// third is left as it is. A rotation by an angle takes the pair
    /// `(u, v)` of these coordinates to `(cos * u - sin * v, sin * u + cos *
    /// v)`.
    pub fn plane(&self) -> (axes: (usize, usize))
        ensures
            axes == match *self {
                Rotation::XY => (0usize, 1usize),
                Rotation::Z => (0usize, 2usize),
                Rotation::Planar => (1usize, 2usize),
            },
    {
        match self {
            Rotation::XY => (0, 1),
            Rotation::Z => (0, 2),
            Rotation::Planar => (1, 2),
        }
    }

    /// Which of the three angles of a camera turns it by this rotation,
    /// counted from zero.
    pub fn angle(&self) -> (index: usize)
        ensures
            index == match *self {
                Rotation::XY => 0usize,
                Rotation::Z => 1usize,
                Rotation::Planar => 2usize,
            },
    {
        match self {
            Rotation::XY => 0,
            Rotation::Z => 1,
            Rotation::Planar => 2,
        }
    }
}

/// The order in which a camera applies its rotations to a direction.
pub fn rotation_order() -> (order: [Rotation; 3])
    ensures
        order@ == seq![Rotation::Planar, Rotation::Z, Rotation::XY],
{
    [Rotation::Planar, Rotation::Z, Rotation::XY]
}

} // verus!
