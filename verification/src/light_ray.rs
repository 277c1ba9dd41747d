//! The shading of one traced ray: which object it meets first, what each
//! light adds at the point it meets, and how the colors it picks up add up.

use crate::color::{mixed, scaled_by, Color};
use crate::double::Double;
use vstd::prelude::*;

verus! {

/// How many bounces a ray is followed for unless it is told otherwise.
/// One: a ray stops at the first surface it meets.
pub const NUM_RAYS: u32 = 1;

/// The level of each channel of the background, which a ray picks up when
/// it meets nothing.
pub const BACKGROUND_LEVEL: u8 = 128;

/// The background color.
pub open spec fn background() -> Color {
    Color { r: BACKGROUND_LEVEL, g: BACKGROUND_LEVEL, b: BACKGROUND_LEVEL }
}

/// Whether entry `i` of `hits` is the closest hit. `hits` holds, for each
/// object of a scene in order, the distance at which a ray meets it, if it
/// does. The closest hit is nearer than every hit before it and no farther
/// than any hit after it: of two objects at the same distance the earlier
/// one counts.
pub open spec fn is_closest(hits: Seq<Option<Double>>, i: int) -> bool {
    &&& 0 <= i < hits.len()
    &&& hits[i] is Some
    &&& forall|j: int|
        0 <= j < i && hits[j] is Some ==> hits[i]->0.units() < (#[trigger] hits[j])->0.units()
    &&& forall|j: int|
        i < j < hits.len() && hits[j] is Some ==> hits[i]->0.units() <= (#[trigger] hits[j])->0.units()
}

/// A scene has at most one closest hit.
pub proof fn lemma_closest_unique(hits: Seq<Option<Double>>, i: int, j: int)
    requires
        is_closest(hits, i),
        is_closest(hits, j),
    ensures
        i == j,
{
}

/// Whether a shadow ray is stopped on its way: whether it meets any object.
pub open spec fn occluded(hits: Seq<Option<Double>>) -> bool {
    exists|j: int| 0 <= j < hits.len() && (#[trigger] hits[j]) is Some
}

/// What one light can give to a point on a surface.
pub struct LightSample {
    /// For each object of the scene in order, the distance at which the ray
    /// from the point towards the light meets it, if it does.
    pub shadow_hits: Vec<Option<Double>>,
    /// What the light gives where nothing stands in its way: the squared
    /// cosine of the angle between the surface normal and the ray.
    pub unshadowed: Double,
}

/// The pattern of what a light gives to a point: nothing where the light is
/// occluded, and `unshadowed` where it is not.
pub open spec fn intensity_bits(sample: LightSample) -> u64 {
    if occluded(sample.shadow_hits@) {
        0
    } else {
        sample.unshadowed.bits()
    }
}

/// What a ray finds at the end of one stretch of its way.
#[derive(Clone, Copy, Debug)]
pub enum Bounce<R> {
    /// The ray meets no object.
    Miss,
    /// The ray meets an object of color `color`, at a point to which the
    /// lights of the scene give `shadow` on average: nothing is zero, all
    /// they have is one. From there it would go on as `reflected`.
    Hit { color: Color, shadow: Double, reflected: R },
}

/// The color that a ray holds after it has held `color` and found `bounce`.
pub open spec fn absorbed<R>(color: Color, bounce: Bounce<R>) -> Color {
    match bounce {
        Bounce::Miss => mixed(color, background()),
        Bounce::Hit { color: surface, shadow, reflected } => mixed(
            color,
            scaled_by(surface, shadow),
        ),
    }
}

/// The ray that is followed after `ray` has found `bounce`.
pub open spec fn advanced<R>(ray: R, bounce: Bounce<R>) -> R {
    match bounce {
        Bounce::Miss => ray,
        Bounce::Hit { color, shadow, reflected } => reflected,
    }
}

/// Where a ray stands after it has found `bounces` one after another: the
/// ray that is followed, the color picked up, and the number of bounces
/// that may still be made, given what these were at the start. A miss ends
/// the way of the ray, and so does the last bounce it may make; what is
/// found after the end is not looked at.
pub open spec fn traced<R>(ray: R, color: Color, remaining: nat, bounces: Seq<Bounce<R>>) -> (
    R,
    Color,
    nat,
)
    decreases bounces.len(),
{
    if remaining == 0 || bounces.len() == 0 {
        (ray, color, remaining)
    } else if bounces[0] is Miss {
        (ray, absorbed(color, bounces[0]), 0)
    } else {
        traced(
            advanced(ray, bounces[0]),
            absorbed(color, bounces[0]),
            (remaining - 1) as nat,
            bounces.skip(1),
        )
    }
}

/// A ray on its way through a scene: the ray that is followed, which the
/// caller makes and reads, and the color it has picked up.
pub struct LightRay<R> {
    ray: R,
    color: Color,
    remaining: u32,
}

/// Finds the object that a ray meets first, given the distance at which it
/// meets each object of the scene, if it does. Returns the place of that
/// object in the scene, or `None` where the ray meets no object.
pub fn find_closest_intersection(hits: &Vec<Option<Double>>) -> (closest: Option<usize>)
    ensures
        closest is None <==> !occluded(hits@),
        closest matches Some(i) ==> is_closest(hits@, i as int) && forall|j: int|
            is_closest(hits@, j) ==> j == i,
{
    let mut closest: Option<usize> = None;
    let mut nearest: Double = Double::zero();
    let mut i: usize = 0;
    while i < hits.len()
        invariant
            0 <= i <= hits.len(),
            closest is None ==> forall|j: int| 0 <= j < i ==> hits@[j] is None,
            closest matches Some(c) ==> c < i && is_closest(hits@.take(i as int), c as int)
                && hits@[c as int] == Some(nearest),
        decreases hits.len() - i,
    {
        if let Some(distance) = hits[i] {
            let nearer = match closest {
                None => true,
                Some(_) => distance.lt(&nearest),
            };
            if nearer {
                closest = Some(i);
                nearest = distance;
            }
        }
        i = i + 1;
    }
    assert(hits@.take(hits.len() as int) == hits@);
    proof {
        if let Some(c) = closest {
            assert forall|j: int| is_closest(hits@, j) implies j == c by {
                lemma_closest_unique(hits@, c as int, j);
            }
        }
    }
    closest
}

/// What each light of a scene gives to a point on a surface: nothing where
/// the ray from the point towards the light meets any object, and what the
/// light gives unhindered where it meets none. The caller takes the average.
pub fn compute_shadows(lights: &Vec<LightSample>) -> (intensities: Vec<Double>)
    ensures
        intensities@.len() == lights@.len(),
        forall|i: int|
            0 <= i < lights@.len() ==> (#[trigger] intensities@[i]).bits() == intensity_bits(
                lights@[i],
            ),
{
    let mut intensities: Vec<Double> = Vec::new();
    let mut i: usize = 0;
    while i < lights.len()
        invariant
            0 <= i <= lights.len(),
            intensities@.len() == i,
            forall|k: int|
                0 <= k < i ==> (#[trigger] intensities@[k]).bits() == intensity_bits(lights@[k]),
        decreases lights.len() - i,
    {
        let sample = &lights[i];
        let blocker = find_closest_intersection(&sample.shadow_hits);
        let intensity = match blocker {
            Some(_) => Double::zero(),
            None => sample.unshadowed,
        };
        intensities.push(intensity);
        i = i + 1;
    }
    intensities
}

impl<R: Copy> LightRay<R> {
    /// The ray that is followed.
    pub closed spec fn ray(&self) -> R {
        self.ray
    }

    /// The color picked up so far.
    pub closed spec fn color(&self) -> Color {
        self.color
    }

    /// The number of bounces that the ray may still make.
    pub closed spec fn remaining(&self) -> nat {
        self.remaining as nat
    }

    /// A ray that has picked up nothing yet and may make `NUM_RAYS` bounces.
    pub fn new(ray: R) -> (light_ray: LightRay<R>)
        ensures
            light_ray.ray() == ray,
            light_ray.color() == (Color { r: 0, g: 0, b: 0 }),
            light_ray.remaining() == NUM_RAYS,
    {
        LightRay { ray, color: Color::new(0, 0, 0), remaining: NUM_RAYS }
    }

    /// A ray that has picked up nothing yet and may make `depth` bounces.
    pub fn with_depth(ray: R, depth: u32) -> (light_ray: LightRay<R>)
        ensures
            light_ray.ray() == ray,
            light_ray.color() == (Color { r: 0, g: 0, b: 0 }),
            light_ray.remaining() == depth,
    {
        LightRay { ray, color: Color::new(0, 0, 0), remaining: depth }
    }

    /// The ray that is followed: the one the walk began with, or the one
    /// that the last hit reflected.
    pub fn current(&self) -> (ray: R)
        ensures
            ray == self.ray(),
    {
        self.ray
    }

    /// The color picked up so far.
    pub fn accumulated(&self) -> (color: Color)
        ensures
            color == self.color(),
    {
        self.color
    }

    /// Takes in what the ray has found at the end of one stretch of its way,
    /// and tells whether the ray goes on. A miss adds the background color;
    /// a hit adds the color of the surface scaled by what the lights give
    /// it, and the reflected ray is followed from there. A ray that may make
    /// no more bounces takes in nothing.
    pub fn bounce(&mut self, found: Bounce<R>) -> (goes_on: bool)
        ensures
            (final(self).ray(), final(self).color(), final(self).remaining()) == traced(
                old(self).ray(),
                old(self).color(),
                old(self).remaining(),
                seq![found],
            ),
            goes_on == (final(self).remaining() > 0),
    {
        proof {
            reveal_with_fuel(traced, 2);
            assert(seq![found][0] == found);
            assert(seq![found].skip(1).len() == 0);
        }
        if self.remaining == 0 {
            return false;
        }
        match found {
            Bounce::Miss => {
                let background = Color::new(BACKGROUND_LEVEL, BACKGROUND_LEVEL, BACKGROUND_LEVEL);
                self.color.mix(&background);
                self.remaining = 0;
            },
            Bounce::Hit { color, shadow, reflected } => {
                let lit = color.scale(&shadow);
                self.color.mix(&lit);
                self.ray = reflected;
                self.remaining = self.remaining - 1;
            },
        }
        self.remaining > 0
    }

    /// Follows the ray over what it finds, stretch after stretch, until it
    /// meets nothing, has made all the bounces it may make, or `bounces` is
    /// at its end. Returns the color it has picked up.
    pub fn trace(&mut self, bounces: &Vec<Bounce<R>>) -> (color: Color)
        ensures
            (final(self).ray(), final(self).color(), final(self).remaining()) == traced(
                old(self).ray(),
                old(self).color(),
                old(self).remaining(),
                bounces@,
            ),
            color == final(self).color(),
    {
        let mut i: usize = 0;
        assert(bounces@.skip(0) == bounces@);
        while i < bounces.len() && self.remaining > 0
            invariant
                0 <= i <= bounces.len(),
                traced(self.ray(), self.color(), self.remaining(), bounces@.skip(i as int))
                    == traced(old(self).ray(), old(self).color(), old(self).remaining(), bounces@),
            decreases bounces.len() - i,
        {
            proof {
                reveal_with_fuel(traced, 2);
                assert(bounces@.skip(i as int).skip(1) == bounces@.skip(i + 1));
                assert(seq![bounces@[i as int]].skip(1).len() == 0);
            }
            self.bounce(bounces[i]);
            i = i + 1;
        }
        self.color
    }
}

} // verus!
