//! Surface materials that carry no parameters.

use vstd::prelude::*;

verus! {

/// A perfectly diffuse surface: light leaves it with a cosine-weighted
/// distribution around the surface normal.
pub struct Lambertian {}

/// A perfect mirror: light leaves it along the reflected direction.
pub struct Mirror {}

} // verus!
