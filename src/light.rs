use vstd::prelude::*;
use crate::color::Color;
use crate::cube::Vec3;

verus! {

/// Largest coordinate magnitude of scene geometry (boxes, lights, ray origins).
pub const SCENE_LIMIT: i64 = 0x1000_0000;

/// Largest fixed-point weight or intensity accepted in a scene.
pub const WEIGHT_LIMIT: u32 = 0x10_0000;

/// Every component lies within `SCENE_LIMIT` in magnitude.
pub open spec fn in_scene(v: Vec3) -> bool {
    -SCENE_LIMIT <= v.x <= SCENE_LIMIT && -SCENE_LIMIT <= v.y <= SCENE_LIMIT && -SCENE_LIMIT
        <= v.z <= SCENE_LIMIT
}

/// A point light that reaches no further than `radius`; `intensity` is fixed-point.
#[derive(Clone, Copy, Debug, PartialEq, Eq, Structural)]
pub struct Light {
    pub position: Vec3,
    pub color: Color,
    pub intensity: u32,
    pub radius: i64,
}

impl Light {
    pub fn new(position: Vec3, color: Color, intensity: u32, radius: i64) -> (l: Light)
        ensures
            l == (Light { position, color, intensity, radius }),
    {
        Light { position, color, intensity, radius }
    }

    pub open spec fn wf(&self) -> bool {
        &&& in_scene(self.position)
        &&& 0 < self.radius <= SCENE_LIMIT
        &&& self.intensity <= WEIGHT_LIMIT
    }
}

} // verus!
