use vstd::prelude::*;
use crate::color::Color;
use crate::texture::Texture;

verus! {

/// One of the six sides of a box.
#[derive(Clone, Copy, Debug, PartialEq, Eq, Structural)]
pub enum CubeFace {
    Top,
    Bottom,
    Left,
    Right,
    Front,
    Back,
}

/// How a textured material picks a texture for each face.
#[derive(Clone, Copy, Debug, PartialEq, Eq, Structural)]
pub enum TexturePolicy {
    /// The first texture on every face.
    Uniform,
    /// The first texture on the top face, the second on every other face.
    TopAndSides,
}

/// The texture slot a policy picks for a face.
pub open spec fn texture_slot(p: TexturePolicy, f: CubeFace) -> int {
    match p {
        TexturePolicy::Uniform => 0,
        TexturePolicy::TopAndSides => if f == CubeFace::Top { 0 } else { 1 },
    }
}

impl TexturePolicy {
    pub fn slot(&self, face: CubeFace) -> (i: usize)
        ensures
            i == texture_slot(*self, face),
    {
        match self {
            TexturePolicy::Uniform => 0,
            TexturePolicy::TopAndSides => if face == CubeFace::Top { 0 } else { 1 },
        }
    }
}

/// Shading parameters of a surface. Weights are fixed-point (`FIXED_ONE` is 1.0):
/// `properties` holds the diffuse weight, specular weight, reflectivity and
/// transparency, in that order.
#[derive(Clone, Debug, PartialEq)]
pub struct Material {
    pub color: Color,
    pub shininess: u32,
    pub properties: [u32; 4],
    pub refractive_index: u32,
    pub textures: Vec<Texture>,
    pub emission: Color,
    pub texture_policy: TexturePolicy,
}

/// Two texture lists hold the same grids in the same order.
pub open spec fn same_textures(a: Seq<Texture>, b: Seq<Texture>) -> bool {
    &&& a.len() == b.len()
    &&& forall|i: int| 0 <= i < a.len() ==> #[trigger] a[i].same_as(b[i])
}

impl Material {
    /// Every field is the same, the textures grid for grid.
    pub open spec fn same_as(&self, o: Material) -> bool {
        &&& self.color == o.color
        &&& self.shininess == o.shininess
        &&& self.properties == o.properties
        &&& self.refractive_index == o.refractive_index
        &&& same_textures(self.textures@, o.textures@)
        &&& self.emission == o.emission
        &&& self.texture_policy == o.texture_policy
    }

    /// The black default: black, untextured, non-emissive, every weight zero,
    /// refractive index 1.
    pub open spec fn is_black(&self) -> bool {
        &&& self.color == Color::black_spec()
        &&& self.shininess == 0
        &&& self.properties@ == seq![0u32, 0, 0, 0]
        &&& self.refractive_index == crate::color::FIXED_ONE
        &&& self.textures@.len() == 0
        &&& self.emission == Color::black_spec()
        &&& self.texture_policy == TexturePolicy::Uniform
    }

    /// A copy of the material, texture by texture.
    pub fn duplicate(&self) -> (m: Material)
        ensures
            m.same_as(*self),
    {
        let mut textures: Vec<Texture> = Vec::new();
        let mut i: usize = 0;
        while i < self.textures.len()
            invariant
                i <= self.textures@.len(),
                textures@.len() == i,
                forall|k: int| 0 <= k < i ==> #[trigger] textures@[k].same_as(self.textures@[k]),
            decreases self.textures.len() - i,
        {
            textures.push(self.textures[i].duplicate());
            i = i + 1;
        }
        Material {
            color: self.color,
            shininess: self.shininess,
            properties: self.properties,
            refractive_index: self.refractive_index,
            textures,
            emission: self.emission,
            texture_policy: self.texture_policy,
        }
    }

    /// Every texture is well formed, and the policy's slots exist whenever
    /// there are textures.
    pub open spec fn wf(&self) -> bool {
        &&& forall|i: int| 0 <= i < self.textures@.len() ==> (#[trigger] self.textures@[i]).wf()
        &&& self.textures@.len() > 0 ==> forall|f: CubeFace|
            #[trigger] texture_slot(self.texture_policy, f) < self.textures@.len()
    }

    pub open spec fn is_emissive_spec(&self) -> bool {
        self.emission != Color { r: 0, g: 0, b: 0 }
    }

    pub fn new(color: Color, shininess: u32, properties: [u32; 4], refractive_index: u32) -> (m: Material)
        ensures
            m.color == color,
            m.shininess == shininess,
            m.properties == properties,
            m.refractive_index == refractive_index,
            m.textures@.len() == 0,
            m.emission == Color::black_spec(),
            m.texture_policy == TexturePolicy::Uniform,
            m.wf(),
    {
        Material {
            color,
            shininess,
            properties,
            refractive_index,
            textures: Vec::new(),
            emission: Color::black(),
            texture_policy: TexturePolicy::Uniform,
        }
    }

    pub fn with_emission(self, emission: Color) -> (m: Material)
        ensures
            m == (Material { emission, ..self }),
    {
        Material { emission, ..self }
    }

    pub fn with_textures(self, textures: Vec<Texture>) -> (m: Material)
        ensures
            m == (Material { textures, ..self }),
    {
        Material { textures, ..self }
    }

    pub fn with_texture_policy(self, texture_policy: TexturePolicy) -> (m: Material)
        ensures
            m == (Material { texture_policy, ..self }),
    {
        Material { texture_policy, ..self }
    }

    /// A black, untextured, non-emissive material with every weight zero and
    /// refractive index 1.
    pub fn black() -> (m: Material)
        ensures
            m.is_black(),
            m.color == Color::black_spec(),
            m.shininess == 0,
            m.properties@ == seq![0u32, 0, 0, 0],
            m.refractive_index == crate::color::FIXED_ONE,
            m.textures@.len() == 0,
            m.emission == Color::black_spec(),
            m.texture_policy == TexturePolicy::Uniform,
            m.wf(),
    {
        let m = Material {
            color: Color::black(),
            shininess: 0,
            properties: [0, 0, 0, 0],
            refractive_index: crate::color::FIXED_ONE,
            textures: Vec::new(),
            emission: Color::black(),
            texture_policy: TexturePolicy::Uniform,
        };
        assert(m.properties@ =~= seq![0u32, 0, 0, 0]);
        m
    }

    /// No specular weight and no reflectivity.
    pub fn is_diffuse(&self) -> (b: bool)
        ensures
            b == (self.properties@[1] == 0 && self.properties@[2] == 0),
    {
        self.properties[1] == 0 && self.properties[2] == 0
    }

    pub fn is_reflective(&self) -> (b: bool)
        ensures
            b == (self.properties@[2] > 0),
    {
        self.properties[2] > 0
    }

    pub fn is_transparent(&self) -> (b: bool)
        ensures
            b == (self.properties@[3] > 0),
    {
        self.properties[3] > 0
    }

    /// Whether the emission color is not black.
    pub fn is_emissive(&self) -> (b: bool)
        ensures
            b == self.is_emissive_spec(),
    {
        !(self.emission.r == 0 && self.emission.g == 0 && self.emission.b == 0)
    }
}

} // verus!
