use vstd::prelude::*;
use crate::ecs::entity::{ComponentTypeId, MetaDataComponentEntry, entry_types};

verus! {

/// Identifier for a loaded mesh in the entity manager.
pub type MeshHandle = u64;

/// Efficient 32bit color representation.
#[derive(Debug, Clone, Copy, PartialEq, Eq, Hash, Structural)]
pub struct Color32 {
    pub r: u8,
    pub g: u8,
    pub b: u8,
    pub a: u8,
}

impl Color32 {
    /// Opaque white.
    #[allow(non_snake_case)]
    pub fn WHITE() -> (c: Self)
        ensures
            c == (Color32 { r: 255, g: 255, b: 255, a: 255 }),
    {
        Self::from_rgba(255, 255, 255, 255)
    }

    /// Opaque grey.
    #[allow(non_snake_case)]
    pub fn GREY() -> (c: Self)
        ensures
            c == (Color32 { r: 128, g: 128, b: 128, a: 255 }),
    {
        Self::from_rgba(128, 128, 128, 255)
    }

    /// Opaque black.
    #[allow(non_snake_case)]
    pub fn BLACK() -> (c: Self)
        ensures
            c == (Color32 { r: 0, g: 0, b: 0, a: 255 }),
    {
        Self::from_rgba(0, 0, 0, 255)
    }

    /// Fully transparent black.
    #[allow(non_snake_case)]
    pub fn TRANSPARENT() -> (c: Self)
        ensures
            c == (Color32 { r: 0, g: 0, b: 0, a: 0 }),
    {
        Self::from_rgba(0, 0, 0, 0)
    }

    /// Opaque red.
    #[allow(non_snake_case)]
    pub fn RED() -> (c: Self)
        ensures
            c == (Color32 { r: 255, g: 0, b: 0, a: 255 }),
    {
        Self::from_rgba(255, 0, 0, 255)
    }

    /// Opaque green.
    #[allow(non_snake_case)]
    pub fn GREEN() -> (c: Self)
        ensures
            c == (Color32 { r: 0, g: 255, b: 0, a: 255 }),
    {
        Self::from_rgba(0, 255, 0, 255)
    }

    /// Opaque blue.
    #[allow(non_snake_case)]
    pub fn BLUE() -> (c: Self)
        ensures
            c == (Color32 { r: 0, g: 0, b: 255, a: 255 }),
    {
        Self::from_rgba(0, 0, 255, 255)
    }

    /// Opaque yellow.
    #[allow(non_snake_case)]
    pub fn YELLOW() -> (c: Self)
        ensures
            c == (Color32 { r: 255, g: 255, b: 0, a: 255 }),
    {
        Self::from_rgba(255, 255, 0, 255)
    }

    /// Opaque cyan.
    #[allow(non_snake_case)]
    pub fn CYAN() -> (c: Self)
        ensures
            c == (Color32 { r: 0, g: 255, b: 255, a: 255 }),
    {
        Self::from_rgba(0, 255, 255, 255)
    }

    /// Opaque purple.
    #[allow(non_snake_case)]
    pub fn PURPLE() -> (c: Self)
        ensures
            c == (Color32 { r: 255, g: 0, b: 255, a: 255 }),
    {
        Self::from_rgba(255, 0, 255, 255)
    }

    /// Creates an opaque color.
    pub fn from_rgb(r: u8, g: u8, b: u8) -> (c: Self)
        ensures
            c == (Color32 { r, g, b, a: 255 }),
    {
        Self { r, g, b, a: 255 }
    }

    /// Creates a color with an alpha value.
    pub fn from_rgba(r: u8, g: u8, b: u8, a: u8) -> (c: Self)
        ensures
            c == (Color32 { r, g, b, a }),
    {
        Self { r, g, b, a }
    }

    /// Uses the format ``0xRRGGBBAA``.
    pub fn from_hex(hex: u32) -> (c: Self)
        ensures
            c.r == hex / 0x1000000,
            c.g == (hex / 0x10000) % 0x100,
            c.b == (hex / 0x100) % 0x100,
            c.a == hex % 0x100,
    {
        let r = ((hex & 0xFF000000) >> 24) as u8;
        let g = ((hex & 0x00FF0000) >> 16) as u8;
        let b = ((hex & 0x0000FF00) >> 8) as u8;
        let a = (hex & 0x000000FF) as u8;
        assert(((hex & 0xFF000000) >> 24) as u8 == hex / 0x1000000) by (bit_vector);
        assert(((hex & 0x00FF0000) >> 16) as u8 == (hex / 0x10000) % 0x100) by (bit_vector);
        assert(((hex & 0x0000FF00) >> 8) as u8 == (hex / 0x100) % 0x100) by (bit_vector);
        assert((hex & 0x000000FF) as u8 == hex % 0x100) by (bit_vector);
        Self::from_rgba(r, g, b, a)
    }

    /// The red channel.
    pub fn r(&self) -> (v: u8)
        ensures
            v == self.r,
    {
        self.r
    }

    /// The green channel.
    pub fn g(&self) -> (v: u8)
        ensures
            v == self.g,
    {
        self.g
    }

    /// The blue channel.
    pub fn b(&self) -> (v: u8)
        ensures
            v == self.b,
    {
        self.b
    }

    /// The alpha channel.
    pub fn a(&self) -> (v: u8)
        ensures
            v == self.a,
    {
        self.a
    }
}

impl Default for Color32 {
    /// Opaque white.
    fn default() -> (c: Self)
        ensures
            c == (Color32 { r: 255, g: 255, b: 255, a: 255 }),
    {
        Self::from_rgb(255, 255, 255)
    }
}

/// Determines what mesh should be attached to an entity.
#[derive(Debug, Copy, Clone, PartialEq, Eq, Hash, Structural)]
pub enum MeshType {
    Triangle,
    Plane,
    Cube,
    Custom(MeshHandle),
}

impl MeshType {
    /// Maps the ``MeshType`` to the respective ``MeshHandle``; the built-in meshes have the
    /// handles 1 (triangle), 2 (plane) and 3 (cube).
    pub fn mesh_handle(&self) -> (h: MeshHandle)
        ensures
            h == match *self {
                MeshType::Triangle => 1,
                MeshType::Plane => 2,
                MeshType::Cube => 3,
                MeshType::Custom(handle) => handle,
            },
    {
        match self {
            MeshType::Triangle => 1,
            MeshType::Plane => 2,
            MeshType::Cube => 3,
            MeshType::Custom(handle) => *handle,
        }
    }
}

/// Texture filtering option for rendering.
#[derive(Debug, Copy, Clone, PartialEq, Eq, Hash, Default, Structural)]
pub enum Filtering {
    #[default]
    Linear,
    Nearest,
}

/// Texture wrapping mode.
#[derive(Debug, Copy, Clone, PartialEq, Eq, Hash, Default, Structural)]
pub enum Wrapping {
    #[default]
    Repeat,
    MirroredRepeat,
    ClampToEdge,
    ClampToBorder,
}

/// Defines the color space for a texture.
#[derive(Debug, Copy, Clone, PartialEq, Eq, Hash, Structural)]
pub enum ColorSpace {
    SRGBA,
    RGBA8,
}

/// Represents a texture that can be used in rendering. Specifies all loading parameters and
/// the file location.
#[derive(Debug, Clone)]
pub struct Texture {
    pub path: String,
    pub filtering: Filtering,
    pub wrapping: Wrapping,
    pub color_space: ColorSpace,
    pub is_transparent: bool,
}

impl Texture {
    /// Creates a texture component with default attributes from a source path.
    pub fn default_from_path(path: String) -> (t: Self)
        ensures
            t.path == path,
            t.filtering == Filtering::Linear,
            t.wrapping == Wrapping::Repeat,
            t.color_space == ColorSpace::RGBA8,
            !t.is_transparent,
    {
        Self {
            path,
            filtering: Filtering::Linear,
            wrapping: Wrapping::Repeat,
            color_space: ColorSpace::RGBA8,
            is_transparent: false,
        }
    }
}

/// Determines wether or not a mesh is colored or textured.
#[derive(Debug, Clone)]
pub enum MeshAttribute {
    Colored(Color32),
    Textured(Texture),
}

impl MeshAttribute {
    /// Returns the color if present.
    pub fn color(&self) -> (r: Option<Color32>)
        ensures
            r == match *self {
                MeshAttribute::Colored(c) => Some(c),
                MeshAttribute::Textured(_) => None,
            },
    {
        match self {
            MeshAttribute::Textured(_) => None,
            MeshAttribute::Colored(color) => Some(*color),
        }
    }

    /// Returns the texture if present.
    pub fn texture(&self) -> (r: Option<&Texture>)
        ensures
            match *self {
                MeshAttribute::Colored(_) => r.is_none(),
                MeshAttribute::Textured(t) => r == Some(&t),
            },
    {
        match self {
            MeshAttribute::Textured(texture) => Some(texture),
            MeshAttribute::Colored(_) => None,
        }
    }

    /// Returns the path of the texture if present.
    pub fn texture_path(&self) -> (r: Option<&String>)
        ensures
            match *self {
                MeshAttribute::Colored(_) => r.is_none(),
                MeshAttribute::Textured(t) => r == Some(&t.path),
            },
    {
        match self {
            MeshAttribute::Textured(texture) => Some(&texture.path),
            MeshAttribute::Colored(_) => None,
        }
    }
}

impl Default for MeshAttribute {
    /// Colored in opaque white.
    fn default() -> (r: Self)
        ensures
            r == MeshAttribute::Colored(Color32 { r: 255, g: 255, b: 255, a: 255 }),
    {
        MeshAttribute::Colored(Color32::default())
    }
}

/// Ambient color, stores either a color value or the texture name.
#[derive(Debug, Clone)]
pub enum Ambient {
    Value(Color32),
    Texture(String),
}

impl Default for Ambient {
    /// Opaque white.
    fn default() -> (r: Self)
        ensures
            r == Ambient::Value(Color32 { r: 255, g: 255, b: 255, a: 255 }),
    {
        Ambient::Value(Color32::default())
    }
}

/// Diffuse color, stores either a color value or the texture name.
#[derive(Debug, Clone)]
pub enum Diffuse {
    Value(Color32),
    Texture(String),
}

impl Default for Diffuse {
    /// Opaque white.
    fn default() -> (r: Self)
        ensures
            r == Diffuse::Value(Color32 { r: 255, g: 255, b: 255, a: 255 }),
    {
        Diffuse::Value(Color32::default())
    }
}

/// Specular color, stores either a color value or the texture name.
#[derive(Debug, Clone)]
pub enum Specular {
    Value(Color32),
    Texture(String),
}

impl Default for Specular {
    /// Opaque white.
    fn default() -> (r: Self)
        ensures
            r == Specular::Value(Color32 { r: 255, g: 255, b: 255, a: 255 }),
    {
        Specular::Value(Color32::default())
    }
}

/// Hitbox type specifier for an entity.
#[derive(Debug, Clone, Copy, PartialEq, Eq, Hash, Structural)]
pub enum HitboxType {
    ConvexHull,
    SimplifiedConvexHull,
    Sphere,
    Box,
}

/// Defines on what depth layer the sprite will be rendered on (``Layer0`` is nearest).
#[derive(Debug, Clone, Copy, PartialEq, Eq, Hash, Structural)]
pub enum SpriteLayer {
    Layer0,
    Layer1,
    Layer2,
    Layer3,
    Layer4,
    Layer5,
    Layer6,
    Layer7,
    Layer8,
    Layer9,
}

/// Source data for a sprite from a sprite sheet.
#[derive(Debug)]
pub struct SpriteSheetSource {
    pub path: String,
    pub pixel_index: (usize, usize),
    pub pixel_size: (usize, usize),
}

/// Defines ways to source sprite data from.
#[derive(Debug)]
pub enum SpriteSource {
    Sheet(SpriteSheetSource),
    Colored(Color32),
    Single(String),
}

/// All shader variants for entity rendering.
#[derive(Debug, Clone, Copy, PartialEq, Eq, Hash, Default, Structural)]
pub enum ShaderType {
    #[default]
    Basic,
    Passthrough,
}

/// Defines the level of detail for a mesh if used in combination with a ``MeshType``
/// (``Base`` is the mesh itself, without simplification).
#[derive(Debug, Copy, Clone, PartialEq, Eq, Hash, Default, Structural)]
pub enum LOD {
    #[default]
    Base,
    LVL1,
    LVL2,
    LVL3,
    LVL4,
}

/// Bit ``n`` (counted from the least significant one) of ``x``.
pub open spec fn bit(x: u64, n: u64) -> bool {
    (x >> n) & 1 == 1
}

/// The flag bits are the binary digits: no bit of zero is set, a single shifted one sets
/// exactly its own bit, and all bits of ``u64::MAX`` are set.
pub proof fn lemma_bits(n: u64, m: u64)
    requires
        n < 64,
        m < 64,
    ensures
        !bit(0u64, n),
        bit(u64::MAX, n),
        bit(1u64 << n, n),
        m != n ==> !bit(1u64 << n, m),
        bit(1u64, n) <==> n == 0,
{
    assert(!bit(0u64, n)) by (bit_vector)
        requires
            n < 64,
    ;
    assert(bit(u64::MAX, n)) by (bit_vector)
        requires
            n < 64,
    ;
    assert(bit(1u64 << n, n)) by (bit_vector)
        requires
            n < 64,
    ;
    assert(m != n ==> !bit(1u64 << n, m)) by (bit_vector)
        requires
            n < 64,
            m < 64,
    ;
    assert(bit(1u64, n) <==> n == 0) by (bit_vector)
        requires
            n < 64,
    ;
}

/// 64bit flag bitmap for enabling special entity behavior (default: all turned off, the same
/// as the component not being present).
#[derive(Debug, Default)]
pub struct EntityFlags(pub u64);

impl EntityFlags {
    /// Creates a new ``EntityFlags`` component with the given flag bits (each in ``0..=63``) set.
    pub fn from_flags(flags: &[u64]) -> (r: Self)
        requires
            forall|i: int| 0 <= i < flags@.len() ==> #[trigger] flags@[i] < 64,
        ensures
            forall|m: u64| m < 64 ==> #[trigger] bit(r.0, m) == flags@.contains(m),
    {
        let mut instance = EntityFlags(0);
        assert(forall|m: u64| m < 64 ==> #[trigger] bit(0u64, m) == false) by (bit_vector);
        let mut i: usize = 0;
        while i < flags.len()
            invariant
                i <= flags@.len(),
                forall|j: int| 0 <= j < flags@.len() ==> #[trigger] flags@[j] < 64,
                forall|m: u64|
                    m < 64 ==> #[trigger] bit(instance.0, m) == flags@.subrange(0, i as int).contains(m),
            decreases flags@.len() - i,
        {
            let ghost before = instance.0;
            instance.set_bit(flags[i], true);
            assert forall|m: u64| m < 64 implies #[trigger] bit(instance.0, m) == flags@.subrange(
                0,
                i + 1,
            ).contains(m) by {
                if m == flags@[i as int] {
                    assert(flags@.subrange(0, i + 1)[i as int] == m);
                } else {
                    assert(bit(instance.0, m) == bit(before, m));
                    if flags@.subrange(0, i + 1).contains(m) {
                        let k = choose|k: int| 0 <= k < i + 1 && #[trigger] flags@.subrange(0, i + 1)[k] == m;
                        assert(flags@.subrange(0, i as int)[k] == m);
                    }
                    if flags@.subrange(0, i as int).contains(m) {
                        let k = choose|k: int| 0 <= k < i && #[trigger] flags@.subrange(0, i as int)[k] == m;
                        assert(flags@.subrange(0, i + 1)[k] == m);
                    }
                }
            }
            i = i + 1;
        }
        assert(flags@.subrange(0, flags@.len() as int) =~= flags@);
        instance
    }

    /// Gets the value of the ``n``'th flag bit (``n`` is in ``0..=63``).
    pub fn get_bit(&self, n: u64) -> (r: bool)
        requires
            n < 64,
        ensures
            r == bit(self.0, n),
    {
        ((self.0 >> n) & 1) == 1
    }

    /// Sets the value of the ``n``'th flag bit (``n`` is in ``0..=63``); all other bits stay.
    pub fn set_bit(&mut self, n: u64, value: bool)
        requires
            n < 64,
        ensures
            bit(final(self).0, n) == value,
            forall|m: u64| m < 64 && m != n ==> #[trigger] bit(final(self).0, m) == bit(old(self).0, m),
    {
        let x = self.0;
        let v: u64 = if value {
            1
        } else {
            0
        };
        let y = (x & !(1u64 << n)) | (v << n);
        assert(v <= 1 ==> (((x & !(1u64 << n)) | (v << n)) >> n) & 1 == v) by (bit_vector)
            requires
                n < 64,
        ;
        assert(forall|m: u64|
            m < 64 && m != n ==> #[trigger] ((((x & !(1u64 << n)) | (v << n)) >> m) & 1) == ((x
                >> m) & 1)) by (bit_vector)
            requires
                n < 64,
                v <= 1,
        ;
        self.0 = y;
    }
}

/// All basic functionality for reading a list of component entries.
pub trait ComponentStorage<V> {
    /// Checks if a component of the given type is stored.
    fn contains_component(&self, t: ComponentTypeId) -> bool;

    /// Gets a reference to the first stored component of the given type if present.
    fn component_data(&self, t: ComponentTypeId) -> Option<&V>;
}

impl<V> ComponentStorage<V> for Vec<MetaDataComponentEntry<V>> {
    fn contains_component(&self, t: ComponentTypeId) -> (r: bool)
        ensures
            r == entry_types(self@).contains(t),
    {
        match self.component_data(t) {
            Some(_) => {
                proof {
                    let i = choose|i: int|
                        0 <= i < self@.len() && #[trigger] self@[i].type_id == t;
                    assert(entry_types(self@)[i] == t);
                }
                true
            },
            None => false,
        }
    }

    fn component_data(&self, t: ComponentTypeId) -> (r: Option<&V>)
        ensures
            match r {
                Some(v) => exists|i: int|
                    0 <= i < self@.len() && #[trigger] self@[i].type_id == t && *v
                        == self@[i].component && forall|j: int|
                        0 <= j < i ==> self@[j].type_id != t,
                None => !entry_types(self@).contains(t),
            },
    {
        let mut i: usize = 0;
        while i < self.len()
            invariant
                i <= self@.len(),
                forall|j: int| 0 <= j < i ==> self@[j].type_id != t,
            decreases self@.len() - i,
        {
            if self[i].type_id == t {
                return Some(&self[i].component);
            }
            i = i + 1;
        }
        assert forall|j: int| 0 <= j < self@.len() implies entry_types(self@)[j] != t by {
            assert(entry_types(self@)[j] == self@[j].type_id);
        }
        None
    }
}

} // verus!
