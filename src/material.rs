use vstd::prelude::*;

verus! {

/// The kind of surface a primitive is made of. The kind selects which of a
/// material's properties are animated over time and space.
#[derive(Clone, Copy, Debug, PartialEq, Eq, Structural)]
pub enum MaterialType {
    Stone,
    Water,
    Wood,
    Portal,
    Grass,
    Obsidian,
    Sun,
    FireParticle,
    Leaves,
}

} // verus!
