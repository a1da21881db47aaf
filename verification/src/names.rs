//! Identifier types for the assets a rendering collaborator manages:
//! pixel surfaces, sprite sheets and single sprites.

use vstd::prelude::*;

verus! {

broadcast use vstd::string::group_string_axioms;

#[derive(Eq, PartialEq, Hash, Clone, Debug)]
pub struct SurfaceName(pub String);

#[derive(Eq, PartialEq, Hash, Clone, Debug)]
pub struct SpriteSheetName(pub String);

#[derive(Eq, PartialEq, Hash, Clone, Debug)]
pub struct SpriteName(pub String);

pub fn surface(name: &str) -> (r: SurfaceName)
    ensures
        r.0@ == name@,
{
    SurfaceName(name.to_string())
}

pub fn sprite_sheet(name: &str) -> (r: SpriteSheetName)
    ensures
        r.0@ == name@,
{
    SpriteSheetName(name.to_string())
}

pub fn sprite(name: &str) -> (r: SpriteName)
    ensures
        r.0@ == name@,
{
    SpriteName(name.to_string())
}

/// Horizontal anchoring of a text box on screen.
#[derive(Copy, Clone, PartialEq, Eq, Structural, Debug)]
pub enum HorPos {
    Left,
    Center,
    Right,
}

/// Vertical anchoring of a text box on screen.
#[derive(Copy, Clone, PartialEq, Eq, Structural, Debug)]
pub enum VertPos {
    Top,
    Center,
    Bottom,
}

} // verus!
