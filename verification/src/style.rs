//! Style-facing enumerations consumed by the out-of-scope rendering
//! layers: the tile row-numbering scheme of a source, and the anchor of
//! extruded-geometry lighting.

use vstd::prelude::*;

verus! {

/// Influences the y direction of the tile coordinates.
///
/// The global-mercator (aka Spherical Mercator) profile is assumed.
#[derive(Debug, Clone, Copy, PartialEq, Eq, Structural)]
pub enum VectorScheme {
    /// Slippy map tilenames scheme
    XYZ,
    /// OSGeo spec scheme
    TMS,
}

impl VectorScheme {
    /// A short name for the scheme.
    pub fn as_str(self) -> (r: &'static str)
        ensures
            self == VectorScheme::XYZ ==> r@ == "xyz"@,
            self == VectorScheme::TMS ==> r@ == "tms"@,
    {
        match self {
            VectorScheme::XYZ => "xyz",
            VectorScheme::TMS => "tms",
        }
    }
}

/// Whether extruded geometries are lit relative to the map or viewport.
#[derive(Debug, Clone, Copy, PartialEq, Eq, Structural)]
pub enum LightAnchor {
    /// The position of the light source is aligned to the rotation of
    /// the map.
    MapAligned,
    /// The position of the light source is aligned to the rotation of
    /// the viewport.
    Viewport,
}

impl Default for LightAnchor {
    fn default() -> (r: Self)
        ensures
            r == LightAnchor::Viewport,
    {
        LightAnchor::Viewport
    }
}

} // verus!
