//! Options of the MagicaVoxel `.vox` output format.
use vstd::prelude::*;

verus! {

/// How color indices are assigned to voxel colors.
#[derive(Debug, Clone, Copy, PartialEq, Eq, Structural)]
pub enum ColorMode {
    /// The crate's own static palette (not MagicaVoxel's default palette).
    Static,
}

impl ColorMode {
    /// The mode's name as written on the command line.
    pub fn as_str(&self) -> (r: &'static str)
        ensures
            *self == ColorMode::Static ==> r@ == "static"@,
    {
        match self {
            ColorMode::Static => "static",
        }
    }
}

/// Options of the `.vox` writer.
#[derive(Debug, Clone, Copy)]
pub struct DotVoxConfig {
    /// The palette generation mode.
    pub color: ColorMode,
    /// When set, a voxel shared by two triangles is written once per triangle.
    pub no_optimization: bool,
}

/// The `.vox` output format.
pub struct DotVox;

impl DotVox {
    /// Z up, Y forward, X right, as columns.
    pub fn basis() -> (r: [[i8; 4]; 4])
        ensures
            r == [[1i8, 0, 0, 0], [0i8, 0, 1, 0], [0i8, 1, 0, 0], [0i8, 0, 0, 1]],
    {
        [[1, 0, 0, 0], [0, 0, 1, 0], [0, 1, 0, 0], [0, 0, 0, 1]]
    }
}

} // verus!
