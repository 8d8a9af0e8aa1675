//! File formats: the static palette of `.vox` output and the grouping of
//! imported voxels into `.vox` models.
pub mod vox;
pub mod vox_chunks;
