//! Sparse voxel 64-tree building blocks: bit-packed arrays, voxel encodings,
//! deduplicating node levels and lookup tables, together with the import-side
//! pieces (Morton codes, interior culling, palette lookup) and the grouping of
//! voxels into MagicaVoxel `.vox` scenes.
pub mod bits;
pub mod bitpacked;
pub mod dag;
pub mod lattice_dag;
pub mod lattice;
pub mod import;
pub mod chunk;
pub mod material_table;
pub mod format;
pub mod bench;
pub mod convert;
pub mod load;
