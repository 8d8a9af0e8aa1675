//! Loading `.lattice` files.
pub mod header;
