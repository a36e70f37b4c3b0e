//! Core of a photomosaic tool: a template image is partitioned into a grid of
//! tiles and each tile is replaced by the best-matching tile cropped from a
//! collection of source images, judged by average-color similarity.
//!
//! This crate holds the verified geometric and matching core: coordinate
//! pairs, axis-aligned regions, grid partitioning with row-major addressing,
//! pixel buffers, and the tile matcher. Image decoding/encoding, argument
//! parsing and terminal output are left to the surrounding binary.

pub mod buffer;
pub mod error;
pub mod grid;
pub mod matcher;
pub mod parse;
pub mod vec2;
