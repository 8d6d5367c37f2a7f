//! Core of a multi-resolution sky-survey renderer: the tile-pyramid cache and
//! level-of-detail selection engine for a hierarchical spherical tessellation.
//!
//! Given a camera viewport and a partially populated cache of hierarchical
//! tiles, the library decides which tessellation cells are visible, which
//! cached texture anchors the start and the end of the blend animation of each
//! visible cell, and whether the frame is rendered by per-pixel ray casting or
//! by a rasterized mesh. GPU buffer plumbing, network fetches and projection
//! arithmetic stay outside; the library works on plain values.

pub mod cell;
pub mod config;
pub mod lod;
pub mod mesh;
pub mod shader;
pub mod survey;
pub mod surveys;
pub mod textures;
pub mod view;
