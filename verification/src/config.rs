//! Per-survey configuration and layer metadata, as plain values: what the
//! cache, the level-of-detail selector and the draw planner read. Pixel
//! decoding and GPU state stay outside the library.

use vstd::prelude::*;
use crate::cell::MAX_TESS_DEPTH;

verus! {

/// How a survey's samples are turned into colors. Scalar tuning factors are
/// held as 8-bit fixed point (0 stands for 0.0, 255 for 1.0).
#[derive(Clone, Copy, PartialEq, Eq, Structural, Debug)]
pub enum HiPSColor {
    Color,
    Grayscale2Colormap { colormap: u8, reversed: bool },
    Grayscale2Color { red: u8, green: u8, blue: u8, strength: u8 },
}

/// Source and destination blend factors a layer asks the sink to use.
#[derive(Clone, Copy, PartialEq, Eq, Structural, Debug)]
pub enum BlendCfg {
    SourceOver,
    Additive,
}

/// Metadata of one layer: color mapping, opacity (8-bit fixed point, 255 is
/// opaque), blend configuration and visibility.
#[derive(Clone, Copy, PartialEq, Eq, Structural, Debug)]
pub struct ImageSurveyMeta {
    pub color: HiPSColor,
    pub opacity: u8,
    pub blend_cfg: BlendCfg,
    pub visible: bool,
}

impl ImageSurveyMeta {
    pub fn visible(&self) -> (r: bool)
        ensures
            r == self.visible,
    {
        self.visible
    }
}

/// Static description of one survey, as published next to its tiles.
#[derive(Clone, Debug)]
pub struct HiPSProperties {
    pub url: String,
    pub max_order: u8,
    pub tile_size: u32,
    pub longitude_reversed: bool,
    pub tex_storing_integers: bool,
    pub tex_storing_unsigned_int: bool,
}

impl HiPSProperties {
    pub fn get_url(&self) -> (r: &String)
        ensures
            r == &self.url,
    {
        &self.url
    }

    pub fn get_max_order(&self) -> (r: u8)
        ensures
            r == self.max_order,
    {
        self.max_order
    }
}

/// A layer request: the layer name, the survey it draws and how it is drawn.
#[derive(Clone, Debug)]
pub struct SimpleHiPS {
    pub layer: String,
    pub properties: HiPSProperties,
    pub meta: ImageSurveyMeta,
}

impl SimpleHiPS {
    pub fn get_layer(&self) -> (r: &String)
        ensures
            r == &self.layer,
    {
        &self.layer
    }

    pub fn get_properties(&self) -> (r: &HiPSProperties)
        ensures
            r == &self.properties,
    {
        &self.properties
    }
}

/// Derived per-survey configuration the renderer works with.
#[derive(Clone, Debug)]
pub struct HiPSConfig {
    pub root_url: String,
    /// Pixels per tile edge.
    pub tile_size: u32,
    /// Deepest tessellation depth the survey publishes tiles for.
    pub max_depth: u8,
    /// Number of texture slots of the atlas; at least the twelve base cells.
    pub capacity: usize,
    /// Tiles per atlas row and column (the atlas is square).
    pub atlas_side: u32,
    pub longitude_reversed: bool,
    pub tex_storing_integers: bool,
    pub tex_storing_unsigned_int: bool,
}

/// Default number of texture slots of an atlas.
pub const DEFAULT_CAPACITY: usize = 64;

/// Default number of tiles per atlas row.
pub const DEFAULT_ATLAS_SIDE: u32 = 8;

impl HiPSConfig {
    pub open spec fn well_formed(self) -> bool {
        &&& 1 <= self.tile_size <= 0x10000
        &&& self.max_depth <= MAX_TESS_DEPTH
        &&& 12 <= self.capacity <= 0x10000
        &&& 1 <= self.atlas_side <= 0x100
    }

    /// Builds the runtime configuration from the published properties.
    /// Rejects a survey whose tile size or maximum order is out of the range
    /// the renderer handles.
    pub fn new(properties: &HiPSProperties) -> (r: Result<HiPSConfig, ConfigError>)
        ensures
            match r {
                Ok(cfg) => {
                    &&& cfg.well_formed()
                    &&& cfg.root_url == properties.url
                    &&& cfg.tile_size == properties.tile_size
                    &&& cfg.max_depth == properties.max_order
                    &&& cfg.capacity == DEFAULT_CAPACITY
                    &&& cfg.atlas_side == DEFAULT_ATLAS_SIDE
                    &&& cfg.longitude_reversed == properties.longitude_reversed
                    &&& cfg.tex_storing_integers == properties.tex_storing_integers
                    &&& cfg.tex_storing_unsigned_int == properties.tex_storing_unsigned_int
                    &&& 1 <= properties.tile_size <= 0x10000
                    &&& properties.max_order <= MAX_TESS_DEPTH
                },
                Err(e) => {
                    &&& e == ConfigError::InvalidSurveyProperties
                    &&& !(1 <= properties.tile_size <= 0x10000 && properties.max_order
                        <= MAX_TESS_DEPTH)
                },
            },
    {
        if properties.tile_size < 1 || properties.tile_size > 0x10000 || properties.max_order
            > MAX_TESS_DEPTH {
            return Err(ConfigError::InvalidSurveyProperties);
        }
        Ok(
            HiPSConfig {
                root_url: properties.url.clone(),
                tile_size: properties.tile_size,
                max_depth: properties.max_order,
                capacity: DEFAULT_CAPACITY,
                atlas_side: DEFAULT_ATLAS_SIDE,
                longitude_reversed: properties.longitude_reversed,
                tex_storing_integers: properties.tex_storing_integers,
                tex_storing_unsigned_int: properties.tex_storing_unsigned_int,
            },
        )
    }

    pub fn get_tile_size(&self) -> (r: u32)
        ensures
            r == self.tile_size,
    {
        self.tile_size
    }

    pub fn get_max_depth(&self) -> (r: u8)
        ensures
            r == self.max_depth,
    {
        self.max_depth
    }
}

/// Errors surfaced synchronously when layers are (re)configured.
#[derive(Clone, PartialEq, Eq, Structural, Debug)]
pub enum ConfigError {
    /// Two requested layers carry the same layer name.
    DuplicateLayer,
    /// A layer name was referenced that no current layer carries.
    LayerNotFound,
    /// The published survey properties are out of the handled range.
    InvalidSurveyProperties,
}

} // verus!
