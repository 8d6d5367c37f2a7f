//! Shader selection: which compiled program a layer's draw call must bind,
//! as a plain label. Compiling and binding the program is the sink's job.

use vstd::prelude::*;
use crate::config::HiPSColor;

verus! {

/// The shading variant a layer needs, decided by its color mapping and by
/// how its textures store samples. The same seven variants exist for the
/// rasterized and the ray-traced pipeline; the rendering mode of the frame
/// picks the pipeline.
#[derive(Clone, Copy, PartialEq, Eq, Structural, Debug)]
pub enum ShaderKind {
    Color,
    Gray2Colormap,
    Gray2ColormapInteger,
    Gray2ColormapUnsigned,
    Gray2Color,
    Gray2ColorInteger,
    Gray2ColorUnsigned,
}

/// The variant owed to a color mapping: unsigned sample storage wins over
/// signed integer storage, which wins over floating point storage.
pub open spec fn spec_shader_kind(color: HiPSColor, integer_tex: bool, unsigned_tex: bool) -> ShaderKind {
    match color {
        HiPSColor::Color => ShaderKind::Color,
        HiPSColor::Grayscale2Colormap { .. } => if unsigned_tex {
            ShaderKind::Gray2ColormapUnsigned
        } else if integer_tex {
            ShaderKind::Gray2ColormapInteger
        } else {
            ShaderKind::Gray2Colormap
        },
        HiPSColor::Grayscale2Color { .. } => if unsigned_tex {
            ShaderKind::Gray2ColorUnsigned
        } else if integer_tex {
            ShaderKind::Gray2ColorInteger
        } else {
            ShaderKind::Gray2Color
        },
    }
}

/// The shading variant the rasterized pipeline binds for a layer.
pub fn get_raster_shader(color: &HiPSColor, integer_tex: bool, unsigned_tex: bool) -> (r:
    ShaderKind)
    ensures
        r == spec_shader_kind(*color, integer_tex, unsigned_tex),
{
    shader_kind(color, integer_tex, unsigned_tex)
}

/// The shading variant the ray-traced pipeline binds for a layer.
pub fn get_raytracer_shader(color: &HiPSColor, integer_tex: bool, unsigned_tex: bool) -> (r:
    ShaderKind)
    ensures
        r == spec_shader_kind(*color, integer_tex, unsigned_tex),
{
    shader_kind(color, integer_tex, unsigned_tex)
}

fn shader_kind(color: &HiPSColor, integer_tex: bool, unsigned_tex: bool) -> (r: ShaderKind)
    ensures
        r == spec_shader_kind(*color, integer_tex, unsigned_tex),
{
    match color {
        HiPSColor::Color => ShaderKind::Color,
        HiPSColor::Grayscale2Colormap { .. } => {
            if unsigned_tex {
                ShaderKind::Gray2ColormapUnsigned
            } else if integer_tex {
                ShaderKind::Gray2ColormapInteger
            } else {
                ShaderKind::Gray2Colormap
            }
        },
        HiPSColor::Grayscale2Color { .. } => {
            if unsigned_tex {
                ShaderKind::Gray2ColorUnsigned
            } else if integer_tex {
                ShaderKind::Gray2ColorInteger
            } else {
                ShaderKind::Gray2Color
            }
        },
    }
}

} // verus!
