use hips_core::config::{HiPSColor, HiPSConfig, HiPSProperties};
use hips_core::mesh::tile_uvw;
use hips_core::shader::{get_raster_shader, get_raytracer_shader, ShaderKind};

fn gray2colormap() -> HiPSColor {
    HiPSColor::Grayscale2Colormap { colormap: 3, reversed: false }
}

fn gray2color() -> HiPSColor {
    HiPSColor::Grayscale2Color { red: 255, green: 128, blue: 0, strength: 200 }
}

#[test]
fn colored_surveys_take_the_color_shader() {
    assert_eq!(get_raster_shader(&HiPSColor::Color, false, false), ShaderKind::Color);
    assert_eq!(get_raster_shader(&HiPSColor::Color, true, true), ShaderKind::Color);
    assert_eq!(get_raytracer_shader(&HiPSColor::Color, false, false), ShaderKind::Color);
}

#[test]
fn grayscale_shaders_follow_the_sample_storage() {
    // unsigned storage wins over integer storage, which wins over float
    assert_eq!(
        get_raster_shader(&gray2colormap(), false, false),
        ShaderKind::Gray2Colormap
    );
    assert_eq!(
        get_raster_shader(&gray2colormap(), true, false),
        ShaderKind::Gray2ColormapInteger
    );
    assert_eq!(
        get_raster_shader(&gray2colormap(), true, true),
        ShaderKind::Gray2ColormapUnsigned
    );
    assert_eq!(get_raster_shader(&gray2color(), false, false), ShaderKind::Gray2Color);
    assert_eq!(
        get_raster_shader(&gray2color(), true, false),
        ShaderKind::Gray2ColorInteger
    );
    assert_eq!(
        get_raster_shader(&gray2color(), false, true),
        ShaderKind::Gray2ColorUnsigned
    );
}

#[test]
fn raster_and_raytracer_pipelines_agree_on_the_variant() {
    for integer in [false, true] {
        for unsigned in [false, true] {
            assert_eq!(
                get_raster_shader(&gray2colormap(), integer, unsigned),
                get_raytracer_shader(&gray2colormap(), integer, unsigned)
            );
        }
    }
}

#[test]
fn atlas_slots_tile_the_texture_row_major() {
    let config = HiPSConfig::new(&HiPSProperties {
        url: "s".to_string(),
        max_order: 5,
        tile_size: 512,
        longitude_reversed: false,
        tex_storing_integers: false,
        tex_storing_unsigned_int: false,
    })
    .unwrap();
    // default atlas: 8 tiles per row
    let r = tile_uvw(0, &config);
    assert_eq!((r.bottom_left.x, r.bottom_left.y, r.bottom_left.z), (0, 0, 0));
    assert_eq!(r.bottom_right.x, 512);
    assert_eq!(r.top_left.y, 512);
    let r = tile_uvw(9, &config);
    assert_eq!((r.bottom_left.x, r.bottom_left.y, r.bottom_left.z), (512, 512, 0));
    assert_eq!(r.bottom_right.x, 1024);
}
