use vbsp_to_gltf::bsp::is_brush_class;
use vbsp_to_gltf::prop::{is_prop_class, strip_file_name, vertex_file_name};
use vbsp_to_gltf::error::Error;
use vbsp_to_gltf::materials::{
    material_data, material_file_name, material_lookup_path, material_search_dir, normalized_layout,
    texture_file_path, MaterialProperties, PixelLayout, RasterImage,
};
use vbsp_to_gltf::names::{parse_usize_from, push_decimal, to_ascii_lowercase, trim_end_matches, trim_start_matches};
use vbsp_to_gltf::server::{bsp_name_for, cache_file_name, default_port, status_code, FailureKind};
use vbsp_to_gltf::{default_enable, default_scale};

#[test]
fn lowercase_and_trim() {
    assert_eq!(to_ascii_lowercase("DeV/Über_01"), "dev/Über_01");
    assert_eq!(trim_start_matches("//a/b", '/'), "a/b");
    assert_eq!(trim_end_matches("x.vmt.vmt", ".vmt"), "x");
    assert_eq!(trim_end_matches("x.vm", ".vmt"), "x.vm");
}

#[test]
fn decimal_forms() {
    let mut s = String::from("m_");
    push_decimal(&mut s, -2147483648);
    assert_eq!(s, "m_-2147483648");
    let mut t = String::new();
    push_decimal(&mut t, 0);
    assert_eq!(t, "0");
    let mut u = String::new();
    push_decimal(&mut u, 1207);
    assert_eq!(u, "1207");
}

#[test]
fn index_parsing() {
    assert_eq!(parse_usize_from("*12", 1), Some(12));
    assert_eq!(parse_usize_from("*+3", 1), Some(3));
    assert_eq!(parse_usize_from("*", 1), None);
    assert_eq!(parse_usize_from("*1a", 1), None);
    assert_eq!(parse_usize_from("*-1", 1), None);
    assert_eq!(parse_usize_from("*99999999999999999999999", 1), None);
}

#[test]
fn material_paths() {
    assert_eq!(material_file_name("/Models/Props/", "Crate01.VMT"), "models/props/crate01.vmt");
    assert_eq!(material_lookup_path("a.vmt"), "materials/a.vmt");
    assert_eq!(material_search_dir("//Models"), "materials/models");
    assert_eq!(texture_file_path("/Brick/Wall.vtf"), "materials/Brick/Wall.vtf");
}

#[test]
fn layouts_normalize_to_eight_bit() {
    assert_eq!(normalized_layout(PixelLayout::Rgb8), PixelLayout::Rgb8);
    assert_eq!(normalized_layout(PixelLayout::Rgba8), PixelLayout::Rgba8);
    assert_eq!(normalized_layout(PixelLayout::La8), PixelLayout::Rgba8);
    assert_eq!(normalized_layout(PixelLayout::L16), PixelLayout::Rgb8);
    assert_eq!(normalized_layout(PixelLayout::Rgba32F), PixelLayout::Rgba8);
    assert_eq!(normalized_layout(PixelLayout::Rgb32F), PixelLayout::Rgb8);
}

fn props(base: Option<&str>) -> MaterialProperties {
    MaterialProperties {
        water_without_texture: false,
        base_texture: base.map(|b| b.to_string()),
        translucent: false,
        surface_prop: Some("glass".to_string()),
        alpha_test: None,
        no_cull: true,
    }
}

fn image() -> RasterImage {
    RasterImage { width: 1, height: 1, has_alpha: true, pixels: vec![1, 2, 3, 4] }
}

#[test]
fn material_descriptions() {
    let ok = material_data("m", "materials/m.vmt", props(Some("m_base")), Some(Ok(image()))).ok().expect("ok");
    assert!(ok.translucent);
    assert!(ok.no_cull);
    assert_eq!(ok.texture.as_ref().map(|t| t.name.as_str()), Some("m_base"));
    match material_data("m", "p", props(None), None) {
        Err(Error::Other(m)) => assert_eq!(m, "no basetexture"),
        _ => panic!("expected an error"),
    }
    match material_data("m", "p", props(Some("b")), None) {
        Err(Error::ResourceNotFound(n)) => assert_eq!(n, "b"),
        _ => panic!("expected an error"),
    }
    match material_data("m", "p", props(Some("b")), Some(Err(Error::ParseFailure("bad vtf".to_string())))) {
        Err(e) => assert_eq!(e.message(), "bad vtf"),
        _ => panic!("expected an error"),
    }
    let mut water = props(None);
    water.water_without_texture = true;
    let w = material_data("w", "p", water, None).ok().expect("water");
    assert!(w.translucent);
    assert_eq!((w.color.r, w.color.g, w.color.b, w.color.a), (82, 180, 217, 128));
}

#[test]
fn error_messages() {
    assert_eq!(Error::ResourceNotFound("a.mdl".to_string()).message(), "resource a.mdl not found in vpks or pack");
    assert_eq!(Error::Other("x".to_string()).message(), "x");
}

#[test]
fn map_names() {
    assert_eq!(bsp_name_for("cp_badlands.glb"), Some("cp_badlands.bsp".to_string()));
    assert_eq!(bsp_name_for("a/b.glb"), None);
    assert_eq!(bsp_name_for("cp_badlands.bsp"), None);
    assert_eq!(bsp_name_for("karte_ä.glb"), None);
    assert_eq!(bsp_name_for(".glb"), Some(".bsp".to_string()));
}

#[test]
fn cache_names_and_statuses() {
    assert_eq!(cache_file_name("x.glb", 0xabc), "0000000000000abc_x.glb");
    assert_eq!(cache_file_name("y.glb", u64::MAX), "ffffffffffffffff_y.glb");
    assert_eq!(status_code(FailureKind::InvalidMapName), 422);
    assert_eq!(status_code(FailureKind::NotAMap), 404);
    assert_eq!(status_code(FailureKind::ClientError), 404);
    assert_eq!(status_code(FailureKind::Other), 500);
    assert_eq!(default_port(), 3030);
    assert!(default_enable());
    assert_eq!(default_scale(), 1.0f32.to_bits());
}

#[test]
fn model_companion_files() {
    assert_eq!(vertex_file_name("models/props/crate.mdl"), "models/props/crate.vvd");
    assert_eq!(strip_file_name("models/props/crate.mdl"), "models/props/crate.dx90.vtx");
    assert_eq!(vertex_file_name("a.mdl/b.mdl"), "a.vvd/b.vvd");
    assert_eq!(vertex_file_name("plain"), "plain");
}

#[test]
fn entity_classes() {
    assert!(is_brush_class("func_brush"));
    assert!(is_brush_class("func_wall_toggle"));
    assert!(!is_brush_class("func_door"));
    assert!(is_prop_class("prop_physics"));
    assert!(is_prop_class("prop_dynamic_override"));
    assert!(!is_prop_class("prop_static"));
}
