use vbsp_to_gltf::arena::{align_to_multiple_of_four, pad_byte_vector, Arena};
use vbsp_to_gltf::bsp::{
    bsp_models, push_bsp_face, BrushEntity, FaceData, LevelGeometry, LevelModel, BSP_POSITION_OFFSET,
    BSP_UV_OFFSET, BSP_VERTEX_SIZE,
};
use vbsp_to_gltf::convert::{export, pack_container, Export};
use vbsp_to_gltf::coords::{bounding_box, map_coords, Quat, Vec2, Vec3};
use vbsp_to_gltf::document::{
    AlphaMode, Color, ComponentType, Document, ElementType, PrimitiveMode, Rotation, ViewTarget,
};
use vbsp_to_gltf::error::Error;
use vbsp_to_gltf::gltf_builder::{get_material_index, push_material, push_or_get_material, push_or_get_texture, push_texture};
use vbsp_to_gltf::materials::{load_material_fallback, missing_material, MaterialData, RasterImage, TextureData};
use vbsp_to_gltf::prop::{
    skin_table_index, LoadedModel, ModelVertex, PropModel, PropPlacement, SubMesh, MODEL_NORMAL_OFFSET,
    MODEL_POSITION_OFFSET, MODEL_UV_OFFSET, MODEL_VERTEX_SIZE,
};
use vbsp_to_gltf::ConvertOptions;

fn v3(x: f32, y: f32, z: f32) -> Vec3 {
    Vec3 { x: x.to_bits(), y: y.to_bits(), z: z.to_bits() }
}

fn v2(u: f32, v: f32) -> Vec2 {
    Vec2 { u: u.to_bits(), v: v.to_bits() }
}

fn triangle(material: &str) -> FaceData {
    FaceData {
        visible: true,
        positions: vec![v3(0.0, 0.0, 0.0), v3(1.0, 0.0, 0.0), v3(0.0, 1.0, 0.0)],
        uvs: vec![v2(0.0, 0.0), v2(1.0, 0.0), v2(0.0, 1.0)],
        material: material.to_string(),
    }
}

fn world(faces: Vec<FaceData>) -> LevelGeometry {
    LevelGeometry { models: vec![LevelModel { faces }], brushes: vec![] }
}

fn options() -> ConvertOptions {
    ConvertOptions::default()
}

fn build(level: &LevelGeometry, props: &Vec<PropPlacement>, models: &Vec<LoadedModel>, materials: &Vec<MaterialData>) -> Export {
    match export(level, props, models, materials, &options()) {
        Ok(e) => e,
        Err(e) => panic!("export failed: {}", e.message()),
    }
}

fn prop_model(tables: Vec<Vec<Option<String>>>) -> PropModel {
    let vertex = |x: f32| ModelVertex { position: v3(x, 2.0, 3.0), normal: v3(0.0, 0.0, 1.0), uv: v2(0.5, 0.5) };
    PropModel {
        vertices: vec![vertex(0.0), vertex(1.0), vertex(2.0)],
        meshes: vec![SubMesh { strips: vec![vec![0, 1, 2]], material_index: 0 }],
        skin_tables: tables,
    }
}

fn placement(model: &str, skin: i32, origin: Vec3) -> PropPlacement {
    PropPlacement { model: model.to_string(), skin, origin, rotation: Quat { x: 0, y: 0, z: 0, w: 1.0f32.to_bits() } }
}

#[test]
fn one_visible_triangle_gives_one_non_indexed_primitive() {
    let out = build(&world(vec![triangle("tools/nodraw")]), &vec![], &vec![], &vec![]);
    let doc = &out.document;
    assert_eq!(doc.meshes.len(), 1);
    assert_eq!(doc.meshes[0].primitives.len(), 1);
    let p = doc.meshes[0].primitives[0];
    assert_eq!(p.mode, PrimitiveMode::Triangles);
    assert!(p.indices.is_none());
    assert_eq!(doc.accessors.len(), 2);
    assert_eq!(doc.accessors[p.position].count, 3);
    assert_eq!(doc.accessors[p.tex_coord].count, 3);
    assert_eq!(doc.accessors[p.position].element_type, ElementType::Vec3);
    assert_eq!(doc.accessors[p.tex_coord].element_type, ElementType::Vec2);
}

#[test]
fn invisible_faces_are_skipped() {
    let mut hidden = triangle("a");
    hidden.visible = false;
    let out = build(&world(vec![hidden, triangle("b")]), &vec![], &vec![], &vec![]);
    assert_eq!(out.document.meshes[0].primitives.len(), 1);
    assert_eq!(out.document.materials.len(), 1);
    assert_eq!(out.document.materials[0].name, "b");
}

#[test]
fn case_varied_material_names_share_one_material() {
    let out = build(
        &world(vec![triangle("DEV/DEV_MEASUREGENERIC01"), triangle("dev/Dev_MeasureGeneric01")]),
        &vec![],
        &vec![],
        &vec![],
    );
    let doc = &out.document;
    assert_eq!(doc.materials.len(), 1);
    assert_eq!(doc.materials[0].name, "dev/dev_measuregeneric01");
    let prims = &doc.meshes[0].primitives;
    assert_eq!(prims.len(), 2);
    assert_eq!(prims[0].material, Some(0));
    assert_eq!(prims[1].material, Some(0));
}

#[test]
fn same_model_and_skin_twice_share_one_mesh() {
    let models = vec![LoadedModel { name: "props/crate.mdl".to_string(), model: Some(prop_model(vec![vec![None]])) }];
    let props = vec![placement("props/crate.mdl", 0, v3(1.0, 2.0, 3.0)), placement("props/crate.mdl", 0, v3(4.0, 5.0, 6.0))];
    let out = build(&world(vec![triangle("a")]), &props, &models, &vec![]);
    let doc = &out.document;
    let named: Vec<_> = doc.meshes.iter().filter(|m| m.name.as_deref() == Some("props/crate.mdl_0")).collect();
    assert_eq!(named.len(), 1);
    assert_eq!(doc.meshes.len(), 2);
    // world node, two prop nodes, root
    assert_eq!(doc.nodes.len(), 4);
    assert_eq!(doc.nodes[1].mesh, Some(1));
    assert_eq!(doc.nodes[2].mesh, Some(1));
    assert_ne!(doc.nodes[1].translation, doc.nodes[2].translation);
    assert_eq!(doc.nodes[1].translation, Some(map_coords(v3(1.0, 2.0, 3.0))));
    assert_eq!(doc.nodes[1].name.as_deref(), Some("props/crate.mdl"));
}

#[test]
fn skin_index_out_of_range_falls_back_to_first_table() {
    assert_eq!(skin_table_index(2, 7), Some(0));
    assert_eq!(skin_table_index(2, 1), Some(1));
    assert_eq!(skin_table_index(2, -1), Some(0));
    assert_eq!(skin_table_index(0, 0), None);
    let tables = vec![vec![Some("models/first.vmt".to_string())], vec![Some("models/second.vmt".to_string())]];
    let models = vec![LoadedModel { name: "m.mdl".to_string(), model: Some(prop_model(tables)) }];
    let out = build(&world(vec![]), &vec![placement("m.mdl", 7, v3(0.0, 0.0, 0.0))], &models, &vec![]);
    let doc = &out.document;
    let mesh = doc.meshes.iter().find(|m| m.name.as_deref() == Some("m.mdl_7")).expect("prop mesh");
    let material = mesh.primitives[0].material.expect("material");
    assert_eq!(doc.materials[material].name, "models/first.vmt");
}

#[test]
fn missing_material_becomes_opaque_magenta() {
    let out = build(&world(vec![triangle("concrete/missing01")]), &vec![], &vec![], &vec![]);
    let m = &out.document.materials[0];
    assert_eq!(m.name, "concrete/missing01");
    assert_eq!(m.base_color, Color { r: 255, g: 0, b: 255, a: 255 });
    assert_eq!(m.alpha_mode, AlphaMode::Opaque);
    assert!(m.base_color_texture.is_none());
    let fallback = load_material_fallback("concrete/missing01", Err(Error::ResourceNotFound("x".to_string())));
    assert_eq!(fallback.name, "concrete/missing01");
    assert_eq!(fallback.color, Color { r: 255, g: 0, b: 255, a: 255 });
}

#[test]
fn container_length_is_padded_json_plus_binary() {
    let json = b"{\"asset\":{}}\n".to_vec();
    assert_eq!(json.len(), 13);
    let bin = vec![0u8; 20];
    let glb = pack_container(json, bin).ok().expect("fits");
    assert_eq!(glb.header.length, 16 + 20);
    assert_eq!(glb.header.version, 2);
    assert_eq!(&glb.header.magic, b"glTF");
}

#[test]
fn container_bytes_frame_both_chunks() {
    let glb = pack_container(b"{}".to_vec(), vec![1, 2, 3, 4]).ok().expect("fits");
    let bytes = glb.to_vec();
    assert_eq!(&bytes[0..4], b"glTF");
    assert_eq!(&bytes[4..8], &2u32.to_le_bytes());
    assert_eq!(&bytes[8..12], &(bytes.len() as u32).to_le_bytes());
    assert_eq!(&bytes[12..16], &4u32.to_le_bytes());
    assert_eq!(&bytes[16..20], b"JSON");
    assert_eq!(&bytes[20..24], b"{}  ");
    assert_eq!(&bytes[24..28], &4u32.to_le_bytes());
    assert_eq!(&bytes[28..32], b"BIN\0");
    assert_eq!(&bytes[32..36], &[1, 2, 3, 4]);
}

#[test]
fn arena_appends_return_prior_length_and_pad_to_four() {
    let mut arena = Arena::new();
    assert_eq!(arena.append(&vec![1, 2, 3]), 0);
    assert_eq!(arena.append(&vec![4, 5]), 3);
    assert_eq!(arena.append(&vec![]), 5);
    assert_eq!(arena.current_length(), 5);
    arena.pad_to_four();
    assert_eq!(arena.current_length(), 8);
    assert_eq!(arena.as_bytes(), &vec![1, 2, 3, 4, 5, 0, 0, 0]);
    arena.pad_to_four();
    assert_eq!(arena.current_length(), 8);
}

#[test]
fn pad_and_align_helpers() {
    let mut v = vec![9u8; 5];
    pad_byte_vector(&mut v);
    assert_eq!(v, vec![9, 9, 9, 9, 9, 0, 0, 0]);
    let mut n: u32 = 13;
    align_to_multiple_of_four(&mut n);
    assert_eq!(n, 16);
    let mut m: u32 = 16;
    align_to_multiple_of_four(&mut m);
    assert_eq!(m, 16);
}

#[test]
fn accessors_read_within_their_views() {
    let models = vec![LoadedModel { name: "p.mdl".to_string(), model: Some(prop_model(vec![vec![None]])) }];
    let out = build(&world(vec![triangle("a"), triangle("b")]), &vec![placement("p.mdl", 0, v3(0.0, 0.0, 0.0))], &models, &vec![]);
    let doc = &out.document;
    for a in &doc.accessors {
        let view = &doc.buffer_views[a.buffer_view];
        let components = match a.element_type {
            ElementType::Scalar => 1,
            ElementType::Vec2 => 2,
            ElementType::Vec3 => 3,
        };
        assert!(a.byte_offset + a.count * 4 * components <= view.byte_length);
        assert!(view.byte_offset + view.byte_length <= out.buffer.len() as u64);
    }
    assert_eq!(out.buffer.len() % 4, 0);
    assert_eq!(doc.buffer_length, Some(out.buffer.len() as u64));
}

#[test]
fn same_material_twice_is_created_once() {
    let mut arena = Arena::new();
    let mut doc = Document::new();
    let library = vec![textured_material("brick/wall01")];
    let first = push_or_get_material(&mut arena, &mut doc, &library, "Brick/Wall01", true);
    let length = arena.current_length();
    let second = push_or_get_material(&mut arena, &mut doc, &library, "BRICK/WALL01", true);
    assert_eq!(first, second);
    assert_eq!(arena.current_length(), length);
    assert_eq!(doc.materials.len(), 1);
    assert_eq!(doc.textures.len(), 1);
    assert_eq!(get_material_index(&doc.materials, &"brick/wall01".to_string()), Some(0));
}

fn textured_material(name: &str) -> MaterialData {
    MaterialData {
        name: name.to_string(),
        path: format!("materials/{name}.vmt"),
        color: Color { r: 255, g: 255, b: 255, a: 255 },
        texture: Some(TextureData {
            name: "brick/wall01_base".to_string(),
            image: RasterImage { width: 2, height: 1, has_alpha: false, pixels: vec![255, 0, 0, 0, 255, 0] },
        }),
        alpha_test: Some(0.5f32.to_bits()),
        translucent: false,
        no_cull: true,
    }
}

#[test]
fn texture_is_packed_as_png() {
    let mut arena = Arena::new();
    let mut doc = Document::new();
    let material = push_material(&mut arena, &mut doc, &textured_material("brick/wall01"), true);
    assert_eq!(material.base_color_texture, Some(0));
    assert_eq!(material.alpha_mode, AlphaMode::Mask);
    assert_eq!(material.alpha_cutoff, Some(0.5f32.to_bits()));
    assert!(material.double_sided);
    let bytes = arena.as_bytes();
    assert_eq!(&bytes[0..8], &[0x89, b'P', b'N', b'G', 0x0d, 0x0a, 0x1a, 0x0a]);
    assert_eq!(bytes.len() % 4, 0);
    assert_eq!(doc.images.len(), 1);
    assert_eq!(doc.images[0].mime_type, "image/png");
    assert_eq!(doc.textures[0].source, 0);
    let view = &doc.buffer_views[doc.images[0].buffer_view];
    assert_eq!(view.byte_offset, 0);
    assert!(view.byte_length > 8);
    assert_eq!(view.name.as_deref(), Some("brick/wall01_base"));
}

#[test]
fn textures_disabled_skips_texture() {
    let mut arena = Arena::new();
    let mut doc = Document::new();
    let material = push_material(&mut arena, &mut doc, &textured_material("brick/wall01"), false);
    assert!(material.base_color_texture.is_none());
    assert_eq!(arena.current_length(), 0);
    assert!(doc.textures.is_empty());
}

#[test]
fn alpha_modes() {
    let mut arena = Arena::new();
    let mut doc = Document::new();
    let mut m = missing_material("glass");
    m.translucent = true;
    m.alpha_test = Some(0.25f32.to_bits());
    let r = push_material(&mut arena, &mut doc, &m, true);
    assert_eq!(r.alpha_mode, AlphaMode::Blend);
    assert!(r.alpha_cutoff.is_none());
    let plain = push_material(&mut arena, &mut doc, &missing_material("x"), true);
    assert_eq!(plain.alpha_mode, AlphaMode::Opaque);
}

#[test]
fn vertex_layout_offsets() {
    assert_eq!(BSP_VERTEX_SIZE, 20);
    assert_eq!(BSP_POSITION_OFFSET, 0);
    assert_eq!(BSP_UV_OFFSET, 12);
    assert_eq!(MODEL_VERTEX_SIZE, 32);
    assert_eq!(MODEL_POSITION_OFFSET, 0);
    assert_eq!(MODEL_NORMAL_OFFSET, 12);
    assert_eq!(MODEL_UV_OFFSET, 24);
}

#[test]
fn face_records_are_interleaved_in_output_space() {
    let mut arena = Arena::new();
    let mut doc = Document::new();
    let face = FaceData {
        visible: true,
        positions: vec![v3(1.0, 2.0, 3.0)],
        uvs: vec![v2(0.25, 0.75)],
        material: "m".to_string(),
    };
    let p = push_bsp_face(&mut arena, &mut doc, &vec![], &face, true);
    let bytes = arena.as_bytes();
    let word = |i: usize| f32::from_le_bytes([bytes[i], bytes[i + 1], bytes[i + 2], bytes[i + 3]]);
    assert_eq!(bytes.len(), 20);
    assert_eq!((word(0), word(4), word(8)), (2.0, 3.0, 1.0));
    assert_eq!((word(12), word(16)), (0.25, 0.75));
    let view = &doc.buffer_views[doc.accessors[p.position].buffer_view];
    assert_eq!(view.byte_stride, Some(20));
    assert_eq!(view.target, Some(ViewTarget::ArrayBuffer));
    assert_eq!(doc.accessors[p.tex_coord].byte_offset, 12);
    assert_eq!(doc.accessors[p.position].component_type, ComponentType::F32);
}

#[test]
fn position_bounds_are_mapped_like_positions() {
    let face = FaceData {
        visible: true,
        positions: vec![v3(-1.0, 5.0, 2.0), v3(3.0, -4.0, 2.0), v3(-1.0, 0.0, -7.5)],
        uvs: vec![v2(0.0, 0.0); 3],
        material: "m".to_string(),
    };
    let (lo, hi) = bounding_box(&face.positions);
    assert_eq!(lo, v3(-1.0, -4.0, -7.5));
    assert_eq!(hi, v3(3.0, 5.0, 2.0));
    let mut arena = Arena::new();
    let mut doc = Document::new();
    let p = push_bsp_face(&mut arena, &mut doc, &vec![], &face, true);
    let a = doc.accessors[p.position];
    assert_eq!(a.min, Some(v3(-4.0, -7.5, -1.0)));
    assert_eq!(a.max, Some(v3(5.0, 2.0, 3.0)));
    let mapped: Vec<Vec3> = face.positions.iter().map(|p| map_coords(*p)).collect();
    assert_eq!(bounding_box(&mapped), (map_coords(lo), map_coords(hi)));
}

#[test]
fn empty_bounding_box_is_inverted_infinity() {
    let (lo, hi) = bounding_box(&vec![]);
    assert_eq!(lo, v3(f32::INFINITY, f32::INFINITY, f32::INFINITY));
    assert_eq!(hi, v3(f32::NEG_INFINITY, f32::NEG_INFINITY, f32::NEG_INFINITY));
}

#[test]
fn brush_entities_place_secondary_objects() {
    let level = LevelGeometry {
        models: vec![LevelModel { faces: vec![] }, LevelModel { faces: vec![] }],
        brushes: vec![
            BrushEntity { model: "*1".to_string(), origin: v3(1.0, 1.0, 1.0) },
            BrushEntity { model: "*x".to_string(), origin: v3(2.0, 2.0, 2.0) },
            BrushEntity { model: "*9".to_string(), origin: v3(3.0, 3.0, 3.0) },
            BrushEntity { model: "".to_string(), origin: v3(4.0, 4.0, 4.0) },
            BrushEntity { model: "*+1".to_string(), origin: v3(5.0, 5.0, 5.0) },
        ],
    };
    let placed = bsp_models(&level).ok().expect("world present");
    assert_eq!(placed, vec![(1, v3(1.0, 1.0, 1.0)), (1, v3(5.0, 5.0, 5.0)), (0, v3(0.0, 0.0, 0.0))]);
}

#[test]
fn level_without_objects_is_an_error() {
    let level = LevelGeometry { models: vec![], brushes: vec![] };
    match bsp_models(&level) {
        Err(Error::Other(m)) => assert_eq!(m, "No world model"),
        _ => panic!("expected an error"),
    }
    match export(&level, &vec![], &vec![], &vec![], &options()) {
        Err(e) => assert_eq!(e.message(), "No world model"),
        Ok(_) => panic!("expected an error"),
    }
}

#[test]
fn root_node_collects_every_node() {
    let out = build(&world(vec![triangle("a")]), &vec![], &vec![], &vec![]);
    let doc = &out.document;
    assert_eq!(doc.nodes.len(), 2);
    let root = &doc.nodes[1];
    assert_eq!(root.children, vec![0]);
    assert_eq!(root.rotation, Some(Rotation::QuarterTurnY));
    assert!(root.mesh.is_none());
    assert_eq!(doc.scenes.len(), 1);
    assert_eq!(doc.scenes[0].nodes, vec![1]);
    assert_eq!(doc.nodes[0].name.as_deref(), Some("bsp"));
}

#[test]
fn unloadable_or_empty_models_place_no_node() {
    let empty = PropModel { vertices: vec![], meshes: vec![], skin_tables: vec![] };
    let models = vec![
        LoadedModel { name: "broken.mdl".to_string(), model: None },
        LoadedModel { name: "empty.mdl".to_string(), model: Some(empty) },
    ];
    let props = vec![
        placement("broken.mdl", 0, v3(0.0, 0.0, 0.0)),
        placement("empty.mdl", 0, v3(0.0, 0.0, 0.0)),
        placement("unknown.mdl", 0, v3(0.0, 0.0, 0.0)),
    ];
    let out = build(&world(vec![]), &props, &models, &vec![]);
    assert_eq!(out.document.nodes.len(), 2);
    assert_eq!(out.document.meshes.len(), 1);
}

#[test]
fn prop_indices_are_little_endian_words() {
    let models = vec![LoadedModel { name: "p.mdl".to_string(), model: Some(prop_model(vec![vec![None]])) }];
    let out = build(&world(vec![]), &vec![placement("p.mdl", 0, v3(0.0, 0.0, 0.0))], &models, &vec![]);
    let doc = &out.document;
    let mesh = &doc.meshes[1];
    let p = mesh.primitives[0];
    assert_eq!(p.normal, Some(p.position + 2));
    let indices = doc.accessors[p.indices.expect("indexed")];
    assert_eq!(indices.count, 3);
    assert_eq!(indices.component_type, ComponentType::U32);
    let view = &doc.buffer_views[indices.buffer_view];
    assert_eq!(view.target, Some(ViewTarget::ElementArrayBuffer));
    let start = view.byte_offset as usize;
    assert_eq!(&out.buffer[start..start + 12], &[0, 0, 0, 0, 1, 0, 0, 0, 2, 0, 0, 0]);
    assert_eq!(doc.accessors[p.position].min, Some(v3(2.0, 3.0, 0.0)));
    assert_eq!(doc.accessors[p.position].max, Some(v3(2.0, 3.0, 2.0)));
}

#[test]
fn options_default_and_key() {
    let o = ConvertOptions::default();
    assert!(o.textures);
    assert_eq!(o.texture_scale, 1.0f32.to_bits());
    assert_eq!(o.key(), ConvertOptions::default().key());
    let off = ConvertOptions { textures: false, texture_scale: 1.0f32.to_bits() };
    assert_ne!(o.key(), off.key());
}

#[test]
fn prop_nodes_follow_yielding_placements_in_order() {
    let models = vec![
        LoadedModel { name: "a.mdl".to_string(), model: Some(prop_model(vec![vec![None], vec![None]])) },
        LoadedModel { name: "b.mdl".to_string(), model: None },
    ];
    let props = vec![
        placement("a.mdl", 0, v3(1.0, 0.0, 0.0)),
        placement("b.mdl", 0, v3(2.0, 0.0, 0.0)),
        placement("a.mdl", 1, v3(3.0, 0.0, 0.0)),
    ];
    let out = build(&world(vec![]), &props, &models, &vec![]);
    let doc = &out.document;
    assert_eq!(doc.nodes.len(), 4);
    assert_eq!(doc.nodes[1].translation, Some(map_coords(v3(1.0, 0.0, 0.0))));
    assert_eq!(doc.nodes[2].translation, Some(map_coords(v3(3.0, 0.0, 0.0))));
    let m1 = doc.nodes[1].mesh.expect("mesh");
    let m2 = doc.nodes[2].mesh.expect("mesh");
    assert_eq!(doc.meshes[m1].name.as_deref(), Some("a.mdl_0"));
    assert_eq!(doc.meshes[m2].name.as_deref(), Some("a.mdl_1"));
    assert_eq!(doc.nodes[3].children, vec![0, 1, 2]);
}

#[test]
fn texture_names_are_matched_case_folded() {
    let mut arena = Arena::new();
    let mut doc = Document::new();
    let first = TextureData {
        name: "Brick/Wall01_Base".to_string(),
        image: RasterImage { width: 1, height: 1, has_alpha: false, pixels: vec![1, 2, 3] },
    };
    let second = TextureData {
        name: "brick/WALL01_base".to_string(),
        image: RasterImage { width: 1, height: 1, has_alpha: true, pixels: vec![1, 2, 3, 4] },
    };
    let a = push_or_get_texture(&mut arena, &mut doc, &first);
    let length = arena.current_length();
    let b = push_or_get_texture(&mut arena, &mut doc, &second);
    assert_eq!(a, Some(0));
    assert_eq!(b, Some(0));
    assert_eq!(arena.current_length(), length);
    assert_eq!(doc.textures.len(), 1);
    assert_eq!(doc.textures[0].name, "brick/wall01_base");
    assert_eq!(doc.images[0].name, "brick/wall01_base");
}

#[test]
fn empty_image_is_not_packed() {
    let mut arena = Arena::new();
    let mut doc = Document::new();
    let empty = TextureData {
        name: "empty".to_string(),
        image: RasterImage { width: 0, height: 4, has_alpha: false, pixels: vec![] },
    };
    assert!(push_texture(&mut arena, &mut doc, &empty).is_none());
    assert_eq!(arena.current_length(), 0);
    assert!(doc.buffer_views.is_empty());
    let one = TextureData {
        name: "One".to_string(),
        image: RasterImage { width: 1, height: 1, has_alpha: false, pixels: vec![9, 9, 9] },
    };
    let t = push_texture(&mut arena, &mut doc, &one).expect("packed");
    assert_eq!(t.name, "one");
    assert_eq!(t.source, 0);
    assert_eq!(doc.buffer_views[0].byte_offset, 0);
    assert_eq!(arena.current_length() % 4, 0);
}

#[test]
fn visible_faces_without_vertices_are_skipped() {
    let empty = FaceData { visible: true, positions: vec![], uvs: vec![], material: "x".to_string() };
    let out = build(&world(vec![empty, triangle("y")]), &vec![], &vec![], &vec![]);
    assert_eq!(out.document.meshes[0].primitives.len(), 1);
    assert_eq!(out.document.materials.len(), 1);
    assert_eq!(out.document.materials[0].name, "y");
    for a in &out.document.accessors {
        assert!(a.count > 0);
    }
}
