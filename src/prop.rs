//! Placed models: a shared interleaved vertex pool per model and skin, one
//! indexed triangle primitive per submesh, and a cache of built meshes keyed
//! by model name and skin.
use vstd::prelude::*;
use crate::arena::{le_bytes, lemma_flatten_uniform, vec2_bytes, vec3_bytes, Arena};
use crate::coords::{bounding_box, bounds_max, bounds_min, map_coords, spec_map_coords, Quat, Vec2, Vec3};
use crate::document::{
    element_size, lemma_wf_grows, mesh_names, Accessor, BufferView, ComponentType, Document,
    DocumentModel, ElementType, Mesh, Primitive, PrimitiveMode, ViewModel, ViewTarget,
};
use crate::gltf_builder::{library_models, library_wf, push_or_get_material};
use crate::materials::MaterialData;
use crate::names::{decimal, lower_ascii, push_decimal};

verus! {

/// A vertex of a model: position, normal and texture coordinate. As the
/// model provider gives it, in source space; as it lies in the arena, in
/// output space, in this field order.
#[derive(Clone, Copy, Debug, PartialEq, Eq, Structural)]
pub struct ModelVertex {
    pub position: Vec3,
    pub normal: Vec3,
    pub uv: Vec2,
}

/// Bytes in one model vertex record.
pub const MODEL_VERTEX_SIZE: u64 = 32;

/// Offset of the position within a model vertex record.
pub const MODEL_POSITION_OFFSET: u64 = 0;

/// Offset of the normal within a model vertex record.
pub const MODEL_NORMAL_OFFSET: u64 = 12;

/// Offset of the texture coordinate within a model vertex record.
pub const MODEL_UV_OFFSET: u64 = 24;

/// The bytes of a model vertex record.
pub open spec fn model_vertex_bytes(v: ModelVertex) -> Seq<u8> {
    vec3_bytes(v.position) + vec3_bytes(v.normal) + vec2_bytes(v.uv)
}

/// A vertex moved to output space: position and normal mapped, texture
/// coordinate kept.
pub open spec fn spec_output_vertex(v: ModelVertex) -> ModelVertex {
    ModelVertex { position: spec_map_coords(v.position), normal: spec_map_coords(v.normal), uv: v.uv }
}

/// A vertex moved to output space.
pub fn output_vertex(v: ModelVertex) -> (r: ModelVertex)
    ensures
        r == spec_output_vertex(v),
{
    ModelVertex { position: map_coords(v.position), normal: map_coords(v.normal), uv: v.uv }
}

/// A submesh: its triangle index strips and its material slot.
#[derive(Debug)]
pub struct SubMesh {
    pub strips: Vec<Vec<u32>>,
    pub material_index: usize,
}

/// A loaded model. A skin table gives, for each material slot, the file name
/// of the material that was found for it, if one was.
#[derive(Debug)]
pub struct PropModel {
    pub vertices: Vec<ModelVertex>,
    pub meshes: Vec<SubMesh>,
    pub skin_tables: Vec<Vec<Option<String>>>,
}

/// The outcome of loading the model `name`: `None` where loading failed.
#[derive(Debug)]
pub struct LoadedModel {
    pub name: String,
    pub model: Option<PropModel>,
}

/// A placement of a model in the level.
#[derive(Debug)]
pub struct PropPlacement {
    pub model: String,
    pub skin: i32,
    pub origin: Vec3,
    pub rotation: Quat,
}

/// The positions of some vertices.
pub open spec fn positions_of(vs: Seq<ModelVertex>) -> Seq<Vec3> {
    vs.map_values(|v: ModelVertex| v.position)
}

/// The vertex records of a model's vertices.
pub open spec fn vertex_records(vs: Seq<ModelVertex>) -> Seq<Seq<u8>> {
    Seq::new(vs.len(), |i: int| model_vertex_bytes(spec_output_vertex(vs[i])))
}

/// The interleaved view of a model's vertex records.
pub open spec fn vertex_view(start: nat, n: nat) -> ViewModel {
    ViewModel {
        byte_offset: start as u64,
        byte_length: (n * MODEL_VERTEX_SIZE) as u64,
        byte_stride: Some(MODEL_VERTEX_SIZE),
        target: Some(ViewTarget::ArrayBuffer),
        name: None,
    }
}

/// An accessor of the vertex pool.
pub open spec fn vertex_accessor(view: usize, offset: u64, n: nat, t: ElementType, bounds: Option<(Vec3, Vec3)>) -> Accessor {
    Accessor {
        buffer_view: view,
        byte_offset: offset,
        count: n as u64,
        component_type: ComponentType::F32,
        element_type: t,
        min: match bounds {
            Some(b) => Some(b.0),
            None => None,
        },
        max: match bounds {
            Some(b) => Some(b.1),
            None => None,
        },
    }
}

/// The position, texture coordinate and normal accessors of a vertex pool,
/// in that order; positions are bounded by the mapped corners of their box.
pub open spec fn vertex_accessors(view: usize, vs: Seq<ModelVertex>) -> Seq<Accessor> {
    let ps = positions_of(vs);
    seq![
        vertex_accessor(view, MODEL_POSITION_OFFSET, vs.len(), ElementType::Vec3, Some((spec_map_coords(bounds_min(ps)), spec_map_coords(bounds_max(ps))))),
        vertex_accessor(view, MODEL_UV_OFFSET, vs.len(), ElementType::Vec2, None),
        vertex_accessor(view, MODEL_NORMAL_OFFSET, vs.len(), ElementType::Vec3, None),
    ]
}

/// Appends the records of `vs` in output space; returns their source
/// positions.
fn append_vertex_records(arena: &mut Arena, vs: &Vec<ModelVertex>) -> (r: Vec<Vec3>)
    ensures
        final(arena)@ == old(arena)@ + vertex_records(vs@).flatten(),
        vertex_records(vs@).flatten().len() == 32 * vs@.len(),
        r@ == positions_of(vs@),
{
    let ghost a0 = arena@;
    let n = vs.len();
    let mut positions: Vec<Vec3> = Vec::new();
    let mut i: usize = 0;
    while i < n
        invariant
            n == vs@.len(),
            i <= n,
            positions@ == positions_of(vs@).subrange(0, i as int),
            arena@ == a0 + Seq::new(i as nat, |k: int| vertex_records(vs@)[k]).flatten(),
        decreases n - i,
    {
        let v = output_vertex(vs[i]);
        positions.push(vs[i].position);
        arena.append_vec3(v.position);
        arena.append_vec3(v.normal);
        arena.append_vec2(v.uv);
        proof {
            let prev = Seq::new(i as nat, |k: int| vertex_records(vs@)[k]);
            let next = Seq::new((i + 1) as nat, |k: int| vertex_records(vs@)[k]);
            assert(next =~= prev.push(model_vertex_bytes(v)));
            prev.lemma_flatten_push(model_vertex_bytes(v));
            assert(arena@ =~= a0 + next.flatten());
            assert(positions@ =~= positions_of(vs@).subrange(0, i + 1));
        }
        i = i + 1;
    }
    proof {
        assert(Seq::new(n as nat, |k: int| vertex_records(vs@)[k]) =~= vertex_records(vs@));
        assert(positions@ =~= positions_of(vs@));
        lemma_flatten_uniform(vertex_records(vs@), 32);
    }
    positions
}

/// Appends the vertex pool of a model, a view over it and its position,
/// texture coordinate and normal accessors.
#[verifier::rlimit(40)]
pub fn push_vertices(arena: &mut Arena, doc: &mut Document, model: &PropModel)
    requires
        old(doc)@.wf(old(arena)@.len()),
        model.vertices@.len() > 0,
    ensures
        final(doc)@.wf(final(arena)@.len()),
        final(arena)@ == old(arena)@ + vertex_records(model.vertices@).flatten(),
        final(doc)@ == (DocumentModel {
            buffer_views: old(doc)@.buffer_views.push(vertex_view(old(arena)@.len(), model.vertices@.len())),
            accessors: old(doc)@.accessors + vertex_accessors(old(doc)@.buffer_views.len() as usize, model.vertices@),
            ..old(doc)@
        }),
        old(doc)@.accessors.len() + 2 <= usize::MAX,
        old(doc)@.buffer_views.len() <= usize::MAX,
        old(arena)@.len() + vertex_records(model.vertices@).flatten().len() <= u64::MAX,
{
    let ghost a0 = arena@;
    let ghost d0 = doc@;
    let ghost vs = model.vertices@;
    let n = model.vertices.len();
    let vertex_count = n as u64;
    let start = arena.current_length();
    let positions = append_vertex_records(arena, &model.vertices);
    proof {
        lemma_wf_grows(d0, a0.len(), arena@.len());
    }
    let (min, max) = bounding_box(&positions);
    let ghost len = arena@.len();
    let byte_length = arena.current_length() - start;
    let view = BufferView {
        byte_offset: start,
        byte_length,
        byte_stride: Some(MODEL_VERTEX_SIZE),
        target: Some(ViewTarget::ArrayBuffer),
        name: None,
    };
    assert(view@ == vertex_view(a0.len(), n as nat));
    let view_index = doc.add_view(view, Ghost(len));
    let pos = Accessor {
        buffer_view: view_index,
        byte_offset: MODEL_POSITION_OFFSET,
        count: vertex_count,
        component_type: ComponentType::F32,
        element_type: ElementType::Vec3,
        min: Some(map_coords(min)),
        max: Some(map_coords(max)),
    };
    let uv = Accessor {
        buffer_view: view_index,
        byte_offset: MODEL_UV_OFFSET,
        count: vertex_count,
        component_type: ComponentType::F32,
        element_type: ElementType::Vec2,
        min: None,
        max: None,
    };
    let normal = Accessor {
        buffer_view: view_index,
        byte_offset: MODEL_NORMAL_OFFSET,
        count: vertex_count,
        component_type: ComponentType::F32,
        element_type: ElementType::Vec3,
        min: None,
        max: None,
    };
    proof {
        let c = vertex_count as int;
        assert(byte_length == 32 * c);
        assert(c * 12 <= 32 * c && 24 + c * 8 <= 32 * c && 12 + c * 12 <= 32 * c) by (nonlinear_arith)
            requires
                c >= 1,
        ;
        assert(element_size(ComponentType::F32, ElementType::Vec3) == 12);
        assert(element_size(ComponentType::F32, ElementType::Vec2) == 8);
    }
    let ghost acc = vertex_accessors(view_index, vs);
    assert(pos == acc[0]);
    assert(uv == acc[1]);
    assert(normal == acc[2]);
    doc.add_accessor(pos, Ghost(len));
    doc.add_accessor(uv, Ghost(len));
    doc.add_accessor(normal, Ghost(len));
    assert(doc@.accessors =~= d0.accessors + acc);
}

/// The little-endian bytes of some 32-bit indices, in order.
pub open spec fn u32s_bytes(s: Seq<u32>) -> Seq<u8> {
    Seq::new(s.len(), |i: int| le_bytes(s[i])).flatten()
}

proof fn lemma_u32s_bytes_push(s: Seq<u32>, x: u32)
    ensures
        u32s_bytes(s.push(x)) == u32s_bytes(s) + le_bytes(x),
{
    let a = Seq::new(s.len(), |i: int| le_bytes(s[i]));
    assert(Seq::new(s.push(x).len(), |i: int| le_bytes(s.push(x)[i])) =~= a.push(le_bytes(x)));
    a.lemma_flatten_push(le_bytes(x));
}

/// The index strips of a submesh.
pub open spec fn strips_of(m: &SubMesh) -> Seq<Seq<u32>> {
    m.strips@.map_values(|s: Vec<u32>| s@)
}

/// Appends the indices of all strips, in order, as little-endian words.
fn append_indices(arena: &mut Arena, strips: &Vec<Vec<u32>>)
    ensures
        final(arena)@ == old(arena)@ + u32s_bytes(strips@.map_values(|s: Vec<u32>| s@).flatten()),
{
    let ghost a0 = arena@;
    let ghost all = strips@.map_values(|s: Vec<u32>| s@);
    let mut i: usize = 0;
    proof {
        assert(all.subrange(0, 0).flatten() =~= Seq::<u32>::empty());
        assert(Seq::new(0, |i: int| le_bytes(Seq::<u32>::empty()[i])).flatten() =~= Seq::<u8>::empty());
        assert(arena@ =~= a0 + u32s_bytes(all.subrange(0, 0).flatten()));
    }
    while i < strips.len()
        invariant
            i <= strips@.len(),
            all == strips@.map_values(|s: Vec<u32>| s@),
            arena@ == a0 + u32s_bytes(all.subrange(0, i as int).flatten()),
        decreases strips@.len() - i,
    {
        let strip = &strips[i];
        let ghost done = all.subrange(0, i as int).flatten();
        let mut k: usize = 0;
        assert(strip@.subrange(0, 0) =~= Seq::<u32>::empty());
        assert(done + strip@.subrange(0, 0) =~= done);
        while k < strip.len()
            invariant
                k <= strip@.len(),
                arena@ == a0 + u32s_bytes(done + strip@.subrange(0, k as int)),
            decreases strip@.len() - k,
        {
            let x = strip[k];
            arena.append_u32(x);
            proof {
                lemma_u32s_bytes_push(done + strip@.subrange(0, k as int), x);
                assert((done + strip@.subrange(0, k as int)).push(x) =~= done + strip@.subrange(0, k + 1));
            }
            k = k + 1;
        }
        proof {
            assert(strip@.subrange(0, strip@.len() as int) =~= strip@);
            assert(all.subrange(0, i + 1) =~= all.subrange(0, i as int).push(strip@));
            all.subrange(0, i as int).lemma_flatten_push(strip@);
        }
        i = i + 1;
    }
    assert(all.subrange(0, strips@.len() as int) =~= all);
}

/// The file name of the material that skin table `skin` gives slot `slot`.
pub open spec fn material_slot(skin: Seq<Option<String>>, slot: usize) -> Option<Seq<char>> {
    if slot < skin.len() {
        match skin[slot as int] {
            Some(p) => Some(p@),
            None => None,
        }
    } else {
        None
    }
}

/// The view of a submesh's indices.
pub open spec fn index_view(start: nat, n: nat) -> ViewModel {
    ViewModel {
        byte_offset: start as u64,
        byte_length: (4 * n) as u64,
        byte_stride: None,
        target: Some(ViewTarget::ElementArrayBuffer),
        name: None,
    }
}

/// The accessor of a submesh's indices.
pub open spec fn index_accessor(view: usize, n: nat) -> Accessor {
    Accessor {
        buffer_view: view,
        byte_offset: 0,
        count: n as u64,
        component_type: ComponentType::U32,
        element_type: ElementType::Scalar,
        min: None,
        max: None,
    }
}

/// What building a submesh does: its indices are appended with a view and
/// an accessor over them; where textures are enabled and its slot names a
/// material, that material is resolved; the primitive draws the shared vertex
/// accessors at `start` with those indices.
pub open spec fn submesh_pushed(
    d0: DocumentModel,
    a0: Seq<u8>,
    lib: Seq<crate::materials::MaterialDataModel>,
    m: &SubMesh,
    start: usize,
    skin: Seq<Option<String>>,
    textures: bool,
    d1: DocumentModel,
    a1: Seq<u8>,
    r: Primitive,
) -> bool {
    let flat = strips_of(m).flatten();
    let a_mid = a0 + u32s_bytes(flat);
    let d_mid = DocumentModel {
        buffer_views: d0.buffer_views.push(index_view(a0.len(), flat.len())),
        accessors: d0.accessors.push(index_accessor(d0.buffer_views.len() as usize, flat.len())),
        ..d0
    };
    &&& r == (Primitive {
        position: start,
        tex_coord: (start + 1) as usize,
        normal: Some((start + 2) as usize),
        indices: Some(d0.accessors.len() as usize),
        material: r.material,
        mode: PrimitiveMode::Triangles,
    })
    &&& match material_slot(skin, m.material_index) {
        Some(path) => if textures {
            r.material is Some && crate::gltf_builder::material_resolved(
                d_mid,
                a_mid,
                lib,
                lower_ascii(path),
                true,
                d1,
                a1,
                r.material->0,
            )
        } else {
            r.material is None && d1 == d_mid && a1 == a_mid
        },
        None => r.material is None && d1 == d_mid && a1 == a_mid,
    }
}

/// Primitive `p` of document `d` over arena `a` draws submesh `m` over the
/// vertex accessors at `start`: its index accessor reads all the submesh's
/// indices, which its view holds, and its material, where it has one, is
/// the one that slot names, folded to lower case; it has one exactly where
/// textures are enabled and the skin table names a material for the slot.
pub open spec fn submesh_primitive(
    d: DocumentModel,
    a: Seq<u8>,
    p: Primitive,
    m: &SubMesh,
    start: usize,
    skin: Seq<Option<String>>,
    textures: bool,
) -> bool {
    let flat = strips_of(m).flatten();
    let j = p.indices->0 as int;
    let v = d.accessors[j].buffer_view as int;
    let off = d.buffer_views[v].byte_offset as int;
    &&& p.position == start
    &&& p.tex_coord == start + 1
    &&& p.normal == Some((start + 2) as usize)
    &&& p.mode == PrimitiveMode::Triangles
    &&& p.indices is Some
    &&& 0 <= j < d.accessors.len()
    &&& d.accessors[j] == index_accessor(v as usize, flat.len())
    &&& 0 <= v < d.buffer_views.len()
    &&& d.buffer_views[v] == index_view(off as nat, flat.len())
    &&& off + u32s_bytes(flat).len() <= a.len()
    &&& a.subrange(off, off + u32s_bytes(flat).len()) == u32s_bytes(flat)
    &&& match material_slot(skin, m.material_index) {
        Some(path) => if textures {
            p.material is Some && p.material->0 < d.materials.len() && d.materials[p.material->0 as int].name
                == lower_ascii(path)
        } else {
            p.material is None
        },
        None => p.material is None,
    }
}

/// What a submesh's primitive draws stays so as the document grows.
pub proof fn lemma_submesh_primitive_stable(
    d: DocumentModel,
    a: Seq<u8>,
    d1: DocumentModel,
    a1: Seq<u8>,
    p: Primitive,
    m: &SubMesh,
    start: usize,
    skin: Seq<Option<String>>,
    textures: bool,
)
    requires
        submesh_primitive(d, a, p, m, start, skin, textures),
        crate::gltf_builder::extends(d, a, d1, a1),
    ensures
        submesh_primitive(d1, a1, p, m, start, skin, textures),
{
    let flat = strips_of(m).flatten();
    let j = p.indices->0 as int;
    let v = d.accessors[j].buffer_view as int;
    let off = d.buffer_views[v].byte_offset as int;
    let n = u32s_bytes(flat).len() as int;
    assert(d1.accessors[j] == d1.accessors.subrange(0, d.accessors.len() as int)[j]);
    assert(d1.buffer_views[v] == d1.buffer_views.subrange(0, d.buffer_views.len() as int)[v]);
    if p.material is Some {
        let mi = p.material->0 as int;
        assert(d1.materials[mi] == d1.materials.subrange(0, d.materials.len() as int)[mi]);
    }
    assert(a1.subrange(off, off + n) =~= a1.subrange(0, a.len() as int).subrange(off, off + n));
}

/// Builds a submesh into an indexed triangle primitive over the shared
/// vertex accessors that start at `vertex_accessor_start`.
#[verifier::rlimit(40)]
pub fn push_primitive(
    arena: &mut Arena,
    doc: &mut Document,
    library: &Vec<MaterialData>,
    mesh: &SubMesh,
    vertex_accessor_start: usize,
    skin: &Vec<Option<String>>,
    textures: bool,
) -> (r: Primitive)
    requires
        old(doc)@.wf(old(arena)@.len()),
        library_wf(library_models(library@)),
        vertex_accessor_start + 2 < old(doc)@.accessors.len(),
    ensures
        final(doc)@.wf(final(arena)@.len()),
        submesh_pushed(old(doc)@, old(arena)@, library_models(library@), mesh, vertex_accessor_start, skin@, textures, final(doc)@, final(arena)@, r),
        crate::document::primitive_fits(r, final(doc)@.accessors.len() as int, final(doc)@.materials.len() as int),
        crate::gltf_builder::extends(old(doc)@, old(arena)@, final(doc)@, final(arena)@),
        final(doc)@.meshes == old(doc)@.meshes,
        final(doc)@.nodes == old(doc)@.nodes,
        submesh_primitive(final(doc)@, final(arena)@, r, mesh, vertex_accessor_start, skin@, textures),
        final(arena)@.subrange(0, old(arena)@.len() as int) == old(arena)@,
        u32s_bytes(strips_of(mesh).flatten()).len() == 4 * strips_of(mesh).flatten().len(),
        final(arena)@.subrange(
            old(arena)@.len() as int,
            old(arena)@.len() + 4 * strips_of(mesh).flatten().len() as int,
        ) == u32s_bytes(strips_of(mesh).flatten()),
        r.indices == Some(old(doc)@.accessors.len() as usize),
        final(doc)@.accessors[old(doc)@.accessors.len() as int] == index_accessor(
            old(doc)@.buffer_views.len() as usize,
            strips_of(mesh).flatten().len(),
        ),
        final(doc)@.buffer_views[old(doc)@.buffer_views.len() as int] == index_view(
            old(arena)@.len(),
            strips_of(mesh).flatten().len(),
        ),
{
    let ghost a0 = arena@;
    let ghost d0 = doc@;
    let ghost flat = strips_of(mesh).flatten();
    let buffer_start = arena.current_length();
    append_indices(arena, &mesh.strips);
    proof {
        let bs = Seq::new(flat.len(), |i: int| le_bytes(flat[i]));
        lemma_flatten_uniform(bs, 4);
        lemma_wf_grows(d0, a0.len(), arena@.len());
    }
    let ghost len = arena@.len();
    let byte_length = arena.current_length() - buffer_start;
    let view = BufferView {
        byte_offset: buffer_start,
        byte_length,
        byte_stride: None,
        target: Some(ViewTarget::ElementArrayBuffer),
        name: None,
    };
    assert(view@ == index_view(a0.len(), flat.len()));
    let view_index = doc.add_view(view, Ghost(len));
    let accessor = Accessor {
        buffer_view: view_index,
        byte_offset: 0,
        count: byte_length / 4,
        component_type: ComponentType::U32,
        element_type: ElementType::Scalar,
        min: None,
        max: None,
    };
    assert(element_size(ComponentType::U32, ElementType::Scalar) == 4);
    assert(accessor == index_accessor(view_index, flat.len()));
    let accessor_index = doc.add_accessor(accessor, Ghost(len));
    let ghost d_mid = doc@;
    let ghost a_mid = arena@;
    let mut material: Option<usize> = None;
    if textures && mesh.material_index < skin.len() {
        match &skin[mesh.material_index] {
            Some(path) => {
                let m = push_or_get_material(arena, doc, library, path.as_str(), true);
                material = Some(m);
            },
            None => {},
        }
    }
    proof {
        let nb = u32s_bytes(flat).len() as int;
        assert(a_mid.subrange(a0.len() as int, a0.len() + nb) =~= u32s_bytes(flat));
        if material is None {
            crate::gltf_builder::lemma_extends_refl(d_mid, a_mid);
        } else {
            crate::gltf_builder::lemma_material_resolved_extends(
                d_mid,
                a_mid,
                library_models(library@),
                lower_ascii(skin@[mesh.material_index as int]->0@),
                true,
                doc@,
                arena@,
                material->0,
            );
        }
        assert(doc@.accessors[accessor_index as int] == d_mid.accessors[accessor_index as int]);
        assert(doc@.buffer_views[view_index as int] == doc@.buffer_views.subrange(0, d_mid.buffer_views.len() as int)[view_index as int]);
        assert(arena@.subrange(a0.len() as int, a0.len() + nb) =~= arena@.subrange(0, a_mid.len() as int).subrange(a0.len() as int, a0.len() + nb));
        crate::gltf_builder::lemma_extends_refl(d0, a0);
        crate::gltf_builder::lemma_prefix_add(a0, u32s_bytes(flat));
        crate::gltf_builder::lemma_prefix_push(d0.buffer_views, index_view(a0.len(), flat.len()));
        crate::gltf_builder::lemma_prefix_push(d0.accessors, index_accessor(view_index, flat.len()));
        crate::gltf_builder::lemma_extends_trans(d0, a0, d_mid, a_mid, doc@, arena@);
    }
    Primitive {
        position: vertex_accessor_start,
        tex_coord: vertex_accessor_start + 1,
        normal: Some(vertex_accessor_start + 2),
        indices: Some(accessor_index),
        material,
        mode: PrimitiveMode::Triangles,
    }
}

/// The skin table used for requested skin `skin` of a model with `count`
/// tables: the requested one where it exists, else the first, else none.
pub open spec fn skin_choice(count: nat, skin: i32) -> Option<nat> {
    if 0 <= skin && skin < count {
        Some(skin as nat)
    } else if count > 0 {
        Some(0)
    } else {
        None
    }
}

/// Picks the skin table for requested skin `skin` among `count` tables.
pub fn skin_table_index(count: usize, skin: i32) -> (r: Option<usize>)
    ensures
        match skin_choice(count as nat, skin) {
            Some(i) => r == Some(i as usize),
            None => r is None,
        },
{
    if skin >= 0 && (skin as usize) < count {
        Some(skin as usize)
    } else if count > 0 {
        Some(0)
    } else {
        None
    }
}

/// The material slots of the skin table chosen for skin `skin`; none where
/// the model has no table.
pub open spec fn chosen_table(model: &PropModel, skin: i32) -> Seq<Option<String>> {
    match skin_choice(model.skin_tables@.len(), skin) {
        Some(i) => model.skin_tables@[i as int]@,
        None => Seq::empty(),
    }
}

/// Document `d` over arena `a` holds, from accessor `start` and view `view`,
/// the vertex pool of `vs` with its three accessors.
pub open spec fn holds_vertex_pool(d: DocumentModel, a: Seq<u8>, start: int, view: int, vs: Seq<ModelVertex>) -> bool {
    let off = d.buffer_views[view].byte_offset as int;
    let bytes = vertex_records(vs).flatten();
    &&& 0 <= view < d.buffer_views.len()
    &&& 0 <= start && start + 3 <= d.accessors.len()
    &&& d.accessors.subrange(start, start + 3) == vertex_accessors(view as usize, vs)
    &&& d.buffer_views[view] == vertex_view(off as nat, vs.len())
    &&& off + bytes.len() <= a.len()
    &&& a.subrange(off, off + bytes.len()) == bytes
}

/// Builds a model, drawn with skin `skin`, into a mesh named `skinned_name`:
/// one vertex pool shared by one primitive per submesh.
#[verifier::rlimit(40)]
pub fn push_model(
    arena: &mut Arena,
    doc: &mut Document,
    library: &Vec<MaterialData>,
    model: &PropModel,
    skin: i32,
    skinned_name: String,
    textures: bool,
) -> (r: Mesh)
    requires
        old(doc)@.wf(old(arena)@.len()),
        model.vertices@.len() > 0,
        library_wf(library_models(library@)),
    ensures
        final(doc)@.wf(final(arena)@.len()),
        crate::gltf_builder::extends(old(doc)@, old(arena)@, final(doc)@, final(arena)@),
        final(doc)@.meshes == old(doc)@.meshes,
        final(doc)@.nodes == old(doc)@.nodes,
        holds_vertex_pool(final(doc)@, final(arena)@, old(doc)@.accessors.len() as int, old(doc)@.buffer_views.len() as int, model.vertices@),
        r@.name == Some(skinned_name@),
        r.primitives@.len() == model.meshes@.len(),
        forall|k: int| 0 <= k < r.primitives@.len() ==> submesh_primitive(
            final(doc)@,
            final(arena)@,
            #[trigger] r.primitives@[k],
            &model.meshes@[k],
            old(doc)@.accessors.len() as usize,
            chosen_table(model, skin),
            textures,
        ),
        crate::document::primitives_fit(r.primitives@, final(doc)@.accessors.len() as int, final(doc)@.materials.len() as int),
{
    let ghost d0 = doc@;
    let ghost a0 = arena@;
    let accessor_start = doc.accessors.len();
    push_vertices(arena, doc, model);
    proof {
        let bytes = vertex_records(model.vertices@).flatten();
        assert(arena@.subrange(a0.len() as int, a0.len() + bytes.len() as int) =~= bytes);
        assert(doc@.accessors.subrange(accessor_start as int, accessor_start + 3) =~= vertex_accessors(d0.buffer_views.len() as usize, model.vertices@));
        crate::gltf_builder::lemma_extends_refl(d0, a0);
        crate::gltf_builder::lemma_prefix_add(a0, bytes);
        crate::gltf_builder::lemma_prefix_add(d0.accessors, vertex_accessors(d0.buffer_views.len() as usize, model.vertices@));
        crate::gltf_builder::lemma_prefix_push(d0.buffer_views, vertex_view(a0.len(), model.vertices@.len()));
    }
    let ghost d1 = doc@;
    let ghost a1 = arena@;
    proof {
        crate::gltf_builder::lemma_extends_refl(d1, a1);
    }
    let empty: Vec<Option<String>> = Vec::new();
    let table = match skin_table_index(model.skin_tables.len(), skin) {
        Some(i) => &model.skin_tables[i],
        None => &empty,
    };
    assert(table@ == chosen_table(model, skin));
    let mut primitives: Vec<Primitive> = Vec::new();
    let mut k: usize = 0;
    while k < model.meshes.len()
        invariant
            k <= model.meshes@.len(),
            table@ == chosen_table(model, skin),
            library_wf(library_models(library@)),
            accessor_start == d0.accessors.len(),
            accessor_start + 2 < d1.accessors.len(),
            doc@.wf(arena@.len()),
            crate::gltf_builder::extends(d1, a1, doc@, arena@),
            doc@.meshes == d0.meshes,
            doc@.nodes == d0.nodes,
            primitives@.len() == k,
            forall|q: int| 0 <= q < k ==> submesh_primitive(
                doc@,
                arena@,
                #[trigger] primitives@[q],
                &model.meshes@[q],
                accessor_start,
                chosen_table(model, skin),
                textures,
            ),
        decreases model.meshes@.len() - k,
    {
        let ghost d_prev = doc@;
        let ghost a_prev = arena@;
        let ghost prims = primitives@;
        let p = push_primitive(arena, doc, library, &model.meshes[k], accessor_start, table, textures);
        proof {
            crate::gltf_builder::lemma_extends_trans(d1, a1, d_prev, a_prev, doc@, arena@);
            assert forall|q: int| 0 <= q < k implies submesh_primitive(
                doc@,
                arena@,
                #[trigger] prims[q],
                &model.meshes@[q],
                accessor_start,
                chosen_table(model, skin),
                textures,
            ) by {
                lemma_submesh_primitive_stable(d_prev, a_prev, doc@, arena@, prims[q], &model.meshes@[q], accessor_start, chosen_table(model, skin), textures);
            }
        }
        primitives.push(p);
        k = k + 1;
    }
    proof {
        crate::gltf_builder::lemma_extends_trans(d0, a0, d1, a1, doc@, arena@);
        let bytes = vertex_records(model.vertices@).flatten();
        let view = d0.buffer_views.len() as int;
        assert(doc@.buffer_views[view] == doc@.buffer_views.subrange(0, d1.buffer_views.len() as int)[view]);
        assert(doc@.accessors.subrange(accessor_start as int, accessor_start + 3) =~= doc@.accessors.subrange(0, d1.accessors.len() as int).subrange(accessor_start as int, accessor_start + 3));
        assert(arena@.subrange(a0.len() as int, a0.len() + bytes.len() as int) =~= arena@.subrange(0, a1.len() as int).subrange(a0.len() as int, a0.len() + bytes.len() as int));
        assert forall|q: int| 0 <= q < primitives@.len() implies crate::document::primitive_fits(
            #[trigger] primitives@[q],
            doc@.accessors.len() as int,
            doc@.materials.len() as int,
        ) by {
            assert(submesh_primitive(doc@, arena@, primitives@[q], &model.meshes@[q], accessor_start, chosen_table(model, skin), textures));
        }
    }
    Mesh { name: Some(skinned_name), primitives }
}

/// `i` is the first position of `s` that names `key`.
pub open spec fn is_first_mesh(s: Seq<Option<Seq<char>>>, key: Seq<char>, i: int) -> bool {
    &&& 0 <= i < s.len()
    &&& s[i] == Some(key)
    &&& forall|j: int| 0 <= j < i ==> s[j] != Some(key)
}

/// The position at which a lookup by name finds the mesh `key`.
pub open spec fn mesh_lookup(s: Seq<Option<Seq<char>>>, key: Seq<char>) -> Option<int> {
    if exists|i: int| is_first_mesh(s, key, i) {
        Some(choose|i: int| is_first_mesh(s, key, i))
    } else {
        None
    }
}

proof fn lemma_first_mesh_unique(s: Seq<Option<Seq<char>>>, key: Seq<char>, i: int)
    requires
        is_first_mesh(s, key, i),
    ensures
        mesh_lookup(s, key) == Some(i),
{
    let k = choose|k: int| is_first_mesh(s, key, k);
    assert(is_first_mesh(s, key, k));
    if k < i {
        assert(s[k] != Some(key));
    } else if i < k {
        assert(s[i] != Some(key));
    }
}

/// The index of the mesh named `name`.
pub fn get_mesh_index(meshes: &Vec<Mesh>, name: &String) -> (r: Option<usize>)
    ensures
        match r {
            Some(i) => mesh_lookup(mesh_names(meshes@.map_values(|m: Mesh| m@)), name@) == Some(i as int),
            None => mesh_lookup(mesh_names(meshes@.map_values(|m: Mesh| m@)), name@) is None,
        },
{
    let ghost names = mesh_names(meshes@.map_values(|m: Mesh| m@));
    let mut i: usize = 0;
    while i < meshes.len()
        invariant
            i <= meshes@.len(),
            names.len() == meshes@.len(),
            names == mesh_names(meshes@.map_values(|m: Mesh| m@)),
            forall|j: int| 0 <= j < i ==> names[j] != Some(name@),
        decreases meshes@.len() - i,
    {
        assert(names[i as int] == crate::document::opt_chars(meshes@[i as int].name));
        match &meshes[i].name {
            Some(n) => {
                if *n == *name {
                    proof {
                        lemma_first_mesh_unique(names, name@, i as int);
                    }
                    return Some(i);
                }
            },
            None => {},
        }
        i = i + 1;
    }
    proof {
        if exists|k: int| is_first_mesh(names, name@, k) {
            let k = choose|k: int| is_first_mesh(names, name@, k);
            assert(names[k] == Some(name@));
        }
    }
    None
}

/// The names of the loaded models.
pub open spec fn model_names(models: Seq<LoadedModel>) -> Seq<Seq<char>> {
    models.map_values(|m: LoadedModel| m.name@)
}

/// The model loaded under `name`: none where it is not in the list or failed
/// to load.
pub open spec fn loaded_model(models: Seq<LoadedModel>, name: Seq<char>) -> Option<PropModel> {
    match crate::gltf_builder::lookup(model_names(models), name) {
        Some(i) => models[i].model,
        None => None,
    }
}

/// The model named `name` loaded, with vertices.
pub open spec fn model_yields(models: Seq<LoadedModel>, name: Seq<char>) -> bool {
    loaded_model(models, name) matches Some(pm) && pm.vertices@.len() > 0
}

/// Every named mesh is the cached mesh of a model, drawn with some skin,
/// that loaded with vertices.
pub open spec fn named_meshes_yield(meshes: Seq<crate::document::MeshModel>, models: Seq<LoadedModel>) -> bool {
    forall|i: int|
        0 <= i < meshes.len() && (#[trigger] meshes[i]).name is Some ==> exists|m: Seq<char>, s: i32|
            meshes[i].name == Some(#[trigger] skinned_name(m, s)) && model_yields(models, m)
}

/// The position of the model named `name` in the list.
fn find_loaded_model(models: &Vec<LoadedModel>, name: &String) -> (r: Option<usize>)
    ensures
        crate::gltf_builder::found_as(r, crate::gltf_builder::lookup(model_names(models@), name@)),
{
    let ghost names = model_names(models@);
    let mut i: usize = 0;
    while i < models.len()
        invariant
            i <= models@.len(),
            names.len() == models@.len(),
            names == model_names(models@),
            forall|j: int| 0 <= j < i ==> names[j] != name@,
        decreases models@.len() - i,
    {
        assert(names[i as int] == models@[i as int].name@);
        if models[i].name == *name {
            proof {
                crate::gltf_builder::lemma_first_unique(names, name@, i as int);
            }
            return Some(i);
        }
        i = i + 1;
    }
    proof {
        crate::gltf_builder::lemma_none_is_lookup(names, name@);
    }
    None
}

/// The name under which a model drawn with a skin is cached.
pub open spec fn skinned_name(model: Seq<char>, skin: i32) -> Seq<char> {
    model + "_"@ + decimal(skin as int)
}

/// Finds the mesh of `model` drawn with skin `skin`, or builds it from the
/// loaded models; `None` where the model did not load or has no vertices.
#[verifier::rlimit(40)]
pub fn push_or_get_model(
    arena: &mut Arena,
    doc: &mut Document,
    library: &Vec<MaterialData>,
    models: &Vec<LoadedModel>,
    model: &str,
    skin: i32,
    textures: bool,
) -> (r: Option<usize>)
    requires
        old(doc)@.wf(old(arena)@.len()),
        library_wf(library_models(library@)),
        named_meshes_yield(old(doc)@.meshes, models@),
    ensures
        final(doc)@.wf(final(arena)@.len()),
        crate::gltf_builder::extends(old(doc)@, old(arena)@, final(doc)@, final(arena)@),
        final(doc)@.nodes == old(doc)@.nodes,
        named_meshes_yield(final(doc)@.meshes, models@),
        r is Some <==> model_yields(models@, model@),
        r matches Some(i) ==> i < final(doc)@.meshes.len() && final(doc)@.meshes[i as int].name == Some(
            skinned_name(model@, skin),
        ),
        (loaded_model(models@, model@) matches Some(pm) && pm.vertices@.len() > 0) ==> r is Some,
        match mesh_lookup(mesh_names(old(doc)@.meshes), skinned_name(model@, skin)) {
            Some(i) => r == Some(i as usize) && final(doc)@ == old(doc)@ && final(arena)@ == old(arena)@,
            None => match loaded_model(models@, model@) {
                Some(pm) => if pm.vertices@.len() > 0 {
                    &&& r == Some(old(doc)@.meshes.len() as usize)
                    &&& final(doc)@.meshes.len() == old(doc)@.meshes.len() + 1
                    &&& final(doc)@.meshes.last().name == Some(skinned_name(model@, skin))
                    &&& holds_vertex_pool(final(doc)@, final(arena)@, old(doc)@.accessors.len() as int, old(doc)@.buffer_views.len() as int, pm.vertices@)
                    &&& final(doc)@.meshes.last().primitives.len() == pm.meshes@.len()
                    &&& forall|k: int| 0 <= k < pm.meshes@.len() ==> submesh_primitive(
                        final(doc)@,
                        final(arena)@,
                        #[trigger] final(doc)@.meshes.last().primitives[k],
                        &pm.meshes@[k],
                        old(doc)@.accessors.len() as usize,
                        chosen_table(&pm, skin),
                        textures,
                    )
                } else {
                    r is None && final(doc)@ == old(doc)@ && final(arena)@ == old(arena)@
                },
                None => r is None && final(doc)@ == old(doc)@ && final(arena)@ == old(arena)@,
            },
        },
{
    proof {
        crate::gltf_builder::lemma_extends_refl(doc@, arena@);
    }
    let mut key = String::from_str(model);
    proof {
        reveal_strlit("_");
    }
    key.append("_");
    push_decimal(&mut key, skin);
    assert(key@ == skinned_name(model@, skin));
    match get_mesh_index(&doc.meshes, &key) {
        Some(i) => {
            proof {
                let names = mesh_names(doc@.meshes);
                let k = choose|k: int| is_first_mesh(names, key@, k);
                assert(is_first_mesh(names, key@, k));
                assert(names[i as int] == doc@.meshes[i as int].name);
                assert(doc@.meshes[i as int].name is Some);
                let (m, sk) = choose|m: Seq<char>, sk: i32|
                    doc@.meshes[i as int].name == Some(#[trigger] skinned_name(m, sk)) && model_yields(models@, m);
                lemma_skinned_name_injective(m, sk, model@, skin);
            }
            return Some(i);
        },
        None => {},
    }
    let name = String::from_str(model);
    let found = find_loaded_model(models, &name);
    let index = match found {
        Some(i) => i,
        None => {
            return None;
        },
    };
    proof {
        crate::gltf_builder::lemma_lookup_distinct_any(model_names(models@), model@);
    }
    let prop = match &models[index].model {
        Some(p) => p,
        None => {
            return None;
        },
    };
    if prop.vertices.len() == 0 {
        return None;
    }
    let ghost d0 = doc@;
    let ghost a0 = arena@;
    let mesh = push_model(arena, doc, library, prop, skin, key, textures);
    let ghost prims = mesh.primitives@;
    let ghost d1 = doc@;
    let ghost len = arena@.len();
    assert(!mesh_names(d1.meshes).contains(Some(skinned_name(model@, skin)))) by {
        if mesh_names(d1.meshes).contains(Some(skinned_name(model@, skin))) {
            let j = choose|j: int| 0 <= j < mesh_names(d1.meshes).len() && mesh_names(d1.meshes)[j] == Some(skinned_name(model@, skin));
            let names = mesh_names(d1.meshes);
            let first = choose|f: int| 0 <= f <= j && names[f] == Some(skinned_name(model@, skin)) && forall|q: int| 0 <= q < f ==> names[q] != Some(skinned_name(model@, skin));
            assert(is_first_mesh(names, skinned_name(model@, skin), first));
        }
    }
    let i = doc.add_mesh(mesh, Ghost(len));
    proof {
        crate::gltf_builder::lemma_prefix_push(d1.meshes, doc@.meshes.last());
        assert(doc@.meshes =~= d1.meshes.push(doc@.meshes.last()));
        assert(model_yields(models@, model@));
        assert forall|q: int| 0 <= q < doc@.meshes.len() && (#[trigger] doc@.meshes[q]).name is Some implies exists|m: Seq<char>, s: i32|
            doc@.meshes[q].name == Some(#[trigger] skinned_name(m, s)) && model_yields(models@, m) by {
            if q == doc@.meshes.len() - 1 {
                assert(doc@.meshes[q].name == Some(skinned_name(model@, skin)));
            } else {
                assert(doc@.meshes[q] == d0.meshes[q]);
            }
        }
        crate::gltf_builder::lemma_extends_refl(d1, arena@);
        crate::gltf_builder::lemma_extends_trans(d0, a0, d1, arena@, doc@, arena@);
        assert(doc@.meshes.last().primitives == prims);
    }
    Some(i)
}

/// Once a mesh is named after a model and skin, looking that name up finds
/// it: asking again for the same model and skin returns the same mesh and
/// builds nothing.
pub proof fn lemma_model_cached(d: DocumentModel, len: nat, model: Seq<char>, skin: i32, i: int)
    requires
        d.wf(len),
        0 <= i < d.meshes.len(),
        d.meshes[i].name == Some(skinned_name(model, skin)),
    ensures
        mesh_lookup(mesh_names(d.meshes), skinned_name(model, skin)) == Some(i),
{
    let names = mesh_names(d.meshes);
    let key = skinned_name(model, skin);
    assert(names[i] == Some(key));
    assert(is_first_mesh(names, key, i)) by {
        assert forall|j: int| 0 <= j < i implies names[j] != Some(key) by {
            assert(names[j] != names[i]);
        }
    }
    lemma_first_mesh_unique(names, key, i);
}

/// The file of a model's vertices, beside its `.mdl` file.
pub fn vertex_file_name(model: &str) -> (r: String)
    ensures
        r@ == crate::names::replace_all(model@, ".mdl"@, ".vvd"@),
{
    proof {
        reveal_strlit(".mdl");
    }
    crate::names::replace(model, ".mdl", ".vvd")
}

/// The file of a model's triangle strips, beside its `.mdl` file.
pub fn strip_file_name(model: &str) -> (r: String)
    ensures
        r@ == crate::names::replace_all(model@, ".mdl"@, ".dx90.vtx"@),
{
    proof {
        reveal_strlit(".mdl");
    }
    crate::names::replace(model, ".mdl", ".dx90.vtx")
}

/// Whether entities of class `class` place a model.
pub fn is_prop_class(class: &str) -> (r: bool)
    ensures
        r == (class@ == "prop_dynamic"@ || class@ == "prop_physics"@ || class@ == "prop_dynamic_override"@),
{
    let c = String::from_str(class);
    c == String::from_str("prop_dynamic") || c == String::from_str("prop_physics") || c == String::from_str(
        "prop_dynamic_override",
    )
}

/// A cache name tells its model and skin: different models or skins have
/// different names.
pub proof fn lemma_skinned_name_injective(m1: Seq<char>, s1: i32, m2: Seq<char>, s2: i32)
    requires
        skinned_name(m1, s1) == skinned_name(m2, s2),
    ensures
        m1 == m2,
        s1 == s2,
{
    reveal_strlit("_");
    let key = skinned_name(m1, s1);
    let d1 = decimal(s1 as int);
    let d2 = decimal(s2 as int);
    crate::names::lemma_decimal_no_underscore(s1 as int);
    crate::names::lemma_decimal_no_underscore(s2 as int);
    assert(key =~= m1 + seq!['_'] + d1);
    assert(key =~= m2 + seq!['_'] + d2);
    if m1.len() < m2.len() {
        let p = m2.len() as int;
        assert(key[p] == '_');
        assert(key[p] == d1[p - m1.len() - 1]);
    } else if m2.len() < m1.len() {
        let p = m1.len() as int;
        assert(key[p] == '_');
        assert(key[p] == d2[p - m2.len() - 1]);
    } else {
        assert(m1 =~= key.subrange(0, m1.len() as int));
        assert(m2 =~= key.subrange(0, m2.len() as int));
        assert(d1 =~= key.subrange(m1.len() as int + 1, key.len() as int));
        assert(d2 =~= key.subrange(m2.len() as int + 1, key.len() as int));
        crate::names::lemma_decimal_injective(s1 as int, s2 as int);
    }
}

} // verus!
