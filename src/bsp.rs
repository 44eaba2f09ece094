//! Level geometry: the objects of a level to convert, and their faces built
//! into non-indexed triangle primitives.
use vstd::prelude::*;
use crate::arena::{lemma_flatten_uniform, vec2_bytes, vec3_bytes, Arena};
use crate::coords::{bounding_box, bounds_max, bounds_min, map_coords, spec_map_coords, Vec2, Vec3, ZERO};
use crate::document::{
    element_size, lemma_wf_grows, Accessor, BufferView, ComponentType, Document, DocumentModel,
    ElementType, Mesh, Node, NodeModel, Primitive, PrimitiveMode, ViewModel, ViewTarget,
};
use crate::error::Error;
use crate::gltf_builder::{
    extends, lemma_extends_refl, lemma_extends_trans, lemma_material_resolved_extends, lemma_prefix_add,
    lemma_prefix_push, lemma_prefix_trans, library_models, library_wf, material_resolved,
    push_or_get_material,
};
use crate::materials::MaterialData;
use crate::names::{lower_ascii, parse_index, parse_usize_from};

verus! {

/// One vertex of a level face as it lies in the arena: position, then
/// texture coordinate.
#[derive(Clone, Copy, Debug, PartialEq, Eq, Structural)]
pub struct BspVertexData {
    pub position: Vec3,
    pub uv: Vec2,
}

/// Bytes in one level vertex record.
pub const BSP_VERTEX_SIZE: u64 = 20;

/// Offset of the position within a level vertex record.
pub const BSP_POSITION_OFFSET: u64 = 0;

/// Offset of the texture coordinate within a level vertex record.
pub const BSP_UV_OFFSET: u64 = 12;

/// The bytes of a level vertex record.
pub open spec fn bsp_vertex_bytes(v: BspVertexData) -> Seq<u8> {
    vec3_bytes(v.position) + vec2_bytes(v.uv)
}

/// A face of a level object: its vertex positions in source space, the
/// texture coordinate of each, and the name of its material.
#[derive(Debug)]
pub struct FaceData {
    pub visible: bool,
    pub positions: Vec<Vec3>,
    pub uvs: Vec<Vec2>,
    pub material: String,
}

/// What a face is.
pub struct FaceModel {
    pub visible: bool,
    pub positions: Seq<Vec3>,
    pub uvs: Seq<Vec2>,
    pub material: Seq<char>,
}

impl View for FaceData {
    type V = FaceModel;

    open spec fn view(&self) -> FaceModel {
        FaceModel { visible: self.visible, positions: self.positions@, uvs: self.uvs@, material: self.material@ }
    }
}

impl FaceModel {
    /// Each position has its texture coordinate.
    pub open spec fn wf(self) -> bool {
        self.positions.len() == self.uvs.len()
    }
}

/// The vertex records of a face: positions mapped to output space, each with
/// its texture coordinate.
pub open spec fn face_records(f: FaceModel) -> Seq<Seq<u8>> {
    Seq::new(
        f.positions.len(),
        |i: int| bsp_vertex_bytes(BspVertexData { position: spec_map_coords(f.positions[i]), uv: f.uvs[i] }),
    )
}

/// The interleaved view that holds the vertex records of a face.
pub open spec fn face_view(start: nat, n: nat) -> ViewModel {
    ViewModel {
        byte_offset: start as u64,
        byte_length: (n * BSP_VERTEX_SIZE) as u64,
        byte_stride: Some(BSP_VERTEX_SIZE),
        target: Some(ViewTarget::ArrayBuffer),
        name: None,
    }
}

/// The position accessor of a face: all its vertices, bounded by the mapped
/// corners of their bounding box.
pub open spec fn face_position_accessor(view: usize, f: FaceModel) -> Accessor {
    Accessor {
        buffer_view: view,
        byte_offset: BSP_POSITION_OFFSET,
        count: f.positions.len() as u64,
        component_type: ComponentType::F32,
        element_type: ElementType::Vec3,
        min: Some(spec_map_coords(bounds_min(f.positions))),
        max: Some(spec_map_coords(bounds_max(f.positions))),
    }
}

/// The texture coordinate accessor of a face.
pub open spec fn face_uv_accessor(view: usize, f: FaceModel) -> Accessor {
    Accessor {
        buffer_view: view,
        byte_offset: BSP_UV_OFFSET,
        count: f.positions.len() as u64,
        component_type: ComponentType::F32,
        element_type: ElementType::Vec2,
        min: None,
        max: None,
    }
}

/// What building a face does: its records are appended, one view and the
/// position and texture coordinate accessors over it are added, its material
/// is resolved, and the primitive refers to all of them.
pub open spec fn face_pushed(
    d0: DocumentModel,
    a0: Seq<u8>,
    lib: Seq<crate::materials::MaterialDataModel>,
    f: FaceModel,
    textures: bool,
    d1: DocumentModel,
    a1: Seq<u8>,
    r: Primitive,
) -> bool {
    let view = d0.buffer_views.len() as usize;
    let a_mid = a0 + face_records(f).flatten();
    let d_mid = DocumentModel {
        buffer_views: d0.buffer_views.push(face_view(a0.len(), f.positions.len())),
        accessors: d0.accessors.push(face_position_accessor(view, f)).push(face_uv_accessor(view, f)),
        ..d0
    };
    &&& d0.buffer_views.len() <= usize::MAX
    &&& d0.accessors.len() + 1 <= usize::MAX
    &&& a0.len() + face_records(f).flatten().len() <= u64::MAX
    &&& r.material is Some
    &&& material_resolved(d_mid, a_mid, lib, lower_ascii(f.material), textures, d1, a1, r.material->0)
    &&& r == (Primitive {
        position: d0.accessors.len() as usize,
        tex_coord: (d0.accessors.len() + 1) as usize,
        normal: None,
        indices: None,
        material: r.material,
        mode: PrimitiveMode::Triangles,
    })
}

/// Appends the vertex records of a face, a view over them and its two
/// accessors; returns the index of the position accessor.
#[verifier::rlimit(40)]
fn push_face_vertices(arena: &mut Arena, doc: &mut Document, face: &FaceData) -> (r: usize)
    requires
        old(doc)@.wf(old(arena)@.len()),
        face@.wf(),
        face@.positions.len() > 0,
    ensures
        final(doc)@.wf(final(arena)@.len()),
        final(arena)@ == old(arena)@ + face_records(face@).flatten(),
        final(doc)@ == (DocumentModel {
            buffer_views: old(doc)@.buffer_views.push(face_view(old(arena)@.len(), face@.positions.len())),
            accessors: old(doc)@.accessors.push(
                face_position_accessor(old(doc)@.buffer_views.len() as usize, face@),
            ).push(face_uv_accessor(old(doc)@.buffer_views.len() as usize, face@)),
            ..old(doc)@
        }),
        r == old(doc)@.accessors.len(),
        old(doc)@.accessors.len() + 1 <= usize::MAX,
        old(doc)@.buffer_views.len() <= usize::MAX,
        old(arena)@.len() + face_records(face@).flatten().len() <= u64::MAX,
{
    let ghost a0 = arena@;
    let ghost d0 = doc@;
    let n = face.positions.len();
    let vertex_count = n as u64;
    let buffer_start = arena.current_length();
    let (min, max) = bounding_box(&face.positions);
    let mut i: usize = 0;
    while i < n
        invariant
            n == face@.positions.len(),
            face@.wf(),
            i <= n,
            arena@ == a0 + Seq::new(i as nat, |k: int| face_records(face@)[k]).flatten(),
        decreases n - i,
    {
        let v = BspVertexData { position: map_coords(face.positions[i]), uv: face.uvs[i] };
        arena.append_vec3(v.position);
        arena.append_vec2(v.uv);
        proof {
            let prev = Seq::new(i as nat, |k: int| face_records(face@)[k]);
            let next = Seq::new((i + 1) as nat, |k: int| face_records(face@)[k]);
            assert(next =~= prev.push(bsp_vertex_bytes(v)));
            prev.lemma_flatten_push(bsp_vertex_bytes(v));
            assert(arena@ =~= a0 + next.flatten());
        }
        i = i + 1;
    }
    proof {
        assert(Seq::new(n as nat, |k: int| face_records(face@)[k]) =~= face_records(face@));
        lemma_flatten_uniform(face_records(face@), 20);
        lemma_wf_grows(d0, a0.len(), arena@.len());
    }
    let ghost len = arena@.len();
    let byte_length = arena.current_length() - buffer_start;
    let view = BufferView {
        byte_offset: buffer_start,
        byte_length,
        byte_stride: Some(BSP_VERTEX_SIZE),
        target: Some(ViewTarget::ArrayBuffer),
        name: None,
    };
    assert(view@ == face_view(a0.len(), n as nat));
    let vertex_view = doc.add_view(view, Ghost(len));
    let positions = Accessor {
        buffer_view: vertex_view,
        byte_offset: BSP_POSITION_OFFSET,
        count: vertex_count,
        component_type: ComponentType::F32,
        element_type: ElementType::Vec3,
        min: Some(map_coords(min)),
        max: Some(map_coords(max)),
    };
    let uvs = Accessor {
        buffer_view: vertex_view,
        byte_offset: BSP_UV_OFFSET,
        count: vertex_count,
        component_type: ComponentType::F32,
        element_type: ElementType::Vec2,
        min: None,
        max: None,
    };
    proof {
        let c = vertex_count as int;
        assert(byte_length == 20 * c);
        assert(c * 12 <= 20 * c && 12 + c * 8 <= 20 * c) by (nonlinear_arith)
            requires
                c >= 1,
        ;
        assert(element_size(ComponentType::F32, ElementType::Vec3) == 12);
        assert(element_size(ComponentType::F32, ElementType::Vec2) == 8);
    }
    assert(positions == face_position_accessor(vertex_view, face@));
    assert(uvs == face_uv_accessor(vertex_view, face@));
    let accessor_start = doc.add_accessor(positions, Ghost(len));
    doc.add_accessor(uvs, Ghost(len));
    accessor_start
}

/// Builds a face with vertices into a non-indexed triangle primitive.
pub fn push_bsp_face(
    arena: &mut Arena,
    doc: &mut Document,
    library: &Vec<MaterialData>,
    face: &FaceData,
    textures: bool,
) -> (r: Primitive)
    requires
        old(doc)@.wf(old(arena)@.len()),
        face@.wf(),
        face@.positions.len() > 0,
        library_wf(library_models(library@)),
    ensures
        final(doc)@.wf(final(arena)@.len()),
        face_pushed(old(doc)@, old(arena)@, library_models(library@), face@, textures, final(doc)@, final(arena)@, r),
        r.position < final(doc)@.accessors.len(),
        r.tex_coord < final(doc)@.accessors.len(),
        r.material->0 < final(doc)@.materials.len(),
{
    let accessor_start = push_face_vertices(arena, doc, face);
    let material_index = push_or_get_material(arena, doc, library, face.material.as_str(), textures);
    Primitive {
        position: accessor_start,
        tex_coord: accessor_start + 1,
        normal: None,
        indices: None,
        material: Some(material_index),
        mode: PrimitiveMode::Triangles,
    }
}

/// A face is drawn when it is visible and has vertices.
pub open spec fn is_drawn(f: FaceModel) -> bool {
    f.visible && f.positions.len() > 0
}

/// The faces of `fs` that are drawn, in order.
pub open spec fn drawn_faces(fs: Seq<FaceModel>) -> Seq<FaceModel>
    decreases fs.len(),
{
    if fs.len() == 0 {
        Seq::empty()
    } else if is_drawn(fs.last()) {
        drawn_faces(fs.drop_last()).push(fs.last())
    } else {
        drawn_faces(fs.drop_last())
    }
}

/// Primitive `p` of document `d` over arena `a` draws face `f`: its view holds
/// the face's vertex records, its two accessors read all of them with the
/// bounds of its positions, and its material is named after the face's
/// material folded to lower case.
pub open spec fn face_primitive(d: DocumentModel, a: Seq<u8>, p: Primitive, f: FaceModel) -> bool {
    let v = d.accessors[p.position as int].buffer_view as int;
    let start = d.buffer_views[v].byte_offset as int;
    &&& p.position < d.accessors.len()
    &&& p.tex_coord == p.position + 1
    &&& p.tex_coord < d.accessors.len()
    &&& 0 <= v < d.buffer_views.len()
    &&& d.accessors[p.position as int] == face_position_accessor(v as usize, f)
    &&& d.accessors[p.tex_coord as int] == face_uv_accessor(v as usize, f)
    &&& d.buffer_views[v] == face_view(start as nat, f.positions.len())
    &&& start + face_records(f).flatten().len() <= a.len()
    &&& a.subrange(start, start + face_records(f).flatten().len()) == face_records(f).flatten()
    &&& p.normal is None
    &&& p.indices is None
    &&& p.mode == PrimitiveMode::Triangles
    &&& p.material is Some
    &&& p.material->0 < d.materials.len()
    &&& d.materials[p.material->0 as int].name == lower_ascii(f.material)
}

/// What a face's primitive draws stays so as the document grows.
pub proof fn lemma_face_primitive_stable(
    d: DocumentModel,
    a: Seq<u8>,
    d1: DocumentModel,
    a1: Seq<u8>,
    p: Primitive,
    f: FaceModel,
)
    requires
        face_primitive(d, a, p, f),
        extends(d, a, d1, a1),
    ensures
        face_primitive(d1, a1, p, f),
{
    let v = d.accessors[p.position as int].buffer_view as int;
    let start = d.buffer_views[v].byte_offset as int;
    let len = face_records(f).flatten().len();
    assert(d1.accessors[p.position as int] == d1.accessors.subrange(0, d.accessors.len() as int)[p.position as int]);
    assert(d1.accessors[p.tex_coord as int] == d1.accessors.subrange(0, d.accessors.len() as int)[p.tex_coord as int]);
    assert(d1.buffer_views[v] == d1.buffer_views.subrange(0, d.buffer_views.len() as int)[v]);
    assert(d1.materials[p.material->0 as int] == d1.materials.subrange(0, d.materials.len() as int)[p.material->0 as int]);
    assert(a1.subrange(start, start + len) =~= a1.subrange(0, a.len() as int).subrange(start, start + len));
}

/// A face built by `push_bsp_face` is drawn by the primitive it returns.
pub proof fn lemma_face_pushed_draws(
    d0: DocumentModel,
    a0: Seq<u8>,
    lib: Seq<crate::materials::MaterialDataModel>,
    f: FaceModel,
    textures: bool,
    d1: DocumentModel,
    a1: Seq<u8>,
    r: Primitive,
)
    requires
        face_pushed(d0, a0, lib, f, textures, d1, a1, r),
        f.wf(),
    ensures
        face_primitive(d1, a1, r, f),
        extends(d0, a0, d1, a1),
        d1.meshes == d0.meshes,
        d1.nodes == d0.nodes,
{
    let view = d0.buffer_views.len() as usize;
    let a_mid = a0 + face_records(f).flatten();
    let d_mid = DocumentModel {
        buffer_views: d0.buffer_views.push(face_view(a0.len(), f.positions.len())),
        accessors: d0.accessors.push(face_position_accessor(view, f)).push(face_uv_accessor(view, f)),
        ..d0
    };
    lemma_material_resolved_extends(d_mid, a_mid, lib, lower_ascii(f.material), textures, d1, a1, r.material->0);
    lemma_flatten_uniform(face_records(f), 20);
    assert(a_mid.subrange(a0.len() as int, a0.len() + face_records(f).flatten().len() as int) =~= face_records(f).flatten());
    let v = view as int;
    let len = face_records(f).flatten().len() as int;
    assert(d1.accessors[r.position as int] == face_position_accessor(view, f));
    assert(d1.accessors[r.tex_coord as int] == face_uv_accessor(view, f));
    assert(d1.buffer_views[v] == d1.buffer_views.subrange(0, d_mid.buffer_views.len() as int)[v]);
    assert(d1.buffer_views[v] == face_view(a0.len(), f.positions.len()));
    assert(a1.subrange(a0.len() as int, a0.len() + len) =~= a1.subrange(0, a_mid.len() as int).subrange(a0.len() as int, a0.len() + len));
    assert(face_primitive(d1, a1, r, f));
    lemma_extends_refl(d0, a0);
    lemma_prefix_add(a0, face_records(f).flatten());
    lemma_prefix_push(d0.buffer_views, face_view(a0.len(), f.positions.len()));
    lemma_prefix_push(d0.accessors, face_position_accessor(view, f));
    lemma_prefix_push(d0.accessors.push(face_position_accessor(view, f)), face_uv_accessor(view, f));
    lemma_prefix_trans(d0.accessors, d0.accessors.push(face_position_accessor(view, f)), d_mid.accessors);
    lemma_extends_trans(d0, a0, d_mid, a_mid, d1, a1);
}

/// The faces of a level object.
#[derive(Debug)]
pub struct LevelModel {
    pub faces: Vec<FaceData>,
}

/// The models of the faces of `m`.
pub open spec fn faces_of(m: &LevelModel) -> Seq<FaceModel> {
    m.faces@.map_values(|f: FaceData| f@)
}

/// Each face of the object is well formed.
pub open spec fn level_model_wf(m: &LevelModel) -> bool {
    forall|i: int| 0 <= i < m.faces@.len() ==> (#[trigger] m.faces@[i])@.wf()
}

/// Builds a level object into one mesh, with a primitive for each visible
/// face that has vertices, and returns a node for it placed at `offset` mapped to output space.
pub fn push_bsp_model(
    arena: &mut Arena,
    doc: &mut Document,
    library: &Vec<MaterialData>,
    model: &LevelModel,
    offset: Vec3,
    textures: bool,
) -> (r: Node)
    requires
        old(doc)@.wf(old(arena)@.len()),
        level_model_wf(model),
        library_wf(library_models(library@)),
    ensures
        final(doc)@.wf(final(arena)@.len()),
        extends(old(doc)@, old(arena)@, final(doc)@, final(arena)@),
        final(doc)@.nodes == old(doc)@.nodes,
        final(doc)@.meshes.len() == old(doc)@.meshes.len() + 1,
        r@ == (NodeModel {
            name: Some("bsp"@),
            mesh: Some(old(doc)@.meshes.len() as usize),
            translation: Some(spec_map_coords(offset)),
            rotation: None,
            children: Seq::empty(),
        }),
        final(doc)@.meshes.last().name is None,
        final(doc)@.meshes.last().primitives.len() == drawn_faces(faces_of(model)).len(),
        forall|k: int|
            0 <= k < final(doc)@.meshes.last().primitives.len() ==> face_primitive(
                final(doc)@,
                final(arena)@,
                #[trigger] final(doc)@.meshes.last().primitives[k],
                drawn_faces(faces_of(model))[k],
            ),
{
    let ghost d0 = doc@;
    let ghost a0 = arena@;
    let ghost fs = faces_of(model);
    let mut primitives: Vec<Primitive> = Vec::new();
    let mut i: usize = 0;
    proof {
        lemma_extends_refl(d0, a0);
        assert(fs.subrange(0, 0) =~= Seq::<FaceModel>::empty());
    }
    while i < model.faces.len()
        invariant
            i <= model.faces@.len(),
            fs == faces_of(model),
            level_model_wf(model),
            library_wf(library_models(library@)),
            doc@.wf(arena@.len()),
            extends(d0, a0, doc@, arena@),
            doc@.meshes == d0.meshes,
            doc@.nodes == d0.nodes,
            primitives@.len() == drawn_faces(fs.subrange(0, i as int)).len(),
            forall|k: int|
                0 <= k < primitives@.len() ==> face_primitive(
                    doc@,
                    arena@,
                    #[trigger] primitives@[k],
                    drawn_faces(fs.subrange(0, i as int))[k],
                ),
        decreases model.faces@.len() - i,
    {
        let face = &model.faces[i];
        let ghost before = fs.subrange(0, i as int);
        let ghost after = fs.subrange(0, i + 1);
        assert(after.drop_last() =~= before);
        assert(after.last() == face@);
        assert(face@.wf());
        if face.visible && face.positions.len() > 0 {
            let ghost d_prev = doc@;
            let ghost a_prev = arena@;
            let ghost prims = primitives@;
            let p = push_bsp_face(arena, doc, library, face, textures);
            proof {
                lemma_face_pushed_draws(d_prev, a_prev, library_models(library@), face@, textures, doc@, arena@, p);
                lemma_extends_trans(d0, a0, d_prev, a_prev, doc@, arena@);
                assert forall|k: int| 0 <= k < prims.len() implies face_primitive(
                    doc@,
                    arena@,
                    #[trigger] prims[k],
                    drawn_faces(before)[k],
                ) by {
                    lemma_face_primitive_stable(d_prev, a_prev, doc@, arena@, prims[k], drawn_faces(before)[k]);
                }
            }
            primitives.push(p);
            assert(drawn_faces(after) == drawn_faces(before).push(face@));
        } else {
            assert(drawn_faces(after) == drawn_faces(before));
        }
        i = i + 1;
    }
    assert(fs.subrange(0, model.faces@.len() as int) =~= fs);
    let ghost len = arena@.len();
    proof {
        assert forall|k: int| 0 <= k < primitives@.len() implies crate::document::primitive_fits(
            #[trigger] primitives@[k],
            doc@.accessors.len() as int,
            doc@.materials.len() as int,
        ) by {
            assert(face_primitive(doc@, arena@, primitives@[k], drawn_faces(fs)[k]));
        }
    }
    let ghost prims = primitives@;
    let ghost d_before = doc@;
    let mesh = Mesh { name: None, primitives };
    let mesh_index = doc.add_mesh(mesh, Ghost(len));
    proof {
        lemma_prefix_push(d_before.meshes, doc@.meshes.last());
        assert(doc@.meshes =~= d_before.meshes.push(doc@.meshes.last()));
        lemma_prefix_trans(d0.meshes, d_before.meshes, doc@.meshes);
        assert forall|k: int| 0 <= k < prims.len() implies face_primitive(
            doc@,
            arena@,
            #[trigger] doc@.meshes.last().primitives[k],
            drawn_faces(fs)[k],
        ) by {
            assert(doc@.meshes.last().primitives[k] == prims[k]);
        }
    }
    Node {
        name: Some(String::from_str("bsp")),
        mesh: Some(mesh_index),
        translation: Some(map_coords(offset)),
        rotation: None,
        children: Vec::new(),
    }
}

/// A brush entity: the reference `*N` to a secondary level object, and the
/// origin at which it is placed.
#[derive(Debug)]
pub struct BrushEntity {
    pub model: String,
    pub origin: Vec3,
}

/// The level geometry: its objects, the first being the world, and its brush
/// entities.
#[derive(Debug)]
pub struct LevelGeometry {
    pub models: Vec<LevelModel>,
    pub brushes: Vec<BrushEntity>,
}

/// The object index that a brush reference names: what follows its first
/// character, read as an index, where that index is below `count`.
pub open spec fn brush_model_index(model: Seq<char>, count: nat) -> Option<nat> {
    if model.len() == 0 {
        None
    } else {
        match parse_index(model.drop_first()) {
            Some(i) => if i < count {
                Some(i)
            } else {
                None
            },
            None => None,
        }
    }
}

/// The objects that the brushes place, with their origins, in order; brushes
/// whose reference does not name an object are left out.
pub open spec fn placed_models(brushes: Seq<BrushEntity>, count: nat) -> Seq<(usize, Vec3)>
    decreases brushes.len(),
{
    if brushes.len() == 0 {
        Seq::empty()
    } else {
        let rest = placed_models(brushes.drop_last(), count);
        match brush_model_index(brushes.last().model@, count) {
            Some(i) => rest.push((i as usize, brushes.last().origin)),
            None => rest,
        }
    }
}

/// The origin of the world object.
pub open spec fn origin() -> Vec3 {
    Vec3 { x: ZERO, y: ZERO, z: ZERO }
}

/// The level objects to convert with their offsets: those that brush entities
/// place, then the world object at the origin. A level without objects has
/// no world and is an error.
pub fn bsp_models(level: &LevelGeometry) -> (r: Result<Vec<(usize, Vec3)>, Error>)
    ensures
        level.models@.len() == 0 ==> (match r {
            Err(Error::Other(m)) => m@ == "No world model"@,
            _ => false,
        }),
        level.models@.len() > 0 ==> (match r {
            Ok(v) => v@ == placed_models(level.brushes@, level.models@.len()).push((0usize, origin())),
            Err(_) => false,
        }),
{
    let count = level.models.len();
    if count == 0 {
        return Err(Error::Other(String::from_str("No world model")));
    }
    let mut models: Vec<(usize, Vec3)> = Vec::new();
    let mut i: usize = 0;
    while i < level.brushes.len()
        invariant
            i <= level.brushes@.len(),
            count == level.models@.len(),
            models@ == placed_models(level.brushes@.subrange(0, i as int), count as nat),
        decreases level.brushes@.len() - i,
    {
        let brush = &level.brushes[i];
        let ghost prefix = level.brushes@.subrange(0, i + 1);
        assert(prefix.drop_last() =~= level.brushes@.subrange(0, i as int));
        assert(prefix.last() == *brush);
        let n = brush.model.as_str().unicode_len();
        if n >= 1 {
            let parsed = parse_usize_from(brush.model.as_str(), 1);
            assert(brush.model@.subrange(1, n as int) =~= brush.model@.drop_first());
            match parsed {
                Some(index) => {
                    if index < count {
                        models.push((index, brush.origin));
                    }
                },
                None => {},
            }
        }
        i = i + 1;
    }
    assert(level.brushes@.subrange(0, level.brushes@.len() as int) =~= level.brushes@);
    models.push((0, Vec3 { x: ZERO, y: ZERO, z: ZERO }));
    Ok(models)
}

/// Every object that the brushes place exists.
pub proof fn lemma_placed_models_exist(brushes: Seq<BrushEntity>, count: nat)
    requires
        count <= usize::MAX,
    ensures
        forall|j: int| 0 <= j < placed_models(brushes, count).len() ==> (#[trigger] placed_models(brushes, count)[j]).0 < count,
    decreases brushes.len(),
{
    if brushes.len() > 0 {
        lemma_placed_models_exist(brushes.drop_last(), count);
        let rest = placed_models(brushes.drop_last(), count);
        let all = placed_models(brushes, count);
        match brush_model_index(brushes.last().model@, count) {
            Some(i) => {
                assert(i < count);
                assert(all == rest.push((i as usize, brushes.last().origin)));
                assert forall|j: int| 0 <= j < all.len() implies (#[trigger] all[j]).0 < count by {
                    if j < rest.len() {
                        assert(all[j] == rest[j]);
                    }
                }
            },
            None => {},
        }
    }
}

/// The bounds that a face's position accessor carries are exactly the
/// componentwise least and greatest of the positions it reads, in output
/// space.
pub proof fn lemma_face_bounds_exact(view: usize, f: FaceModel)
    requires
        f.positions.len() > 0,
    ensures
        face_position_accessor(view, f).min == Some(crate::coords::bounds_min(crate::coords::mapped(f.positions))),
        face_position_accessor(view, f).max == Some(crate::coords::bounds_max(crate::coords::mapped(f.positions))),
        forall|i: int|
            0 <= i < f.positions.len() ==> {
                let lo = crate::coords::bounds_min(crate::coords::mapped(f.positions));
                let hi = crate::coords::bounds_max(crate::coords::mapped(f.positions));
                let p = spec_map_coords(#[trigger] f.positions[i]);
                &&& crate::coords::order_key(lo.x) <= crate::coords::order_key(p.x) <= crate::coords::order_key(hi.x)
                &&& crate::coords::order_key(lo.y) <= crate::coords::order_key(p.y) <= crate::coords::order_key(hi.y)
                &&& crate::coords::order_key(lo.z) <= crate::coords::order_key(p.z) <= crate::coords::order_key(hi.z)
            },
{
    let ps = crate::coords::mapped(f.positions);
    crate::coords::lemma_map_coords_commutes_with_bounds(f.positions);
    crate::coords::lemma_bounds_are_exact(ps);
    assert forall|i: int| 0 <= i < f.positions.len() implies ps[i] == spec_map_coords(#[trigger] f.positions[i]) by {}
}

/// Whether entities of class `class` place a secondary level object.
pub fn is_brush_class(class: &str) -> (r: bool)
    ensures
        r == (class@ == "func_brush"@ || class@ == "func_illusionary"@ || class@ == "func_wall"@
            || class@ == "func_wall_toggle"@),
{
    let c = String::from_str(class);
    c == String::from_str("func_brush") || c == String::from_str("func_illusionary") || c == String::from_str(
        "func_wall",
    ) || c == String::from_str("func_wall_toggle")
}

} // verus!
