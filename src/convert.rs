//! The scene composer: builds every level object and placed model, gathers
//! their nodes under one root, and frames the result as a packed container.
use vstd::prelude::*;
use crate::arena::{align4, Arena};
pub use crate::arena::{align_to_multiple_of_four, pad_byte_vector};
use crate::bsp::{
    bsp_models, face_primitive, faces_of, level_model_wf, origin, placed_models, push_bsp_model,
    drawn_faces, LevelGeometry,
};
pub use crate::coords::map_coords;
use crate::coords::{spec_map_coords, Vec3};
use crate::document::{Document, DocumentModel, Node, NodeModel, Rotation};
use crate::error::Error;
use crate::gltf_builder::{extends, lemma_extends_refl, lemma_extends_trans, library_models, library_wf};
use crate::materials::MaterialData;
use crate::prop::{
    model_yields, named_meshes_yield, push_or_get_model, skinned_name, LoadedModel, PropPlacement,
};
use crate::ConvertOptions;

verus! {

/// A built scene: the document and the bytes of its single buffer.
#[derive(Debug)]
pub struct Export {
    pub document: Document,
    pub buffer: Vec<u8>,
}

/// Node `n` places the level object `m` of `level` at `offset`: it is named
/// `bsp`, is moved to the mapped offset, and its mesh has a primitive for each
/// visible face of the object that has vertices, in order.
pub open spec fn level_node(d: DocumentModel, a: Seq<u8>, n: NodeModel, level: &LevelGeometry, m: usize, offset: Vec3) -> bool {
    let fs = drawn_faces(faces_of(&level.models@[m as int]));
    &&& n.name == Some("bsp"@)
    &&& n.translation == Some(spec_map_coords(offset))
    &&& n.rotation is None
    &&& n.children.len() == 0
    &&& n.mesh is Some
    &&& n.mesh->0 < d.meshes.len()
    &&& d.meshes[n.mesh->0 as int].name is None
    &&& d.meshes[n.mesh->0 as int].primitives.len() == fs.len()
    &&& forall|k: int| 0 <= k < fs.len() ==> face_primitive(d, a, #[trigger] d.meshes[n.mesh->0 as int].primitives[k], fs[k])
}

/// Node `n` places model `p`: it is named after the model, carries the
/// placement's rotation and mapped origin, and its mesh is the one cached
/// for the model and skin.
pub open spec fn prop_node(d: DocumentModel, n: NodeModel, p: PropPlacement) -> bool {
    &&& n.name == Some(p.model@)
    &&& n.translation == Some(spec_map_coords(p.origin))
    &&& n.rotation == Some(Rotation::Quaternion(p.rotation))
    &&& n.children.len() == 0
    &&& n.mesh is Some
    &&& n.mesh->0 < d.meshes.len()
    &&& d.meshes[n.mesh->0 as int].name == Some(skinned_name(p.model@, p.skin))
}

/// A model placement yields a node wherever its model loaded with vertices.
pub open spec fn prop_yields(models: Seq<LoadedModel>, p: PropPlacement) -> bool {
    model_yields(models, p.model@)
}

/// The placements that yield a node, in order.
pub open spec fn yielding(props: Seq<PropPlacement>, models: Seq<LoadedModel>) -> Seq<PropPlacement>
    decreases props.len(),
{
    if props.len() == 0 {
        Seq::empty()
    } else if prop_yields(models, props.last()) {
        yielding(props.drop_last(), models).push(props.last())
    } else {
        yielding(props.drop_last(), models)
    }
}

/// The indices `0..n`.
pub open spec fn first_indices(n: nat) -> Seq<usize> {
    Seq::new(n, |i: int| i as usize)
}

/// Every object of the level is well formed.
pub open spec fn level_wf(level: &LevelGeometry) -> bool {
    forall|i: int| 0 <= i < level.models@.len() ==> level_model_wf(#[trigger] &level.models@[i])
}

/// What a level node states stays so as the document grows.
pub proof fn lemma_level_node_stable(
    d: DocumentModel,
    a: Seq<u8>,
    d1: DocumentModel,
    a1: Seq<u8>,
    n: NodeModel,
    level: &LevelGeometry,
    m: usize,
    offset: Vec3,
)
    requires
        level_node(d, a, n, level, m, offset),
        extends(d, a, d1, a1),
    ensures
        level_node(d1, a1, n, level, m, offset),
{
    let fs = drawn_faces(faces_of(&level.models@[m as int]));
    let mi = n.mesh->0 as int;
    assert(d1.meshes[mi] == d1.meshes.subrange(0, d.meshes.len() as int)[mi]);
    assert forall|k: int| 0 <= k < fs.len() implies face_primitive(d1, a1, #[trigger] d1.meshes[mi].primitives[k], fs[k]) by {
        crate::bsp::lemma_face_primitive_stable(d, a, d1, a1, d.meshes[mi].primitives[k], fs[k]);
    }
}

/// What a prop node states stays so as the document grows.
pub proof fn lemma_prop_node_stable(d: DocumentModel, a: Seq<u8>, d1: DocumentModel, a1: Seq<u8>, n: NodeModel, p: PropPlacement)
    requires
        prop_node(d, n, p),
        extends(d, a, d1, a1),
    ensures
        prop_node(d1, n, p),
{
    let mi = n.mesh->0 as int;
    assert(d1.meshes[mi] == d1.meshes.subrange(0, d.meshes.len() as int)[mi]);
}

/// Builds the placed level objects, adding a node for each.
#[verifier::rlimit(40)]
fn push_level(
    arena: &mut Arena,
    doc: &mut Document,
    library: &Vec<MaterialData>,
    level: &LevelGeometry,
    placed: &Vec<(usize, Vec3)>,
    textures: bool,
)
    requires
        old(doc)@.wf(old(arena)@.len()),
        old(doc)@.nodes.len() == 0,
        old(doc)@.meshes.len() == 0,
        level_wf(level),
        library_wf(library_models(library@)),
        forall|j: int| 0 <= j < placed@.len() ==> (#[trigger] placed@[j]).0 < level.models@.len(),
    ensures
        final(doc)@.wf(final(arena)@.len()),
        extends(old(doc)@, old(arena)@, final(doc)@, final(arena)@),
        final(doc)@.nodes.len() == placed@.len(),
        forall|k: int| 0 <= k < final(doc)@.meshes.len() ==> (#[trigger] final(doc)@.meshes[k]).name is None,
        forall|j: int| 0 <= j < placed@.len() ==> level_node(
            final(doc)@,
            final(arena)@,
            #[trigger] final(doc)@.nodes[j],
            level,
            placed@[j].0,
            placed@[j].1,
        ),
{
    let ghost d0 = doc@;
    let ghost a0 = arena@;
    proof {
        lemma_extends_refl(d0, a0);
    }
    let mut i: usize = 0;
    while i < placed.len()
        invariant
            i <= placed@.len(),
            level_wf(level),
            library_wf(library_models(library@)),
            forall|j: int| 0 <= j < placed@.len() ==> (#[trigger] placed@[j]).0 < level.models@.len(),
            doc@.wf(arena@.len()),
            extends(d0, a0, doc@, arena@),
            doc@.nodes.len() == i,
            forall|k: int| 0 <= k < doc@.meshes.len() ==> (#[trigger] doc@.meshes[k]).name is None,
            forall|j: int| 0 <= j < i ==> level_node(doc@, arena@, #[trigger] doc@.nodes[j], level, placed@[j].0, placed@[j].1),
        decreases placed@.len() - i,
    {
        let (index, offset) = placed[i];
        let ghost d_prev = doc@;
        let ghost a_prev = arena@;
        assert(level_model_wf(&level.models@[index as int]));
        let mesh_count = doc.meshes.len();
        let node = push_bsp_model(arena, doc, library, &level.models[index], offset, textures);
        let ghost d_mid = doc@;
        let ghost len = arena@.len();
        let ghost nm = node@;
        assert(crate::document::node_fits(node@, doc@.meshes.len() as int, doc@.nodes.len() as int));
        doc.add_node(node, Ghost(len));
        proof {
            crate::gltf_builder::lemma_prefix_push(d_mid.nodes, nm);
            lemma_extends_refl(d_mid, arena@);
            assert(extends(d_mid, arena@, doc@, arena@)) by {
                crate::gltf_builder::lemma_prefix_push(d_mid.nodes, nm);
            }
            lemma_extends_trans(d_prev, a_prev, d_mid, arena@, doc@, arena@);
            lemma_extends_trans(d0, a0, d_prev, a_prev, doc@, arena@);
            let mi = nm.mesh->0 as int;
            assert(d_mid.meshes[mi] == d_mid.meshes.last());
            assert forall|k: int| 0 <= k < doc@.meshes.len() implies (#[trigger] doc@.meshes[k]).name is None by {
                if k < d_prev.meshes.len() {
                    assert(doc@.meshes[k] == doc@.meshes.subrange(0, d_prev.meshes.len() as int)[k]);
                }
            }
            let fs = drawn_faces(faces_of(&level.models@[index as int]));
            assert forall|k: int| 0 <= k < fs.len() implies face_primitive(d_mid, arena@, #[trigger] d_mid.meshes[mi].primitives[k], fs[k]) by {
                assert(d_mid.meshes[mi].primitives[k] == d_mid.meshes.last().primitives[k]);
            }
            assert(level_node(d_mid, arena@, nm, level, index, offset));
            lemma_level_node_stable(d_mid, arena@, doc@, arena@, nm, level, index, offset);
            assert forall|j: int| 0 <= j < i + 1 implies level_node(doc@, arena@, #[trigger] doc@.nodes[j], level, placed@[j].0, placed@[j].1) by {
                if j < i {
                    lemma_level_node_stable(d_prev, a_prev, doc@, arena@, d_prev.nodes[j], level, placed@[j].0, placed@[j].1);
                }
            }
        }
        i = i + 1;
    }
}

/// The nodes from `from` on are those of the placements that yield a node,
/// one each, in order.
pub open spec fn props_placed(d: DocumentModel, from: int, props: Seq<PropPlacement>, models: Seq<LoadedModel>) -> bool {
    let ys = yielding(props, models);
    &&& d.nodes.len() == from + ys.len()
    &&& forall|j: int| 0 <= j < ys.len() ==> prop_node(d, d.nodes[from + j], #[trigger] ys[j])
}

proof fn lemma_props_placed_stable(
    d: DocumentModel,
    a: Seq<u8>,
    d1: DocumentModel,
    a1: Seq<u8>,
    from: int,
    props: Seq<PropPlacement>,
    models: Seq<LoadedModel>,
)
    requires
        props_placed(d, from, props, models),
        extends(d, a, d1, a1),
        d1.nodes == d.nodes,
    ensures
        props_placed(d1, from, props, models),
{
    let ys = yielding(props, models);
    assert forall|j: int| 0 <= j < ys.len() implies prop_node(d1, d1.nodes[from + j], #[trigger] ys[j]) by {
        lemma_prop_node_stable(d, a, d1, a1, d.nodes[from + j], ys[j]);
    }
}

proof fn lemma_props_placed_add(
    d: DocumentModel,
    d1: DocumentModel,
    n: NodeModel,
    from: int,
    props: Seq<PropPlacement>,
    p: PropPlacement,
    models: Seq<LoadedModel>,
)
    requires
        props_placed(d, from, props, models),
        0 <= from,
        d1 == (DocumentModel { nodes: d.nodes.push(n), ..d }),
        prop_node(d, n, p),
        prop_yields(models, p),
    ensures
        props_placed(d1, from, props.push(p), models),
{
    let ys = yielding(props, models);
    assert(props.push(p).drop_last() =~= props);
    let ys1 = yielding(props.push(p), models);
    assert(ys1 == ys.push(p));
    assert forall|j: int| 0 <= j < ys1.len() implies prop_node(d1, d1.nodes[from + j], #[trigger] ys1[j]) by {
        if j < ys.len() {
            assert(ys1[j] == ys[j]);
            assert(d1.nodes[from + j] == d.nodes[from + j]);
            assert(prop_node(d, d.nodes[from + j], ys[j]));
        } else {
            assert(d1.nodes[from + j] == n);
        }
    }
}

proof fn lemma_props_placed_skip(
    d: DocumentModel,
    from: int,
    props: Seq<PropPlacement>,
    p: PropPlacement,
    models: Seq<LoadedModel>,
)
    requires
        props_placed(d, from, props, models),
        !prop_yields(models, p),
    ensures
        props_placed(d, from, props.push(p), models),
{
    assert(props.push(p).drop_last() =~= props);
    assert(yielding(props.push(p), models) == yielding(props, models));
}

/// Builds the placed models, adding a node for each that yields a mesh.
#[verifier::rlimit(40)]
fn push_props(
    arena: &mut Arena,
    doc: &mut Document,
    library: &Vec<MaterialData>,
    models: &Vec<LoadedModel>,
    props: &Vec<PropPlacement>,
    textures: bool,
)
    requires
        old(doc)@.wf(old(arena)@.len()),
        library_wf(library_models(library@)),
        named_meshes_yield(old(doc)@.meshes, models@),
    ensures
        final(doc)@.wf(final(arena)@.len()),
        extends(old(doc)@, old(arena)@, final(doc)@, final(arena)@),
        props_placed(final(doc)@, old(doc)@.nodes.len() as int, props@, models@),
{
    let ghost d0 = doc@;
    let ghost a0 = arena@;
    proof {
        lemma_extends_refl(d0, a0);
        assert(props@.subrange(0, 0) =~= Seq::<PropPlacement>::empty());
    }
    let mut i: usize = 0;
    while i < props.len()
        invariant
            i <= props@.len(),
            library_wf(library_models(library@)),
            doc@.wf(arena@.len()),
            extends(d0, a0, doc@, arena@),
            named_meshes_yield(doc@.meshes, models@),
            props_placed(doc@, d0.nodes.len() as int, props@.subrange(0, i as int), models@),
        decreases props@.len() - i,
    {
        let prop = &props[i];
        let ghost done = props@.subrange(0, i as int);
        assert(props@.subrange(0, i + 1) =~= done.push(*prop));
        let ghost d_prev = doc@;
        let ghost a_prev = arena@;
        let found = push_or_get_model(arena, doc, library, models, prop.model.as_str(), prop.skin, textures);
        let ghost d_mid = doc@;
        let ghost a_mid = arena@;
        proof {
            lemma_extends_trans(d0, a0, d_prev, a_prev, d_mid, a_mid);
            lemma_props_placed_stable(d_prev, a_prev, d_mid, a_mid, d0.nodes.len() as int, done, models@);
        }
        match found {
            Some(mesh) => {
                let node = Node {
                    name: Some(prop.model.clone()),
                    mesh: Some(mesh),
                    translation: Some(map_coords(prop.origin)),
                    rotation: Some(Rotation::Quaternion(prop.rotation)),
                    children: Vec::new(),
                };
                let ghost nm = node@;
                let ghost len = arena@.len();
                assert(crate::document::node_fits(node@, doc@.meshes.len() as int, doc@.nodes.len() as int));
                doc.add_node(node, Ghost(len));
                proof {
                    assert(prop_node(d_mid, nm, *prop));
                    lemma_props_placed_add(d_mid, doc@, nm, d0.nodes.len() as int, done, *prop, models@);
                    lemma_extends_refl(d_mid, a_mid);
                    crate::gltf_builder::lemma_prefix_push(d_mid.nodes, nm);
                    lemma_extends_trans(d0, a0, d_mid, a_mid, doc@, arena@);
                }
            },
            None => {
                proof {
                    lemma_props_placed_skip(doc@, d0.nodes.len() as int, done, *prop, models@);
                }
            },
        }
        i = i + 1;
    }
    assert(props@.subrange(0, props@.len() as int) =~= props@);
}

/// What a built scene holds: every placed level object has its node, in
/// order; then come the nodes of the placed models, one for each placement
/// whose model loaded with vertices, in order; last comes the root, turned a quarter about
/// the vertical axis, the parent of all the others and the only node of the
/// only scene. The buffer is padded to four bytes and registered whole.
pub open spec fn scene_built(
    d: DocumentModel,
    a: Seq<u8>,
    level: &LevelGeometry,
    props: Seq<PropPlacement>,
    models: Seq<LoadedModel>,
) -> bool {
    let placed = placed_models(level.brushes@, level.models@.len()).push((0usize, origin()));
    let root = d.nodes.len() - 1;
    &&& d.wf(a.len())
    &&& a.len() % 4 == 0
    &&& d.buffer_length == Some(a.len() as u64)
    &&& d.nodes.len() >= placed.len() + 1
    &&& d.scenes == seq![seq![root as usize]]
    &&& d.nodes[root] == (NodeModel {
        name: None,
        mesh: None,
        translation: None,
        rotation: Some(Rotation::QuarterTurnY),
        children: first_indices(root as nat),
    })
    &&& forall|j: int| 0 <= j < placed.len() ==> level_node(d, a, #[trigger] d.nodes[j], level, placed[j].0, placed[j].1)
    &&& props_placed(DocumentModel { nodes: d.nodes.drop_last(), ..d }, placed.len() as int, props, models)
}

proof fn lemma_props_placed_same(
    d: DocumentModel,
    d1: DocumentModel,
    from: int,
    props: Seq<PropPlacement>,
    models: Seq<LoadedModel>,
)
    requires
        props_placed(d, from, props, models),
        d1.nodes == d.nodes,
        d1.meshes == d.meshes,
    ensures
        props_placed(d1, from, props, models),
{
    let ys = yielding(props, models);
    assert forall|j: int| 0 <= j < ys.len() implies prop_node(d1, d1.nodes[from + j], #[trigger] ys[j]) by {
        assert(prop_node(d, d.nodes[from + j], ys[j]));
    }
}

/// Builds the scene: the level objects that `level` places, then the models
/// that `props` places, under one root node. Materials come from `materials`
/// by name, or are the stand-in where it has none; models come from `models`
/// by name. A level without objects has no world and is an error.
#[verifier::rlimit(60)]
pub fn export(
    level: &LevelGeometry,
    props: &Vec<PropPlacement>,
    models: &Vec<LoadedModel>,
    materials: &Vec<MaterialData>,
    options: &ConvertOptions,
) -> (r: Result<Export, Error>)
    requires
        level_wf(level),
        library_wf(library_models(materials@)),
    ensures
        level.models@.len() == 0 ==> (match r {
            Err(Error::Other(m)) => m@ == "No world model"@,
            _ => false,
        }),
        level.models@.len() > 0 ==> (match r {
            Ok(out) => scene_built(out.document@, out.buffer@, level, props@, models@),
            Err(_) => false,
        }),
{
    let placed = match bsp_models(level) {
        Ok(p) => p,
        Err(e) => {
            return Err(e);
        },
    };
    let count = level.models.len();
    proof {
        crate::bsp::lemma_placed_models_exist(level.brushes@, count as nat);
        assert forall|j: int| 0 <= j < placed@.len() implies (#[trigger] placed@[j]).0 < level.models@.len() by {
            if j < placed@.len() - 1 {
                assert(placed@[j] == placed_models(level.brushes@, count as nat)[j]);
            }
        }
    }
    let mut arena = Arena::new();
    let mut doc = Document::new();
    push_level(&mut arena, &mut doc, materials, level, &placed, options.textures);
    let ghost d1 = doc@;
    let ghost a1 = arena@;
    assert(named_meshes_yield(doc@.meshes, models@)) by {
        assert forall|k: int| 0 <= k < doc@.meshes.len() && (#[trigger] doc@.meshes[k]).name is Some implies exists|m: Seq<char>, s: i32|
            doc@.meshes[k].name == Some(#[trigger] skinned_name(m, s)) && model_yields(models@, m) by {
            assert(doc@.meshes[k].name is None);
        }
    }
    push_props(&mut arena, &mut doc, materials, models, props, options.textures);
    let ghost d2 = doc@;
    let ghost a2 = arena@;
    proof {
        assert forall|j: int| 0 <= j < placed@.len() implies level_node(d2, a2, #[trigger] d2.nodes[j], level, placed@[j].0, placed@[j].1) by {
            assert(d2.nodes[j] == d2.nodes.subrange(0, d1.nodes.len() as int)[j]);
            lemma_level_node_stable(d1, a1, d2, a2, d1.nodes[j], level, placed@[j].0, placed@[j].1);
        }
    }
    let n = doc.nodes.len();
    let mut children: Vec<usize> = Vec::new();
    let mut i: usize = 0;
    while i < n
        invariant
            i <= n,
            children@ == first_indices(i as nat),
        decreases n - i,
    {
        children.push(i);
        i = i + 1;
        assert(children@ =~= first_indices(i as nat));
    }
    let root = Node { name: None, mesh: None, translation: None, rotation: Some(Rotation::QuarterTurnY), children };
    let ghost len = arena@.len();
    let root_index = doc.add_node(root, Ghost(len));
    doc.set_scene(root_index, Ghost(len));
    arena.pad_to_four();
    let ghost d3 = doc@;
    proof {
        crate::document::lemma_wf_grows(d3, len, arena@.len());
    }
    let length = arena.current_length();
    doc.set_buffer_length(length, Ghost(arena@.len()));
    proof {
        let d = doc@;
        let a = arena@;
        lemma_extends_refl(d2, a2);
        crate::gltf_builder::lemma_prefix_add(a2, crate::arena::padding(a2.len() as int));
        crate::gltf_builder::lemma_prefix_push(d2.nodes, d.nodes.last());
        assert(d.nodes =~= d2.nodes.push(d.nodes.last()));
        assert(extends(d2, a2, d, a));
        assert forall|j: int| 0 <= j < placed@.len() implies level_node(d, a, #[trigger] d.nodes[j], level, placed@[j].0, placed@[j].1) by {
            assert(d.nodes[j] == d2.nodes[j]);
            lemma_level_node_stable(d2, a2, d, a, d2.nodes[j], level, placed@[j].0, placed@[j].1);
        }
        assert(d.nodes.drop_last() =~= d2.nodes);
        lemma_props_placed_same(d2, DocumentModel { nodes: d.nodes.drop_last(), ..d }, d1.nodes.len() as int, props@, models@);
    }
    Ok(Export { document: doc, buffer: arena.into_bytes() })
}

/// The fixed header of a packed container.
#[derive(Clone, Copy, Debug)]
pub struct Header {
    pub magic: [u8; 4],
    pub version: u32,
    pub length: u32,
}

/// A packed container: the scene description as JSON text and the binary
/// payload.
#[derive(Debug)]
pub struct Glb {
    pub header: Header,
    pub json: Vec<u8>,
    pub bin: Vec<u8>,
}

/// The magic of a packed container, `glTF`.
pub open spec fn glb_magic() -> Seq<u8> {
    seq![0x67u8, 0x6c, 0x54, 0x46]
}

/// The header length of a container: the JSON text padded to four bytes,
/// then the payload.
pub open spec fn container_length(json_len: nat, bin_len: nat) -> int {
    align4(json_len as int) + bin_len
}

/// Frames the JSON text of a scene and its padded payload as a packed
/// container; an error where the lengths do not fit the 32-bit header.
pub fn pack_container(json: Vec<u8>, bin: Vec<u8>) -> (r: Result<Glb, Error>)
    ensures
        container_length(json@.len(), bin@.len()) <= u32::MAX ==> (match r {
            Ok(g) => g.header.magic@ == glb_magic() && g.header.version == 2 && g.header.length
                == container_length(json@.len(), bin@.len()) && g.json@ == json@ && g.bin@ == bin@
                && (bin@.len() % 4 == 0 ==> g.header.length % 4 == 0),
            Err(_) => false,
        }),
        container_length(json@.len(), bin@.len()) > u32::MAX ==> (match r {
            Err(Error::Other(m)) => m@ == "container too large"@,
            _ => false,
        }),
{
    let too_large = Err(Error::Other(String::from_str("container too large")));
    if json.len() as u64 > 0xffff_ffff || bin.len() as u64 > 0xffff_ffff {
        return too_large;
    }
    let json_len = json.len() as u64;
    let json_padded: u64 = json_len + (4 - json_len % 4) % 4;
    let bin_length = bin.len() as u64;
    if json_padded + bin_length > 0xffff_ffff {
        return too_large;
    }
    let mut json_offset: u32 = json.len() as u32;
    align_to_multiple_of_four(&mut json_offset);
    let bin_length = bin.len() as u32;
    let header = Header { magic: [0x67u8, 0x6c, 0x54, 0x46], version: 2, length: json_offset + bin_length };
    assert(header.magic@ =~= glb_magic());
    Ok(Glb { header, json, bin })
}

/// `n` bytes of value `b`.
pub open spec fn filler(n: int, b: u8) -> Seq<u8> {
    Seq::new(n as nat, |i: int| b)
}

/// The bytes of a packed container with chunks `json` and `bin`: the header
/// (magic, version 2, total length), then each chunk as its padded length,
/// its type and its bytes, the JSON chunk padded with spaces and the binary
/// chunk with zeros.
pub open spec fn glb_bytes(json: Seq<u8>, bin: Seq<u8>) -> Seq<u8> {
    let jl = align4(json.len() as int);
    let bl = align4(bin.len() as int);
    let total = align4(align4(20 + json.len() as int) + 8 + bin.len() as int);
    glb_magic() + crate::arena::le_bytes(2) + crate::arena::le_bytes(total as u32)
        + crate::arena::le_bytes(jl as u32) + seq![0x4au8, 0x53, 0x4f, 0x4e] + json + filler(jl - json.len(), 0x20)
        + crate::arena::le_bytes(bl as u32) + seq![0x42u8, 0x49, 0x4e, 0x00] + bin + filler(bl - bin.len(), 0)
}

/// Relies on `gltf::Glb::to_vec` (gltf 1.4), which writes the header with the
/// length it computes itself, then the JSON chunk padded with spaces and the
/// binary chunk padded with zeros, each after its padded length and type. It
/// fails only where its writer fails, and a `Vec` does not.
#[verifier::external_body]
fn write_glb(header: &Header, json: &Vec<u8>, bin: &Vec<u8>) -> (r: Option<Vec<u8>>)
    requires
        json@.len() + bin@.len() + 40 <= u32::MAX,
    ensures
        r is Some,
        r matches Some(b) ==> b@ == glb_bytes(json@, bin@),
{
    let glb = gltf::Glb {
        header: gltf::binary::Header { magic: header.magic, version: header.version, length: header.length },
        json: std::borrow::Cow::Borrowed(json.as_slice()),
        bin: Some(std::borrow::Cow::Borrowed(bin.as_slice())),
    };
    glb.to_vec().ok()
}

impl Glb {
    /// The bytes of the container.
    pub fn to_vec(&self) -> (r: Vec<u8>)
        requires
            self.json@.len() + self.bin@.len() + 40 <= u32::MAX,
        ensures
            r@ == glb_bytes(self.json@, self.bin@),
    {
        let written = write_glb(&self.header, &self.json, &self.bin);
        match written {
            Some(b) => b,
            None => {
                assert(written is Some);
                Vec::new()
            },
        }
    }
}

/// The container of an exported scene, whatever JSON text describes it: the
/// buffer is already a multiple of four bytes, so the binary chunk needs no
/// padding, and the header length, the padded JSON length plus the buffer
/// length, is a multiple of four.
pub proof fn lemma_export_container(
    d: DocumentModel,
    a: Seq<u8>,
    level: &LevelGeometry,
    props: Seq<PropPlacement>,
    models: Seq<LoadedModel>,
    json_len: nat,
)
    requires
        scene_built(d, a, level, props, models),
    ensures
        a.len() % 4 == 0,
        container_length(json_len, a.len()) == align4(json_len as int) + a.len(),
        container_length(json_len, a.len()) % 4 == 0,
{
}

} // verus!
