//! The scene document: ordered lists of views, accessors, images, textures,
//! materials, meshes and nodes, each entry referring to earlier entries by
//! index, and the single buffer that the arena backs.
use vstd::prelude::*;
use crate::coords::{Quat, Vec3};

verus! {

/// What a buffer view is bound to when a renderer uploads it.
#[derive(Clone, Copy, Debug, PartialEq, Eq, Structural)]
pub enum ViewTarget {
    ArrayBuffer,
    ElementArrayBuffer,
}

/// A window `[byte_offset, byte_offset + byte_length)` into the arena.
#[derive(Clone, Debug)]
pub struct BufferView {
    pub byte_offset: u64,
    pub byte_length: u64,
    pub byte_stride: Option<u64>,
    pub target: Option<ViewTarget>,
    pub name: Option<String>,
}

/// The type of each component of an element.
#[derive(Clone, Copy, Debug, PartialEq, Eq, Structural)]
pub enum ComponentType {
    /// 32-bit float.
    F32,
    /// 32-bit unsigned integer.
    U32,
}

/// The shape of an element.
#[derive(Clone, Copy, Debug, PartialEq, Eq, Structural)]
pub enum ElementType {
    Scalar,
    Vec2,
    Vec3,
}

/// A typed reading of a buffer view. Position accessors carry the bounds of
/// the positions they describe; other accessors carry none.
#[derive(Clone, Copy, Debug, PartialEq, Eq, Structural)]
pub struct Accessor {
    pub buffer_view: usize,
    pub byte_offset: u64,
    pub count: u64,
    pub component_type: ComponentType,
    pub element_type: ElementType,
    pub min: Option<Vec3>,
    pub max: Option<Vec3>,
}

/// How a material's alpha channel is read.
#[derive(Clone, Copy, Debug, PartialEq, Eq, Structural)]
pub enum AlphaMode {
    Opaque,
    Mask,
    Blend,
}

/// A colour as four channel bytes; a renderer reads each as `byte / 255`.
#[derive(Clone, Copy, Debug, PartialEq, Eq, Structural)]
pub struct Color {
    pub r: u8,
    pub g: u8,
    pub b: u8,
    pub a: u8,
}

/// A physically based material.
#[derive(Clone, Debug)]
pub struct Material {
    pub name: String,
    pub alpha_mode: AlphaMode,
    /// Bit pattern of the alpha cutoff; present in `Mask` mode only.
    pub alpha_cutoff: Option<u32>,
    pub double_sided: bool,
    pub base_color: Color,
    /// Index of the base colour texture.
    pub base_color_texture: Option<usize>,
}

/// An image whose encoded bytes lie in a buffer view.
#[derive(Clone, Debug)]
pub struct Image {
    pub buffer_view: usize,
    pub mime_type: String,
    pub name: String,
}

/// A texture sampling one image.
#[derive(Clone, Debug)]
pub struct Texture {
    pub name: String,
    pub source: usize,
}

/// How a primitive's vertices form faces.
#[derive(Clone, Copy, Debug, PartialEq, Eq, Structural)]
pub enum PrimitiveMode {
    Triangles,
}

/// One drawable unit: vertex attributes, optional indices, optional material.
#[derive(Clone, Copy, Debug, PartialEq, Eq, Structural)]
pub struct Primitive {
    pub position: usize,
    pub tex_coord: usize,
    pub normal: Option<usize>,
    pub indices: Option<usize>,
    pub material: Option<usize>,
    pub mode: PrimitiveMode,
}

/// A mesh: a list of primitives.
#[derive(Clone, Debug)]
pub struct Mesh {
    pub name: Option<String>,
    pub primitives: Vec<Primitive>,
}

/// The rotation of a node.
#[derive(Clone, Copy, Debug, PartialEq, Eq, Structural)]
pub enum Rotation {
    /// A unit quaternion given by its components.
    Quaternion(Quat),
    /// A quarter turn (90 degrees) about the vertical axis.
    QuarterTurnY,
}

/// A node of the scene graph.
#[derive(Clone, Debug)]
pub struct Node {
    pub name: Option<String>,
    pub mesh: Option<usize>,
    pub translation: Option<Vec3>,
    pub rotation: Option<Rotation>,
    pub children: Vec<usize>,
}

/// A scene: the indices of its root nodes.
#[derive(Clone, Debug)]
pub struct Scene {
    pub nodes: Vec<usize>,
}

/// The whole document.
#[derive(Clone, Debug)]
pub struct Document {
    pub accessors: Vec<Accessor>,
    pub buffer_views: Vec<BufferView>,
    pub images: Vec<Image>,
    pub materials: Vec<Material>,
    pub meshes: Vec<Mesh>,
    pub nodes: Vec<Node>,
    pub textures: Vec<Texture>,
    pub scenes: Vec<Scene>,
    /// The byte length of the single buffer, once it is registered.
    pub buffer_length: Option<u64>,
}

/// What a buffer view is, with its name as characters.
pub struct ViewModel {
    pub byte_offset: u64,
    pub byte_length: u64,
    pub byte_stride: Option<u64>,
    pub target: Option<ViewTarget>,
    pub name: Option<Seq<char>>,
}

/// What a material is, with its name as characters.
pub struct MaterialModel {
    pub name: Seq<char>,
    pub alpha_mode: AlphaMode,
    pub alpha_cutoff: Option<u32>,
    pub double_sided: bool,
    pub base_color: Color,
    pub base_color_texture: Option<usize>,
}

/// What an image is.
pub struct ImageModel {
    pub buffer_view: usize,
    pub mime_type: Seq<char>,
    pub name: Seq<char>,
}

/// What a texture is.
pub struct TextureModel {
    pub name: Seq<char>,
    pub source: usize,
}

/// What a mesh is.
pub struct MeshModel {
    pub name: Option<Seq<char>>,
    pub primitives: Seq<Primitive>,
}

/// What a node is.
pub struct NodeModel {
    pub name: Option<Seq<char>>,
    pub mesh: Option<usize>,
    pub translation: Option<Vec3>,
    pub rotation: Option<Rotation>,
    pub children: Seq<usize>,
}

/// What a document is: its lists as sequences of models.
pub struct DocumentModel {
    pub accessors: Seq<Accessor>,
    pub buffer_views: Seq<ViewModel>,
    pub images: Seq<ImageModel>,
    pub materials: Seq<MaterialModel>,
    pub meshes: Seq<MeshModel>,
    pub nodes: Seq<NodeModel>,
    pub textures: Seq<TextureModel>,
    pub scenes: Seq<Seq<usize>>,
    pub buffer_length: Option<u64>,
}

/// The characters of an optional name.
pub open spec fn opt_chars(s: Option<String>) -> Option<Seq<char>> {
    match s {
        Some(n) => Some(n@),
        None => None,
    }
}

impl View for BufferView {
    type V = ViewModel;

    open spec fn view(&self) -> ViewModel {
        ViewModel {
            byte_offset: self.byte_offset,
            byte_length: self.byte_length,
            byte_stride: self.byte_stride,
            target: self.target,
            name: opt_chars(self.name),
        }
    }
}

impl View for Material {
    type V = MaterialModel;

    open spec fn view(&self) -> MaterialModel {
        MaterialModel {
            name: self.name@,
            alpha_mode: self.alpha_mode,
            alpha_cutoff: self.alpha_cutoff,
            double_sided: self.double_sided,
            base_color: self.base_color,
            base_color_texture: self.base_color_texture,
        }
    }
}

impl View for Image {
    type V = ImageModel;

    open spec fn view(&self) -> ImageModel {
        ImageModel { buffer_view: self.buffer_view, mime_type: self.mime_type@, name: self.name@ }
    }
}

impl View for Texture {
    type V = TextureModel;

    open spec fn view(&self) -> TextureModel {
        TextureModel { name: self.name@, source: self.source }
    }
}

impl View for Mesh {
    type V = MeshModel;

    open spec fn view(&self) -> MeshModel {
        MeshModel { name: opt_chars(self.name), primitives: self.primitives@ }
    }
}

impl View for Node {
    type V = NodeModel;

    open spec fn view(&self) -> NodeModel {
        NodeModel {
            name: opt_chars(self.name),
            mesh: self.mesh,
            translation: self.translation,
            rotation: self.rotation,
            children: self.children@,
        }
    }
}

impl View for Document {
    type V = DocumentModel;

    open spec fn view(&self) -> DocumentModel {
        DocumentModel {
            accessors: self.accessors@,
            buffer_views: self.buffer_views@.map_values(|v: BufferView| v@),
            images: self.images@.map_values(|i: Image| i@),
            materials: self.materials@.map_values(|m: Material| m@),
            meshes: self.meshes@.map_values(|m: Mesh| m@),
            nodes: self.nodes@.map_values(|n: Node| n@),
            textures: self.textures@.map_values(|t: Texture| t@),
            scenes: self.scenes@.map_values(|s: Scene| s.nodes@),
            buffer_length: self.buffer_length,
        }
    }
}

/// Components in an element of shape `t`.
pub open spec fn component_count(t: ElementType) -> int {
    match t {
        ElementType::Scalar => 1,
        ElementType::Vec2 => 2,
        ElementType::Vec3 => 3,
    }
}

/// Bytes in one element: both component types are four bytes wide.
pub open spec fn element_size(c: ComponentType, t: ElementType) -> int {
    4 * component_count(t)
}

/// The view lies within the first `len` bytes of the arena.
pub open spec fn view_fits(v: ViewModel, len: nat) -> bool {
    &&& v.byte_offset + v.byte_length <= len
    &&& v.byte_stride matches Some(s) ==> s > 0
}

/// The elements that the accessor reads lie within its view.
pub open spec fn accessor_fits(a: Accessor, views: Seq<ViewModel>) -> bool {
    &&& a.buffer_view < views.len()
    &&& a.byte_offset + a.count * element_size(a.component_type, a.element_type)
        <= views[a.buffer_view as int].byte_length
}

/// The references of a primitive point at existing entries.
pub open spec fn primitive_fits(p: Primitive, n_accessors: int, n_materials: int) -> bool {
    &&& p.position < n_accessors
    &&& p.tex_coord < n_accessors
    &&& p.normal matches Some(i) ==> i < n_accessors
    &&& p.indices matches Some(i) ==> i < n_accessors
    &&& p.material matches Some(i) ==> i < n_materials
}

/// Every primitive of a mesh refers to existing entries.
pub open spec fn primitives_fit(ps: Seq<Primitive>, n_accessors: int, n_materials: int) -> bool {
    forall|k: int| 0 <= k < ps.len() ==> primitive_fits(#[trigger] ps[k], n_accessors, n_materials)
}

/// A node refers to an existing mesh and to existing children.
pub open spec fn node_fits(n: NodeModel, n_meshes: int, n_nodes: int) -> bool {
    &&& n.mesh matches Some(m) ==> m < n_meshes
    &&& forall|k: int| 0 <= k < n.children.len() ==> #[trigger] n.children[k] < n_nodes
}

/// Every index of `s` is below `n`.
pub open spec fn indices_below(s: Seq<usize>, n: int) -> bool {
    forall|k: int| 0 <= k < s.len() ==> #[trigger] s[k] < n
}

/// The names of the materials.
pub open spec fn material_names(ms: Seq<MaterialModel>) -> Seq<Seq<char>> {
    ms.map_values(|m: MaterialModel| m.name)
}

/// The names of the textures.
pub open spec fn texture_names(ts: Seq<TextureModel>) -> Seq<Seq<char>> {
    ts.map_values(|t: TextureModel| t.name)
}

/// The names of the meshes, `None` for an unnamed one.
pub open spec fn mesh_names(ms: Seq<MeshModel>) -> Seq<Option<Seq<char>>> {
    ms.map_values(|m: MeshModel| m.name)
}

/// No name occurs twice.
pub open spec fn names_distinct(s: Seq<Seq<char>>) -> bool {
    forall|i: int, j: int| #![trigger s[i], s[j]] 0 <= i < j < s.len() ==> s[i] != s[j]
}

/// No name occurs twice among the named entries.
pub open spec fn some_names_distinct(s: Seq<Option<Seq<char>>>) -> bool {
    forall|i: int, j: int| #![trigger s[i], s[j]] 0 <= i < j < s.len() && s[i].is_some() ==> s[i] != s[j]
}

impl DocumentModel {
    /// Every reference points at an entry that exists, every view lies within
    /// the first `len` bytes of the arena, every accessor reads within its
    /// view, and materials, textures and named meshes have distinct names.
    pub open spec fn wf(self, len: nat) -> bool {
        &&& forall|i: int| 0 <= i < self.buffer_views.len() ==> view_fits(#[trigger] self.buffer_views[i], len)
        &&& forall|i: int| 0 <= i < self.accessors.len() ==> accessor_fits(#[trigger] self.accessors[i], self.buffer_views)
        &&& forall|i: int| 0 <= i < self.images.len() ==> (#[trigger] self.images[i]).buffer_view < self.buffer_views.len()
        &&& forall|i: int| 0 <= i < self.textures.len() ==> (#[trigger] self.textures[i]).source < self.images.len()
        &&& forall|i: int| 0 <= i < self.materials.len() ==>
            ((#[trigger] self.materials[i]).base_color_texture matches Some(t) ==> t < self.textures.len())
        &&& forall|i: int| 0 <= i < self.meshes.len() ==>
            primitives_fit((#[trigger] self.meshes[i]).primitives, self.accessors.len() as int, self.materials.len() as int)
        &&& forall|i: int| 0 <= i < self.nodes.len() ==>
            node_fits(#[trigger] self.nodes[i], self.meshes.len() as int, self.nodes.len() as int)
        &&& forall|i: int| 0 <= i < self.scenes.len() ==> indices_below(#[trigger] self.scenes[i], self.nodes.len() as int)
        &&& names_distinct(material_names(self.materials))
        &&& names_distinct(texture_names(self.textures))
        &&& some_names_distinct(mesh_names(self.meshes))
        &&& self.buffer_length matches Some(l) ==> l <= len
    }
}

impl Document {
    /// A document with no entries.
    pub fn new() -> (r: Document)
        ensures
            r@.wf(0),
            r@.accessors.len() == 0,
            r@.buffer_views.len() == 0,
            r@.images.len() == 0,
            r@.materials.len() == 0,
            r@.meshes.len() == 0,
            r@.nodes.len() == 0,
            r@.textures.len() == 0,
            r@.scenes.len() == 0,
            r@.buffer_length.is_none(),
    {
        let r = Document {
            accessors: Vec::new(),
            buffer_views: Vec::new(),
            images: Vec::new(),
            materials: Vec::new(),
            meshes: Vec::new(),
            nodes: Vec::new(),
            textures: Vec::new(),
            scenes: Vec::new(),
            buffer_length: None,
        };
        assert(material_names(r@.materials) =~= Seq::empty());
        assert(texture_names(r@.textures) =~= Seq::empty());
        assert(mesh_names(r@.meshes) =~= Seq::empty());
        r
    }

    /// Appends a buffer view and returns its index.
    pub(crate) fn add_view(&mut self, view: BufferView, Ghost(len): Ghost<nat>) -> (r: usize)
        requires
            old(self)@.wf(len),
            view_fits(view@, len),
        ensures
            r == old(self)@.buffer_views.len(),
            final(self)@ == (DocumentModel { buffer_views: old(self)@.buffer_views.push(view@), ..old(self)@ }),
            final(self)@.wf(len),
    {
        let r = self.buffer_views.len();
        self.buffer_views.push(view);
        assert(self@.buffer_views =~= old(self)@.buffer_views.push(view@));
        assert(self@ == (DocumentModel { buffer_views: old(self)@.buffer_views.push(view@), ..old(self)@ }));
        assert forall|i: int| 0 <= i < self@.accessors.len() implies accessor_fits(#[trigger] self@.accessors[i], self@.buffer_views) by {
            assert(accessor_fits(old(self)@.accessors[i], old(self)@.buffer_views));
        }
        r
    }
    /// Appends an accessor and returns its index.
    pub(crate) fn add_accessor(&mut self, a: Accessor, Ghost(len): Ghost<nat>) -> (r: usize)
        requires
            old(self)@.wf(len),
            accessor_fits(a, old(self)@.buffer_views),
        ensures
            r == old(self)@.accessors.len(),
            final(self)@ == (DocumentModel { accessors: old(self)@.accessors.push(a), ..old(self)@ }),
            final(self)@.wf(len),
    {
        let r = self.accessors.len();
        self.accessors.push(a);
        assert(self@ == (DocumentModel { accessors: old(self)@.accessors.push(a), ..old(self)@ }));
        assert forall|i: int| 0 <= i < self@.meshes.len() implies primitives_fit(
            (#[trigger] self@.meshes[i]).primitives,
            self@.accessors.len() as int,
            self@.materials.len() as int,
        ) by {
            let ps = self@.meshes[i].primitives;
            assert(primitives_fit(old(self)@.meshes[i].primitives, old(self)@.accessors.len() as int, old(self)@.materials.len() as int));
            assert forall|k: int| 0 <= k < ps.len() implies primitive_fits(#[trigger] ps[k], self@.accessors.len() as int, self@.materials.len() as int) by {
                assert(primitive_fits(ps[k], old(self)@.accessors.len() as int, old(self)@.materials.len() as int));
            }
        }
        r
    }

    /// Appends an image and returns its index.
    pub(crate) fn add_image(&mut self, image: Image, Ghost(len): Ghost<nat>) -> (r: usize)
        requires
            old(self)@.wf(len),
            image.buffer_view < old(self)@.buffer_views.len(),
        ensures
            r == old(self)@.images.len(),
            final(self)@ == (DocumentModel { images: old(self)@.images.push(image@), ..old(self)@ }),
            final(self)@.wf(len),
    {
        let r = self.images.len();
        self.images.push(image);
        assert(self@.images =~= old(self)@.images.push(image@));
        assert(self@ == (DocumentModel { images: old(self)@.images.push(image@), ..old(self)@ }));
        r
    }

    /// Appends a texture, whose name must be new, and returns its index.
    pub(crate) fn add_texture(&mut self, t: Texture, Ghost(len): Ghost<nat>) -> (r: usize)
        requires
            old(self)@.wf(len),
            t.source < old(self)@.images.len(),
            !texture_names(old(self)@.textures).contains(t.name@),
        ensures
            r == old(self)@.textures.len(),
            final(self)@ == (DocumentModel { textures: old(self)@.textures.push(t@), ..old(self)@ }),
            final(self)@.wf(len),
    {
        let r = self.textures.len();
        self.textures.push(t);
        assert(self@.textures =~= old(self)@.textures.push(t@));
        assert(self@ == (DocumentModel { textures: old(self)@.textures.push(t@), ..old(self)@ }));
        let ghost names = texture_names(self@.textures);
        let ghost before = texture_names(old(self)@.textures);
        assert(names =~= before.push(t@.name));
        assert forall|i: int, j: int| #![trigger names[i], names[j]] 0 <= i < j < names.len() implies names[i] != names[j] by {
            if j == names.len() - 1 {
                assert(before[i] == names[i]);
            }
        }
        r
    }

    /// Appends a material, whose name must be new, and returns its index.
    pub(crate) fn add_material(&mut self, m: Material, Ghost(len): Ghost<nat>) -> (r: usize)
        requires
            old(self)@.wf(len),
            m.base_color_texture matches Some(t) ==> t < old(self)@.textures.len(),
            !material_names(old(self)@.materials).contains(m.name@),
        ensures
            r == old(self)@.materials.len(),
            final(self)@ == (DocumentModel { materials: old(self)@.materials.push(m@), ..old(self)@ }),
            final(self)@.wf(len),
    {
        let r = self.materials.len();
        self.materials.push(m);
        assert(self@.materials =~= old(self)@.materials.push(m@));
        assert(self@ == (DocumentModel { materials: old(self)@.materials.push(m@), ..old(self)@ }));
        let ghost names = material_names(self@.materials);
        let ghost before = material_names(old(self)@.materials);
        assert(names =~= before.push(m@.name));
        assert forall|i: int, j: int| #![trigger names[i], names[j]] 0 <= i < j < names.len() implies names[i] != names[j] by {
            if j == names.len() - 1 {
                assert(before[i] == names[i]);
            }
        }
        assert forall|i: int| 0 <= i < self@.meshes.len() implies primitives_fit(
            (#[trigger] self@.meshes[i]).primitives,
            self@.accessors.len() as int,
            self@.materials.len() as int,
        ) by {
            let ps = self@.meshes[i].primitives;
            assert(primitives_fit(old(self)@.meshes[i].primitives, old(self)@.accessors.len() as int, old(self)@.materials.len() as int));
            assert forall|k: int| 0 <= k < ps.len() implies primitive_fits(#[trigger] ps[k], self@.accessors.len() as int, self@.materials.len() as int) by {
                assert(primitive_fits(ps[k], old(self)@.accessors.len() as int, old(self)@.materials.len() as int));
            }
        }
        r
    }

    /// Appends a mesh, whose name if any must be new, and returns its index.
    pub(crate) fn add_mesh(&mut self, m: Mesh, Ghost(len): Ghost<nat>) -> (r: usize)
        requires
            old(self)@.wf(len),
            primitives_fit(m.primitives@, old(self)@.accessors.len() as int, old(self)@.materials.len() as int),
            m@.name matches Some(n) ==> !mesh_names(old(self)@.meshes).contains(Some(n)),
        ensures
            r == old(self)@.meshes.len(),
            final(self)@ == (DocumentModel { meshes: old(self)@.meshes.push(m@), ..old(self)@ }),
            final(self)@.wf(len),
    {
        let r = self.meshes.len();
        self.meshes.push(m);
        assert(self@.meshes =~= old(self)@.meshes.push(m@));
        assert(self@ == (DocumentModel { meshes: old(self)@.meshes.push(m@), ..old(self)@ }));
        let ghost names = mesh_names(self@.meshes);
        let ghost before = mesh_names(old(self)@.meshes);
        assert(names =~= before.push(m@.name));
        assert forall|i: int, j: int| #![trigger names[i], names[j]] 0 <= i < j < names.len() && names[i].is_some() implies names[i] != names[j] by {
            if j == names.len() - 1 {
                assert(before[i] == names[i]);
            }
        }
        assert forall|i: int| 0 <= i < self@.nodes.len() implies node_fits(#[trigger] self@.nodes[i], self@.meshes.len() as int, self@.nodes.len() as int) by {
            assert(node_fits(old(self)@.nodes[i], old(self)@.meshes.len() as int, old(self)@.nodes.len() as int));
        }
        r
    }

    /// Appends a node and returns its index.
    pub(crate) fn add_node(&mut self, n: Node, Ghost(len): Ghost<nat>) -> (r: usize)
        requires
            old(self)@.wf(len),
            node_fits(n@, old(self)@.meshes.len() as int, old(self)@.nodes.len() as int),
        ensures
            r == old(self)@.nodes.len(),
            final(self)@ == (DocumentModel { nodes: old(self)@.nodes.push(n@), ..old(self)@ }),
            final(self)@.wf(len),
    {
        let r = self.nodes.len();
        self.nodes.push(n);
        assert(self@.nodes =~= old(self)@.nodes.push(n@));
        assert(self@ == (DocumentModel { nodes: old(self)@.nodes.push(n@), ..old(self)@ }));
        assert forall|i: int| 0 <= i < self@.nodes.len() implies node_fits(#[trigger] self@.nodes[i], self@.meshes.len() as int, self@.nodes.len() as int) by {
            if i < old(self)@.nodes.len() {
                assert(node_fits(old(self)@.nodes[i], old(self)@.meshes.len() as int, old(self)@.nodes.len() as int));
            }
        }
        assert forall|i: int| 0 <= i < self@.scenes.len() implies indices_below(#[trigger] self@.scenes[i], self@.nodes.len() as int) by {
            assert(indices_below(old(self)@.scenes[i], old(self)@.nodes.len() as int));
        }
        r
    }

    /// Makes `root` the only root node of the only scene.
    pub(crate) fn set_scene(&mut self, root: usize, Ghost(len): Ghost<nat>)
        requires
            old(self)@.wf(len),
            root < old(self)@.nodes.len(),
        ensures
            final(self)@ == (DocumentModel { scenes: seq![seq![root]], ..old(self)@ }),
            final(self)@.wf(len),
    {
        let mut nodes: Vec<usize> = Vec::new();
        nodes.push(root);
        let mut scenes: Vec<Scene> = Vec::new();
        scenes.push(Scene { nodes });
        self.scenes = scenes;
        assert(self@.scenes =~= seq![seq![root]]);
        assert(self@ == (DocumentModel { scenes: seq![seq![root]], ..old(self)@ }));
        assert(indices_below(self@.scenes[0], self@.nodes.len() as int));
    }

    /// Registers the single buffer with its byte length.
    pub(crate) fn set_buffer_length(&mut self, length: u64, Ghost(len): Ghost<nat>)
        requires
            old(self)@.wf(len),
            length <= len,
        ensures
            final(self)@ == (DocumentModel { buffer_length: Some(length), ..old(self)@ }),
            final(self)@.wf(len),
    {
        self.buffer_length = Some(length);
        assert(self@ == (DocumentModel { buffer_length: Some(length), ..old(self)@ }));
    }
}

/// A document that is well formed over an arena stays so when the arena grows.
pub proof fn lemma_wf_grows(doc: DocumentModel, len: nat, bigger: nat)
    requires
        doc.wf(len),
        len <= bigger,
    ensures
        doc.wf(bigger),
{
}

/// In a well-formed document every accessor reads within its view: its byte
/// offset plus its count times the size of its elements is at most the length
/// of its view, and that view lies within the arena.
pub proof fn lemma_accessors_within_views(d: DocumentModel, len: nat)
    requires
        d.wf(len),
    ensures
        forall|i: int|
            0 <= i < d.accessors.len() ==> {
                let a = #[trigger] d.accessors[i];
                let v = d.buffer_views[a.buffer_view as int];
                &&& a.buffer_view < d.buffer_views.len()
                &&& a.byte_offset + a.count * element_size(a.component_type, a.element_type)
                    <= v.byte_length
                &&& v.byte_offset + v.byte_length <= len
            },
{
    assert forall|i: int| 0 <= i < d.accessors.len() implies {
        let a = #[trigger] d.accessors[i];
        let v = d.buffer_views[a.buffer_view as int];
        &&& a.buffer_view < d.buffer_views.len()
        &&& a.byte_offset + a.count * element_size(a.component_type, a.element_type)
            <= v.byte_length
        &&& v.byte_offset + v.byte_length <= len
    } by {
        let a = d.accessors[i];
        assert(accessor_fits(a, d.buffer_views));
        assert(view_fits(d.buffer_views[a.buffer_view as int], len));
    }
}

} // verus!
