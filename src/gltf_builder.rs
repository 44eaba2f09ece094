//! Materials and textures of the document: lookup by name, so that each is
//! created once, and translation of a material description into a material
//! entry with its texture image packed into the arena.
use vstd::prelude::*;
use crate::arena::{padding, Arena};
use crate::document::{
    lemma_wf_grows, material_names, names_distinct, texture_names, AlphaMode, BufferView, Document,
    DocumentModel, Image, ImageModel, Material, MaterialModel, Texture, TextureModel, ViewModel,
};
use crate::materials::{
    channels, fallback_material, missing_material, MaterialData, MaterialDataModel, TextureData,
    TextureDataModel,
};
use crate::names::{lower_ascii, to_ascii_lowercase};
use image::codecs::png::PngEncoder;
use image::{ExtendedColorType, ImageEncoder};

verus! {

/// The PNG file that the image crate encodes from 8-bit RGB or RGBA pixels.
pub uninterp spec fn png_encoding(pixels: Seq<u8>, width: u32, height: u32, has_alpha: bool) -> Seq<u8>;

/// Relies on `image::codecs::png::PngEncoder::write_image`, which encodes the
/// pixels as a PNG file, the same bytes for the same pixels, and panics unless
/// the buffer holds exactly `width * height` pixels of the colour type. For
/// 8-bit RGB and RGBA it fails only where png's writer does, which is on a
/// zero width or height; writing into a `Vec` does not fail.
#[verifier::external_body]
fn encode_png(pixels: &Vec<u8>, width: u32, height: u32, has_alpha: bool) -> (r: Option<Vec<u8>>)
    requires
        pixels@.len() == width * height * channels(has_alpha),
    ensures
        r matches Some(b) ==> b@ == png_encoding(pixels@, width, height, has_alpha),
        width > 0 && height > 0 ==> r is Some,
{
    let color = if has_alpha { ExtendedColorType::Rgba8 } else { ExtendedColorType::Rgb8 };
    let mut out = Vec::new();
    let written = PngEncoder::new(&mut out).write_image(pixels, width, height, color);
    written.ok().map(|_| out)
}

/// `i` is the first position of `s` that holds `key`.
pub open spec fn is_first(s: Seq<Seq<char>>, key: Seq<char>, i: int) -> bool {
    &&& 0 <= i < s.len()
    &&& s[i] == key
    &&& forall|j: int| 0 <= j < i ==> s[j] != key
}

/// The position at which a lookup by name finds `key` in `s`.
pub open spec fn lookup(s: Seq<Seq<char>>, key: Seq<char>) -> Option<int> {
    if exists|i: int| is_first(s, key, i) {
        Some(choose|i: int| is_first(s, key, i))
    } else {
        None
    }
}

/// The first position that holds `key` is the one lookup finds.
pub proof fn lemma_first_unique(s: Seq<Seq<char>>, key: Seq<char>, i: int)
    requires
        is_first(s, key, i),
    ensures
        lookup(s, key) == Some(i),
{
    let k = choose|k: int| is_first(s, key, k);
    assert(is_first(s, key, k));
    if k < i {
        assert(s[k] != key);
    } else if i < k {
        assert(s[i] != key);
    }
}

/// `r` is the position `l`, or nothing where `l` is nothing.
pub open spec fn found_as(r: Option<usize>, l: Option<int>) -> bool {
    match r {
        Some(i) => l == Some(i as int),
        None => l is None,
    }
}

/// A name that no position holds is not found.
pub proof fn lemma_none_is_lookup(s: Seq<Seq<char>>, key: Seq<char>)
    requires
        forall|j: int| 0 <= j < s.len() ==> s[j] != key,
    ensures
        lookup(s, key) is None,
{
    if exists|i: int| is_first(s, key, i) {
        let i = choose|i: int| is_first(s, key, i);
        assert(s[i] == key);
    }
}

/// The index of the material named `name`.
pub fn get_material_index(materials: &Vec<Material>, name: &String) -> (r: Option<usize>)
    ensures
        found_as(r, lookup(material_names(materials@.map_values(|m: Material| m@)), name@)),
{
    let ghost names = material_names(materials@.map_values(|m: Material| m@));
    let mut i: usize = 0;
    while i < materials.len()
        invariant
            i <= materials@.len(),
            names.len() == materials@.len(),
            names == material_names(materials@.map_values(|m: Material| m@)),
            forall|j: int| 0 <= j < i ==> names[j] != name@,
        decreases materials@.len() - i,
    {
        assert(names[i as int] == materials@[i as int].name@);
        if materials[i].name == *name {
            proof {
                lemma_first_unique(names, name@, i as int);
            }
            return Some(i);
        }
        i = i + 1;
    }
    proof {
        lemma_none_is_lookup(names, name@);
    }
    None
}

/// The index of the texture named `name`.
pub fn get_texture_index(textures: &Vec<Texture>, name: &String) -> (r: Option<usize>)
    ensures
        found_as(r, lookup(texture_names(textures@.map_values(|t: Texture| t@)), name@)),
{
    let ghost names = texture_names(textures@.map_values(|t: Texture| t@));
    let mut i: usize = 0;
    while i < textures.len()
        invariant
            i <= textures@.len(),
            names.len() == textures@.len(),
            names == texture_names(textures@.map_values(|t: Texture| t@)),
            forall|j: int| 0 <= j < i ==> names[j] != name@,
        decreases textures@.len() - i,
    {
        assert(names[i as int] == textures@[i as int].name@);
        if textures[i].name == *name {
            proof {
                lemma_first_unique(names, name@, i as int);
            }
            return Some(i);
        }
        i = i + 1;
    }
    proof {
        lemma_none_is_lookup(names, name@);
    }
    None
}

/// In a list of distinct names, the one found is the one that is there.
pub proof fn lemma_lookup_distinct(s: Seq<Seq<char>>, key: Seq<char>)
    requires
        names_distinct(s),
    ensures
        s.contains(key) <==> lookup(s, key) is Some,
        lookup(s, key) matches Some(i) ==> 0 <= i < s.len() && s[i] == key,
{
    if s.contains(key) {
        let i = choose|i: int| 0 <= i < s.len() && s[i] == key;
        assert(is_first(s, key, i));
        lemma_first_unique(s, key, i);
    }
    if lookup(s, key) is Some {
        let i = choose|i: int| is_first(s, key, i);
        assert(s[i] == key);
    }
}

/// The document and arena after the texture `t` has been packed: the PNG file
/// is appended and padded, and a view, an image and a texture, all named
/// after `t` folded to lower case, are added.
pub open spec fn texture_added(d0: DocumentModel, a0: Seq<u8>, t: TextureDataModel, d1: DocumentModel, a1: Seq<u8>) -> bool {
    let png = png_encoding(t.image.pixels, t.image.width, t.image.height, t.image.has_alpha);
    &&& a1 == a0 + png + padding(a0.len() + png.len() as int)
    &&& d1 == (DocumentModel {
        buffer_views: d0.buffer_views.push(
            ViewModel {
                byte_offset: a0.len() as u64,
                byte_length: png.len() as u64,
                byte_stride: None,
                target: None,
                name: Some(lower_ascii(t.name)),
            },
        ),
        images: d0.images.push(
            ImageModel {
                buffer_view: d0.buffer_views.len() as usize,
                mime_type: "image/png"@,
                name: lower_ascii(t.name),
            },
        ),
        textures: d0.textures.push(TextureModel { name: lower_ascii(t.name), source: d0.images.len() as usize }),
        ..d0
    })
}

/// What resolving the texture `t` does: a texture of its name folded to lower
/// case is reused and nothing changes; otherwise it is packed as a new
/// texture, or, where the image is empty and cannot be encoded, no texture
/// results and nothing changes.
pub open spec fn texture_step(
    d0: DocumentModel,
    a0: Seq<u8>,
    t: TextureDataModel,
    d1: DocumentModel,
    a1: Seq<u8>,
    r: Option<usize>,
) -> bool {
    match lookup(texture_names(d0.textures), lower_ascii(t.name)) {
        Some(i) => d1 == d0 && a1 == a0 && r is Some && r->0 == i,
        None => match r {
            None => d1 == d0 && a1 == a0 && (t.image.width == 0 || t.image.height == 0),
            Some(i) => i == d0.textures.len() && texture_added(d0, a0, t, d1, a1),
        },
    }
}

/// Packs the image of `texture` into the arena as a PNG file and adds its view
/// and image, named after the texture folded to lower case; returns the
/// texture entry that refers to them. An image with pixels is always packed;
/// an empty one cannot be encoded and gives `None`, with nothing changed.
pub fn push_texture(arena: &mut Arena, doc: &mut Document, texture: &TextureData) -> (r: Option<Texture>)
    requires
        old(doc)@.wf(old(arena)@.len()),
        texture@.image.wf(),
    ensures
        final(doc)@.wf(final(arena)@.len()),
        texture@.image.width > 0 && texture@.image.height > 0 ==> r is Some,
        match r {
            None => final(doc)@ == old(doc)@ && final(arena)@ == old(arena)@,
            Some(t) => t@ == (TextureModel { name: lower_ascii(texture@.name), source: old(doc)@.images.len() as usize })
                && texture_added(
                old(doc)@,
                old(arena)@,
                texture@,
                (DocumentModel { textures: old(doc)@.textures.push(t@), ..final(doc)@ }),
                final(arena)@,
            ) && final(doc)@.textures == old(doc)@.textures,
        },
{
    let image = &texture.image;
    let png = match encode_png(&image.pixels, image.width, image.height, image.has_alpha) {
        Some(b) => b,
        None => {
            return None;
        },
    };
    let key = to_ascii_lowercase(texture.name.as_str());
    let ghost a0 = arena@;
    let buffer_start = arena.append(&png);
    let byte_length = png.len() as u64;
    arena.pad_to_four();
    let ghost len = arena@.len();
    proof {
        lemma_wf_grows(old(doc)@, a0.len(), len);
    }
    let view = BufferView {
        byte_offset: buffer_start,
        byte_length,
        byte_stride: None,
        target: None,
        name: Some(key.clone()),
    };
    let view_index = doc.add_view(view, Ghost(len));
    let image_entry = Image {
        buffer_view: view_index,
        mime_type: String::from_str("image/png"),
        name: key.clone(),
    };
    let image_index = doc.add_image(image_entry, Ghost(len));
    let t = Texture { name: key, source: image_index };
    assert(doc@.textures =~= old(doc)@.textures);
    Some(t)
}

/// Finds the texture named after `texture` folded to lower case, or packs it
/// as a new one; `None` only where it is new and its image is empty.
pub fn push_or_get_texture(arena: &mut Arena, doc: &mut Document, texture: &TextureData) -> (r: Option<usize>)
    requires
        old(doc)@.wf(old(arena)@.len()),
        texture@.image.wf(),
    ensures
        final(doc)@.wf(final(arena)@.len()),
        texture_step(old(doc)@, old(arena)@, texture@, final(doc)@, final(arena)@, r),
        texture@.image.width > 0 && texture@.image.height > 0 ==> r is Some,
{
    let key = to_ascii_lowercase(texture.name.as_str());
    match get_texture_index(&doc.textures, &key) {
        Some(i) => Some(i),
        None => {
            proof {
                lemma_lookup_distinct(texture_names(doc@.textures), key@);
            }
            match push_texture(arena, doc, texture) {
                Some(t) => {
                    let ghost len = arena@.len();
                    let i = doc.add_texture(t, Ghost(len));
                    Some(i)
                },
                None => None,
            }
        },
    }
}

/// How a material description sets the alpha mode: blended when translucent,
/// masked when it has an alpha-test cutoff, else opaque.
pub open spec fn alpha_mode_of(m: MaterialDataModel) -> AlphaMode {
    if m.translucent {
        AlphaMode::Blend
    } else if m.alpha_test is Some {
        AlphaMode::Mask
    } else {
        AlphaMode::Opaque
    }
}

/// The material entry for description `m` with base colour texture `texture`:
/// the cutoff is kept in mask mode only, double-sidedness comes from the
/// culling flag, and the colour bytes are kept.
pub open spec fn material_entry(m: MaterialDataModel, texture: Option<usize>) -> MaterialModel {
    MaterialModel {
        name: m.name,
        alpha_mode: alpha_mode_of(m),
        alpha_cutoff: if alpha_mode_of(m) == AlphaMode::Mask {
            m.alpha_test
        } else {
            None
        },
        double_sided: m.no_cull,
        base_color: m.color,
        base_color_texture: texture,
    }
}

/// What translating description `m` does: with textures enabled and a texture
/// in `m`, the texture is resolved; the entry refers to what that gave.
pub open spec fn material_translated(
    d0: DocumentModel,
    a0: Seq<u8>,
    m: MaterialDataModel,
    textures: bool,
    d1: DocumentModel,
    a1: Seq<u8>,
    r: MaterialModel,
) -> bool {
    &&& r == material_entry(m, r.base_color_texture)
    &&& if textures && m.texture is Some {
        texture_step(d0, a0, m.texture->0, d1, a1, r.base_color_texture)
    } else {
        d1 == d0 && a1 == a0 && r.base_color_texture is None
    }
}

/// Translates a material description into a material entry, resolving its
/// texture first where textures are enabled.
pub fn push_material(arena: &mut Arena, doc: &mut Document, material: &MaterialData, textures: bool) -> (r: Material)
    requires
        old(doc)@.wf(old(arena)@.len()),
        material@.wf(),
    ensures
        final(doc)@.wf(final(arena)@.len()),
        material_translated(old(doc)@, old(arena)@, material@, textures, final(doc)@, final(arena)@, r@),
        r.base_color_texture matches Some(t) ==> t < final(doc)@.textures.len(),
{
    let texture_index = if textures {
        match &material.texture {
            Some(t) => push_or_get_texture(arena, doc, t),
            None => None,
        }
    } else {
        None
    };
    proof {
        if let Some(i) = texture_index {
            if let Some(j) = lookup(texture_names(old(doc)@.textures), material@.texture->0.name) {
                lemma_lookup_distinct(texture_names(old(doc)@.textures), material@.texture->0.name);
            }
        }
    }
    let alpha_mode = if material.translucent {
        AlphaMode::Blend
    } else if material.alpha_test.is_some() {
        AlphaMode::Mask
    } else {
        AlphaMode::Opaque
    };
    let alpha_cutoff = match alpha_mode {
        AlphaMode::Mask => material.alpha_test,
        _ => None,
    };
    Material {
        name: material.name.clone(),
        alpha_mode,
        alpha_cutoff,
        double_sided: material.no_cull,
        base_color: material.color,
        base_color_texture: texture_index,
    }
}

/// The names of the descriptions of a material library.
pub open spec fn library_names(lib: Seq<MaterialDataModel>) -> Seq<Seq<char>> {
    lib.map_values(|m: MaterialDataModel| m.name)
}

/// The models of the descriptions of a material library.
pub open spec fn library_models(lib: Seq<MaterialData>) -> Seq<MaterialDataModel> {
    lib.map_values(|m: MaterialData| m@)
}

/// The description that the library holds under `key`, or the stand-in for a
/// material that could not be loaded.
pub open spec fn resolved_material(lib: Seq<MaterialDataModel>, key: Seq<char>) -> MaterialDataModel {
    match lookup(library_names(lib), key) {
        Some(i) => lib[i],
        None => fallback_material(key),
    }
}

/// What resolving the material `key` does: a material of that name is reused
/// and nothing changes; otherwise the description under `key` (or the
/// stand-in) is translated and appended.
#[verifier::opaque]
pub open spec fn material_resolved(
    d0: DocumentModel,
    a0: Seq<u8>,
    lib: Seq<MaterialDataModel>,
    key: Seq<char>,
    textures: bool,
    d1: DocumentModel,
    a1: Seq<u8>,
    r: usize,
) -> bool {
    match lookup(material_names(d0.materials), key) {
        Some(i) => r == i && d1 == d0 && a1 == a0,
        None => {
            &&& r == d0.materials.len()
            &&& d1.materials == d0.materials.push(d1.materials[r as int])
            &&& material_translated(
                d0,
                a0,
                resolved_material(lib, key),
                textures,
                DocumentModel { materials: d0.materials, ..d1 },
                a1,
                d1.materials[r as int],
            )
        },
    }
}

/// The position of the description named `key` in the library.
fn find_library_material(library: &Vec<MaterialData>, key: &String) -> (r: Option<usize>)
    ensures
        found_as(r, lookup(library_names(library_models(library@)), key@)),
{
    let ghost names = library_names(library_models(library@));
    let mut i: usize = 0;
    while i < library.len()
        invariant
            i <= library@.len(),
            names.len() == library@.len(),
            names == library_names(library_models(library@)),
            forall|j: int| 0 <= j < i ==> names[j] != key@,
        decreases library@.len() - i,
    {
        assert(names[i as int] == library@[i as int].name@);
        if library[i].name == *key {
            proof {
                lemma_first_unique(names, key@, i as int);
            }
            return Some(i);
        }
        i = i + 1;
    }
    proof {
        lemma_none_is_lookup(names, key@);
    }
    None
}

/// Every description in the library is well formed.
pub open spec fn library_wf(lib: Seq<MaterialDataModel>) -> bool {
    forall|i: int| 0 <= i < lib.len() ==> (#[trigger] lib[i]).wf()
}

/// Finds the material named `name` folded to lower case, or creates it from
/// the library's description under that name, or from the stand-in where the
/// library has none; returns its index.
pub fn push_or_get_material(
    arena: &mut Arena,
    doc: &mut Document,
    library: &Vec<MaterialData>,
    name: &str,
    textures: bool,
) -> (r: usize)
    requires
        old(doc)@.wf(old(arena)@.len()),
        library_wf(library_models(library@)),
    ensures
        final(doc)@.wf(final(arena)@.len()),
        r < final(doc)@.materials.len(),
        extends(old(doc)@, old(arena)@, final(doc)@, final(arena)@),
        final(doc)@.accessors == old(doc)@.accessors,
        final(doc)@.meshes == old(doc)@.meshes,
        final(doc)@.nodes == old(doc)@.nodes,
        final(doc)@.materials[r as int].name == lower_ascii(name@),
        material_resolved(
            old(doc)@,
            old(arena)@,
            library_models(library@),
            lower_ascii(name@),
            textures,
            final(doc)@,
            final(arena)@,
            r,
        ),
{
    reveal(material_resolved);
    let ghost d0 = doc@;
    let ghost a0 = arena@;
    let key = to_ascii_lowercase(name);
    let r = match get_material_index(&doc.materials, &key) {
        Some(i) => {
            proof {
                lemma_lookup_distinct(material_names(doc@.materials), key@);
            }
            i
        },
        None => {
            proof {
                lemma_lookup_distinct(material_names(doc@.materials), key@);
            }
            let ghost lib = library_models(library@);
            let library_len = library.len();
            let material = match find_library_material(library, &key) {
                Some(j) => {
                    proof {
                        lemma_lookup_distinct_any(library_names(lib), key@);
                        assert(lookup(library_names(lib), key@) == Some(j as int));
                        assert(lib[j as int] == library@[j as int]@);
                        assert(library_names(lib)[j as int] == lib[j as int].name);
                        assert(lib[j as int].wf());
                    }
                    let m = push_material(arena, doc, &library[j], textures);
                    assert(resolved_material(lib, key@) == library@[j as int]@);
                    assert(m@.name == key@);
                    m
                },
                None => {
                    let fallback = missing_material(key.as_str());
                    let m = push_material(arena, doc, &fallback, textures);
                    assert(resolved_material(lib, key@) == fallback@);
                    assert(m@.name == key@);
                    m
                },
            };
            let ghost d_mid = doc@;
            let ghost len = arena@.len();
            assert(material@.name == key@);
            assert(material_names(d_mid.materials) == material_names(d0.materials));
            let i = doc.add_material(material, Ghost(len));
            assert(DocumentModel { materials: d0.materials, ..doc@ } == d_mid);
            i
        },
    };
    proof {
        lemma_material_resolved_extends(d0, a0, library_models(library@), key@, textures, doc@, arena@, r);
    }
    r
}

/// A name found by lookup is at its position.
pub proof fn lemma_lookup_distinct_any(s: Seq<Seq<char>>, key: Seq<char>)
    ensures
        lookup(s, key) matches Some(i) ==> 0 <= i < s.len() && s[i] == key,
{
    if lookup(s, key) is Some {
        let i = choose|i: int| is_first(s, key, i);
        assert(s[i] == key);
    }
}

/// `a` is a prefix of `b`.
pub open spec fn is_prefix<T>(a: Seq<T>, b: Seq<T>) -> bool {
    a.len() <= b.len() && b.subrange(0, a.len() as int) == a
}

/// `d1` and `a1` only add to `d0` and `a0`: every list of entries and the
/// arena keep what they held.
pub open spec fn extends(d0: DocumentModel, a0: Seq<u8>, d1: DocumentModel, a1: Seq<u8>) -> bool {
    &&& is_prefix(a0, a1)
    &&& is_prefix(d0.accessors, d1.accessors)
    &&& is_prefix(d0.buffer_views, d1.buffer_views)
    &&& is_prefix(d0.images, d1.images)
    &&& is_prefix(d0.materials, d1.materials)
    &&& is_prefix(d0.meshes, d1.meshes)
    &&& is_prefix(d0.nodes, d1.nodes)
    &&& is_prefix(d0.textures, d1.textures)
}

/// Adding is transitive.
pub proof fn lemma_extends_trans(
    d0: DocumentModel,
    a0: Seq<u8>,
    d1: DocumentModel,
    a1: Seq<u8>,
    d2: DocumentModel,
    a2: Seq<u8>,
)
    requires
        extends(d0, a0, d1, a1),
        extends(d1, a1, d2, a2),
    ensures
        extends(d0, a0, d2, a2),
{
    lemma_prefix_trans(a0, a1, a2);
    lemma_prefix_trans(d0.accessors, d1.accessors, d2.accessors);
    lemma_prefix_trans(d0.buffer_views, d1.buffer_views, d2.buffer_views);
    lemma_prefix_trans(d0.images, d1.images, d2.images);
    lemma_prefix_trans(d0.materials, d1.materials, d2.materials);
    lemma_prefix_trans(d0.meshes, d1.meshes, d2.meshes);
    lemma_prefix_trans(d0.nodes, d1.nodes, d2.nodes);
    lemma_prefix_trans(d0.textures, d1.textures, d2.textures);
}

pub proof fn lemma_prefix_trans<T>(a: Seq<T>, b: Seq<T>, c: Seq<T>)
    requires
        is_prefix(a, b),
        is_prefix(b, c),
    ensures
        is_prefix(a, c),
{
    assert(c.subrange(0, a.len() as int) =~= b.subrange(0, a.len() as int));
}

pub proof fn lemma_prefix_refl<T>(a: Seq<T>)
    ensures
        is_prefix(a, a),
{
    assert(a.subrange(0, a.len() as int) =~= a);
}

pub proof fn lemma_prefix_push<T>(a: Seq<T>, x: T)
    ensures
        is_prefix(a, a.push(x)),
{
    assert(a.push(x).subrange(0, a.len() as int) =~= a);
}

pub proof fn lemma_prefix_add<T>(a: Seq<T>, b: Seq<T>)
    ensures
        is_prefix(a, a + b),
{
    assert((a + b).subrange(0, a.len() as int) =~= a);
}

/// Nothing changed is an extension.
pub proof fn lemma_extends_refl(d: DocumentModel, a: Seq<u8>)
    ensures
        extends(d, a, d, a),
{
    lemma_prefix_refl(a);
    lemma_prefix_refl(d.accessors);
    lemma_prefix_refl(d.buffer_views);
    lemma_prefix_refl(d.images);
    lemma_prefix_refl(d.materials);
    lemma_prefix_refl(d.meshes);
    lemma_prefix_refl(d.nodes);
    lemma_prefix_refl(d.textures);
}

/// Resolving a texture only adds.
pub proof fn lemma_texture_step_extends(
    d0: DocumentModel,
    a0: Seq<u8>,
    t: TextureDataModel,
    d1: DocumentModel,
    a1: Seq<u8>,
    r: Option<usize>,
)
    requires
        texture_step(d0, a0, t, d1, a1, r),
    ensures
        extends(d0, a0, d1, a1),
        d1.accessors == d0.accessors,
        d1.meshes == d0.meshes,
        d1.nodes == d0.nodes,
{
    lemma_extends_refl(d0, a0);
    if lookup(texture_names(d0.textures), lower_ascii(t.name)) is None && r is Some {
        let png = png_encoding(t.image.pixels, t.image.width, t.image.height, t.image.has_alpha);
        lemma_prefix_add(a0, png + padding(a0.len() + png.len() as int));
        assert(a0 + png + padding(a0.len() + png.len() as int) =~= a0 + (png + padding(a0.len() + png.len() as int)));
        lemma_prefix_push(d0.buffer_views, d1.buffer_views.last());
        assert(d1.buffer_views =~= d0.buffer_views.push(d1.buffer_views.last()));
        lemma_prefix_push(d0.images, d1.images.last());
        assert(d1.images =~= d0.images.push(d1.images.last()));
        lemma_prefix_push(d0.textures, d1.textures.last());
        assert(d1.textures =~= d0.textures.push(d1.textures.last()));
    }
}

/// Resolving a material only adds.
pub proof fn lemma_material_resolved_extends(
    d0: DocumentModel,
    a0: Seq<u8>,
    lib: Seq<MaterialDataModel>,
    key: Seq<char>,
    textures: bool,
    d1: DocumentModel,
    a1: Seq<u8>,
    r: usize,
)
    requires
        material_resolved(d0, a0, lib, key, textures, d1, a1, r),
    ensures
        extends(d0, a0, d1, a1),
        d1.accessors == d0.accessors,
        d1.meshes == d0.meshes,
        d1.nodes == d0.nodes,
        0 <= r < d1.materials.len(),
        d1.materials[r as int].name == key,
{
    reveal(material_resolved);
    lemma_extends_refl(d0, a0);
    if lookup(material_names(d0.materials), key) is None {
        let mid = DocumentModel { materials: d0.materials, ..d1 };
        let m = resolved_material(lib, key);
        if textures && m.texture is Some {
            lemma_texture_step_extends(d0, a0, m.texture->0, mid, a1, d1.materials[r as int].base_color_texture);
        }
        lemma_prefix_push(d0.materials, d1.materials[r as int]);
        let i = lookup(library_names(lib), key);
        if i is Some {
            lemma_lookup_distinct_any(library_names(lib), key);
            assert(library_names(lib)[i->0] == lib[i->0].name);
        }
    } else {
        lemma_lookup_distinct_any(material_names(d0.materials), key);
        assert(material_names(d0.materials)[r as int] == d0.materials[r as int].name);
    }
}

/// Resolving the same material name twice gives the same index, and the
/// second resolution changes neither document nor arena: the description is
/// translated, and its texture packed, only once.
pub proof fn lemma_material_resolved_twice(
    d0: DocumentModel,
    a0: Seq<u8>,
    lib: Seq<MaterialDataModel>,
    key: Seq<char>,
    textures: bool,
    d1: DocumentModel,
    a1: Seq<u8>,
    r1: usize,
    d2: DocumentModel,
    a2: Seq<u8>,
    r2: usize,
)
    requires
        material_resolved(d0, a0, lib, key, textures, d1, a1, r1),
        d1.wf(a1.len()),
        material_resolved(d1, a1, lib, key, textures, d2, a2, r2),
    ensures
        r2 == r1,
        d2 == d1,
        a2 == a1,
{
    lemma_material_resolved_extends(d0, a0, lib, key, textures, d1, a1, r1);
    let names = material_names(d1.materials);
    assert(names[r1 as int] == key);
    lemma_lookup_distinct(names, key);
    assert(is_first(names, key, r1 as int)) by {
        assert forall|j: int| 0 <= j < r1 implies names[j] != key by {
            assert(names[j] != names[r1 as int]);
        }
    }
    lemma_first_unique(names, key, r1 as int);
    reveal(material_resolved);
}

/// Resolving two textures whose names agree when folded to lower case, the
/// first with pixels, gives the same index, and the second changes neither
/// document nor arena: the image is packed only once.
pub proof fn lemma_texture_step_twice(
    d0: DocumentModel,
    a0: Seq<u8>,
    t1: TextureDataModel,
    d1: DocumentModel,
    a1: Seq<u8>,
    r1: Option<usize>,
    t2: TextureDataModel,
    d2: DocumentModel,
    a2: Seq<u8>,
    r2: Option<usize>,
)
    requires
        texture_step(d0, a0, t1, d1, a1, r1),
        t1.image.width > 0 && t1.image.height > 0,
        d1.wf(a1.len()),
        lower_ascii(t1.name) == lower_ascii(t2.name),
        texture_step(d1, a1, t2, d2, a2, r2),
    ensures
        r1 is Some,
        r2 == r1,
        d2 == d1,
        a2 == a1,
{
    let key = lower_ascii(t1.name);
    let tnames = texture_names(d1.textures);
    let i = r1->0 as int;
    if lookup(texture_names(d0.textures), key) is Some {
        lemma_lookup_distinct_any(texture_names(d0.textures), key);
        assert(texture_names(d0.textures)[i] == tnames[i]);
    } else {
        assert(tnames[i] == d1.textures[i].name);
    }
    assert(tnames[i] == key);
    assert(is_first(tnames, key, i)) by {
        assert forall|j: int| 0 <= j < i implies tnames[j] != key by {
            assert(tnames[j] != tnames[i]);
        }
    }
    lemma_first_unique(tnames, key, i);
}

} // verus!
