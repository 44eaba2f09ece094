//! Material descriptions as loaded from the game's files, the fallback for a
//! material that cannot be loaded, and the paths under which materials and
//! textures are looked up.
use vstd::prelude::*;
use crate::document::Color;
use crate::error::Error;
use crate::names::{lower_ascii, to_ascii_lowercase, trim_end_matches, trim_leading, trim_start_matches, trim_trailing};

verus! {

/// A decoded image with 8-bit channels, RGB or RGBA, rows top to bottom.
#[derive(Debug)]
pub struct RasterImage {
    pub width: u32,
    pub height: u32,
    pub has_alpha: bool,
    pub pixels: Vec<u8>,
}

/// What a raster image is.
pub struct RasterModel {
    pub width: u32,
    pub height: u32,
    pub has_alpha: bool,
    pub pixels: Seq<u8>,
}

/// Channels per pixel.
pub open spec fn channels(has_alpha: bool) -> int {
    if has_alpha {
        4
    } else {
        3
    }
}

impl View for RasterImage {
    type V = RasterModel;

    open spec fn view(&self) -> RasterModel {
        RasterModel { width: self.width, height: self.height, has_alpha: self.has_alpha, pixels: self.pixels@ }
    }
}

impl RasterModel {
    /// The pixel bytes are exactly `width * height` pixels.
    pub open spec fn wf(self) -> bool {
        self.pixels.len() == self.width * self.height * channels(self.has_alpha)
    }
}

/// A named texture and its image.
#[derive(Debug)]
pub struct TextureData {
    pub name: String,
    pub image: RasterImage,
}

/// What a texture description is.
pub struct TextureDataModel {
    pub name: Seq<char>,
    pub image: RasterModel,
}

impl View for TextureData {
    type V = TextureDataModel;

    open spec fn view(&self) -> TextureDataModel {
        TextureDataModel { name: self.name@, image: self.image@ }
    }
}

/// A resolved material description.
#[derive(Debug)]
pub struct MaterialData {
    pub name: String,
    pub path: String,
    pub color: Color,
    pub texture: Option<TextureData>,
    /// Bit pattern of the alpha-test cutoff.
    pub alpha_test: Option<u32>,
    pub translucent: bool,
    pub no_cull: bool,
}

/// What a material description is.
pub struct MaterialDataModel {
    pub name: Seq<char>,
    pub path: Seq<char>,
    pub color: Color,
    pub texture: Option<TextureDataModel>,
    pub alpha_test: Option<u32>,
    pub translucent: bool,
    pub no_cull: bool,
}

impl View for MaterialData {
    type V = MaterialDataModel;

    open spec fn view(&self) -> MaterialDataModel {
        MaterialDataModel {
            name: self.name@,
            path: self.path@,
            color: self.color,
            texture: match self.texture {
                Some(t) => Some(t@),
                None => None,
            },
            alpha_test: self.alpha_test,
            translucent: self.translucent,
            no_cull: self.no_cull,
        }
    }
}

impl MaterialDataModel {
    /// Its texture image, if any, is well formed.
    pub open spec fn wf(self) -> bool {
        self.texture matches Some(t) ==> t.image.wf()
    }
}

/// Opaque magenta, the colour of a material that could not be loaded.
pub open spec fn missing_color() -> Color {
    Color { r: 255, g: 0, b: 255, a: 255 }
}

/// The stand-in for a material named `name` that could not be loaded.
pub open spec fn fallback_material(name: Seq<char>) -> MaterialDataModel {
    MaterialDataModel {
        name,
        path: Seq::empty(),
        color: missing_color(),
        texture: None,
        alpha_test: None,
        translucent: false,
        no_cull: false,
    }
}

/// The stand-in for a material named `name` that could not be loaded.
pub fn missing_material(name: &str) -> (r: MaterialData)
    ensures
        r@ == fallback_material(name@),
        r@.wf(),
{
    MaterialData {
        name: String::from_str(name),
        path: String::new(),
        color: Color { r: 255, g: 0, b: 255, a: 255 },
        texture: None,
        alpha_test: None,
        translucent: false,
        no_cull: false,
    }
}

/// The loaded material, or the stand-in named `name` where loading failed.
pub fn load_material_fallback(name: &str, loaded: Result<MaterialData, Error>) -> (r: MaterialData)
    ensures
        loaded matches Ok(m) ==> r@ == m@,
        loaded is Err ==> r@ == fallback_material(name@),
{
    match loaded {
        Ok(m) => m,
        Err(_) => missing_material(name),
    }
}

/// What a parsed material file says, as far as a scene needs it.
#[derive(Debug)]
pub struct MaterialProperties {
    /// A water material without a base texture.
    pub water_without_texture: bool,
    pub base_texture: Option<String>,
    pub translucent: bool,
    pub surface_prop: Option<String>,
    /// Bit pattern of the alpha-test cutoff.
    pub alpha_test: Option<u32>,
    pub no_cull: bool,
}

/// The colour of untextured water.
pub open spec fn water_color() -> Color {
    Color { r: 82, g: 180, b: 217, a: 128 }
}

/// The surface property of glass, which makes a material translucent.
pub open spec fn is_glass(surface_prop: Option<String>) -> bool {
    surface_prop matches Some(s) && s@ == "glass"@
}

/// Builds the description of the material `name`, found at `path`, from what
/// its file says and from its base texture, which the caller has loaded where
/// the file names one (`None` where it did not load it). Untextured water is
/// translucent blue; otherwise a material without a base texture, or whose base
/// texture failed to load, is an error.
pub fn material_data(
    name: &str,
    path: &str,
    props: MaterialProperties,
    texture: Option<Result<RasterImage, Error>>,
) -> (r: Result<MaterialData, Error>)
    ensures
        props.water_without_texture ==> (match r {
            Ok(m) => m@ == (MaterialDataModel {
                name: name@,
                path: path@,
                color: water_color(),
                texture: None,
                alpha_test: None,
                translucent: true,
                no_cull: false,
            }),
            Err(_) => false,
        }),
        !props.water_without_texture ==> (match props.base_texture {
            None => (match r {
                Err(Error::Other(m)) => m@ == "no basetexture"@,
                _ => false,
            }),
            Some(base) => (match texture {
                None => (match r {
                    Err(Error::ResourceNotFound(n)) => n@ == base@,
                    _ => false,
                }),
                Some(Err(e)) => r == Err::<MaterialData, Error>(e),
                Some(Ok(img)) => (match r {
                    Ok(m) => m@ == (MaterialDataModel {
                        name: name@,
                        path: path@,
                        color: Color { r: 255, g: 255, b: 255, a: 255 },
                        texture: Some(TextureDataModel { name: base@, image: img@ }),
                        alpha_test: props.alpha_test,
                        translucent: props.translucent || is_glass(props.surface_prop),
                        no_cull: props.no_cull,
                    }),
                    Err(_) => false,
                }),
            }),
        }),
{
    if props.water_without_texture {
        return Ok(
            MaterialData {
                name: String::from_str(name),
                path: String::from_str(path),
                color: Color { r: 82, g: 180, b: 217, a: 128 },
                texture: None,
                alpha_test: None,
                translucent: true,
                no_cull: false,
            },
        );
    }
    let glass = match &props.surface_prop {
        Some(s) => {
            let g = String::from_str("glass");
            *s == g
        },
        None => false,
    };
    let base = match props.base_texture {
        Some(b) => b,
        None => {
            return Err(Error::Other(String::from_str("no basetexture")));
        },
    };
    match texture {
        None => Err(Error::ResourceNotFound(base)),
        Some(Err(e)) => Err(e),
        Some(Ok(image)) => Ok(
            MaterialData {
                name: String::from_str(name),
                path: String::from_str(path),
                color: Color { r: 255, g: 255, b: 255, a: 255 },
                texture: Some(TextureData { name: base, image }),
                alpha_test: props.alpha_test,
                translucent: props.translucent || glass,
                no_cull: props.no_cull,
            },
        ),
    }
}

/// The file name, relative to the materials directory, of material `name`
/// in directory `dir`: both folded to lower case, the directory without
/// leading slashes, the name without trailing `.vmt`, then `.vmt`.
pub open spec fn spec_material_file_name(dir: Seq<char>, name: Seq<char>) -> Seq<char> {
    trim_leading(lower_ascii(dir), '/') + trim_trailing(lower_ascii(name), ".vmt"@) + ".vmt"@
}

/// The file name, relative to the materials directory, of material `name`
/// in directory `dir`.
pub fn material_file_name(dir: &str, name: &str) -> (r: String)
    ensures
        r@ == spec_material_file_name(dir@, name@),
{
    let d = trim_start_matches(to_ascii_lowercase(dir).as_str(), '/');
    proof {
        reveal_strlit(".vmt");
    }
    let n = trim_end_matches(to_ascii_lowercase(name).as_str(), ".vmt");
    let mut r = d;
    r.append(n.as_str());
    r.append(".vmt");
    r
}

/// The path under which the resolver finds a file of the materials
/// directory.
pub fn material_lookup_path(file_name: &str) -> (r: String)
    ensures
        r@ == "materials/"@ + file_name@,
{
    let mut r = String::from_str("materials/");
    r.append(file_name);
    r
}

/// The directory searched for materials that a search path names: folded to
/// lower case, without leading slashes, under the materials directory.
pub fn material_search_dir(dir: &str) -> (r: String)
    ensures
        r@ == "materials/"@ + trim_leading(lower_ascii(dir@), '/'),
{
    let d = trim_start_matches(to_ascii_lowercase(dir).as_str(), '/');
    material_lookup_path(d.as_str())
}

/// The path of the texture `name`: under the materials directory, without
/// trailing `.vtf` or leading slashes, then `.vtf`. Case is kept.
pub fn texture_file_path(name: &str) -> (r: String)
    ensures
        r@ == "materials/"@ + trim_leading(trim_trailing(name@, ".vtf"@), '/') + ".vtf"@,
{
    proof {
        reveal_strlit(".vtf");
    }
    let t = trim_end_matches(name, ".vtf");
    let t = trim_start_matches(t.as_str(), '/');
    let mut r = material_lookup_path(t.as_str());
    r.append(".vtf");
    r
}

/// The pixel formats that a decoded texture may come in.
#[derive(Clone, Copy, Debug, PartialEq, Eq, Structural)]
pub enum PixelLayout {
    L8,
    La8,
    Rgb8,
    Rgba8,
    L16,
    La16,
    Rgb16,
    Rgba16,
    Rgb32F,
    Rgba32F,
}

/// The layout has an alpha channel.
pub open spec fn layout_has_alpha(l: PixelLayout) -> bool {
    match l {
        PixelLayout::La8 | PixelLayout::Rgba8 | PixelLayout::La16 | PixelLayout::Rgba16
        | PixelLayout::Rgba32F => true,
        _ => false,
    }
}

/// The 8-bit layout that a texture is stored in: RGB and RGBA with 8-bit
/// channels stay; any other becomes RGBA where it has alpha, RGB where not.
pub fn normalized_layout(l: PixelLayout) -> (r: PixelLayout)
    ensures
        r == (if l == PixelLayout::Rgb8 || l == PixelLayout::Rgba8 {
            l
        } else if layout_has_alpha(l) {
            PixelLayout::Rgba8
        } else {
            PixelLayout::Rgb8
        }),
{
    match l {
        PixelLayout::Rgb8 | PixelLayout::Rgba8 => l,
        PixelLayout::La8 | PixelLayout::La16 | PixelLayout::Rgba16 | PixelLayout::Rgba32F => PixelLayout::Rgba8,
        _ => PixelLayout::Rgb8,
    }
}

} // verus!
