//! Textures: what egui asks for, and what Skia has to do for it.
use vstd::prelude::*;

use crate::geometry::Color32;
use crate::seqs::{lemma_flat_map_empty, lemma_flat_map_last};

verus! {

/// Which texture a mesh is painted with.
#[derive(Clone, Copy, Debug, PartialEq, Eq, Hash, Structural)]
pub enum TextureId {
    /// A texture that egui allocated. The first of them is the font atlas.
    Managed(u64),
    /// A texture that the application registered itself.
    User(u64),
}

impl TextureId {
    /// Is this the font atlas?
    pub open spec fn font(self) -> bool {
        self == TextureId::Managed(0)
    }
}

impl Default for TextureId {
    /// The font atlas.
    fn default() -> (r: Self)
        ensures
            r.font(),
    {
        TextureId::Managed(0)
    }
}

/// How texels are filtered, as egui states it.
#[derive(Clone, Copy, Debug, PartialEq, Eq, Structural)]
pub enum TextureFilter {
    Nearest,
    Linear,
}

/// The filters that egui asks for.
#[derive(Clone, Copy, Debug, PartialEq, Eq, Structural)]
pub struct TextureOptions {
    /// The filter where a texel is larger than a pixel.
    pub magnification: TextureFilter,
    /// The filter where a texel is smaller than a pixel.
    pub minification: TextureFilter,
}

/// How Skia filters within one level of an image.
#[derive(Clone, Copy, Debug, PartialEq, Eq, Structural)]
pub enum FilterMode {
    Nearest,
    Linear,
}

/// How Skia filters between the levels of an image.
#[derive(Clone, Copy, Debug, PartialEq, Eq, Structural)]
pub enum MipmapMode {
    Disabled,
    Nearest,
    Linear,
}

/// How Skia samples an image.
#[derive(Clone, Copy, Debug, PartialEq, Eq, Structural)]
pub struct SamplingOptions {
    pub filter: FilterMode,
    pub mipmap: MipmapMode,
}

impl SamplingOptions {
    /// The sampling for a texture with these options. With the workaround for raster surfaces it
    /// is always the plainest one.
    pub open spec fn spec_for(cpu_fix: bool, options: TextureOptions) -> SamplingOptions {
        if cpu_fix {
            SamplingOptions { filter: FilterMode::Nearest, mipmap: MipmapMode::Disabled }
        } else {
            SamplingOptions {
                filter: match options.magnification {
                    TextureFilter::Nearest => FilterMode::Nearest,
                    TextureFilter::Linear => FilterMode::Linear,
                },
                mipmap: match options.minification {
                    TextureFilter::Nearest => MipmapMode::Nearest,
                    TextureFilter::Linear => MipmapMode::Linear,
                },
            }
        }
    }

    /// Chooses the sampling for a texture.
    pub fn for_texture(cpu_fix: bool, options: TextureOptions) -> (r: SamplingOptions)
        ensures
            r == Self::spec_for(cpu_fix, options),
    {
        if cpu_fix {
            return SamplingOptions { filter: FilterMode::Nearest, mipmap: MipmapMode::Disabled };
        }
        let filter = match options.magnification {
            TextureFilter::Nearest => FilterMode::Nearest,
            TextureFilter::Linear => FilterMode::Linear,
        };
        let mipmap = match options.minification {
            TextureFilter::Nearest => MipmapMode::Nearest,
            TextureFilter::Linear => MipmapMode::Linear,
        };
        SamplingOptions { filter, mipmap }
    }
}

/// What a texture holds.
#[derive(Clone, Copy, Debug, PartialEq, Eq, Structural)]
pub enum PaintType {
    Image,
    Font,
}

impl PaintType {
    /// The font atlas holds glyphs; everything else is an image.
    pub open spec fn spec_of(id: TextureId) -> PaintType {
        if id.font() {
            PaintType::Font
        } else {
            PaintType::Image
        }
    }

    /// What the texture with this id holds.
    pub fn of(id: TextureId) -> (r: PaintType)
        ensures
            r == Self::spec_of(id),
    {
        if id == TextureId::default() {
            PaintType::Font
        } else {
            PaintType::Image
        }
    }
}

/// A color image in memory, row by row from top to bottom.
#[derive(Debug, PartialEq, Eq)]
pub struct ColorImage {
    /// Width and height in texels.
    pub size: [usize; 2],
    pub pixels: Vec<Color32>,
}

/// A change of one texture.
#[derive(Debug, PartialEq, Eq)]
pub struct ImageDelta {
    /// The whole texture, or the patch that replaces a part of it.
    pub image: ColorImage,
    pub options: TextureOptions,
    /// Where the patch goes; nothing if the image is the whole texture.
    pub pos: Option<[usize; 2]>,
}

/// The sides of an image are shorter than this: Skia holds them in 29 bits.
pub const SIDE_LIMIT: i32 = 0x2000_0000;

/// Is this the size of an image that Skia can make?
pub open spec fn valid_size(width: i32, height: i32) -> bool {
    &&& 0 < width < SIDE_LIMIT
    &&& 0 < height < SIDE_LIMIT
}

impl ImageDelta {
    /// Does Skia make an image of this?
    ///
    /// It does if both sides, as Skia is given them, are valid and there are texels for every
    /// row. A row starts `size[0]` texels after the one above it, and the last row needs only the
    /// texels of its own width.
    pub open spec fn uploadable(self) -> bool {
        let width = self.image.size[0] as i32;
        let height = self.image.size[1] as i32;
        &&& valid_size(width, height)
        &&& (height - 1) * self.image.size[0] + width <= self.image.pixels@.len()
    }

    /// Checks whether Skia makes an image of this.
    pub fn check_uploadable(&self) -> (r: bool)
        ensures
            r == self.uploadable(),
    {
        let width: i32 = self.image.size[0] as i32;
        let height: i32 = self.image.size[1] as i32;
        if width <= 0 || height <= 0 || width >= SIDE_LIMIT || height >= SIDE_LIMIT {
            return false;
        }
        let rows: u128 = (height - 1) as u128;
        let row: u128 = self.image.size[0] as u128;
        assert(0 <= rows * row <= 0x2000_0000 * 0xffff_ffff_ffff_ffff) by (nonlinear_arith)
            requires
                rows <= 0x2000_0000,
                row <= 0xffff_ffff_ffff_ffff,
        ;
        rows * row + width as u128 <= self.image.pixels.len() as u128
    }

    /// Do the sizes that Skia is given fit their types?
    ///
    /// A row of four-byte texels has to fit `usize`, and the far corner of a patch has to fit
    /// `i32`.
    pub open spec fn fits(self) -> bool {
        &&& self.image.size[0] * 4 <= usize::MAX
        &&& self.pos matches Some(pos) ==> {
            &&& i32::MIN <= (pos[0] as i32) + (self.image.size[0] as i32) <= i32::MAX
            &&& i32::MIN <= (pos[1] as i32) + (self.image.size[1] as i32) <= i32::MAX
        }
    }

    /// Checks whether the sizes that Skia is given fit their types.
    pub fn check_fits(&self) -> (r: bool)
        ensures
            r == self.fits(),
    {
        if self.image.size[0].checked_mul(4).is_none() {
            return false;
        }
        match &self.pos {
            None => true,
            Some(pos) => {
                let right = (pos[0] as i32).checked_add(self.image.size[0] as i32);
                let bottom = (pos[1] as i32).checked_add(self.image.size[1] as i32);
                right.is_some() && bottom.is_some()
            },
        }
    }
}

/// What changed of the textures in a frame.
#[derive(Debug, PartialEq, Eq)]
pub struct TexturesDelta {
    /// Textures to create or change before anything is painted, in this order.
    pub set: Vec<(TextureId, ImageDelta)>,
    /// Textures to free after everything is painted.
    pub free: Vec<TextureId>,
}

/// What is known of a texture that has been set.
#[derive(Clone, Copy, Debug, PartialEq, Eq, Structural)]
pub struct PaintHandle {
    /// Width of its image in texels.
    pub width: i32,
    /// Height of its image in texels.
    pub height: i32,
    pub paint_type: PaintType,
    pub sampling: SamplingOptions,
}

/// A raster image to create: premultiplied, four bytes for each texel.
#[derive(Debug, PartialEq, Eq)]
pub struct Upload {
    pub width: i32,
    pub height: i32,
    /// The distance between two rows, in bytes.
    pub row_bytes: usize,
    /// The texels row by row, each as red, green, blue, alpha.
    pub bytes: Vec<u8>,
}

/// How an uploaded image replaces a part of a texture.
///
/// A fresh transparent surface of the size of the old image receives the old image at its corner.
/// Within the clip rectangle it is then cleared to transparent, and the uploaded image is drawn at
/// the rectangle's left top corner. The surface's contents are the new image.
#[derive(Clone, Copy, Debug, PartialEq, Eq, Structural)]
pub struct Patch {
    pub surface_width: i32,
    pub surface_height: i32,
    pub left: usize,
    pub top: usize,
    pub right: i32,
    pub bottom: i32,
}

/// Everything that has to be done to set a texture.
///
/// The image is uploaded, and patched into the texture's old image where there is a patch. The
/// outcome, whose size and sampling the handle holds, becomes a shader that clamps in both
/// directions and maps the unit square to the image; the texture's paint is white with that shader.
#[derive(Debug, PartialEq, Eq)]
pub struct TextureUpdate {
    pub id: TextureId,
    pub upload: Upload,
    pub patch: Option<Patch>,
    pub handle: PaintHandle,
}

/// The value of a [`TextureUpdate`].
pub struct TextureUpdateView {
    pub id: TextureId,
    pub width: i32,
    pub height: i32,
    pub row_bytes: usize,
    pub bytes: Seq<u8>,
    pub patch: Option<Patch>,
    pub handle: PaintHandle,
}

impl View for TextureUpdate {
    type V = TextureUpdateView;

    open spec fn view(&self) -> TextureUpdateView {
        TextureUpdateView {
            id: self.id,
            width: self.upload.width,
            height: self.upload.height,
            row_bytes: self.upload.row_bytes,
            bytes: self.upload.bytes@,
            patch: self.patch,
            handle: self.handle,
        }
    }
}

impl TextureUpdateView {
    /// Can Skia make the images that this asks for?
    pub open spec fn valid(self) -> bool {
        &&& valid_size(self.width, self.height)
        &&& self.width * 4 <= self.row_bytes
        &&& (self.height - 1) * self.row_bytes + self.width * 4 <= self.bytes.len()
        &&& self.patch matches Some(patch) ==> valid_size(
            patch.surface_width,
            patch.surface_height,
        )
        &&& valid_size(self.handle.width, self.handle.height)
    }
}

/// The four bytes of a texel.
pub open spec fn texel_bytes() -> spec_fn(Color32) -> Seq<u8> {
    |c: Color32| c.channels()
}

/// The texels of an image are laid out without gaps, four bytes each: red, green, blue, alpha.
pub proof fn law_texel_layout(pixels: Seq<Color32>)
    ensures
        pixels.flat_map(texel_bytes()).len() == 4 * pixels.len(),
        forall|i: int|
            #![trigger pixels[i]]
            0 <= i < pixels.len() ==> {
                &&& pixels.flat_map(texel_bytes())[4 * i] == pixels[i].r
                &&& pixels.flat_map(texel_bytes())[4 * i + 1] == pixels[i].g
                &&& pixels.flat_map(texel_bytes())[4 * i + 2] == pixels[i].b
                &&& pixels.flat_map(texel_bytes())[4 * i + 3] == pixels[i].a
            },
    decreases pixels.len(),
{
    if pixels.len() == 0 {
        lemma_flat_map_empty(pixels, texel_bytes());
    } else {
        let init = pixels.drop_last();
        law_texel_layout(init);
        lemma_flat_map_last(pixels, texel_bytes());
        assert forall|i: int| #![trigger pixels[i]] 0 <= i < pixels.len() implies {
            &&& pixels.flat_map(texel_bytes())[4 * i] == pixels[i].r
            &&& pixels.flat_map(texel_bytes())[4 * i + 1] == pixels[i].g
            &&& pixels.flat_map(texel_bytes())[4 * i + 2] == pixels[i].b
            &&& pixels.flat_map(texel_bytes())[4 * i + 3] == pixels[i].a
        } by {
            if i < init.len() {
                assert(init[i] == pixels[i]);
            }
        }
    }
}

/// The handle of a texture after a change. A patch keeps the size that the texture had.
pub open spec fn handle_after(
    old_handle: Option<PaintHandle>,
    cpu_fix: bool,
    id: TextureId,
    delta: ImageDelta,
) -> PaintHandle {
    PaintHandle {
        width: match delta.pos {
            None => delta.image.size[0] as i32,
            Some(_) => old_handle->0.width,
        },
        height: match delta.pos {
            None => delta.image.size[1] as i32,
            Some(_) => old_handle->0.height,
        },
        paint_type: PaintType::spec_of(id),
        sampling: SamplingOptions::spec_for(cpu_fix, delta.options),
    }
}

/// The patch that a change makes: it covers the changed part of the texture and nothing else.
pub open spec fn patch_of(old_handle: Option<PaintHandle>, delta: ImageDelta) -> Option<Patch> {
    match delta.pos {
        None => None,
        Some(pos) => Some(
            Patch {
                surface_width: old_handle->0.width,
                surface_height: old_handle->0.height,
                left: pos[0],
                top: pos[1],
                right: ((pos[0] as i32) + (delta.image.size[0] as i32)) as i32,
                bottom: ((pos[1] as i32) + (delta.image.size[1] as i32)) as i32,
            },
        ),
    }
}

/// What has to be done for a change of a texture.
pub open spec fn update_of(
    old_handle: Option<PaintHandle>,
    cpu_fix: bool,
    id: TextureId,
    delta: ImageDelta,
) -> TextureUpdateView {
    TextureUpdateView {
        id,
        width: delta.image.size[0] as i32,
        height: delta.image.size[1] as i32,
        row_bytes: (delta.image.size[0] * 4) as usize,
        bytes: delta.image.pixels@.flat_map(texel_bytes()),
        patch: patch_of(old_handle, delta),
        handle: handle_after(old_handle, cpu_fix, id, delta),
    }
}

/// A change that Skia makes an image of can be carried out, if what it patches has a valid size.
pub(crate) proof fn lemma_update_valid(
    old_handle: Option<PaintHandle>,
    cpu_fix: bool,
    id: TextureId,
    delta: ImageDelta,
)
    requires
        delta.fits(),
        delta.uploadable(),
        delta.pos is Some ==> (old_handle matches Some(handle) && valid_size(
            handle.width,
            handle.height,
        )),
    ensures
        update_of(old_handle, cpu_fix, id, delta).valid(),
{
    let size = delta.image.size[0];
    let width = size as i32;
    let rows = delta.image.size[1] as i32 - 1;
    law_texel_layout(delta.image.pixels@);
    assert(width > 0 ==> width <= size) by (bit_vector)
        requires
            width == size as i32,
    ;
    assert(rows * (size * 4) == 4 * (rows * size)) by (nonlinear_arith);
}

/// Where the sides of an image fit `i32`, Skia makes an image of it if and only if both sides are
/// valid and there is a texel for each place.
pub proof fn law_uploadable_images(delta: ImageDelta)
    requires
        delta.image.size[0] <= i32::MAX,
        delta.image.size[1] <= i32::MAX,
    ensures
        delta.uploadable() <==> {
            &&& 0 < delta.image.size[0] < SIDE_LIMIT
            &&& 0 < delta.image.size[1] < SIDE_LIMIT
            &&& delta.image.size[0] * delta.image.size[1] <= delta.image.pixels@.len()
        },
{
    let width = delta.image.size[0] as int;
    let height = delta.image.size[1] as int;
    assert((height - 1) * width + width == width * height) by (nonlinear_arith);
}

/// What a size is for Skia, which takes the low thirty-two bits of it with a sign.
proof fn lemma_side(size: usize)
    ensures
        size as int % 0x1_0000_0000 < 0x8000_0000 ==> size as i32 == size as int % 0x1_0000_0000,
        size as int % 0x1_0000_0000 >= 0x8000_0000 ==> size as i32 == size as int % 0x1_0000_0000
            - 0x1_0000_0000,
{
    let wide = size as u64;
    assert(size as i32 == wide as i32) by (bit_vector)
        requires
            wide == size as u64,
    ;
    assert(wide % 0x1_0000_0000 < 0x8000_0000 ==> wide as i32 == wide % 0x1_0000_0000)
        by (bit_vector);
    assert(wide % 0x1_0000_0000 >= 0x8000_0000 ==> wide as i32 == wide % 0x1_0000_0000
        - 0x1_0000_0000) by (bit_vector);
}

/// Of whatever size an image says it is: Skia makes an image of it if and only if both sides, cut
/// to thirty-two bits, are from one to 2 to the power of 29 minus one, and the texels reach to the
/// end of the last row.
pub proof fn law_uploadable_sides(delta: ImageDelta)
    ensures
        ({
            let width = delta.image.size[0] as int % 0x1_0000_0000;
            let height = delta.image.size[1] as int % 0x1_0000_0000;
            delta.uploadable() <==> {
                &&& 1 <= width <= 0x1fff_ffff
                &&& 1 <= height <= 0x1fff_ffff
                &&& (height - 1) * delta.image.size[0] + width <= delta.image.pixels@.len()
            }
        }),
{
    lemma_side(delta.image.size[0]);
    lemma_side(delta.image.size[1]);
}

/// Where sizes and places fit `i32`, the sizes fit if and only if a row does and the far corner of
/// a patch does.
pub proof fn law_fitting_sizes(delta: ImageDelta)
    requires
        delta.image.size[0] <= i32::MAX,
        delta.image.size[1] <= i32::MAX,
        delta.pos matches Some(pos) ==> pos[0] <= i32::MAX && pos[1] <= i32::MAX,
    ensures
        delta.fits() <==> {
            &&& 4 * delta.image.size[0] <= usize::MAX
            &&& delta.pos matches Some(pos) ==> pos[0] + delta.image.size[0] <= 0x7fff_ffff
                && pos[1] + delta.image.size[1] <= 0x7fff_ffff
        },
{
}

/// Whatever the sizes and places are, the sizes fit if and only if a row does and, in the numbers
/// that Skia is given, the far corner of a patch does.
pub proof fn law_fitting_corners(delta: ImageDelta)
    ensures
        delta.pos is None ==> (delta.fits() <==> 4 * delta.image.size[0] <= usize::MAX),
        delta.pos matches Some(pos) ==> (delta.fits() <==> {
            let right = pos[0] as i32 + delta.image.size[0] as i32;
            let bottom = pos[1] as i32 + delta.image.size[1] as i32;
            &&& 4 * delta.image.size[0] <= usize::MAX
            &&& -0x8000_0000 <= right <= 0x7fff_ffff
            &&& -0x8000_0000 <= bottom <= 0x7fff_ffff
        }),
{
}

/// The font atlas is the first texture that egui manages, and no other.
pub proof fn law_one_font_atlas(id: TextureId)
    ensures
        id.font() <==> (id matches TextureId::Managed(n) && n == 0),
        PaintType::spec_of(id) is Font <==> (id matches TextureId::Managed(n) && n == 0),
        PaintType::spec_of(id) is Font || PaintType::spec_of(id) is Image,
{
}

/// Without the workaround, magnification decides how one level is filtered and minification how
/// levels are, each by the filter of the same name. With it, nothing is filtered.
pub proof fn law_sampling_follows_options(cpu_fix: bool, options: TextureOptions)
    ensures
        ({
            let sampling = SamplingOptions::spec_for(cpu_fix, options);
            &&& sampling.filter is Linear <==> !cpu_fix && options.magnification is Linear
            &&& sampling.mipmap is Linear <==> !cpu_fix && options.minification is Linear
            &&& sampling.mipmap is Nearest <==> !cpu_fix && options.minification is Nearest
            &&& sampling.mipmap is Disabled <==> cpu_fix
        }),
{
}

/// What is planned for a change is about the texture that the change names, and uploads the
/// change's own texels, each once and in their order, whether the image is a whole texture or a
/// patch: red, green, blue and alpha of a texel stand at four times its number.
pub proof fn law_update_uploads_texels(
    old_handle: Option<PaintHandle>,
    cpu_fix: bool,
    id: TextureId,
    delta: ImageDelta,
)
    requires
        delta.fits(),
    ensures
        ({
            let update = update_of(old_handle, cpu_fix, id, delta);
            let pixels = delta.image.pixels@;
            &&& update.id == id
            &&& update.width == delta.image.size[0] as i32
            &&& update.height == delta.image.size[1] as i32
            &&& update.row_bytes == 4 * delta.image.size[0]
            &&& update.bytes.len() == 4 * pixels.len()
            &&& forall|i: int|
                #![trigger pixels[i]]
                0 <= i < pixels.len() ==> {
                    &&& update.bytes[4 * i] == pixels[i].r
                    &&& update.bytes[4 * i + 1] == pixels[i].g
                    &&& update.bytes[4 * i + 2] == pixels[i].b
                    &&& update.bytes[4 * i + 3] == pixels[i].a
                }
        }),
{
    law_texel_layout(delta.image.pixels@);
}

/// A change with a place patches, and one without does not. A patch goes where the change says, is
/// as large as the image that the change brings, and keeps the size of the texture; a whole image
/// gives the texture its own size. Either way the options of the change decide the sampling.
pub proof fn law_update_patches_in_place(
    old_handle: Option<PaintHandle>,
    cpu_fix: bool,
    id: TextureId,
    delta: ImageDelta,
)
    requires
        delta.fits(),
        delta.pos is Some ==> old_handle is Some,
    ensures
        ({
            let update = update_of(old_handle, cpu_fix, id, delta);
            &&& update.patch is Some <==> delta.pos is Some
            &&& (update.patch, delta.pos, old_handle) matches (
                Some(patch),
                Some(pos),
                Some(old_size),
            ) ==> {
                &&& patch.left == pos[0]
                &&& patch.top == pos[1]
                &&& patch.right == pos[0] as i32 + delta.image.size[0] as i32
                &&& patch.bottom == pos[1] as i32 + delta.image.size[1] as i32
                &&& patch.surface_width == old_size.width
                &&& patch.surface_height == old_size.height
                &&& update.handle.width == old_size.width
                &&& update.handle.height == old_size.height
            }
            &&& delta.pos is None ==> {
                &&& update.handle.width == delta.image.size[0] as i32
                &&& update.handle.height == delta.image.size[1] as i32
            }
            &&& update.handle.paint_type is Font <==> id == TextureId::Managed(0)
            &&& update.handle.sampling.filter is Linear <==> !cpu_fix
                && delta.options.magnification is Linear
            &&& update.handle.sampling.mipmap is Linear <==> !cpu_fix
                && delta.options.minification is Linear
            &&& update.handle.sampling.mipmap is Disabled <==> cpu_fix
            &&& update.handle == handle_after(old_handle, cpu_fix, id, delta)
        }),
{
}

/// The value of an update is made of its own fields.
pub proof fn law_update_view(update: TextureUpdate)
    ensures
        update@.id == update.id,
        update@.width == update.upload.width,
        update@.height == update.upload.height,
        update@.row_bytes == update.upload.row_bytes,
        update@.bytes == update.upload.bytes@,
        update@.patch == update.patch,
        update@.handle == update.handle,
{
}

/// Lays the texels of an image out as bytes.
fn texels(pixels: &Vec<Color32>) -> (bytes: Vec<u8>)
    ensures
        bytes@ == pixels@.flat_map(texel_bytes()),
{
    let mut bytes: Vec<u8> = Vec::new();
    for i in 0..pixels.len()
        invariant
            bytes@ == pixels@.take(i as int).flat_map(texel_bytes()),
    {
        let c = pixels[i];
        bytes.push(c.r);
        bytes.push(c.g);
        bytes.push(c.b);
        bytes.push(c.a);
        proof {
            pixels@.lemma_flat_map_take_append(texel_bytes(), i as int);
        }
    }
    assert(pixels@.take(pixels.len() as int) =~= pixels@);
    bytes
}

impl TextureUpdate {
    /// Works out what has to be done for a change of a texture.
    pub fn plan(
        old_handle: Option<PaintHandle>,
        cpu_fix: bool,
        id: TextureId,
        delta: &ImageDelta,
    ) -> (update: TextureUpdate)
        requires
            delta.fits(),
            delta.pos is Some ==> old_handle is Some,
        ensures
            update@ == update_of(old_handle, cpu_fix, id, *delta),
            update.id == id,
            update.upload.width == delta.image.size[0] as i32,
            update.upload.height == delta.image.size[1] as i32,
            update.upload.row_bytes == 4 * delta.image.size[0],
            update.upload.bytes@.len() == 4 * delta.image.pixels@.len(),
            forall|i: int|
                #![trigger delta.image.pixels@[i]]
                0 <= i < delta.image.pixels@.len() ==> {
                    &&& update.upload.bytes@[4 * i] == delta.image.pixels@[i].r
                    &&& update.upload.bytes@[4 * i + 1] == delta.image.pixels@[i].g
                    &&& update.upload.bytes@[4 * i + 2] == delta.image.pixels@[i].b
                    &&& update.upload.bytes@[4 * i + 3] == delta.image.pixels@[i].a
                },
            update.patch is Some <==> delta.pos is Some,
            (update.patch, delta.pos) matches (Some(patch), Some(pos)) ==> patch.left == pos[0]
                && patch.top == pos[1],
    {
        proof {
            law_texel_layout(delta.image.pixels@);
        }
        let width: i32 = delta.image.size[0] as i32;
        let height: i32 = delta.image.size[1] as i32;
        let upload = Upload {
            width,
            height,
            row_bytes: delta.image.size[0] * 4,
            bytes: texels(&delta.image.pixels),
        };
        let paint_type = PaintType::of(id);
        let sampling = SamplingOptions::for_texture(cpu_fix, delta.options);
        match (&delta.pos, old_handle) {
            (Some(pos), Some(old_handle)) => {
                let patch = Patch {
                    surface_width: old_handle.width,
                    surface_height: old_handle.height,
                    left: pos[0],
                    top: pos[1],
                    right: pos[0] as i32 + width,
                    bottom: pos[1] as i32 + height,
                };
                let handle = PaintHandle {
                    width: old_handle.width,
                    height: old_handle.height,
                    paint_type,
                    sampling,
                };
                TextureUpdate { id, upload, patch: Some(patch), handle }
            },
            _ => {
                let handle = PaintHandle { width, height, paint_type, sampling };
                TextureUpdate { id, upload, patch: None, handle }
            },
        }
    }
}

} // verus!
