//! Texture images as plain values: decoding them from PNG files and
//! packing them onto an atlas page.
use image::ImageError;
use image_atlas::image::{
    create_atlas, AtlasDescriptor, AtlasEntry, AtlasEntryMipOption, AtlasError,
};
use vstd::prelude::*;

verus! {

#[verifier::external_type_specification]
#[verifier::external_body]
pub struct ExAtlasError(AtlasError);

#[verifier::external_type_specification]
#[verifier::external_body]
pub struct ExImageError(ImageError);

/// An image of `width` by `height` pixels, each four bytes (red, green,
/// blue, alpha), row by row.
#[derive(Debug)]
pub struct RgbaImage {
    pub width: u32,
    pub height: u32,
    pub pixels: Vec<u8>,
}

impl RgbaImage {
    /// The pixel bytes are exactly those of `width` by `height` pixels.
    pub open spec fn wf(&self) -> bool {
        self.pixels@.len() == 4 * (self.width as int) * (self.height as int)
    }

    /// A copy of the image.
    pub fn copy(&self) -> (r: RgbaImage)
        ensures
            r.width == self.width,
            r.height == self.height,
            r.pixels@ == self.pixels@,
    {
        let mut pixels: Vec<u8> = Vec::new();
        let mut i: usize = 0;
        while i < self.pixels.len()
            invariant
                i <= self.pixels@.len(),
                pixels@ == self.pixels@.take(i as int),
            decreases self.pixels@.len() - i,
        {
            pixels.push(self.pixels[i]);
            assert(self.pixels@.take(i + 1) =~= self.pixels@.take(i as int).push(
                self.pixels@[i as int],
            ));
            i = i + 1;
        }
        assert(self.pixels@.take(self.pixels@.len() as int) =~= self.pixels@);
        RgbaImage { width: self.width, height: self.height, pixels }
    }
}

/// Where a texture lies on an atlas page, in pixels: its corners.
#[derive(Clone, Copy, Debug, PartialEq, Eq, Structural)]
pub struct PixelRect {
    pub min_x: u32,
    pub min_y: u32,
    pub max_x: u32,
    pub max_y: u32,
}

/// The image that decoding the PNG file `bytes` gives, as width, height and
/// pixel bytes; `None` when the bytes are no PNG the decoder reads.
pub uninterp spec fn decoded_png(bytes: Seq<u8>) -> Option<(u32, u32, Seq<u8>)>;

/// `image::load_from_memory_with_format` for a PNG, then `to_rgba8`: the
/// decoded image with four bytes per pixel, which is what `decoded_png`
/// names; an error exactly when there is none.
#[verifier::external_body]
fn decode_png(bytes: &[u8]) -> (r: Result<RgbaImage, ImageError>)
    ensures
        r matches Ok(image) ==> image.wf() && decoded_png(bytes@) == Some(
            (image.width, image.height, image.pixels@),
        ),
        r is Err ==> decoded_png(bytes@) is None,
{
    let image = image::load_from_memory_with_format(bytes, image::ImageFormat::Png)?.to_rgba8();
    Ok(RgbaImage { width: image.width(), height: image.height(), pixels: image.into_raw() })
}

/// Decodes the PNG file `bytes` into an image.
pub fn read_texture(bytes: &[u8]) -> (r: Result<RgbaImage, ImageError>)
    ensures
        r matches Ok(image) ==> image.wf() && decoded_png(bytes@) == Some(
            (image.width, image.height, image.pixels@),
        ),
        r is Err ==> decoded_png(bytes@) is None,
{
    decode_png(bytes)
}

/// An image as plain values: width, height and pixel bytes.
pub open spec fn image_value(image: RgbaImage) -> (u32, u32, Seq<u8>) {
    (image.width, image.height, image.pixels@)
}

/// What packing `textures` (as width, height and pixels) on pages of
/// `size` pixels square gives: the place of each texture, in order, and the
/// pixel bytes of each page.
pub uninterp spec fn packed_atlas(size: u32, textures: Seq<(u32, u32, Seq<u8>)>) -> (
    Seq<PixelRect>,
    Seq<Seq<u8>>,
);

/// `image_atlas::image::create_atlas` on `textures`, in order, each clamped
/// at its edges, on square pages of `size` pixels, without padding or mip
/// maps, packed by the offline algorithm (the descriptor's defaults). With
/// these options it always succeeds: its packing always finds room in a
/// fresh page. It gives one place per texture, in the order of `textures`,
/// and the pixel bytes of each page, `size` pixels square, which is what
/// `packed_atlas` names; there is no page exactly when there is no texture.
#[verifier::external_body]
pub(crate) fn pack_textures(size: u32, textures: &Vec<RgbaImage>) -> (r: Result<
    (Vec<PixelRect>, Vec<Vec<u8>>),
    AtlasError,
>)
    requires
        forall|i: int| 0 <= i < textures@.len() ==> (#[trigger] textures@[i]).wf(),
        4 * (size as int) * (size as int) <= usize::MAX,
    ensures
        r is Ok,
        r matches Ok((rects, pages)) ==> {
            &&& (rects@, pages@.map_values(|p: Vec<u8>| p@)) == packed_atlas(
                size,
                textures@.map_values(|t: RgbaImage| image_value(t)),
            )
            &&& rects@.len() == textures@.len()
            &&& (pages@.len() == 0 <==> textures@.len() == 0)
            &&& forall|i: int|
                0 <= i < pages@.len() ==> (#[trigger] pages@[i])@.len() == 4 * (size as int) * (
                size as int)
        },
{
    let entries: Vec<_> = textures.iter().map(|t| AtlasEntry {
        texture: image::RgbaImage::from_raw(t.width, t.height, t.pixels.clone()).unwrap(),
        mip: AtlasEntryMipOption::Clamp,
    }).collect();
    let atlas = create_atlas(&AtlasDescriptor { size, entries: &entries, ..Default::default() })?;
    let rects = atlas.texcoords.iter().map(|t| PixelRect {
        min_x: t.min_x, min_y: t.min_y, max_x: t.max_x, max_y: t.max_y,
    }).collect();
    Ok((rects, atlas.textures.into_iter().map(|mut p| p.mip_maps.remove(0).into_raw()).collect()))
}

} // verus!
