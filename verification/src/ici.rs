//! A tileset as stored on disk: a palette, a tile size, and named
//! pixel-index buffers, converted into in-memory indexed images. The
//! image type itself comes from the `ici_files` crate and is treated
//! as an opaque handle; what the logic reads of it goes through
//! trusted wrappers.

use vstd::prelude::*;
use std::rc::Rc;
use crate::error::GameUtilError;
use crate::tileset::{str_eq, Tileset};
use ici_files::color::Color;
use ici_files::errors::IndexedImageError;
use ici_files::image::IndexedImage;

verus! {

#[verifier::external_type_specification]
#[verifier::external_body]
pub struct ExIndexedImage(IndexedImage);

#[verifier::external_type_specification]
#[verifier::external_body]
pub struct ExColor(Color);

#[verifier::external_type_specification]
#[verifier::external_body]
pub struct ExIndexedImageError(IndexedImageError);

/// One color of a tileset palette, as plain channel values.
#[derive(Debug, Clone, Copy, PartialEq, Eq, Structural)]
pub struct Rgba {
    pub r: u8,
    pub g: u8,
    pub b: u8,
    pub a: u8,
}

/// Why a pixel buffer could not become an image.
#[derive(Debug, Clone, Copy, PartialEq, Eq, Structural)]
pub enum ImageError {
    WidthZero,
    HeightZero,
    PaletteEmpty,
    /// Pixel count found, then pixel count expected.
    WrongPixelCount(usize, usize),
}

/// The palette an image was built with, as plain channel values.
pub uninterp spec fn img_palette(img: IndexedImage) -> Seq<Rgba>;

/// The pixel-index buffer an image was built with.
pub uninterp spec fn img_pixels(img: IndexedImage) -> Seq<u8>;

/// The error `build_image` reports for the given shape.
pub open spec fn spec_image_error(
    width: u8,
    height: u8,
    palette_len: nat,
    pixel_count: nat,
) -> ImageError {
    if width == 0 {
        ImageError::WidthZero
    } else if height == 0 {
        ImageError::HeightZero
    } else if palette_len == 0 {
        ImageError::PaletteEmpty
    } else {
        ImageError::WrongPixelCount(pixel_count as usize, (width * height) as usize)
    }
}

/// Relies on `IndexedImage::new`: it succeeds exactly when the
/// dimensions are nonzero, the palette is nonempty and the buffer
/// holds one pixel per cell, and the image then keeps the palette and
/// pixels it was given.
#[verifier::external_body]
fn build_image(width: u8, height: u8, palette: &Vec<Rgba>, pixels: Vec<u8>) -> (r: Result<
    IndexedImage,
    ImageError,
>)
    ensures
        r is Ok <==> (width > 0 && height > 0 && palette@.len() > 0 && pixels@.len() == width
            * height),
        r matches Ok(img) ==> img_palette(img) == palette@ && img_pixels(img) == pixels@,
        r matches Err(e) ==> e == spec_image_error(width, height, palette@.len(), pixels@.len()),
{
    let pal: Vec<Color> = palette.iter().map(|c| Color::new(c.r, c.g, c.b, c.a)).collect();
    match IndexedImage::new(width, height, pal, pixels) {
        Ok(img) => Ok(img),
        Err(IndexedImageError::WidthIsZero) => Err(ImageError::WidthZero),
        Err(IndexedImageError::HeightIsZero) => Err(ImageError::HeightZero),
        Err(IndexedImageError::PaletteIsEmpty) => Err(ImageError::PaletteEmpty),
        Err(IndexedImageError::MissingData(found, expected)) => Err(
            ImageError::WrongPixelCount(found, expected),
        ),
        Err(_) => Err(ImageError::PaletteEmpty),
    }
}

/// Relies on `IndexedImage::get_palette`: the palette the image was
/// built with, converted to plain channel values.
#[verifier::external_body]
fn image_palette(img: &IndexedImage) -> (r: Vec<Rgba>)
    ensures
        r@ == img_palette(*img),
{
    img.get_palette().iter().map(|c| Rgba { r: c.r, g: c.g, b: c.b, a: c.a }).collect()
}

/// Relies on `IndexedImage::get_pixels`: the pixel-index buffer the
/// image was built with.
#[verifier::external_body]
fn image_pixels(img: &IndexedImage) -> (r: Vec<u8>)
    ensures
        r@ == img_pixels(*img),
{
    img.get_pixels().to_vec()
}

/// Compares two palettes value by value.
fn palette_eq(a: &Vec<Rgba>, b: &Vec<Rgba>) -> (r: bool)
    ensures
        r == (a@ == b@),
{
    if a.len() != b.len() {
        return false;
    }
    let mut i: usize = 0;
    while i < a.len()
        invariant
            a@.len() == b@.len(),
            i <= a@.len(),
            forall|j: int| 0 <= j < i ==> a@[j] == b@[j],
        decreases a@.len() - i,
    {
        if a[i] != b[i] {
            return false;
        }
        i = i + 1;
    }
    proof {
        assert(a@ =~= b@);
    }
    true
}

/// One named tile of a stored tileset: the tile's name and its
/// pixel-index buffer.
#[derive(Debug, Clone, PartialEq, Eq)]
pub struct TileEntry {
    pub name: String,
    pub pixels: Vec<u8>,
}

/// A tileset as stored on disk: name, tile size in pixels, a shared
/// palette, and named pixel buffers with unique names, kept in
/// insertion order.
#[derive(Debug, PartialEq, Eq)]
pub struct IciTileset {
    pub name: String,
    pub tile_w: u8,
    pub tile_h: u8,
    pub palette: Vec<Rgba>,
    pub tiles: Vec<TileEntry>,
}

impl IciTileset {
    /// Some entry carries this tile name.
    pub open spec fn has_tile(&self, name: Seq<char>) -> bool {
        exists|p: int| 0 <= p < self.tiles@.len() && (#[trigger] self.tiles@[p]).name@ == name
    }

    /// Tile names are unique.
    pub open spec fn wf(&self) -> bool {
        forall|p: int, q: int|
            0 <= p < q < self.tiles@.len() ==> (#[trigger] self.tiles@[p]).name@ != (
            #[trigger] self.tiles@[q]).name@
    }

    pub fn new(name: String, tile_size: (u8, u8), palette: Vec<Rgba>, tiles: Vec<TileEntry>) -> (r:
        Self)
        requires
            forall|p: int, q: int|
                0 <= p < q < tiles@.len() ==> (#[trigger] tiles@[p]).name@ != (
                #[trigger] tiles@[q]).name@,
        ensures
            r.wf(),
            r.name@ == name@,
            (r.tile_w, r.tile_h) == tile_size,
            r.palette@ == palette@,
            r.tiles@ == tiles@,
    {
        Self { name, tile_w: tile_size.0, tile_h: tile_size.1, palette, tiles }
    }

    pub fn tile_size(&self) -> (r: (u8, u8))
        ensures
            r == (self.tile_w, self.tile_h),
    {
        (self.tile_w, self.tile_h)
    }

    pub fn palette(&self) -> (r: &Vec<Rgba>)
        ensures
            r@ == self.palette@,
    {
        &self.palette
    }

    pub fn tiles(&self) -> (r: &Vec<TileEntry>)
        ensures
            r@ == self.tiles@,
    {
        &self.tiles
    }

    /// Stores the image's pixels under `name`, replacing any entry of
    /// that name — but only if the image uses this tileset's palette;
    /// otherwise the set is left unchanged and the mismatch reported.
    pub fn add_image(&mut self, name: &str, image: &IndexedImage) -> (r: Result<(), GameUtilError>)
        requires
            old(self).wf(),
        ensures
            final(self).wf(),
            r is Ok <==> img_palette(*image) == old(self).palette@,
            r is Err ==> *final(self) == *old(self) && r == Err::<(), GameUtilError>(
                GameUtilError::PaletteMismatch,
            ),
            r is Ok ==> {
                &&& final(self).name@ == old(self).name@
                &&& final(self).tile_w == old(self).tile_w
                &&& final(self).tile_h == old(self).tile_h
                &&& final(self).palette@ == old(self).palette@
            },
            r is Ok && old(self).has_tile(name@) ==> exists|p: int|
                {
                    &&& 0 <= p < old(self).tiles@.len()
                    &&& (#[trigger] old(self).tiles@[p]).name@ == name@
                    &&& final(self).tiles@ == old(self).tiles@.update(p, final(self).tiles@[p])
                    &&& final(self).tiles@[p].name@ == name@
                    &&& final(self).tiles@[p].pixels@ == img_pixels(*image)
                },
            r is Ok && !old(self).has_tile(name@) ==> {
                &&& final(self).tiles@.len() == old(self).tiles@.len() + 1
                &&& final(self).tiles@ == old(self).tiles@.push(final(self).tiles@.last())
                &&& final(self).tiles@.last().name@ == name@
                &&& final(self).tiles@.last().pixels@ == img_pixels(*image)
            },
    {
        let pal = image_palette(image);
        if !palette_eq(&pal, &self.palette) {
            return Err(GameUtilError::PaletteMismatch);
        }
        let pixels = image_pixels(image);
        let ghost olds = *old(self);
        let mut i: usize = 0;
        while i < self.tiles.len()
            invariant
                *self == olds,
                olds == *old(self),
                olds.wf(),
                i <= self.tiles@.len(),
                forall|p: int| 0 <= p < i ==> (#[trigger] self.tiles@[p]).name@ != name@,
                pixels@ == img_pixels(*image),
                img_palette(*image) == olds.palette@,
            decreases self.tiles@.len() - i,
        {
            if str_eq(self.tiles[i].name.as_str(), name) {
                self.tiles[i] = TileEntry { name: name.to_owned(), pixels };
                proof {
                    assert(olds.tiles@[i as int].name@ == name@);
                    assert(self.tiles@ =~= olds.tiles@.update(i as int, self.tiles@[i as int]));
                    assert(forall|p: int|
                        0 <= p < olds.tiles@.len() && p != i ==> self.tiles@[p] == (
                        #[trigger] olds.tiles@[p]));
                }
                return Ok(());
            }
            i = i + 1;
        }
        self.tiles.push(TileEntry { name: name.to_owned(), pixels });
        proof {
            assert(forall|p: int|
                0 <= p < olds.tiles@.len() ==> self.tiles@[p] == (#[trigger] olds.tiles@[p]));
            assert(self.tiles@[olds.tiles@.len() as int].name@ == name@);
            assert(self.tiles@ =~= olds.tiles@.push(self.tiles@.last()));
        }
        Ok(())
    }

    /// Builds the in-memory tileset: every entry becomes an indexed
    /// image of this set's size and palette, names kept in order. The
    /// first malformed entry fails the whole conversion.
    pub fn into_tileset(self) -> (r: Result<Tileset<IndexedImage>, ImageError>)
        ensures
            r is Ok <==> (forall|k: int|
                0 <= k < self.tiles@.len() ==> (#[trigger] self.tiles@[k]).pixels@.len()
                    == self.tile_w * self.tile_h && self.tile_w > 0 && self.tile_h > 0
                    && self.palette@.len() > 0),
            r matches Ok(ts) ==> {
                &&& ts.wf()
                &&& ts.names@.len() == self.tiles@.len()
                &&& forall|k: int|
                    0 <= k < self.tiles@.len() ==> (#[trigger] ts.names@[k])@
                        == self.tiles@[k].name@
                &&& forall|k: int|
                    0 <= k < self.tiles@.len() ==> img_pixels(*(#[trigger] ts.spec_images()[k]))
                        == self.tiles@[k].pixels@ && img_palette(*ts.spec_images()[k])
                        == self.palette@
                &&& ts.spec_tilesize() == (self.tile_w as u32, self.tile_h as u32)
            },
            r matches Err(e) ==> exists|k: int|
                {
                    &&& 0 <= k < self.tiles@.len()
                    &&& e == spec_image_error(
                        self.tile_w,
                        self.tile_h,
                        self.palette@.len(),
                        (#[trigger] self.tiles@[k]).pixels@.len(),
                    )
                    &&& !(self.tiles@[k].pixels@.len() == self.tile_w * self.tile_h && self.tile_w
                        > 0 && self.tile_h > 0 && self.palette@.len() > 0)
                },
    {
        let mut images: Vec<Rc<IndexedImage>> = Vec::new();
        let mut names: Vec<String> = Vec::new();
        let mut k: usize = 0;
        while k < self.tiles.len()
            invariant
                k <= self.tiles@.len(),
                names@.len() == k,
                images@.len() == k,
                forall|j: int| 0 <= j < k ==> (#[trigger] names@[j])@ == self.tiles@[j].name@,
                forall|j: int|
                    0 <= j < k ==> img_pixels(*(#[trigger] images@[j])) == self.tiles@[j].pixels@
                        && img_palette(*images@[j]) == self.palette@,
                forall|j: int|
                    0 <= j < k ==> (#[trigger] self.tiles@[j]).pixels@.len() == self.tile_w
                        * self.tile_h && self.tile_w > 0 && self.tile_h > 0 && self.palette@.len()
                        > 0,
            decreases self.tiles@.len() - k,
        {
            let entry = &self.tiles[k];
            match build_image(self.tile_w, self.tile_h, &self.palette, entry.pixels.clone()) {
                Ok(img) => {
                    images.push(Rc::new(img));
                    names.push(entry.name.clone());
                },
                Err(e) => {
                    return Err(e);
                },
            }
            k = k + 1;
        }
        Ok(Tileset::new(images, names, (self.tile_w as u32, self.tile_h as u32)))
    }
}

} // verus!
