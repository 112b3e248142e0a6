//! Texture descriptions: pixel formats, mip-chain arithmetic, the 24-bit
//! to 32-bit conversion, and cubemap face packing.
//!
//! The GPU upload itself (staging buffers, layout transitions, blits) is a
//! collaborator's job; this module covers the decisions and the byte-level
//! data those uploads consume.

use vstd::prelude::*;

verus! {

/// The pixel formats a texture description can carry, mirroring the
/// device formats the renderer selects between.
#[derive(Clone, Copy, Debug, PartialEq, Eq, Structural)]
pub enum PixelFormat {
    R8,
    R8G8,
    R8G8B8,
    B8G8R8,
    R8G8B8A8,
    B8G8R8A8,
    R16G16B16,
    R16G16B16A16,
}

/// CPU-side description of a texture: format, extent, raw pixels, and the
/// number of mip levels its upload will generate.
pub struct TextureDescription {
    pub format: PixelFormat,
    pub width: u32,
    pub height: u32,
    pub pixels: Vec<u8>,
    pub mip_levels: u32,
}

/// Floor of the base-two logarithm (zero below two).
pub open spec fn log2_floor(n: int) -> int
    decreases n,
{
    if n < 2 {
        0
    } else {
        1 + log2_floor(n / 2)
    }
}

/// The mip level count for an extent: one level per halving of the
/// smaller dimension, plus the base level; zero for an empty extent.
pub open spec fn mip_levels_for(width: int, height: int) -> int {
    let m = if width < height {
        width
    } else {
        height
    };
    if m <= 0 {
        0
    } else {
        log2_floor(m) + 1
    }
}

/// The byte expansion the 24-bit conversion performs: every third byte
/// triple becomes a quadruple with an opaque alpha byte appended.
pub open spec fn rgba_expanded(p: Seq<u8>) -> Seq<u8> {
    Seq::new(p.len() / 3 * 4, |i: int| if i % 4 == 3 { 255u8 } else { p[i / 4 * 3 + i % 4] })
}

/// Relies on `image::ImageBuffer::from_raw` and `image::Pixel::to_rgba`:
/// for 8-bit RGB data, `to_rgba` copies the three channels and appends the
/// maximum alpha value, pixel by pixel in row-major order.
#[verifier::external_body]
fn expand_rgb_pixels(width: u32, height: u32, pixels: Vec<u8>) -> (r: Vec<u8>)
    requires
        pixels@.len() == 3 * (width as int) * (height as int),
    ensures
        r@ == rgba_expanded(pixels@),
{
    let buffer: image::RgbImage = image::ImageBuffer::from_raw(width, height, pixels)
        .expect("pixel buffer does not match the image extent");
    buffer.pixels().flat_map(|pixel| image::Pixel::to_rgba(pixel).0.to_vec()).collect()
}

/// Number of mip levels an extent supports: repeatedly halve the smaller
/// dimension down to one, counting the base level too.
pub fn calculate_mip_levels(width: u32, height: u32) -> (r: u32)
    ensures
        r as int == mip_levels_for(width as int, height as int),
{
    let m = if width < height {
        width
    } else {
        height
    };
    if m == 0 {
        return 0;
    }
    proof {
        lemma_log2_small(m as int);
        lemma_log2_nonneg(m as int);
    }
    let mut levels: u32 = 1;
    let mut v = m;
    while v >= 2
        invariant
            1 <= v <= m,
            levels >= 1,
            log2_floor(m as int) + 1 == levels + log2_floor(v as int),
            levels + log2_floor(v as int) <= 32,
        decreases v,
    {
        proof {
            lemma_log2_halving(v as int);
            lemma_log2_nonneg(v as int / 2);
        }
        v = v / 2;
        levels = levels + 1;
    }
    levels
}

/// The floor logarithm is never negative.
proof fn lemma_log2_nonneg(v: int)
    ensures
        log2_floor(v) >= 0,
    decreases v,
{
    if v >= 2 {
        lemma_log2_nonneg(v / 2);
    }
}

/// One halving strips one level off the logarithm.
proof fn lemma_log2_halving(v: int)
    requires
        v >= 2,
    ensures
        log2_floor(v) == 1 + log2_floor(v / 2),
        log2_floor(v) >= 1,
{
    lemma_log2_nonneg(v / 2);
}

/// The logarithm of a 32-bit value stays below 32.
proof fn lemma_log2_small(v: int)
    requires
        0 <= v < 0x1_0000_0000,
    ensures
        log2_floor(v) < 32,
{
    vstd::arithmetic::power2::lemma2_to64();
    lemma_log2_bound(v, 32);
}

/// The logarithm of a value below `2^k` stays below `k`.
proof fn lemma_log2_bound(v: int, k: int)
    requires
        0 <= v,
        1 <= k,
        v < vstd::arithmetic::power2::pow2(k as nat),
    ensures
        log2_floor(v) < k,
    decreases k,
{
    if v >= 2 {
        vstd::arithmetic::power2::lemma_pow2_unfold(k as nat);
        if k - 1 >= 1 {
            lemma_log2_bound(v / 2, k - 1);
        } else {
            vstd::arithmetic::power2::lemma2_to64();
            assert(false);
        }
    }
}

/// The 24-bit formats and their 32-bit replacements: device images do not
/// support 24-bit layouts, so an alpha channel is attached.
pub open spec fn converted_format(f: PixelFormat) -> PixelFormat {
    match f {
        PixelFormat::R8G8B8 => PixelFormat::R8G8B8A8,
        PixelFormat::B8G8R8 => PixelFormat::B8G8R8A8,
        _ => f,
    }
}

/// Whether the format needs the 24-bit conversion.
pub open spec fn is_24bit(f: PixelFormat) -> bool {
    f == PixelFormat::R8G8B8 || f == PixelFormat::B8G8R8
}

impl TextureDescription {
    /// Assemble a description from decoded image data: compute the mip
    /// chain length and convert 24-bit layouts to 32-bit ones by
    /// attaching an opaque alpha channel.
    pub fn from_parts(format: PixelFormat, width: u32, height: u32, pixels: Vec<u8>) -> (r:
        TextureDescription)
        requires
            is_24bit(format) ==> pixels@.len() == 3 * (width as int) * (height as int),
        ensures
            r.format == converted_format(format),
            r.width == width,
            r.height == height,
            r.mip_levels as int == mip_levels_for(width as int, height as int),
            is_24bit(format) ==> r.pixels@ == rgba_expanded(pixels@),
            !is_24bit(format) ==> r.pixels@ == pixels@,
    {
        let mip_levels = calculate_mip_levels(width, height);
        match format {
            PixelFormat::R8G8B8 => {
                let expanded = expand_rgb_pixels(width, height, pixels);
                TextureDescription {
                    format: PixelFormat::R8G8B8A8,
                    width,
                    height,
                    pixels: expanded,
                    mip_levels,
                }
            },
            PixelFormat::B8G8R8 => {
                let expanded = expand_rgb_pixels(width, height, pixels);
                TextureDescription {
                    format: PixelFormat::B8G8R8A8,
                    width,
                    height,
                    pixels: expanded,
                    mip_levels,
                }
            },
            _ => TextureDescription { format, width, height, pixels, mip_levels },
        }
    }
}

/// The six face images of a cubemap, by file path.
pub struct CubemapFaces {
    pub right: String,
    pub left: String,
    pub top: String,
    pub bottom: String,
    pub front: String,
    pub back: String,
}

impl CubemapFaces {
    /// The faces in upload order: right, left, top, bottom, back, front,
    /// matching the device's cube layer layout.
    pub fn ordered_faces(&self) -> (r: Vec<String>)
        ensures
            r@.len() == 6,
            r@[0]@ == self.right@,
            r@[1]@ == self.left@,
            r@[2]@ == self.top@,
            r@[3]@ == self.bottom@,
            r@[4]@ == self.back@,
            r@[5]@ == self.front@,
    {
        let mut r: Vec<String> = Vec::new();
        r.push(self.right.clone());
        r.push(self.left.clone());
        r.push(self.top.clone());
        r.push(self.bottom.clone());
        r.push(self.back.clone());
        r.push(self.front.clone());
        r
    }
}

/// One mip-chain halving step: dimensions shrink by half but never below
/// one.
pub open spec fn halved(v: int) -> int {
    if v > 1 {
        v / 2
    } else {
        v
    }
}

/// The source dimensions of every blit in a mip-generation pass: entry 0
/// is the base extent, and each further entry halves the previous one
/// (stopping at one per axis).
pub fn mip_chain_dimensions(width: u32, height: u32, mip_levels: u32) -> (r: Vec<(u32, u32)>)
    ensures
        r@.len() == mip_levels,
        mip_levels > 0 ==> r@[0] == ((width, height)),
        forall|i: int|
            0 < i < r@.len() ==> #[trigger] r@[i] == ((
                (halved(r@[i - 1].0 as int) as u32),
                (halved(r@[i - 1].1 as int) as u32),
            )),
{
    let mut r: Vec<(u32, u32)> = Vec::new();
    if mip_levels == 0 {
        return r;
    }
    r.push((width, height));
    let mut mip_width = width;
    let mut mip_height = height;
    let mut level: u32 = 1;
    while level < mip_levels
        invariant
            1 <= level <= mip_levels,
            r@.len() == level,
            r@[0] == ((width, height)),
            r@[level - 1] == ((mip_width, mip_height)),
            forall|i: int|
                0 < i < r@.len() ==> #[trigger] r@[i] == ((
                    (halved(r@[i - 1].0 as int) as u32),
                    (halved(r@[i - 1].1 as int) as u32),
                )),
        decreases mip_levels - level,
    {
        mip_width = if mip_width > 1 {
            mip_width / 2
        } else {
            mip_width
        };
        mip_height = if mip_height > 1 {
            mip_height / 2
        } else {
            mip_height
        };
        r.push((mip_width, mip_height));
        level = level + 1;
    }
    r
}

/// The description of the cubemap a set of face descriptions builds: a
/// square extent and format taken from the first face, one mip level, and
/// no pixels of its own (the faces are packed separately).
pub fn cubemap_description(face_descriptions: &Vec<TextureDescription>) -> (r: TextureDescription)
    requires
        face_descriptions@.len() >= 1,
    ensures
        r.width == face_descriptions@[0].width,
        r.height == face_descriptions@[0].width,
        r.format == face_descriptions@[0].format,
        r.mip_levels == 1,
        r.pixels@.len() == 0,
{
    let dimension = face_descriptions[0].width;
    let format = face_descriptions[0].format;
    TextureDescription {
        width: dimension,
        height: dimension,
        pixels: Vec::new(),
        format,
        mip_levels: 1,
    }
}

/// The concatenated pixel bytes of the first `upto` face descriptions.
pub open spec fn faces_pixels(fds: Seq<TextureDescription>, upto: int) -> Seq<u8>
    decreases upto,
{
    if upto <= 0 {
        Seq::empty()
    } else {
        faces_pixels(fds, upto - 1) + fds[upto - 1].pixels@
    }
}

/// Pack cubemap faces for one staging upload: all face pixels
/// concatenated in order, and the byte offset of each face's copy region
/// within that buffer.
#[verifier::loop_isolation(false)]
pub fn pack_faces(face_descriptions: &Vec<TextureDescription>) -> (r: (Vec<u8>, Vec<u64>))
    ensures
        r.0@ == faces_pixels(face_descriptions@, face_descriptions@.len() as int),
        r.1@.len() == face_descriptions@.len(),
        forall|i: int|
            0 <= i < face_descriptions@.len() ==> #[trigger] r.1@[i] as int == faces_pixels(
                face_descriptions@,
                i,
            ).len(),
{
    let mut pixels: Vec<u8> = Vec::new();
    let mut offsets: Vec<u64> = Vec::new();
    let nf = face_descriptions.len();
    for f in 0..nf
        invariant
            pixels@ == faces_pixels(face_descriptions@, f as int),
            offsets@.len() == f,
            forall|i: int|
                0 <= i < f ==> #[trigger] offsets@[i] as int == faces_pixels(
                    face_descriptions@,
                    i,
                ).len(),
    {
        offsets.push(pixels.len() as u64);
        let m = face_descriptions[f].pixels.len();
        for k in 0..m
            invariant
                m == face_descriptions@[f as int].pixels@.len(),
                pixels@ == faces_pixels(face_descriptions@, f as int)
                    + face_descriptions@[f as int].pixels@.take(k as int),
        {
            let b = face_descriptions[f].pixels[k];
            pixels.push(b);
            proof {
                assert(face_descriptions@[f as int].pixels@.take(k + 1)
                    =~= face_descriptions@[f as int].pixels@.take(k as int).push(b));
                assert(pixels@ =~= faces_pixels(face_descriptions@, f as int)
                    + face_descriptions@[f as int].pixels@.take(k + 1));
            }
        }
        proof {
            assert(face_descriptions@[f as int].pixels@.take(m as int)
                =~= face_descriptions@[f as int].pixels@);
        }
    }
    (pixels, offsets)
}

} // verus!
