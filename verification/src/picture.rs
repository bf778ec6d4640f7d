use image::imageops::FilterType;
use image::{DynamicImage, ImageError};
use vstd::prelude::*;

verus! {

#[verifier::external_type_specification]
#[verifier::external_body]
pub struct ExDynamicImage(DynamicImage);

#[verifier::external_type_specification]
#[verifier::external_body]
pub struct ExImageError(ImageError);

/// The width and height of the image that `image::load_from_memory` decodes from `bytes`,
/// or `None` where it fails.
pub uninterp spec fn decoded_dimensions(bytes: Seq<u8>) -> Option<(u32, u32)>;

/// The width and height of the image that `DynamicImage::resize` makes from a
/// `width` x `height` image when asked to fit it into `nwidth` x `nheight`.
pub uninterp spec fn resized_dimensions(width: u32, height: u32, nwidth: u32, nheight: u32) -> (u32, u32);

/// A decoded image together with its width and height.
pub struct Picture {
    image: DynamicImage,
    width: u32,
    height: u32,
}

impl View for Picture {
    type V = (u32, u32);

    /// The picture's width and height.
    closed spec fn view(&self) -> (u32, u32) {
        (self.width, self.height)
    }
}

impl Picture {
    /// The width in pixels.
    pub fn width(&self) -> (r: u32)
        ensures
            r == self@.0,
    {
        self.width
    }

    /// The height in pixels.
    pub fn height(&self) -> (r: u32)
        ensures
            r == self@.1,
    {
        self.height
    }

    /// The image this picture holds (the one whose width and height are `self@`).
    pub closed spec fn held_image(&self) -> DynamicImage {
        self.image
    }

    /// The decoded image itself.
    pub fn image(&self) -> (r: &DynamicImage)
        ensures
            *r == self.held_image(),
    {
        &self.image
    }
}

/// Decodes an image with `image::load_from_memory` (format guessed from the bytes), and reads
/// its dimensions with `DynamicImage::width` and `DynamicImage::height`.
///
/// Claimed: the call succeeds exactly when the named decoding gives dimensions, and then the
/// picture has those dimensions. Nothing is claimed about the pixels.
#[verifier::external_body]
fn decode(bytes: &[u8]) -> (r: Result<Picture, ImageError>)
    ensures
        r is Ok <==> decoded_dimensions(bytes@) is Some,
        r matches Ok(p) ==> decoded_dimensions(bytes@) == Some(p@),
{
    let image = image::load_from_memory(bytes)?;
    Ok(Picture { width: image.width(), height: image.height(), image })
}

/// Resizes with `DynamicImage::resize` and the Lanczos3 filter, which keeps the aspect ratio
/// and scales the image to fit within `nwidth` x `nheight`; reads the new dimensions with
/// `DynamicImage::width` and `DynamicImage::height`.
///
/// Claimed, from the crate's documentation and source: the new dimensions are the named
/// function of the old ones and the bounds; a request for the current dimensions keeps them;
/// for positive dimensions and bounds the result lies within the bounds and is at least 1 x 1;
/// a zero bound (for a positive image) gives 1 x 1; both sides are scaled by one ratio, so a
/// positive image wider than tall stays at least as wide as tall, and the other way round.
/// Nothing is claimed about the pixels.
#[verifier::external_body]
fn resize(p: &Picture, nwidth: u32, nheight: u32) -> (r: Picture)
    ensures
        r@ == resized_dimensions(p@.0, p@.1, nwidth, nheight),
        (nwidth, nheight) == p@ ==> r@ == p@,
        p@.0 >= 1 && p@.1 >= 1 && nwidth >= 1 && nheight >= 1 ==> 1 <= r@.0 <= nwidth && 1
            <= r@.1 <= nheight,
        p@.0 >= 1 && p@.1 >= 1 && (nwidth == 0 || nheight == 0) && (nwidth, nheight) != p@
            ==> r@ == (1u32, 1u32),
        p@.0 >= 1 && p@.1 >= 1 ==> (p@.0 >= p@.1 ==> r@.0 >= r@.1) && (p@.0 <= p@.1 ==> r@.0
            <= r@.1),
{
    let image = p.image.resize(nwidth, nheight, FilterType::Lanczos3);
    Picture { width: image.width(), height: image.height(), image }
}

/// The bytes given to [`load_picture`] hold no image that can be decoded.
pub struct UndecodableImage;

/// Decodes an image file held in memory (JPEG, PNG, GIF, BMP or WebP).
pub fn load_picture(bytes: &[u8]) -> (r: Result<Picture, UndecodableImage>)
    ensures
        r is Ok <==> decoded_dimensions(bytes@) is Some,
        r matches Ok(p) ==> decoded_dimensions(bytes@) == Some(p@),
{
    match decode(bytes) {
        Ok(p) => Ok(p),
        Err(_) => Err(UndecodableImage),
    }
}

/// `len * max / other`, rounded half away from zero.
pub open spec fn scaled(len: u32, max: u32, other: u32) -> int {
    (2 * len * max + other) / (2 * other as int)
}

/// The bounds a `w` x `h` image is resized to when a side exceeds `max`: the longer side
/// becomes `max` and the other keeps the aspect ratio, rounded to the nearest pixel.
pub open spec fn target_dimensions(w: u32, h: u32, max: u32) -> (u32, u32) {
    if w >= h {
        (max, scaled(h, max, w) as u32)
    } else {
        (scaled(w, max, h) as u32, max)
    }
}

/// The scaled side never exceeds `max` nor the side it came from.
pub proof fn lemma_scaled_bounds(len: u32, max: u32, other: u32)
    requires
        len <= other,
        other >= 1,
    ensures
        0 <= scaled(len, max, other) <= max,
        max < other ==> scaled(len, max, other) <= len,
{
    let a = 2 * len * max + other;
    let b = 2 * other as int;
    assert(a <= b * max + other) by (nonlinear_arith)
        requires
            len <= other,
            a == 2 * len * max + other,
            b == 2 * other as int,
    ;
    assert(a / b <= max) by (nonlinear_arith)
        requires
            a <= b * max + other,
            b == 2 * other as int,
            other >= 1,
            a >= 0,
    ;
    assert(a / b >= 0) by (nonlinear_arith)
        requires
            a >= 0,
            b >= 2,
    ;
    if max < other {
        assert(a <= b * len + other) by (nonlinear_arith)
            requires
                max < other,
                a == 2 * len * max + other,
                b == 2 * other as int,
        ;
        assert(a / b <= len) by (nonlinear_arith)
            requires
                a <= b * len + other,
                b == 2 * other as int,
                other >= 1,
                a >= 0,
        ;
    }
}

/// `len * max / other` rounded half away from zero.
fn scale_side(len: u32, max: u32, other: u32) -> (r: u32)
    requires
        len <= other,
        other >= 1,
    ensures
        r == scaled(len, max, other),
{
    proof {
        lemma_scaled_bounds(len, max, other);
    }
    assert((len as u128) * (max as u128) <= 0xFFFF_FFFF * 0xFFFF_FFFF) by (nonlinear_arith)
        requires
            len <= 0xFFFF_FFFF,
            max <= 0xFFFF_FFFF,
    ;
    let a: u128 = 2 * ((len as u128) * (max as u128)) + (other as u128);
    let b: u128 = 2 * (other as u128);
    assert(a as int == 2 * len * max + other) by (nonlinear_arith)
        requires
            a as int == 2 * ((len as int) * (max as int)) + other,
    ;
    assert(b as int == 2 * other as int);
    (a / b) as u32
}

/// Scales a picture down so that neither side exceeds `max_size`, keeping its aspect ratio.
/// A picture that already fits is returned unchanged; a picture is never enlarged, and a
/// landscape picture stays landscape (a portrait one portrait).
pub fn resize_if_needed(p: Picture, max_size: u32) -> (r: Picture)
    ensures
        p@.0 <= max_size && p@.1 <= max_size ==> r == p,
        !(p@.0 <= max_size && p@.1 <= max_size) ==> {
            let t = target_dimensions(p@.0, p@.1, max_size);
            r@ == resized_dimensions(p@.0, p@.1, t.0, t.1)
        },
        p@.0 >= 1 && p@.1 >= 1 && max_size >= 1 ==> {
            &&& 1 <= r@.0 <= max_size
            &&& 1 <= r@.1 <= max_size
            &&& r@.0 <= p@.0
            &&& r@.1 <= p@.1
        },
        p@.0 >= 1 && p@.1 >= 1 ==> (p@.0 >= p@.1 ==> r@.0 >= r@.1) && (p@.0 <= p@.1 ==> r@.0
            <= r@.1),
{
    let w = p.width;
    let h = p.height;
    if w <= max_size && h <= max_size {
        return p;
    }
    let (nw, nh) = if w >= h {
        proof {
            lemma_scaled_bounds(h, max_size, w);
        }
        (max_size, scale_side(h, max_size, w))
    } else {
        proof {
            lemma_scaled_bounds(w, max_size, h);
        }
        (scale_side(w, max_size, h), max_size)
    };
    resize(&p, nw, nh)
}

} // verus!
