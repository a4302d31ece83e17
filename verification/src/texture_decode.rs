//! Texture decoding to RGBA: formats that the `image` crate reads first,
//! then JPEG 2000 through the decoders the caller hands in (OpenJPEG, then
//! `justjp2`, whose components are resampled to eight-bit RGBA here).
use vstd::prelude::*;
use crate::texture_cache::{decoded_view, image_decode_rgba8, image_outcome, DecodedRgbaImage};

verus! {

/// Why a texture could not be decoded.
#[derive(Debug, Clone, Copy, PartialEq, Eq, Structural)]
pub enum TextureDecodeError {
    Unsupported,
}

impl TextureDecodeError {
    /// The error's text.
    pub fn message(&self) -> (r: String)
        ensures
            r@ == "unsupported image format"@,
    {
        "unsupported image format".to_owned()
    }
}

/// One component of a JPEG 2000 image: its samples, row by row, its size,
/// its bit precision and whether its samples are signed.
#[derive(Debug, Clone)]
pub struct Jp2Component {
    pub data: Vec<i32>,
    pub width: u32,
    pub height: u32,
    pub precision: u32,
    pub signed: bool,
}

/// A JPEG 2000 image: its size and components.
#[derive(Debug, Clone)]
pub struct Jp2Image {
    pub width: u32,
    pub height: u32,
    pub components: Vec<Jp2Component>,
}

/// A component as the contracts see it: samples, width, height, precision, signedness.
pub type Jp2ComponentView = (Seq<i32>, u32, u32, u32, bool);

impl View for Jp2Component {
    type V = (Seq<i32>, u32, u32, u32, bool);

    open spec fn view(&self) -> (Seq<i32>, u32, u32, u32, bool) {
        (self.data@, self.width, self.height, self.precision, self.signed)
    }
}

impl View for Jp2Image {
    type V = (u32, u32, Seq<(Seq<i32>, u32, u32, u32, bool)>);

    open spec fn view(&self) -> (u32, u32, Seq<(Seq<i32>, u32, u32, u32, bool)>) {
        (self.width, self.height, self.components@.map_values(|c: Jp2Component| c@))
    }
}

pub open spec fn at_least_one(n: int) -> int {
    if n < 1 {
        1
    } else {
        n
    }
}

pub open spec fn clamp_int(v: int, lo: int, hi: int) -> int {
    if v < lo {
        lo
    } else if v > hi {
        hi
    } else {
        v
    }
}

/// The precision used, between 1 and 31 bits.
pub open spec fn clamped_precision(p: u32) -> u32 {
    if p < 1 {
        1
    } else if p > 31 {
        31
    } else {
        p
    }
}

/// A sample scaled to eight bits: signed samples are shifted up by half the
/// range, then the value is clamped to the range and scaled to 0..=255.
pub open spec fn sample_u8(sample: i32, precision: u32, signed: bool) -> u8 {
    let p = clamped_precision(precision);
    let max = (1i64 << p) - 1;
    let n = if signed {
        clamp_int(sample + (1i64 << ((p - 1) as u32)), 0, max)
    } else {
        clamp_int(sample as int, 0, max)
    };
    ((n * 255) / max) as u8
}

/// The component that channel `i` reads: component `i`, or the first when
/// there is no component `i`.
pub open spec fn component_at(comps: Seq<Jp2ComponentView>, i: int) -> Jp2ComponentView {
    if 0 <= i < comps.len() {
        comps[i]
    } else {
        comps[0]
    }
}

/// Channel `ci` of output pixel `(x, y)` of an `ow` by `oh` image: the
/// component's sample nearest below the pixel's scaled position (zero
/// outside the samples), scaled to eight bits.
pub open spec fn sample_spec(comps: Seq<Jp2ComponentView>, ci: int, x: int, y: int, ow: int, oh: int) -> u8 {
    let c = component_at(comps, ci);
    let cw = at_least_one(c.1 as int);
    let ch = at_least_one(c.2 as int);
    let sx = (x * cw) / at_least_one(ow);
    let sy = (y * ch) / at_least_one(oh);
    let idx = sy * cw + sx;
    let s = if idx < c.0.len() {
        c.0[idx]
    } else {
        0i32
    };
    sample_u8(s, c.3, c.4)
}

/// The RGBA bytes of pixel `(x, y)`: channels 0 to 2, and channel 3 when
/// there are four components, else opaque.
pub open spec fn pixel_bytes(v: (u32, u32, Seq<Jp2ComponentView>), x: int, y: int) -> Seq<u8> {
    let w = v.0 as int;
    let h = v.1 as int;
    let comps = v.2;
    seq![
        sample_spec(comps, 0, x, y, w, h),
        sample_spec(comps, 1, x, y, w, h),
        sample_spec(comps, 2, x, y, w, h),
        if comps.len() >= 4 {
            sample_spec(comps, 3, x, y, w, h)
        } else {
            255u8
        },
    ]
}

/// The first `n` pixels of row `y`.
pub open spec fn row_bytes(v: (u32, u32, Seq<Jp2ComponentView>), y: int, n: int) -> Seq<u8>
    decreases n,
{
    if n <= 0 {
        seq![]
    } else {
        row_bytes(v, y, n - 1) + pixel_bytes(v, n - 1, y)
    }
}

/// The first `m` rows.
pub open spec fn image_bytes(v: (u32, u32, Seq<Jp2ComponentView>), m: int) -> Seq<u8>
    decreases m,
{
    if m <= 0 {
        seq![]
    } else {
        image_bytes(v, m - 1) + row_bytes(v, m - 1, v.0 as int)
    }
}

/// Whether a decoded JPEG 2000 image can be resampled: it has components,
/// a size, and its RGBA bytes fit in memory.
pub open spec fn jp2_usable(v: (u32, u32, Seq<Jp2ComponentView>)) -> bool {
    v.2.len() > 0 && v.0 > 0 && v.1 > 0 && v.0 * v.1 * 4 <= usize::MAX
}

proof fn lemma_shift_bounds(p: u32)
    requires
        1 <= p <= 31,
    ensures
        2 <= (1i64 << p) <= 0x8000_0000,
        1 <= (1i64 << ((p - 1) as u32)) <= 0x4000_0000,
{
    assert(2 <= (1i64 << p) <= 0x8000_0000) by (bit_vector)
        requires
            1 <= p <= 31,
    ;
    let q = (p - 1) as u32;
    assert(1 <= (1i64 << q) <= 0x4000_0000) by (bit_vector)
        requires
            q <= 30,
    ;
}

fn scale_sample(sample: i32, precision: u32, signed: bool) -> (r: u8)
    ensures
        r == sample_u8(sample, precision, signed),
{
    let p: u32 = if precision < 1 {
        1
    } else if precision > 31 {
        31
    } else {
        precision
    };
    proof {
        lemma_shift_bounds(p);
    }
    let max: i64 = (1i64 << p) - 1;
    let v: i64 = if signed {
        sample as i64 + (1i64 << (p - 1))
    } else {
        sample as i64
    };
    let n: i64 = if v < 0 {
        0
    } else if v > max {
        max
    } else {
        v
    };
    assert(n * 255 <= 0x7fff_ffff * 255) by (nonlinear_arith)
        requires
            0 <= n <= 0x7fff_ffff,
    ;
    ((n * 255) / max) as u8
}

proof fn lemma_scaled_index(x: int, cw: int, ow: int)
    requires
        0 <= x < ow,
        1 <= cw,
        1 <= ow,
    ensures
        0 <= x * cw,
        (x * cw) / ow < cw,
        0 <= (x * cw) / ow,
{
    assert(x * cw < ow * cw) by (nonlinear_arith)
        requires
            0 <= x < ow,
            1 <= cw,
    ;
    assert((x * cw) / ow < cw) by (nonlinear_arith)
        requires
            0 <= x * cw < ow * cw,
            1 <= ow,
    ;
    assert(0 <= (x * cw) / ow) by (nonlinear_arith)
        requires
            0 <= x * cw,
            1 <= ow,
    ;
}

fn sample_jp2_component_u8(
    components: &Vec<Jp2Component>,
    component_idx: usize,
    x: usize,
    y: usize,
    out_width: usize,
    out_height: usize,
) -> (r: u8)
    requires
        components@.len() > 0,
        x < out_width <= u32::MAX,
        y < out_height <= u32::MAX,
    ensures
        r == sample_spec(
            components@.map_values(|c: Jp2Component| c@),
            component_idx as int,
            x as int,
            y as int,
            out_width as int,
            out_height as int,
        ),
{
    let ghost cv = components@.map_values(|c: Jp2Component| c@);
    let c = if component_idx < components.len() {
        &components[component_idx]
    } else {
        &components[0]
    };
    assert(c@ == component_at(cv, component_idx as int));
    let cw: u64 = if c.width < 1 {
        1
    } else {
        c.width as u64
    };
    let ch: u64 = if c.height < 1 {
        1
    } else {
        c.height as u64
    };
    let ow: u64 = out_width as u64;
    let oh: u64 = out_height as u64;
    proof {
        lemma_scaled_index(x as int, cw as int, ow as int);
        lemma_scaled_index(y as int, ch as int, oh as int);
        assert(x * cw <= 0xffff_ffff * 0xffff_ffff) by (nonlinear_arith)
            requires
                x <= 0xffff_ffff,
                cw <= 0xffff_ffff,
        ;
        assert(y * ch <= 0xffff_ffff * 0xffff_ffff) by (nonlinear_arith)
            requires
                y <= 0xffff_ffff,
                ch <= 0xffff_ffff,
        ;
    }
    let sx: u64 = (x as u64 * cw) / ow;
    let sy: u64 = (y as u64 * ch) / oh;
    proof {
        assert(sy * cw + sx < 0x1_0000_0000_0000_0000) by (nonlinear_arith)
            requires
                sy < ch <= 0xffff_ffff,
                sx < cw <= 0xffff_ffff,
        ;
    }
    let idx: u64 = sy * cw + sx;
    let sample: i32 = if idx < c.data.len() as u64 {
        c.data[idx as usize]
    } else {
        0
    };
    scale_sample(sample, c.precision, c.signed)
}

/// The RGBA image resampled from a JPEG 2000 image's components, or
/// `Unsupported` when it has no components or no size (or its bytes would
/// not fit in memory).
pub fn rgba_from_jp2(img: &Jp2Image) -> (r: Result<DecodedRgbaImage, TextureDecodeError>)
    ensures
        match r {
            Ok(d) => jp2_usable(img@) && d.width == img.width && d.height == img.height && d.rgba@
                == image_bytes(img@, img.height as int),
            Err(_) => !jp2_usable(img@),
        },
{
    if img.components.len() == 0 || img.width == 0 || img.height == 0 {
        return Err(TextureDecodeError::Unsupported);
    }
    let width = img.width as usize;
    let height = img.height as usize;
    let pixels = match width.checked_mul(height) {
        Some(p) => p,
        None => return Err(TextureDecodeError::Unsupported),
    };
    match pixels.checked_mul(4) {
        Some(_) => {},
        None => return Err(TextureDecodeError::Unsupported),
    }
    let ghost v = img@;
    let mut rgba: Vec<u8> = Vec::new();
    let has_alpha = img.components.len() >= 4;
    let mut y: usize = 0;
    while y < height
        invariant
            v == img@,
            width == v.0,
            height == v.1,
            img.components@.len() > 0,
            y <= height,
            rgba@ == image_bytes(v, y as int),
            has_alpha == (v.2.len() >= 4),
        decreases height - y,
    {
        let mut x: usize = 0;
        while x < width
            invariant
                v == img@,
                width == v.0,
                height == v.1,
                img.components@.len() > 0,
                y < height,
                x <= width,
                rgba@ == image_bytes(v, y as int) + row_bytes(v, y as int, x as int),
                has_alpha == (v.2.len() >= 4),
            decreases width - x,
        {
            let r = sample_jp2_component_u8(&img.components, 0, x, y, width, height);
            let g = sample_jp2_component_u8(&img.components, 1, x, y, width, height);
            let b = sample_jp2_component_u8(&img.components, 2, x, y, width, height);
            let a = if has_alpha {
                sample_jp2_component_u8(&img.components, 3, x, y, width, height)
            } else {
                255
            };
            let ghost before = rgba@;
            rgba.push(r);
            rgba.push(g);
            rgba.push(b);
            rgba.push(a);
            assert(rgba@ =~= before + pixel_bytes(v, x as int, y as int));
            assert(image_bytes(v, y as int) + row_bytes(v, y as int, x + 1) =~= before + pixel_bytes(
                v,
                x as int,
                y as int,
            ));
            x += 1;
        }
        assert(image_bytes(v, y + 1) == image_bytes(v, y as int) + row_bytes(v, y as int, width as int));
        y += 1;
    }
    Ok(DecodedRgbaImage { width: img.width, height: img.height, rgba })
}

/// What [`decode_texture_rgba8`] gives once the `image` crate gave `first`,
/// the OpenJPEG decoder `second` and the `justjp2` decoder `third` (each
/// consulted only where the one before failed): the first image found,
/// `justjp2`'s resampled to RGBA.
pub open spec fn texture_decoded_after(
    first: Option<(u32, u32, Seq<u8>)>,
    second: Option<DecodedRgbaImage>,
    third: Option<Jp2Image>,
) -> Option<(u32, u32, Seq<u8>)> {
    match first {
        Some(d) => Some(d),
        None => match second {
            Some(img) => Some((img.width, img.height, img.rgba@)),
            None => match third {
                Some(j) => if jp2_usable(j@) {
                    Some((j.width, j.height, image_bytes(j@, j.height as int)))
                } else {
                    None
                },
                None => None,
            },
        },
    }
}

/// What [`decode_texture_rgba8`] may give for `bytes` with these decoders:
/// the decoding that follows some outcome of the `image` crate (see
/// [`image_outcome`]; for bytes that are not JPEG that outcome is fixed) and
/// some result of each JPEG 2000 decoder on `bytes`.
pub open spec fn texture_decoded<J, P>(
    bytes: &[u8],
    openjpeg: J,
    justjp2: P,
    r: Option<(u32, u32, Seq<u8>)>,
) -> bool where J: FnOnce(&[u8]) -> Option<DecodedRgbaImage>, P: FnOnce(&[u8]) -> Option<Jp2Image> {
    exists|first: Option<(u32, u32, Seq<u8>)>, second: Option<DecodedRgbaImage>, third: Option<Jp2Image>|
        {
            &&& #[trigger] image_outcome(bytes@, first)
            &&& (first is None ==> call_ensures(openjpeg, (bytes,), second))
            &&& (first is None && second is None ==> call_ensures(justjp2, (bytes,), third))
            &&& r == #[trigger] texture_decoded_after(first, second, third)
        }
}

pub open spec fn result_view(r: Result<DecodedRgbaImage, TextureDecodeError>) -> Option<
    (u32, u32, Seq<u8>),
> {
    match r {
        Ok(img) => Some((img.width, img.height, img.rgba@)),
        Err(_) => None,
    }
}

/// Decodes a texture to RGBA: through the `image` crate, else through the
/// JPEG 2000 decoders handed in, OpenJPEG first (its image as it gives it),
/// then `justjp2` (its components resampled here), else `Unsupported`. The
/// JPEG 2000 decoders are handed in by the caller, which runs them where a
/// panic on malformed input can be caught.
pub fn decode_texture_rgba8<J, P>(bytes: &[u8], openjpeg: J, justjp2: P) -> (r: Result<
    DecodedRgbaImage,
    TextureDecodeError,
>) where J: FnOnce(&[u8]) -> Option<DecodedRgbaImage>, P: FnOnce(&[u8]) -> Option<Jp2Image>
    requires
        call_requires(openjpeg, (bytes,)),
        call_requires(justjp2, (bytes,)),
    ensures
        texture_decoded(bytes, openjpeg, justjp2, result_view(r)),
{
    let first = image_decode_rgba8(bytes);
    let ghost f = decoded_view(first);
    assert(image_outcome(bytes@, f));
    match first {
        Some(img) => {
            assert(result_view(Ok(img)) == texture_decoded_after(f, None, None));
            return Ok(img);
        },
        None => {},
    }
    let second = openjpeg(bytes);
    match second {
        Some(img) => {
            let r = Ok(img);
            assert(result_view(r) == texture_decoded_after(f, second, None));
            return r;
        },
        None => {},
    }
    let third = justjp2(bytes);
    let r = match &third {
        Some(jp2) => rgba_from_jp2(jp2),
        None => Err(TextureDecodeError::Unsupported),
    };
    assert(result_view(r) == texture_decoded_after(f, second, third));
    r
}

/// Decodes a texture to RGBA as [`decode_texture_rgba8`] does, the error as
/// text.
pub fn decode_png_rgba8<J, P>(bytes: &[u8], openjpeg: J, justjp2: P) -> (r: Result<
    DecodedRgbaImage,
    String,
>) where J: FnOnce(&[u8]) -> Option<DecodedRgbaImage>, P: FnOnce(&[u8]) -> Option<Jp2Image>
    requires
        call_requires(openjpeg, (bytes,)),
        call_requires(justjp2, (bytes,)),
    ensures
        texture_decoded(
            bytes,
            openjpeg,
            justjp2,
            match r {
                Ok(img) => Some((img.width, img.height, img.rgba@)),
                Err(_) => None,
            },
        ),
        r matches Err(e) ==> e@ == "unsupported image format"@,
{
    let d = decode_texture_rgba8(bytes, openjpeg, justjp2);
    assert(result_view(d) == match d {
        Ok(img) => Some((img.width, img.height, img.rgba@)),
        Err(_) => None::<(u32, u32, Seq<u8>)>,
    });
    match d {
        Ok(img) => Ok(img),
        Err(e) => Err(e.message()),
    }
}

} // verus!
