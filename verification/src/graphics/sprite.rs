use vstd::prelude::*;
use vstd::slice::slice_subrange;
use crate::graphics::{Color, DecodeError, Sprite};

verus! {

/// What decoding an encoded image to RGBA yields: `None` where the bytes are
/// not a decodable image, else the image's width, height and raw RGBA bytes.
/// Decoding is a pure function of the input bytes; its value is not written
/// out here.
pub uninterp spec fn decoded_rgba(bytes: Seq<u8>) -> Option<(u32, u32, Seq<u8>)>;

/// Relies on `image::load_from_memory`, `image::DynamicImage::into_rgba8` and
/// `image::ImageBuffer::{width, height, into_raw}`: the decoded result depends
/// on the input bytes alone, and every `ImageBuffer` holds at least
/// `width * height * 4` bytes for 4-channel RGBA (its constructors check
/// exactly that).
#[verifier::external_body]
fn decode_to_rgba(bytes: &[u8]) -> (r: Option<(u32, u32, Vec<u8>)>)
    ensures
        match r {
            Some(t) => decoded_rgba(bytes@) == Some((t.0, t.1, t.2@)) && t.2@.len() >= 4 * t.0 * t.1,
            None => decoded_rgba(bytes@) is None,
        },
{
    match image::load_from_memory(bytes) {
        Ok(img) => {
            let rgba = img.into_rgba8();
            let width = rgba.width();
            let height = rgba.height();
            Some((width, height, rgba.into_raw()))
        }
        Err(_) => None,
    }
}

impl Sprite {
    /// Build a sprite from raw RGBA data: each 4 consecutive bytes become one
    /// color, row-major. Fails exactly when `data` does not hold 4 bytes per
    /// pixel.
    #[verifier::loop_isolation(false)]
    pub fn from_raw(width: u32, height: u32, data: &[u8]) -> (r: Result<Sprite, DecodeError>)
        ensures
            match r {
                Ok(s) => {
                    &&& data@.len() == 4 * width * height
                    &&& s@.width == width
                    &&& s@.height == height
                    &&& s@.wf()
                    &&& forall|i: int| 0 <= i < width * height ==> s@.pixels[i] == (Color {
                        r: data@[4 * i],
                        g: data@[4 * i + 1],
                        b: data@[4 * i + 2],
                        a: data@[4 * i + 3],
                    })
                },
                Err(e) => e == DecodeError::LengthMismatch && data@.len() != 4 * width * height,
            },
    {
        let w128: u128 = width as u128;
        let h128: u128 = height as u128;
        proof {
            crate::engine::renderer::lemma_byte_count_small(w128 as int, h128 as int);
        }
        let expected: u128 = 4u128 * w128 * h128;
        if (data.len() as u128) != expected {
            return Err(DecodeError::LengthMismatch);
        }
        let n: usize = data.len() / 4;
        proof {
            assert(data@.len() == 4 * (width * height)) by (nonlinear_arith)
                requires
                    data@.len() == 4 * (width as int) * (height as int),
            ;
            assert(n == width * height);
        }
        let mut rgba: Vec<Color> = Vec::new();
        let mut i: usize = 0;
        while i < n
            invariant
                i <= n,
                rgba@.len() == i,
                forall|j: int| 0 <= j < i ==> rgba@[j] == (Color {
                    r: data@[4 * j],
                    g: data@[4 * j + 1],
                    b: data@[4 * j + 2],
                    a: data@[4 * j + 3],
                }),
            decreases n - i,
        {
            let base: usize = 4 * i;
            let c = Color::from_u8(slice_subrange(data, base, base + 4));
            rgba.push(c);
            i += 1;
        }
        Ok(Sprite { width, height, rgba })
    }

    /// Decode an encoded image (PNG, BMP, ...) and build a sprite from its
    /// RGBA pixels. Fails exactly when the bytes cannot be decoded.
    pub fn new(bytes: &[u8]) -> (r: Result<Sprite, DecodeError>)
        ensures
            match r {
                Ok(s) => {
                    &&& decoded_rgba(bytes@) matches Some(t)
                    &&& s@.width == t.0
                    &&& s@.height == t.1
                    &&& s@.wf()
                    &&& forall|i: int| 0 <= i < t.0 * t.1 ==> s@.pixels[i] == (Color {
                        r: t.2[4 * i],
                        g: t.2[4 * i + 1],
                        b: t.2[4 * i + 2],
                        a: t.2[4 * i + 3],
                    })
                },
                Err(e) => e == DecodeError::Malformed && decoded_rgba(bytes@) is None,
            },
    {
        match decode_to_rgba(bytes) {
            None => Err(DecodeError::Malformed),
            Some((width, height, raw)) => {
                let rl: usize = raw.len();
                let w128: u128 = width as u128;
                let h128: u128 = height as u128;
                proof {
                    crate::engine::renderer::lemma_byte_count_small(w128 as int, h128 as int);
                }
                let expected128: u128 = 4u128 * w128 * h128;
                proof {
                    assert(expected128 <= rl as u128);
                }
                let expected: usize = expected128 as usize;
                let part = slice_subrange(raw.as_slice(), 0, expected);
                match Sprite::from_raw(width, height, part) {
                    Ok(s) => {
                        proof {
                            let rs = raw@;
                            assert forall|i: int| 0 <= i < width * height implies s@.pixels[i] == (Color {
                                r: rs[4 * i],
                                g: rs[4 * i + 1],
                                b: rs[4 * i + 2],
                                a: rs[4 * i + 3],
                            }) by {
                                assert(0 <= 4 * i && 4 * i + 3 < 4 * (width as int) * (height as int))
                                    by (nonlinear_arith)
                                    requires
                                        0 <= i < (width as int) * (height as int),
                                ;
                                assert(s@.pixels[i] == (Color {
                                    r: part@[4 * i],
                                    g: part@[4 * i + 1],
                                    b: part@[4 * i + 2],
                                    a: part@[4 * i + 3],
                                }));
                            }
                        }
                        Ok(s)
                    }
                    Err(_) => Err(DecodeError::Malformed),
                }
            }
        }
    }
}

} // verus!
