//! From file bytes to a pixel buffer: the choice of decoder by the hinted
//! extension, and what is shown where nothing could be decoded.

use vstd::prelude::*;
use crate::filename::{is_image_extension, tail_eq_ignore_case, jpg, jpeg};

verus! {

/// What a decoder hands out: the size of the image and its samples, row by row.
#[derive(Clone, Debug, PartialEq, Eq)]
pub struct RawFrame {
    pub width: u32,
    pub height: u32,
    pub data: Vec<u8>,
}

/// An image ready to be shown: four bytes for each pixel, red, green, blue and
/// alpha, alpha not multiplied in, row by row from the top.
#[derive(Clone, Debug, PartialEq, Eq)]
pub struct PixelBuffer {
    pub width: usize,
    pub height: usize,
    pub rgba: Vec<u8>,
}

/// The mathematical form of a `PixelBuffer`.
pub struct Pixels {
    pub width: nat,
    pub height: nat,
    pub rgba: Seq<u8>,
}

impl View for PixelBuffer {
    type V = Pixels;

    open spec fn view(&self) -> Pixels {
        Pixels { width: self.width as nat, height: self.height as nat, rgba: self.rgba@ }
    }
}

impl Pixels {
    /// The buffer holds four bytes for each pixel of the image.
    pub open spec fn wf(self) -> bool {
        self.rgba.len() == 4 * self.width * self.height
    }
}

/// The decoder that a hinted extension selects.
#[derive(Clone, Copy, Debug, PartialEq, Eq)]
pub enum Codec {
    /// The JPEG decoder, for `jpg` and `jpeg`.
    Jpeg,
    /// The decoder that guesses the format from the bytes, for every other
    /// extension.
    Guess,
}

/// The decoder for a file with the given extension: the JPEG decoder for `jpg` and
/// `jpeg`, in any case of the letters.
pub open spec fn codec_of(ext: Seq<u8>) -> Codec {
    if is_image_extension(ext) {
        Codec::Jpeg
    } else {
        Codec::Guess
    }
}

/// The decoder for a file with the hinted extension; a file without extension has
/// none.
pub open spec fn spec_codec(hint: Option<Seq<u8>>) -> Option<Codec> {
    match hint {
        Some(ext) => Some(codec_of(ext)),
        None => None,
    }
}

/// What is shown where nothing could be decoded: one black pixel.
pub open spec fn placeholder_pixels() -> Pixels {
    Pixels { width: 1, height: 1, rgba: seq![0u8, 0u8, 0u8, 255u8] }
}

/// Red, green and blue samples with full alpha added to each pixel.
pub open spec fn opaque(rgb: Seq<u8>) -> Seq<u8> {
    Seq::new(
        4 * (rgb.len() / 3),
        |k: int|
            if k % 4 == 3 {
                255u8
            } else {
                rgb[3 * (k / 4) + k % 4]
            },
    )
}

/// The pixels of a frame of red, green and blue samples; none where the frame
/// does not hold three samples for each pixel.
pub open spec fn pixels_of_rgb(width: nat, height: nat, data: Seq<u8>) -> Option<Pixels> {
    if data.len() == 3 * width * height {
        Some(Pixels { width, height, rgba: opaque(data) })
    } else {
        None
    }
}

/// The pixels of a frame of red, green, blue and alpha samples; none where the
/// frame does not hold four samples for each pixel.
pub open spec fn pixels_of_rgba(width: nat, height: nat, data: Seq<u8>) -> Option<Pixels> {
    if data.len() == 4 * width * height {
        Some(Pixels { width, height, rgba: data })
    } else {
        None
    }
}

/// What is shown of a file, given the decoder that was chosen and the frame that
/// it handed out: the frame's pixels, or the placeholder where the decoder failed
/// or its frame does not hold the samples of its size. The JPEG decoder hands out
/// red, green and blue; the guessing decoder's frame holds alpha too.
pub open spec fn shown(codec: Codec, frame: Option<RawFrame>) -> Pixels {
    match frame {
        Some(raw) => {
            let pixels = match codec {
                Codec::Jpeg => pixels_of_rgb(raw.width as nat, raw.height as nat, raw.data@),
                Codec::Guess => pixels_of_rgba(raw.width as nat, raw.height as nat, raw.data@),
            };
            match pixels {
                Some(p) => p,
                None => placeholder_pixels(),
            }
        },
        None => placeholder_pixels(),
    }
}

/// The number of pixels of an image of the given size and, with `channels`
/// samples for each pixel, the number of its samples, where that number fits.
fn sample_count(width: u32, height: u32, channels: usize) -> (r: Option<(usize, usize)>)
    requires
        channels == 3 || channels == 4,
    ensures
        match r {
            Some((area, n)) => area == width * height && n == channels * area && n == channels
                * width * height,
            None => channels * width * height > usize::MAX,
        },
{
    let w: usize = width as usize;
    let h: usize = height as usize;
    assert(channels * width * height == channels * (width * height)) by (nonlinear_arith);
    match w.checked_mul(h) {
        Some(area) => {
            match area.checked_mul(channels) {
                Some(n) => Some((area, n)),
                None => None,
            }
        },
        None => {
            None
        },
    }
}

impl PixelBuffer {
    /// What is shown where nothing could be decoded: one black pixel.
    pub fn placeholder() -> (r: PixelBuffer)
        ensures
            r@ == placeholder_pixels(),
            r@.wf(),
    {
        let rgba: Vec<u8> = vec![0u8, 0u8, 0u8, 255u8];
        PixelBuffer { width: 1, height: 1, rgba }
    }

    /// The pixels of a frame of red, green and blue samples, with full alpha; none
    /// where the frame does not hold three samples for each pixel.
    pub fn from_rgb(frame: &RawFrame) -> (r: Option<PixelBuffer>)
        ensures
            match r {
                Some(buffer) => Some(buffer@) == pixels_of_rgb(
                    frame.width as nat,
                    frame.height as nat,
                    frame.data@,
                ) && buffer@.wf(),
                None => pixels_of_rgb(frame.width as nat, frame.height as nat, frame.data@)
                    is None,
            },
    {
        let len: usize = frame.data.len();
        match sample_count(frame.width, frame.height, 3) {
            Some((pixels, n)) => {
                if len != n {
                    return None;
                }
                let mut rgba: Vec<u8> = Vec::new();
                let mut i: usize = 0;
                while i < pixels
                    invariant
                        i <= pixels,
                        pixels == frame.data.len() / 3,
                        frame.data.len() == 3 * pixels,
                        rgba.len() == 4 * i,
                        forall|k: int| 0 <= k < 4 * i ==> #[trigger] rgba[k] == opaque(frame.data@)[k],
                    decreases pixels - i,
                {
                    rgba.push(frame.data[3 * i]);
                    rgba.push(frame.data[3 * i + 1]);
                    rgba.push(frame.data[3 * i + 2]);
                    rgba.push(255u8);
                    i += 1;
                }
                assert(rgba@ =~= opaque(frame.data@));
                assert(4 * pixels == 4 * frame.width * frame.height) by (nonlinear_arith)
                    requires
                        pixels == frame.width * frame.height,
                ;
                Some(
                    PixelBuffer {
                        width: frame.width as usize,
                        height: frame.height as usize,
                        rgba,
                    },
                )
            },
            None => None,
        }
    }

    /// The pixels of a frame of red, green, blue and alpha samples; none where the
    /// frame does not hold four samples for each pixel.
    pub fn from_rgba(frame: RawFrame) -> (r: Option<PixelBuffer>)
        ensures
            match r {
                Some(buffer) => Some(buffer@) == pixels_of_rgba(
                    frame.width as nat,
                    frame.height as nat,
                    frame.data@,
                ) && buffer@.wf(),
                None => pixels_of_rgba(frame.width as nat, frame.height as nat, frame.data@)
                    is None,
            },
    {
        let len: usize = frame.data.len();
        match sample_count(frame.width, frame.height, 4) {
            Some((_, n)) => {
                if len != n {
                    return None;
                }
                Some(
                    PixelBuffer {
                        width: frame.width as usize,
                        height: frame.height as usize,
                        rgba: frame.data,
                    },
                )
            },
            None => None,
        }
    }
}

/// The decoder for a file with the given extension, in any case of its letters; a
/// file without extension has none.
pub fn codec_for(hinted_extension: Option<&Vec<u8>>) -> (r: Option<Codec>)
    ensures
        r == spec_codec(
            match hinted_extension {
                Some(ext) => Some(ext@),
                None => None,
            },
        ),
{
    match hinted_extension {
        Some(ext) => {
            let short: Vec<u8> = vec![0x6a, 0x70, 0x67];
            let long: Vec<u8> = vec![0x6a, 0x70, 0x65, 0x67];
            assert(ext@.subrange(0, ext.len() as int) =~= ext@);
            if tail_eq_ignore_case(ext, 0, &short) || tail_eq_ignore_case(ext, 0, &long) {
                Some(Codec::Jpeg)
            } else {
                Some(Codec::Guess)
            }
        },
        None => None,
    }
}

/// What is shown of a file, given the decoder that was chosen and the frame that
/// it handed out.
pub fn show(codec: Codec, frame: Option<RawFrame>) -> (r: PixelBuffer)
    ensures
        r@ == shown(codec, frame),
        r@.wf(),
{
    match frame {
        Some(raw) => {
            let pixels = match codec {
                Codec::Jpeg => PixelBuffer::from_rgb(&raw),
                Codec::Guess => PixelBuffer::from_rgba(raw),
            };
            match pixels {
                Some(buffer) => buffer,
                None => PixelBuffer::placeholder(),
            }
        },
        None => PixelBuffer::placeholder(),
    }
}

/// Calls `jpeg_decoder::Decoder::decode` on the bytes and, where it gives samples,
/// `Decoder::info` for the size; `info` is asked only once `decode` has taken the
/// frame header. Nothing is claimed of what comes back: the decoder's vector code
/// does not round as its scalar code does, so the samples of one file may differ
/// from machine to machine.
#[verifier::external_body]
fn jpeg_frame(bytes: &Vec<u8>) -> (r: Option<RawFrame>) {
    let mut decoder = jpeg_decoder::Decoder::new(std::io::Cursor::new(bytes));
    match decoder.decode() {
        Ok(data) => match decoder.info() {
            Some(info) => Some(
                RawFrame { width: u32::from(info.width), height: u32::from(info.height), data },
            ),
            None => None,
        },
        Err(_) => None,
    }
}

/// Calls `image::load_from_memory` on the bytes and, where it gives an image,
/// `DynamicImage::to_rgba8` for samples with alpha, whose size and buffer are
/// handed on. Nothing is claimed of what comes back.
#[verifier::external_body]
fn guessed_frame(bytes: &Vec<u8>) -> (r: Option<RawFrame>) {
    match image::load_from_memory(bytes) {
        Ok(decoded) => {
            let rgba = decoded.to_rgba8();
            Some(RawFrame { width: rgba.width(), height: rgba.height(), data: rgba.into_raw() })
        },
        Err(_) => None,
    }
}

/// Decodes the bytes of a file for showing. The hinted extension selects the
/// decoder; what the decoder hands out is shown as `show` says. A file without
/// extension is not decoded, and the placeholder is shown. Whatever the decoder
/// does, the buffer that comes back holds four bytes for each of its pixels.
pub fn decode(bytes: &Vec<u8>, hinted_extension: Option<&Vec<u8>>) -> (r: PixelBuffer)
    ensures
        r@.wf(),
        match hinted_extension {
            Some(ext) => exists|frame: Option<RawFrame>|
                r@ == #[trigger] shown(codec_of(ext@), frame),
            None => r@ == placeholder_pixels(),
        },
{
    match codec_for(hinted_extension) {
        Some(Codec::Jpeg) => show(Codec::Jpeg, jpeg_frame(bytes)),
        Some(Codec::Guess) => show(Codec::Guess, guessed_frame(bytes)),
        None => PixelBuffer::placeholder(),
    }
}

} // verus!
