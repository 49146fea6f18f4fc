//! The calls into the crates that this library rests on: `byteorder` for the
//! numbers of the files, `flate2` for the compression of the pixels, `image`
//! for cutting a rectangle out of an image, and two functions of std on
//! strings. Nothing in this file is proved: every contract here says what
//! the function that is called is documented to do, and the rest of the
//! library is proved from these contracts.

use crate::sprite::crop_pixels;
use crate::wire::{i32_from_le, i32_le_bytes, u32_from_le, u32_le_bytes};
use byteorder::{ByteOrder, LittleEndian};
use flate2::Compression;
use flate2::read::GzDecoder;
use flate2::write::GzEncoder;
use std::io::{Read, Write};
use vstd::prelude::*;
use vstd::utf8::{decode_utf8, valid_utf8};

verus! {

/// `byteorder::LittleEndian::read_u32`: the number that the first four bytes
/// of `buf` stand for in little-endian order. It panics on fewer than four
/// bytes, which `requires` leaves out.
#[verifier::external_body]
pub(crate) fn le_read_u32(buf: &[u8]) -> (value: u32)
    requires
        buf@.len() >= 4,
    ensures
        value == u32_from_le(buf@.subrange(0, 4)),
{
    LittleEndian::read_u32(buf)
}

/// `byteorder::LittleEndian::read_i32`: the signed number with the bits of
/// the number that the first four bytes of `buf` stand for. It panics on fewer
/// than four bytes, which `requires` leaves out.
#[verifier::external_body]
pub(crate) fn le_read_i32(buf: &[u8]) -> (value: i32)
    requires
        buf@.len() >= 4,
    ensures
        value == i32_from_le(buf@.subrange(0, 4)),
{
    LittleEndian::read_i32(buf)
}

/// `byteorder::LittleEndian::write_u32` into four bytes: the little-endian
/// bytes of `value`.
#[verifier::external_body]
pub(crate) fn le_write_u32(value: u32) -> (out: [u8; 4])
    ensures
        out@ == u32_le_bytes(value),
{
    let mut out: [u8; 4] = [0u8; 4];
    LittleEndian::write_u32(&mut out, value);
    out
}

/// `byteorder::LittleEndian::write_i32` into four bytes: the little-endian
/// bytes of the bits of `value`.
#[verifier::external_body]
pub(crate) fn le_write_i32(value: i32) -> (out: [u8; 4])
    ensures
        out@ == i32_le_bytes(value),
{
    let mut out: [u8; 4] = [0u8; 4];
    LittleEndian::write_i32(&mut out, value);
    out
}

/// `String::from_utf8` of std: the text that `bytes` encode, where they are
/// valid UTF-8, and `None` where they are not.
#[verifier::external_body]
pub(crate) fn string_from_utf8(bytes: Vec<u8>) -> (text: Option<String>)
    ensures
        match text {
            Some(s) => valid_utf8(bytes@) && s@ == decode_utf8(bytes@),
            None => !valid_utf8(bytes@),
        },
{
    String::from_utf8(bytes).ok()
}

/// `String::push` of std: appends one character.
#[verifier::external_body]
pub(crate) fn push_char(text: &mut String, c: char)
    ensures
        final(text)@ == old(text)@.push(c),
{
    text.push(c)
}

/// `std::io::Error`, the error of `flate2`'s encoder and decoder. Nothing is
/// said of what it holds.
#[verifier::external_type_specification]
#[verifier::external_body]
pub struct ExIoError(std::io::Error);

/// The gzip member that `flate2`'s encoder writes for `data` at `level`, or
/// `None` where the encoder reports a failure.
pub uninterp spec fn gzip(data: Seq<u8>, level: u32) -> Option<Seq<u8>>;

/// The bytes that `flate2`'s decoder reads out of the gzip member at the
/// start of `data`, or `None` where it reports a failure.
pub uninterp spec fn gunzip(data: Seq<u8>) -> Option<Seq<u8>>;

/// `flate2::write::GzEncoder` over a vector, with `write_all` and `finish`:
/// the gzip member for `data`. What it writes, `flate2::read::GzDecoder` reads
/// back to `data`, as the documentation of the two shows.
#[verifier::external_body]
pub(crate) fn gzip_encode(data: &[u8], level: u32) -> (outcome: Result<Vec<u8>, std::io::Error>)
    requires
        level <= 9,
    ensures
        match outcome {
            Ok(member) => gzip(data@, level) == Some(member@) && gunzip(member@) == Some(data@),
            Err(_) => gzip(data@, level) is None,
        },
{
    let mut encoder = GzEncoder::new(Vec::new(), Compression::new(level));
    encoder.write_all(data)?;
    encoder.finish()
}

/// `flate2::read::GzDecoder` over a slice, with `read_to_end`: the bytes of
/// the gzip member at the start of `data`.
#[verifier::external_body]
pub(crate) fn gzip_decode(data: &[u8]) -> (outcome: Result<Vec<u8>, std::io::Error>)
    ensures
        match outcome {
            Ok(bytes) => gunzip(data@) == Some(bytes@),
            Err(_) => gunzip(data@) is None,
        },
{
    let mut decoder = GzDecoder::new(data);
    let mut bytes: Vec<u8> = Vec::new();
    decoder.read_to_end(&mut bytes)?;
    Ok(bytes)
}

/// `image::imageops::crop_imm` on an RGBA image that is built from `pixels`
/// with `ImageBuffer::from_raw`, copied out with `to_image` and `into_raw`:
/// the pixels of the rectangle, row by row. `from_raw` gives no image for too
/// few bytes, and a rectangle that leaves the image is cut down: `requires`
/// leaves both out.
#[verifier::external_body]
pub(crate) fn crop_rgba(
    pixels: &Vec<u8>,
    width: u32,
    height: u32,
    x: u32,
    y: u32,
    w: u32,
    h: u32,
) -> (out: Vec<u8>)
    requires
        pixels@.len() == 4 * width * height,
        x + w <= width,
        y + h <= height,
    ensures
        out@ == crop_pixels(pixels@, width as int, x as int, y as int, w as int, h as int),
{
    let sheet = image::RgbaImage::from_raw(width, height, pixels.clone()).unwrap();
    image::imageops::crop_imm(&sheet, x, y, w, h).to_image().into_raw()
}

} // verus!
