//! Decoding the menu bar icon, a PNG image, into RGBA pixels.

use vstd::prelude::*;

verus! {

/// A PNG decoder over bytes in memory. Verus cannot declare `png::Decoder`
/// itself (its parameter is bounded by `std::io::Read`), so it is held here,
/// out of Verus's sight.
#[verifier::external_body]
pub struct PngDecoder<'a> {
    inner: png::Decoder<&'a [u8]>,
}

/// A PNG reader over bytes in memory, held for the same reason.
#[verifier::external_body]
pub struct PngReader<'a> {
    inner: png::Reader<&'a [u8]>,
}

/// A decoder that has read nothing yet, with the bytes it decodes.
pub struct PngSource<'a> {
    decoder: PngDecoder<'a>,
    bytes: &'a [u8],
}

/// A reader past the image header of `bytes` that has decoded no frame yet.
/// Decoding a frame consumes it, so a stream only ever yields its first frame.
pub struct PngStream<'a> {
    reader: PngReader<'a>,
    bytes: &'a [u8],
}

impl<'a> View for PngSource<'a> {
    type V = Seq<u8>;

    closed spec fn view(&self) -> Seq<u8> {
        self.bytes@
    }
}

impl<'a> View for PngStream<'a> {
    type V = Seq<u8>;

    closed spec fn view(&self) -> Seq<u8> {
        self.bytes@
    }
}

#[verifier::external_type_specification]
#[verifier::external_body]
pub struct ExPngDecodingError(png::DecodingError);

/// Whether `png::Decoder::read_info`, on a decoder made over `bytes`, reads a
/// valid image header.
pub uninterp spec fn png_header_ok(bytes: Seq<u8>) -> bool;

/// The buffer size `png::Reader::output_buffer_size` asks for, on a reader
/// just past the image header of `bytes`.
pub uninterp spec fn png_buffer_size(bytes: Seq<u8>) -> usize;

/// What `png::Reader::next_frame` does on a reader just past the image header
/// of `bytes`, given a buffer holding `buf`: the buffer afterwards, and the
/// frame's `line_size`, `width` and `height`; `None` when it fails.
pub uninterp spec fn png_first_frame(bytes: Seq<u8>, buf: Seq<u8>) -> Option<(Seq<u8>, usize, u32, u32)>;

/// Starts decoding `bytes` with `png::Decoder::new`, keeping the bytes beside
/// the decoder.
#[verifier::external_body]
fn png_decoder<'a>(bytes: &'a [u8]) -> (src: PngSource<'a>)
    ensures
        src@ == bytes@,
{
    PngSource { decoder: PngDecoder { inner: png::Decoder::new(bytes) }, bytes }
}

/// Reads the image header with `png::Decoder::read_info`. Whether it succeeds
/// depends on the bytes alone (the decoder has png's default limits).
#[verifier::external_body]
fn png_read_info<'a>(src: PngSource<'a>) -> (r: Result<PngStream<'a>, png::DecodingError>)
    ensures
        r is Ok == png_header_ok(src@),
        r matches Ok(stream) ==> stream@ == src@,
{
    match src.decoder.inner.read_info() {
        Ok(inner) => Ok(PngStream { reader: PngReader { inner }, bytes: src.bytes }),
        Err(e) => Err(e),
    }
}

/// The bytes a decoded frame needs, from `png::Reader::output_buffer_size`.
#[verifier::external_body]
fn png_output_buffer_size<'a>(stream: &PngStream<'a>) -> (size: usize)
    ensures
        size == png_buffer_size(stream@),
{
    stream.reader.inner.output_buffer_size()
}

/// Decodes the first frame into `buf` with `png::Reader::next_frame`, and
/// hands back the `line_size`, `width` and `height` of its `png::OutputInfo`.
/// The buffer keeps its length (the call writes into it as a slice).
#[verifier::external_body]
fn png_next_frame<'a>(stream: PngStream<'a>, buf: &mut Vec<u8>) -> (r: Result<
    (usize, u32, u32),
    png::DecodingError,
>)
    ensures
        final(buf)@.len() == old(buf)@.len(),
        match r {
            Ok((line_size, width, height)) => png_first_frame(stream@, old(buf)@) == Some(
                (final(buf)@, line_size, width, height),
            ),
            Err(_) => png_first_frame(stream@, old(buf)@) is None,
        },
{
    let mut reader = stream.reader.inner;
    match reader.next_frame(buf.as_mut_slice()) {
        Ok(info) => Ok((info.line_size, info.width, info.height)),
        Err(e) => Err(e),
    }
}

/// Why an icon could not be decoded.
#[derive(Debug, PartialEq, Eq, Structural)]
pub enum IconError {
    /// The bytes are not a PNG image.
    NotPng,
    /// The image data could not be decoded.
    Undecodable,
}

/// Decoded pixels: rows of RGBA samples.
pub struct RgbaImage {
    pub rgba: Vec<u8>,
    pub width: u32,
    pub height: u32,
}

/// The first `used` bytes of a frame buffer (all of it if it is shorter): the
/// bytes past the decoded frame are not pixels.
pub fn frame_pixels(buf: Vec<u8>, used: usize) -> (pixels: Vec<u8>)
    ensures
        pixels@ == buf@.take(if used < buf@.len() {
            used as int
        } else {
            buf@.len() as int
        }),
{
    let mut pixels = buf;
    let ghost before = pixels@;
    pixels.truncate(used);
    assert(pixels@ =~= before.take(if used < before.len() {
        used as int
    } else {
        before.len() as int
    }));
    pixels
}

/// The length of a frame of `height` rows of `line_size` bytes
/// (`png::OutputInfo::buffer_size`), within a buffer of `len` bytes.
pub open spec fn frame_len(line_size: usize, height: u32, len: nat) -> nat {
    if line_size * height < len {
        (line_size * height) as nat
    } else {
        len
    }
}

/// What decoding `bytes` gives: `NotPng` without a valid header; otherwise the
/// first frame, decoded into a zeroed buffer of the size png asks for and cut
/// to the frame's length, with its width and height; `Undecodable` when that
/// frame cannot be decoded.
pub open spec fn png_decoding(bytes: Seq<u8>) -> Result<(Seq<u8>, u32, u32), IconError> {
    if !png_header_ok(bytes) {
        Err(IconError::NotPng)
    } else {
        match png_first_frame(bytes, Seq::new(png_buffer_size(bytes) as nat, |i: int| 0u8)) {
            None => Err(IconError::Undecodable),
            Some((buf, line_size, width, height)) => Ok(
                (buf.take(frame_len(line_size, height, buf.len()) as int), width, height),
            ),
        }
    }
}

/// A decoded image holds every row of the frame: when png's frame of
/// `height` rows of `line_size` bytes fits in the buffer it decoded into, the
/// pixels are exactly the first `line_size * height` bytes of that buffer,
/// with the frame's width and height.
pub proof fn lemma_decoding_keeps_every_row(
    bytes: Seq<u8>,
    buf: Seq<u8>,
    line_size: usize,
    width: u32,
    height: u32,
)
    requires
        png_header_ok(bytes),
        png_first_frame(bytes, Seq::new(png_buffer_size(bytes) as nat, |i: int| 0u8)) == Some(
            (buf, line_size, width, height),
        ),
        line_size * height <= buf.len(),
    ensures
        png_decoding(bytes) == Ok::<(Seq<u8>, u32, u32), IconError>(
            (buf.take(line_size * height), width, height),
        ),
        buf.take(line_size * height).len() == line_size * height,
{
}

/// Decodes the PNG image in `bytes`: its first frame, as many bytes as the
/// frame holds, with the frame's width and height.
pub fn decode_png(bytes: &[u8]) -> (r: Result<RgbaImage, IconError>)
    ensures
        match r {
            Ok(img) => png_decoding(bytes@) == Ok::<(Seq<u8>, u32, u32), IconError>((img.rgba@, img.width, img.height)),
            Err(e) => png_decoding(bytes@) == Err::<(Seq<u8>, u32, u32), IconError>(e),
        },
{
    let stream = match png_read_info(png_decoder(bytes)) {
        Ok(s) => s,
        Err(_) => {
            return Err(IconError::NotPng);
        },
    };
    let size = png_output_buffer_size(&stream);
    let mut buf: Vec<u8> = vec![0u8; size];
    assert(buf@ =~= Seq::new(size as nat, |i: int| 0u8));
    let ghost zeroed = buf@;
    let (line_size, width, height) = match png_next_frame(stream, &mut buf) {
        Ok(frame) => frame,
        Err(_) => {
            return Err(IconError::Undecodable);
        },
    };
    assert(png_first_frame(bytes@, zeroed) == Some((buf@, line_size, width, height)));
    let used = match line_size.checked_mul(height as usize) {
        Some(n) => n,
        None => buf.len(),
    };
    Ok(RgbaImage { rgba: frame_pixels(buf, used), width, height })
}

} // verus!
