//! Still images: one file, one frame.

use vstd::prelude::*;

use crate::import::STILL_DELAY_CS;
use crate::model::{new_frame, next_key, Frame, FrameKeys};
use crate::raster::{is_drawable, Picture, Raster};
use crate::text::{chars_of, lowered, text_of};

verus! {

/// The format of an image file.
#[verifier::external_type_specification]
#[verifier::external_body]
pub struct ExImageFormat(image::ImageFormat);

/// Whether the extension, in lower case, names a format of the `image` crate.
pub open spec fn names_format(e: Seq<char>) -> bool {
    e == "avif"@ || e == "jpg"@ || e == "jpeg"@ || e == "jfif"@ || e == "png"@ || e == "apng"@ || e
        == "gif"@ || e == "webp"@ || e == "tif"@ || e == "tiff"@ || e == "tga"@ || e == "dds"@ || e
        == "bmp"@ || e == "ico"@ || e == "hdr"@ || e == "exr"@ || e == "pbm"@ || e == "pam"@ || e
        == "ppm"@ || e == "pgm"@ || e == "pnm"@ || e == "ff"@ || e == "qoi"@
}

/// Whether the extension, in lower case, is one of JPEG's.
pub open spec fn names_jpeg(e: Seq<char>) -> bool {
    e == "jpg"@ || e == "jpeg"@ || e == "jfif"@
}

/// Whether the extension, in lower case, is one of TIFF's.
pub open spec fn names_tiff(e: Seq<char>) -> bool {
    e == "tif"@ || e == "tiff"@
}

/// The format that an extension, in lower case, names.
pub uninterp spec fn format_named(extension: Seq<char>) -> Option<image::ImageFormat>;

/// The picture that a file of that format holds, if it holds one.
pub uninterp spec fn still_of(bytes: Seq<u8>, format: image::ImageFormat) -> Option<Picture>;

/// Calls `image::ImageFormat::from_extension`. Claimed of it: what it finds
/// depends on the extension in lower case alone, there is a format exactly
/// where `names_format` says so, and JPEG, TIFF and GIF are found under no
/// extensions but their own.
#[verifier::external_body]
fn format_of(extension: &str) -> (r: Option<image::ImageFormat>)
    ensures
        r == format_named(lowered(extension@)),
        r is Some <==> names_format(lowered(extension@)),
        r is Some ==> (r == format_named("jpg"@) <==> names_jpeg(lowered(extension@))),
        r is Some ==> (r == format_named("tiff"@) <==> names_tiff(lowered(extension@))),
        r is Some ==> (r == format_named("gif"@) <==> lowered(extension@) == "gif"@),
{
    image::ImageFormat::from_extension(extension)
}

/// Why an image file gave no picture.
#[derive(Debug)]
pub enum ReadError {
    /// It holds none that can be read.
    Unreadable(String),
    /// The picture takes more memory than it may, or than there is.
    NoMemory(String),
}

/// Whether `read` is what reading a file can give that holds the picture
/// `held`, or none: the picture where its pixels are `fixed` by the file, one
/// of its size otherwise, and `Unreadable` for a file without one, where that
/// is `told` from a want of memory.
pub open spec fn comes_of(
    held: Option<Picture>,
    fixed: bool,
    told: bool,
    read: Result<Raster, ReadError>,
) -> bool {
    match read {
        Ok(pixels) => {
            &&& pixels.wf()
            &&& held is Some
            &&& held->0.width == pixels.width
            &&& held->0.height == pixels.height
            &&& fixed ==> held->0 == pixels@
        },
        Err(ReadError::Unreadable(_)) => told ==> held is None,
        Err(ReadError::NoMemory(_)) => true,
    }
}

/// The bytes of the largest picture that is read: one byte a pixel in the 512
/// MiB that a decoder may fill, and then four. A machine that cannot address as
/// many does not read stills.
pub const STILL_BYTES: u64 = 0x8000_0000;

/// Calls `image::load_from_memory_with_format`, and `to_rgba8` on what it
/// returns. Claimed of them: whether the file holds a picture, its size and its
/// pixels depend on the bytes and the format alone, and a picture holds four
/// bytes a pixel.
///
/// Left unsaid are the pixels of a JPEG, which the decoder computes by whatever
/// the processor offers, and those of a TIFF, which can hold a JPEG. Left unsaid
/// too is when memory runs short: that is `NoMemory`, except that the GIF
/// decoder reports it like any other fault. The text of an error is the crate's.
#[verifier::external_body]
fn load_still(bytes: &Vec<u8>, format: image::ImageFormat) -> (r: Result<Raster, ReadError>)
    requires
        STILL_BYTES <= isize::MAX,
    ensures
        comes_of(
            still_of(bytes@, format),
            Some(format) != format_named("jpg"@) && Some(format) != format_named("tiff"@),
            Some(format) != format_named("gif"@),
            r,
        ),
{
    match image::load_from_memory_with_format(bytes, format) {
        Ok(image) => {
            let out = image.to_rgba8();
            Ok(Raster { width: out.width(), height: out.height(), data: out.into_raw() })
        },
        Err(image::ImageError::Limits(e)) => Err(ReadError::NoMemory(e.to_string())),
        Err(image::ImageError::IoError(e)) if e.kind() == std::io::ErrorKind::OutOfMemory => {
            Err(ReadError::NoMemory(e.to_string()))
        },
        Err(e) => Err(ReadError::Unreadable(e.to_string())),
    }
}

/// Whether `read` is what reading an image file of that name can give: what
/// `still_of` says of its bytes and of the format that the extension names. An
/// extension that names none is what the file is refused with.
pub open spec fn still_read(
    bytes: Seq<u8>,
    extension: Seq<char>,
    read: Result<Raster, ReadError>,
) -> bool {
    let e = lowered(extension);
    if names_format(e) {
        &&& format_named(e) is Some
        &&& comes_of(
            still_of(bytes, format_named(e)->0),
            !names_jpeg(e) && !names_tiff(e),
            e != "gif"@,
            read,
        )
    } else {
        read matches Err(ReadError::Unreadable(text)) && text@ == extension
    }
}

/// Whether `r` is what `load_still` can make of a file of that format. On
/// another machine it can be something else.
pub closed spec fn loaded(
    bytes: Vec<u8>,
    format: image::ImageFormat,
    r: Result<Raster, ReadError>,
) -> bool {
    call_ensures(load_still, (&bytes, format), r)
}

/// What a function reads of a file of that format.
fn loaded_by<F: Fn(&Vec<u8>, image::ImageFormat) -> Result<Raster, ReadError>>(
    f: F,
    bytes: &Vec<u8>,
    format: image::ImageFormat,
) -> (r: Result<Raster, ReadError>)
    requires
        call_requires(f, (bytes, format)),
    ensures
        call_ensures(f, (bytes, format), r),
{
    f(bytes, format)
}

/// The picture in an image file, or what the decoder had to say. A file whose
/// extension names no format is refused with the extension.
pub fn read_still(bytes: &Vec<u8>, extension: &str) -> (r: Result<Raster, ReadError>)
    requires
        STILL_BYTES <= isize::MAX,
    ensures
        still_read(bytes@, extension@, r),
        names_format(lowered(extension@)) ==> loaded(
            *bytes,
            format_named(lowered(extension@))->0,
            r,
        ),
{
    match format_of(extension) {
        Some(format) => loaded_by(load_still, bytes, format),
        None => Err(ReadError::Unreadable(text_of(&chars_of(extension)))),
    }
}

/// Reading a file again under an extension of the same format gives the same
/// picture, or one of the same size where the pixels of the format are not
/// fixed; and a file that gave a picture is not found unreadable.
pub proof fn law_a_still_reads_the_same_again(
    bytes: Seq<u8>,
    extension: Seq<char>,
    first: Result<Raster, ReadError>,
    other: Seq<char>,
    again: Result<Raster, ReadError>,
)
    requires
        still_read(bytes, extension, first),
        still_read(bytes, other, again),
        names_format(lowered(extension)),
        names_format(lowered(other)),
        format_named(lowered(extension)) == format_named(lowered(other)),
    ensures
        first is Ok && again is Ok ==> first->Ok_0.width == again->Ok_0.width && first->Ok_0.height
            == again->Ok_0.height,
        first is Ok && again is Ok && !names_jpeg(lowered(extension)) && !names_tiff(
            lowered(extension),
        ) && !names_jpeg(lowered(other)) && !names_tiff(lowered(other)) ==> first->Ok_0@
            == again->Ok_0@,
        first is Ok && lowered(other) != "gif"@ ==> !(again matches Err(ReadError::Unreadable(_))),
{
}

/// Why a still image did not become a frame.
#[derive(Debug)]
pub enum StillError {
    /// The file did not decode.
    Unreadable(String),
    /// It took more memory than it may, or than there is.
    NoMemory(String),
    /// A picture of that size can be no frame.
    TooLarge,
}

/// A single still image as one frame. Its delay is what a frame appended to
/// an empty document gets; a splice re-delays it from its neighbour.
pub fn still_frame(pixels: Raster, keys: &mut FrameKeys) -> (r: Result<Frame, StillError>)
    requires
        pixels.wf(),
    ensures
        match r {
            Ok(frame) => {
                &&& pixels@.within_limit()
                &&& frame.wf()
                &&& frame@ == new_frame(pixels@, STILL_DELAY_CS, old(keys).next)
                &&& final(keys).next == next_key(old(keys).next)
            },
            Err(e) => {
                &&& e is TooLarge
                &&& !pixels@.within_limit()
                &&& *final(keys) == *old(keys)
            },
        },
{
    if !is_drawable(pixels.width, pixels.height) {
        return Err(StillError::TooLarge);
    }
    Ok(Frame::new(pixels, STILL_DELAY_CS, keys))
}

/// Whether `r` is the frame of what was read of an image file, or why there is
/// none. Only a frame takes a key.
pub open spec fn still_made(
    read: Result<Raster, ReadError>,
    before: FrameKeys,
    r: Result<Frame, StillError>,
    after: FrameKeys,
) -> bool {
    match (read, r) {
        (Ok(pixels), Ok(frame)) => {
            &&& pixels.wf()
            &&& pixels@.within_limit()
            &&& frame.wf()
            &&& frame@ == new_frame(pixels@, STILL_DELAY_CS, before.next)
            &&& after.next == next_key(before.next)
        },
        (Ok(pixels), Err(e)) => e is TooLarge && pixels.wf() && !pixels@.within_limit() && after
            == before,
        (Err(ReadError::Unreadable(text)), Err(e)) => e == StillError::Unreadable(text) && after
            == before,
        (Err(ReadError::NoMemory(text)), Err(e)) => e == StillError::NoMemory(text) && after
            == before,
        (Err(_), Ok(_)) => false,
    }
}

/// The frame of what was read of an image file.
pub fn still_from(read: Result<Raster, ReadError>, keys: &mut FrameKeys) -> (r: Result<
    Frame,
    StillError,
>)
    requires
        read matches Ok(pixels) ==> pixels.wf(),
    ensures
        still_made(read, *old(keys), r, *final(keys)),
{
    match read {
        Ok(pixels) => still_frame(pixels, keys),
        Err(ReadError::Unreadable(e)) => Err(StillError::Unreadable(e)),
        Err(ReadError::NoMemory(e)) => Err(StillError::NoMemory(e)),
    }
}

/// What a function reads of an image file.
fn read_by<F: Fn(&Vec<u8>, &str) -> Result<Raster, ReadError>>(
    f: F,
    bytes: &Vec<u8>,
    extension: &str,
) -> (r: Result<Raster, ReadError>)
    requires
        call_requires(f, (bytes, extension)),
    ensures
        call_ensures(f, (bytes, extension), r),
{
    f(bytes, extension)
}

/// The frame of an image file: that of what `read_still` reads of it.
pub fn decode_still(bytes: &Vec<u8>, extension: &str, keys: &mut FrameKeys) -> (r: Result<
    Frame,
    StillError,
>)
    requires
        STILL_BYTES <= isize::MAX,
    ensures
        exists|read: Result<Raster, ReadError>|
            call_ensures(read_still, (bytes, extension), read) && still_read(
                bytes@,
                extension@,
                read,
            ) && #[trigger] still_made(read, *old(keys), r, *final(keys)),
{
    let read = read_by(read_still, bytes, extension);
    let ghost was = read;
    let r = still_from(read, keys);
    assert(still_made(was, *old(keys), r, *keys));
    r
}

} // verus!
