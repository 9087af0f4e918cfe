use vstd::prelude::*;
use vstd::string::*;

verus! {

/// One entry of a job: a source image and the rectangle to cut out of it.
/// A missing horizontal offset means 0.
#[derive(Clone, Debug)]
pub struct ImageInfo {
    pub path: String,
    pub offset_y: u32,
    pub offset_x: Option<u32>,
    pub width: u32,
    pub height: u32,
}

/// How hard the PNG encoder compresses.
#[derive(Clone, Copy, Debug, PartialEq, Eq, Structural)]
pub enum PngCompressType {
    Fast,
    Best,
}

/// The output format: PNG with a compression level, or JPEG with a quality
/// from 1 to 100.
#[derive(Clone, Copy, Debug, PartialEq, Eq, Structural)]
pub enum Format {
    Png(PngCompressType),
    Jpg(u8),
}

/// A job: the entries in stacking order (top first), and where to write the
/// result.
#[derive(Clone, Debug)]
pub struct GenerateEventArgs {
    pub imgs: Vec<ImageInfo>,
    pub dir: String,
    pub filename: String,
    pub format: Format,
}

/// A request of the front end to enable or disable a menu item.
#[derive(Clone, Debug)]
pub struct MenuDisableEventArgs {
    pub id: String,
    pub disabled: bool,
}

/// The horizontal offset of an entry, 0 where none is given.
pub open spec fn offset_x_of(info: ImageInfo) -> u32 {
    match info.offset_x {
        Some(x) => x,
        None => 0,
    }
}

pub open spec fn extension_of(format: Format) -> Seq<char> {
    match format {
        Format::Png(_) => ".png"@,
        Format::Jpg(_) => ".jpg"@,
    }
}

/// The file extension that a format is written with, dot included.
pub fn extension(format: &Format) -> (r: &'static str)
    ensures
        r@ == extension_of(*format),
{
    match format {
        Format::Png(_) => ".png",
        Format::Jpg(_) => ".jpg",
    }
}

/// The output file's name: the job's base name followed by the format's
/// extension.
pub fn output_file_name(filename: &String, format: &Format) -> (r: String)
    ensures
        r@ == filename@ + extension_of(*format),
{
    let base = String::from_str(filename.as_str());
    base.concat(extension(format))
}

} // verus!
