use crate::error::{EncodeError, LoadError};
use crate::model::{Format, PngCompressType};
use crate::raster::{rows_of_flat, Raster, RasterView};
use image::codecs::jpeg::JpegEncoder;
use image::codecs::png::{CompressionType, FilterType, PngEncoder};
use image::ImageEncoder;
use vstd::prelude::*;

verus! {

#[verifier::external_type_specification]
#[verifier::external_body]
pub struct ExImageError(image::ImageError);

/// What `image` decodes a byte string to: width, height and RGBA bytes, or
/// nothing where the bytes are no image it can read.
pub uninterp spec fn decoded_of(bytes: Seq<u8>) -> Option<(u32, u32, Seq<u8>)>;

/// The PNG file that `image` writes for the given RGBA bytes, size and
/// compression (best where `best`, else fast), or nothing where it fails.
pub uninterp spec fn png_of(rgba: Seq<u8>, width: u32, height: u32, best: bool) -> Option<Seq<u8>>;

/// The JPEG file that `image` writes for the given RGB bytes, size and
/// quality, or nothing where it fails.
pub uninterp spec fn jpeg_of(rgb: Seq<u8>, width: u32, height: u32, quality: u8) -> Option<Seq<u8>>;

/// Relies on `image::load_from_memory` (format guessed from the bytes) and
/// `DynamicImage::to_rgba8`: the decoded image depends on the bytes alone.
#[verifier::external_body]
fn decode_rgba8(bytes: &Vec<u8>) -> (r: Result<(u32, u32, Vec<u8>), image::ImageError>)
    ensures
        r matches Ok((w, h, d)) ==> decoded_of(bytes@) == Some((w, h, d@)),
        r is Err ==> decoded_of(bytes@) is None,
{
    match image::load_from_memory(bytes) {
        Ok(img) => {
            let rgba = img.to_rgba8();
            Ok((rgba.width(), rgba.height(), rgba.into_raw()))
        },
        Err(e) => Err(e),
    }
}

/// Relies on `PngEncoder::new_with_quality` with adaptive filtering and
/// `PngEncoder::write_image` with 8-bit RGBA, which panics unless the buffer
/// holds exactly four bytes per pixel.
#[verifier::external_body]
fn encode_png(rgba: &Vec<u8>, width: u32, height: u32, level: PngCompressType) -> (r: Result<
    Vec<u8>,
    image::ImageError,
>)
    requires
        rgba@.len() == 4 * width * height,
    ensures
        r matches Ok(v) ==> png_of(rgba@, width, height, level == PngCompressType::Best) == Some(
            v@,
        ),
        r is Err ==> png_of(rgba@, width, height, level == PngCompressType::Best) is None,
{
    let compression = match level {
        PngCompressType::Fast => CompressionType::Fast,
        PngCompressType::Best => CompressionType::Best,
    };
    let mut out: Vec<u8> = Vec::new();
    let encoder = PngEncoder::new_with_quality(&mut out, compression, FilterType::Adaptive);
    match encoder.write_image(rgba, width, height, image::ColorType::Rgba8) {
        Ok(()) => Ok(out),
        Err(e) => Err(e),
    }
}

/// Relies on `JpegEncoder::new_with_quality` and `JpegEncoder::encode` with
/// 8-bit RGB, which panics unless the buffer holds exactly three bytes per
/// pixel.
#[verifier::external_body]
fn encode_jpeg(rgb: &Vec<u8>, width: u32, height: u32, quality: u8) -> (r: Result<
    Vec<u8>,
    image::ImageError,
>)
    requires
        rgb@.len() == 3 * width * height,
    ensures
        r matches Ok(v) ==> jpeg_of(rgb@, width, height, quality) == Some(v@),
        r is Err ==> jpeg_of(rgb@, width, height, quality) is None,
{
    let mut out: Vec<u8> = Vec::new();
    let mut encoder = JpegEncoder::new_with_quality(&mut out, quality);
    match encoder.encode(rgb, width, height, image::ColorType::Rgb8) {
        Ok(()) => Ok(out),
        Err(e) => Err(e),
    }
}

/// What a byte string decodes to, as a raster; nothing where it is no image,
/// or where the decoder's buffer does not hold four bytes per pixel.
pub open spec fn decoded_raster(bytes: Seq<u8>) -> Option<RasterView> {
    match decoded_of(bytes) {
        Some((w, h, d)) => if d.len() == 4 * w * h {
            Some(
                RasterView {
                    width: w as nat,
                    height: h as nat,
                    rows: rows_of_flat(d, w as nat, h as nat),
                },
            )
        } else {
            None
        },
        None => None,
    }
}

/// Decodes an image file of any format that the decoder knows, telling the
/// format by the bytes, into RGBA.
pub fn decode_image(bytes: &Vec<u8>) -> (r: Result<Raster, LoadError>)
    ensures
        r is Err ==> r == Err::<Raster, LoadError>(LoadError::Decode),
        r is Ok <==> decoded_raster(bytes@) is Some,
        r matches Ok(img) ==> img.wf() && Some(img@) == decoded_raster(bytes@),
{
    match decode_rgba8(bytes) {
        Ok((w, h, data)) => match Raster::from_rgba(w, h, data) {
            Some(img) => Ok(img),
            None => Err(LoadError::Decode),
        },
        Err(_) => Err(LoadError::Decode),
    }
}

/// Channel `c` of a pixel laid over opaque black: `c * alpha / 255`.
pub open spec fn over_black(c: u8, alpha: u8) -> u8 {
    ((c as nat * alpha as nat) / 255) as u8
}

/// An RGBA row as RGB over opaque black.
pub open spec fn rgb_row(row: Seq<u8>) -> Seq<u8> {
    Seq::new(
        (row.len() / 4 * 3) as nat,
        |i: int| over_black(row[4 * (i / 3) + i % 3], row[4 * (i / 3) + 3]),
    )
}

/// The RGB bytes of a raster laid over opaque black, row after row.
pub open spec fn rgb_of(img: RasterView) -> Seq<u8> {
    img.rows.map_values(|r: Seq<u8>| rgb_row(r)).flatten()
}

/// A canvas as the format's file holds it; nothing where the encoder fails.
pub open spec fn encoding_of(canvas: RasterView, format: Format) -> Option<Seq<u8>> {
    match format {
        Format::Png(level) => png_of(
            canvas.rows.flatten(),
            canvas.width as u32,
            canvas.height as u32,
            level == PngCompressType::Best,
        ),
        Format::Jpg(q) => jpeg_of(rgb_of(canvas), canvas.width as u32, canvas.height as u32, q),
    }
}

proof fn lemma_flatten_len(rows: Seq<Seq<u8>>, len: nat)
    requires
        forall|i: int| 0 <= i < rows.len() ==> (#[trigger] rows[i]).len() == len,
    ensures
        rows.flatten().len() == rows.len() * len,
    decreases rows.len(),
{
    if rows.len() > 0 {
        let rest = rows.drop_first();
        assert forall|i: int| 0 <= i < rest.len() implies (#[trigger] rest[i]).len() == len by {
            assert(rest[i] == rows[i + 1]);
        }
        lemma_flatten_len(rest, len);
        assert(rows[0].len() == len);
        assert(rows.len() * len == len + rest.len() * len) by (nonlinear_arith)
            requires rows.len() == rest.len() + 1;
    }
}

fn channel_over_black(c: u8, alpha: u8) -> (r: u8)
    ensures
        r == over_black(c, alpha),
{
    proof {
        assert((c as nat) * (alpha as nat) <= 255 * 255) by (nonlinear_arith)
            requires c <= 255, alpha <= 255;
    }
    let wide: u32 = (c as u32) * (alpha as u32);
    (wide / 255) as u8
}

/// Lays a raster over opaque black and drops the alpha channel: each colour
/// channel becomes `c * alpha / 255`, so what is transparent turns black.
pub fn flatten_on_black(img: &Raster) -> (r: Vec<u8>)
    requires
        img.wf(),
    ensures
        r@ == rgb_of(img@),
{
    let ghost rgb_rows = img@.rows.map_values(|r: Seq<u8>| rgb_row(r));
    let mut out: Vec<u8> = Vec::new();
    let mut y: usize = 0;
    while y < img.rows.len()
        invariant
            img.wf(),
            y <= img.rows@.len(),
            rgb_rows == img@.rows.map_values(|r: Seq<u8>| rgb_row(r)),
            out@ == rgb_rows.take(y as int).flatten_alt(),
        decreases img.rows@.len() - y,
    {
        let row = &img.rows[y];
        assert(img@.rows[y as int] == row@);
        assert(row@.len() == 4 * img.width);
        let n = row.len();
        let ghost before = out@;
        let ghost target = rgb_row(row@);
        let mut p: usize = 0;
        while p < n
            invariant
                n == row@.len(),
                n % 4 == 0,
                p % 4 == 0,
                p <= n,
                target == rgb_row(row@),
                out@ == before + target.take((p / 4 * 3) as int),
            decreases n - p,
        {
            let a = row[p + 3];
            let red = channel_over_black(row[p], a);
            let green = channel_over_black(row[p + 1], a);
            let blue = channel_over_black(row[p + 2], a);
            out.push(red);
            out.push(green);
            out.push(blue);
            proof {
                let q = p / 4 * 3;
                assert((p + 4) / 4 * 3 == q + 3);
                assert(4 * ((q + 0) / 3) == p && (q + 0) % 3 == 0);
                assert(4 * ((q + 1) / 3) == p && (q + 1) % 3 == 1);
                assert(4 * ((q + 2) / 3) == p && (q + 2) % 3 == 2);
                assert(q + 3 <= target.len());
                assert(target[q] == red);
                assert(target[q + 1] == green);
                assert(target[q + 2] == blue);
                assert(out@ =~= before + target.take(q + 3));
            }
            p = p + 4;
        }
        proof {
            assert(p == n);
            assert(target.take((p / 4 * 3) as int) =~= target);
            assert(rgb_rows.take(y + 1).drop_last() =~= rgb_rows.take(y as int));
            assert(rgb_rows[y as int] == target);
        }
        y = y + 1;
    }
    proof {
        assert(rgb_rows.take(img.rows@.len() as int) =~= rgb_rows);
        rgb_rows.lemma_flatten_and_flatten_alt_are_equivalent();
    }
    out
}

/// Encodes a canvas in the given format: PNG keeps every pixel and its
/// alpha; JPEG gets the canvas laid over opaque black.
pub fn encode_canvas(canvas: &Raster, format: &Format) -> (r: Result<Vec<u8>, EncodeError>)
    requires
        canvas.wf(),
    ensures
        r is Err ==> r == Err::<Vec<u8>, EncodeError>(EncodeError::Codec),
        r is Ok <==> encoding_of(canvas@, *format) is Some,
        r matches Ok(v) ==> encoding_of(canvas@, *format) == Some(v@),
{
    let ghost rows = canvas@.rows;
    match format {
        Format::Png(level) => {
            let data = canvas.to_rgba();
            proof {
                lemma_flatten_len(rows, 4 * canvas.width as nat);
                assert(rows.len() * (4 * canvas.width) == 4 * canvas.width * canvas.height)
                    by (nonlinear_arith) requires rows.len() == canvas.height;
            }
            match encode_png(&data, canvas.width, canvas.height, *level) {
                Ok(v) => Ok(v),
                Err(_) => Err(EncodeError::Codec),
            }
        },
        Format::Jpg(q) => {
            let data = flatten_on_black(canvas);
            proof {
                let rgb_rows = rows.map_values(|r: Seq<u8>| rgb_row(r));
                assert forall|i: int| 0 <= i < rgb_rows.len() implies (#[trigger] rgb_rows[i]).len()
                    == 3 * canvas.width by {
                    assert(rows[i].len() == 4 * canvas.width);
                }
                lemma_flatten_len(rgb_rows, 3 * canvas.width as nat);
                assert(rows.len() * (3 * canvas.width) == 3 * canvas.width * canvas.height)
                    by (nonlinear_arith) requires rows.len() == canvas.height;
            }
            match encode_jpeg(&data, canvas.width, canvas.height, *q) {
                Ok(v) => Ok(v),
                Err(_) => Err(EncodeError::Codec),
            }
        },
    }
}

} // verus!
