use subcat::{
    check_job, compose, decode_image, encode_canvas, extension, finish, flatten_on_black, gather,
    generate, load_entry, output_file_name, Arrival, Format, GenerateEventArgs, ImageInfo,
    JobError, LoadError, PngCompressType, Raster, SubcatEvent,
};

/// A raster of one colour.
fn solid(width: u32, height: u32, px: [u8; 4]) -> Raster {
    let mut data = Vec::new();
    for _ in 0..(width * height) {
        data.extend_from_slice(&px);
    }
    Raster::from_rgba(width, height, data).unwrap()
}

/// A raster whose pixel (x, y) is (x, y, x + y, 255), modulo 256.
fn gradient(width: u32, height: u32) -> Raster {
    let mut data = Vec::new();
    for y in 0..height {
        for x in 0..width {
            data.extend_from_slice(&[x as u8, y as u8, (x + y) as u8, 255]);
        }
    }
    Raster::from_rgba(width, height, data).unwrap()
}

fn png_bytes(img: &Raster) -> Vec<u8> {
    encode_canvas(img, &Format::Png(PngCompressType::Fast)).unwrap()
}

fn entry(path: &str, x: Option<u32>, y: u32, width: u32, height: u32) -> ImageInfo {
    ImageInfo { path: path.to_string(), offset_y: y, offset_x: x, width, height }
}

fn job(imgs: Vec<ImageInfo>, format: Format) -> GenerateEventArgs {
    GenerateEventArgs { imgs, dir: "out".to_string(), filename: "result".to_string(), format }
}

#[test]
fn two_equal_crops_stack_to_square() {
    let canvas = compose(&vec![solid(100, 50, [255, 0, 0, 255]), solid(100, 50, [0, 0, 255, 255])]);
    assert_eq!((canvas.width, canvas.height), (100, 100));
    assert_eq!(canvas.pixel(10, 10), (255, 0, 0, 255));
    assert_eq!(canvas.pixel(99, 99), (0, 0, 255, 255));
}

#[test]
fn narrower_crop_leaves_transparent_columns() {
    let canvas = compose(&vec![solid(100, 50, [255, 0, 0, 255]), solid(60, 50, [0, 255, 0, 255])]);
    assert_eq!((canvas.width, canvas.height), (100, 100));
    for y in 50..100 {
        for x in 0..60 {
            assert_eq!(canvas.pixel(x, y), (0, 255, 0, 255));
        }
        for x in 60..100 {
            assert_eq!(canvas.pixel(x, y), (0, 0, 0, 0));
        }
    }
}

#[test]
fn canvas_size_is_sum_of_heights_and_widest_width() {
    let canvas = compose(&vec![solid(3, 2, [1, 2, 3, 4]), solid(7, 5, [5, 6, 7, 8]), solid(4, 1, [9, 9, 9, 9])]);
    assert_eq!((canvas.width, canvas.height), (7, 8));
    assert_eq!(canvas.to_rgba().len(), 4 * 7 * 8);
}

#[test]
fn empty_compose_is_empty_canvas() {
    let canvas = compose(&vec![]);
    assert_eq!((canvas.width, canvas.height), (0, 0));
}

#[test]
fn gather_orders_by_index_not_arrival() {
    let a = solid(2, 1, [1, 1, 1, 255]);
    let b = solid(3, 2, [2, 2, 2, 255]);
    let c = solid(1, 3, [3, 3, 3, 255]);
    let arrivals = vec![
        Arrival { index: 2, result: Ok(c.clone()) },
        Arrival { index: 0, result: Ok(a.clone()) },
        Arrival { index: 1, result: Ok(b.clone()) },
    ];
    let ordered = gather(3, arrivals).unwrap();
    assert_eq!(ordered[0].rows, a.rows);
    assert_eq!(ordered[1].rows, b.rows);
    assert_eq!(ordered[2].rows, c.rows);
    let in_order = vec![
        Arrival { index: 0, result: Ok(a) },
        Arrival { index: 1, result: Ok(b) },
        Arrival { index: 2, result: Ok(c) },
    ];
    let again = gather(3, in_order).unwrap();
    let x = compose(&ordered);
    let y = compose(&again);
    assert_eq!((x.width, x.height), (3, 6));
    assert_eq!(x.rows, y.rows);
}

#[test]
fn gather_reports_first_failure_to_arrive() {
    let arrivals = vec![
        Arrival { index: 1, result: Ok(solid(1, 1, [0, 0, 0, 255])) },
        Arrival { index: 2, result: Err(LoadError::Decode) },
        Arrival { index: 0, result: Err(LoadError::Io) },
    ];
    assert_eq!(gather(3, arrivals).unwrap_err(), JobError::Load { index: 2, error: LoadError::Decode });
}

#[test]
fn finish_fails_without_output_when_one_load_failed() {
    let arrivals = vec![
        Arrival { index: 0, result: Ok(solid(1, 1, [0, 0, 0, 255])) },
        Arrival { index: 1, result: Err(LoadError::Io) },
    ];
    let r = finish(2, arrivals, &Format::Png(PngCompressType::Best));
    assert_eq!(r.unwrap_err(), JobError::Load { index: 1, error: LoadError::Io });
}

#[test]
fn finish_in_any_arrival_order_gives_same_bytes() {
    let a = gradient(4, 3);
    let b = solid(2, 2, [9, 8, 7, 255]);
    let first = finish(
        2,
        vec![Arrival { index: 1, result: Ok(b.clone()) }, Arrival { index: 0, result: Ok(a.clone()) }],
        &Format::Png(PngCompressType::Fast),
    )
    .unwrap();
    let second = finish(
        2,
        vec![Arrival { index: 0, result: Ok(a) }, Arrival { index: 1, result: Ok(b) }],
        &Format::Png(PngCompressType::Fast),
    )
    .unwrap();
    assert_eq!(first, second);
    let canvas = decode_image(&first).unwrap();
    assert_eq!((canvas.width, canvas.height), (4, 5));
}

#[test]
fn png_round_trip_is_exact() {
    let mut img = gradient(5, 4);
    img.rows[1][3] = 0;
    img.rows[2][7] = 17;
    for level in [PngCompressType::Fast, PngCompressType::Best] {
        let bytes = encode_canvas(&img, &Format::Png(level)).unwrap();
        assert_eq!(&bytes[..8], &[0x89, b'P', b'N', b'G', 0x0d, 0x0a, 0x1a, 0x0a]);
        let back = decode_image(&bytes).unwrap();
        assert_eq!((back.width, back.height), (5, 4));
        assert_eq!(back.rows, img.rows);
    }
}

#[test]
fn jpeg_round_trip_is_close() {
    let img = solid(16, 16, [200, 120, 40, 255]);
    let bytes = encode_canvas(&img, &Format::Jpg(100)).unwrap();
    assert_eq!(&bytes[..2], &[0xff, 0xd8]);
    let back = decode_image(&bytes).unwrap();
    assert_eq!((back.width, back.height), (16, 16));
    for y in 0..16 {
        for x in 0..16 {
            let (r, g, b, a) = back.pixel(x, y);
            assert!((r as i32 - 200).abs() <= 4);
            assert!((g as i32 - 120).abs() <= 4);
            assert!((b as i32 - 40).abs() <= 4);
            assert_eq!(a, 255);
        }
    }
}

#[test]
fn flatten_lays_pixels_over_black() {
    let data = vec![200, 100, 50, 128, 10, 20, 30, 255, 90, 90, 90, 0];
    let img = Raster::from_rgba(3, 1, data).unwrap();
    assert_eq!(flatten_on_black(&img), vec![100, 50, 25, 10, 20, 30, 0, 0, 0]);
}

#[test]
fn from_rgba_checks_length() {
    assert!(Raster::from_rgba(2, 2, vec![0; 15]).is_none());
    assert!(Raster::from_rgba(2, 2, vec![0; 17]).is_none());
    assert!(Raster::from_rgba(0, 0, vec![]).is_some());
    assert!(Raster::from_rgba(3, 0, vec![1]).is_none());
    let img = Raster::from_rgba(2, 1, vec![1, 2, 3, 4, 5, 6, 7, 8]).unwrap();
    assert_eq!(img.pixel(1, 0), (5, 6, 7, 8));
    assert_eq!(img.to_rgba(), vec![1, 2, 3, 4, 5, 6, 7, 8]);
}

#[test]
fn crop_takes_the_rectangle() {
    let img = gradient(6, 5);
    let c = img.crop(2, 1, 3, 2).unwrap();
    assert_eq!((c.width, c.height), (3, 2));
    assert_eq!(c.pixel(0, 0), (2, 1, 3, 255));
    assert_eq!(c.pixel(2, 1), (4, 2, 6, 255));
    assert!(img.crop(4, 0, 3, 1).is_none());
    assert!(img.crop(0, 4, 1, 2).is_none());
    assert!(img.crop(0, 0, 6, 5).is_some());
    assert!(img.crop(u32::MAX, 0, 2, 1).is_none());
}

#[test]
fn load_entry_honours_offsets() {
    let bytes = png_bytes(&gradient(8, 8));
    let a = load_entry(3, &entry("a.png", Some(2), 4, 3, 2), &Some(bytes.clone()));
    assert_eq!(a.index, 3);
    let c = a.result.unwrap();
    assert_eq!(c.pixel(0, 0), (2, 4, 6, 255));
    let b = load_entry(0, &entry("a.png", None, 1, 2, 2), &Some(bytes));
    assert_eq!(b.result.unwrap().pixel(0, 0), (0, 1, 1, 255));
}

#[test]
fn load_entry_errors() {
    let bytes = png_bytes(&gradient(8, 8));
    let out = load_entry(0, &entry("a.png", None, 7, 8, 2), &Some(bytes));
    assert_eq!(out.result.unwrap_err(), LoadError::CropOutOfBounds);
    let unread = load_entry(1, &entry("missing.png", None, 0, 1, 1), &None);
    assert_eq!(unread.result.unwrap_err(), LoadError::Io);
    let garbage = load_entry(2, &entry("text.png", None, 0, 1, 1), &Some(b"not an image".to_vec()));
    assert_eq!(garbage.result.unwrap_err(), LoadError::Decode);
}

#[test]
fn generate_stacks_in_declared_order() {
    let top = png_bytes(&solid(100, 50, [255, 0, 0, 255]));
    let bottom = png_bytes(&solid(60, 50, [0, 255, 0, 255]));
    let args = job(
        vec![entry("top.png", None, 0, 100, 50), entry("bottom.png", Some(0), 0, 60, 50)],
        Format::Png(PngCompressType::Best),
    );
    let out = generate(&args, &vec![Some(top), Some(bottom)]).unwrap();
    let canvas = decode_image(&out).unwrap();
    assert_eq!((canvas.width, canvas.height), (100, 100));
    assert_eq!(canvas.pixel(0, 0), (255, 0, 0, 255));
    assert_eq!(canvas.pixel(59, 99), (0, 255, 0, 255));
    assert_eq!(canvas.pixel(60, 99), (0, 0, 0, 0));
}

#[test]
fn generate_is_deterministic_and_order_sensitive() {
    let a = png_bytes(&solid(4, 2, [255, 0, 0, 255]));
    let b = png_bytes(&solid(4, 2, [0, 0, 255, 255]));
    let args = job(
        vec![entry("a.png", None, 0, 4, 2), entry("b.png", None, 0, 4, 2)],
        Format::Png(PngCompressType::Fast),
    );
    let sources = vec![Some(a.clone()), Some(b.clone())];
    let first = generate(&args, &sources).unwrap();
    let second = generate(&args, &sources).unwrap();
    assert_eq!(first, second);
    let swapped = generate(&args, &vec![Some(b), Some(a)]).unwrap();
    assert_ne!(first, swapped);
}

#[test]
fn generate_fails_on_crop_out_of_bounds() {
    let a = png_bytes(&solid(10, 10, [1, 2, 3, 255]));
    let args = job(
        vec![entry("a.png", None, 0, 10, 10), entry("b.png", Some(5), 0, 6, 10)],
        Format::Png(PngCompressType::Fast),
    );
    let r = generate(&args, &vec![Some(a.clone()), Some(a)]);
    assert_eq!(r.unwrap_err(), JobError::Load { index: 1, error: LoadError::CropOutOfBounds });
}

#[test]
fn generate_fails_on_unreadable_source() {
    let a = png_bytes(&solid(2, 2, [1, 2, 3, 255]));
    let args = job(
        vec![entry("a.png", None, 0, 2, 2), entry("gone.png", None, 0, 2, 2), entry("c.png", None, 0, 2, 2)],
        Format::Jpg(80),
    );
    let r = generate(&args, &vec![Some(a.clone()), None, Some(a)]);
    assert_eq!(r.unwrap_err(), JobError::Load { index: 1, error: LoadError::Io });
}

#[test]
fn empty_job_is_refused() {
    let args = job(vec![], Format::Png(PngCompressType::Fast));
    assert_eq!(check_job(&args), Err(JobError::Empty));
    assert_eq!(generate(&args, &vec![]).unwrap_err(), JobError::Empty);
}

#[test]
fn jpeg_quality_out_of_range_is_refused() {
    let imgs = vec![entry("a.png", None, 0, 1, 1)];
    assert_eq!(check_job(&job(imgs.clone(), Format::Jpg(0))), Err(JobError::InvalidQuality));
    assert_eq!(check_job(&job(imgs.clone(), Format::Jpg(101))), Err(JobError::InvalidQuality));
    assert_eq!(check_job(&job(imgs.clone(), Format::Jpg(1))), Ok(()));
    assert_eq!(check_job(&job(imgs, Format::Jpg(100))), Ok(()));
}

#[test]
fn generate_jpeg_output() {
    let a = png_bytes(&solid(8, 8, [250, 250, 250, 255]));
    let args = job(vec![entry("a.png", None, 0, 8, 8)], Format::Jpg(90));
    let out = generate(&args, &vec![Some(a)]).unwrap();
    assert_eq!(&out[..2], &[0xff, 0xd8]);
    let back = decode_image(&out).unwrap();
    assert_eq!((back.width, back.height), (8, 8));
}

#[test]
fn output_names_follow_format() {
    assert_eq!(extension(&Format::Png(PngCompressType::Fast)), ".png");
    assert_eq!(extension(&Format::Jpg(50)), ".jpg");
    assert_eq!(output_file_name(&"subs".to_string(), &Format::Jpg(50)), "subs.jpg");
    assert_eq!(output_file_name(&"subs".to_string(), &Format::Png(PngCompressType::Best)), "subs.png");
}

#[test]
fn event_names_are_pascal_case() {
    let names: Vec<&str> = SubcatEvent::variants().iter().map(|e| e.as_ref_str()).collect();
    assert_eq!(names, vec!["FeMenuDisable", "BeMenuSelect", "FeGenerate", "BeGenerateRes"]);
}

#[test]
fn encoder_failure_is_reported() {
    let empty = Raster::from_rgba(0, 3, vec![]).unwrap();
    let r = subcat::finish_crops(&vec![empty], &Format::Png(PngCompressType::Fast));
    assert_eq!(r.unwrap_err(), JobError::Encode(subcat::EncodeError::Codec));
}

#[test]
fn decode_rejects_garbage() {
    assert_eq!(decode_image(&vec![1, 2, 3, 4]).unwrap_err(), LoadError::Decode);
    assert_eq!(decode_image(&vec![]).unwrap_err(), LoadError::Decode);
}
