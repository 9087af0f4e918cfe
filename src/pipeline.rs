use crate::codec::{decode_image, decoded_raster, encode_canvas, encoding_of};
use crate::compose::{all_wf, canvas_height, compose, composite, lemma_height_prefix, views};
use crate::error::{EncodeError, JobError, LoadError};
use crate::gather::{all_loaded, covers, first_failure, gather, loaded_wf, ordered, Arrival};
use crate::model::{offset_x_of, Format, GenerateEventArgs, ImageInfo};
use crate::raster::{crop_rows, rect_within, Raster, RasterView};
use vstd::prelude::*;

verus! {

/// What the checks made before any file is read decide: a job with no
/// entries, or with a JPEG quality outside 1 to 100, is refused.
pub open spec fn job_check(args: GenerateEventArgs) -> Result<(), JobError> {
    if args.imgs@.len() == 0 {
        Err(JobError::Empty)
    } else {
        match args.format {
            Format::Jpg(q) => if 1 <= q <= 100 {
                Ok(())
            } else {
                Err(JobError::InvalidQuality)
            },
            Format::Png(_) => Ok(()),
        }
    }
}

/// The checks made before any file is read.
pub fn check_job(args: &GenerateEventArgs) -> (r: Result<(), JobError>)
    ensures
        r == job_check(*args),
{
    if args.imgs.len() == 0 {
        return Err(JobError::Empty);
    }
    match args.format {
        Format::Jpg(q) => if 1 <= q && q <= 100 {
            Ok(())
        } else {
            Err(JobError::InvalidQuality)
        },
        Format::Png(_) => Ok(()),
    }
}

pub open spec fn bytes_of(source: Option<Vec<u8>>) -> Option<Seq<u8>> {
    match source {
        Some(b) => Some(b@),
        None => None,
    }
}

pub open spec fn result_view(r: Result<Raster, LoadError>) -> Result<RasterView, LoadError> {
    match r {
        Ok(img) => Ok(img@),
        Err(e) => Err(e),
    }
}

/// The entry's rectangle cut out of a decoded image.
pub open spec fn crop_result(info: ImageInfo, img: RasterView) -> Result<RasterView, LoadError> {
    let x = offset_x_of(info) as nat;
    if rect_within(x, info.offset_y as nat, info.width as nat, info.height as nat, img.width, img.height) {
        Ok(
            RasterView {
                width: info.width as nat,
                height: info.height as nat,
                rows: crop_rows(img.rows, x, info.offset_y as nat, info.width as nat, info.height as nat),
            },
        )
    } else {
        Err(LoadError::CropOutOfBounds)
    }
}

/// What loading one entry gives, from the bytes read for it (nothing where
/// the file could not be read).
pub open spec fn entry_result(info: ImageInfo, source: Option<Seq<u8>>) -> Result<RasterView, LoadError> {
    match source {
        None => Err(LoadError::Io),
        Some(b) => match decoded_raster(b) {
            None => Err(LoadError::Decode),
            Some(img) => crop_result(info, img),
        },
    }
}

/// Cuts an entry's rectangle out of a decoded image. A rectangle that
/// reaches past the image is an error, never clamped.
pub fn crop_entry(info: &ImageInfo, img: &Raster) -> (r: Result<Raster, LoadError>)
    requires
        img.wf(),
    ensures
        result_view(r) == crop_result(*info, img@),
        r matches Ok(c) ==> c.wf(),
{
    let x: u32 = match info.offset_x {
        Some(x) => x,
        None => 0,
    };
    match img.crop(x, info.offset_y, info.width, info.height) {
        Some(c) => Ok(c),
        None => Err(LoadError::CropOutOfBounds),
    }
}

/// Loads the entry at position `index` from the bytes read for it: decodes
/// them and cuts out the entry's rectangle.
pub fn load_entry(index: usize, info: &ImageInfo, source: &Option<Vec<u8>>) -> (r: Arrival)
    ensures
        r.index == index,
        result_view(r.result) == entry_result(*info, bytes_of(*source)),
        r.result matches Ok(c) ==> c.wf(),
{
    let result = match source {
        None => Err(LoadError::Io),
        Some(bytes) => match decode_image(bytes) {
            Ok(img) => crop_entry(info, &img),
            Err(e) => Err(e),
        },
    };
    Arrival { index, result }
}

/// What a job makes of its crops, once all are loaded and in order: the
/// encoded canvas, or why there is none.
pub open spec fn canvas_result(crops: Seq<RasterView>, format: Format) -> Result<Seq<u8>, JobError> {
    if canvas_height(crops) > u32::MAX {
        Err(JobError::CanvasTooLarge)
    } else {
        match encoding_of(composite(crops), format) {
            Some(b) => Ok(b),
            None => Err(JobError::Encode(EncodeError::Codec)),
        }
    }
}

pub open spec fn bytes_view(r: Result<Vec<u8>, JobError>) -> Result<Seq<u8>, JobError> {
    match r {
        Ok(v) => Ok(v@),
        Err(e) => Err(e),
    }
}

fn height_fits(crops: &Vec<Raster>) -> (r: bool)
    ensures
        r == (canvas_height(views(crops@)) <= u32::MAX),
{
    let ghost cs = views(crops@);
    let mut total: u32 = 0;
    let mut k: usize = 0;
    while k < crops.len()
        invariant
            k <= crops@.len(),
            cs == views(crops@),
            total == canvas_height(cs.take(k as int)),
        decreases crops@.len() - k,
    {
        assert(cs.take(k + 1).drop_last() =~= cs.take(k as int));
        assert(cs.take(k + 1).last() == crops@[k as int]@);
        if crops[k].height > u32::MAX - total {
            proof {
                lemma_height_prefix(cs, k + 1);
            }
            return false;
        }
        total = total + crops[k].height;
        k = k + 1;
    }
    assert(cs.take(crops@.len() as int) =~= cs);
    true
}

/// Stacks the crops, in the order given, and encodes the canvas.
pub fn finish_crops(crops: &Vec<Raster>, format: &Format) -> (r: Result<Vec<u8>, JobError>)
    requires
        all_wf(views(crops@)),
    ensures
        bytes_view(r) == canvas_result(views(crops@), *format),
{
    if !height_fits(crops) {
        return Err(JobError::CanvasTooLarge);
    }
    let canvas = compose(crops);
    match encode_canvas(&canvas, format) {
        Ok(v) => Ok(v),
        Err(e) => Err(JobError::Encode(e)),
    }
}

/// Finishes a job from its loaded entries, which may have arrived in any
/// order: fails with the first failure to arrive, else stacks the crops in
/// the job's order and encodes the canvas.
pub fn finish(n: usize, arrivals: Vec<Arrival>, format: &Format) -> (r: Result<Vec<u8>, JobError>)
    requires
        covers(arrivals@, n as nat),
        loaded_wf(arrivals@),
    ensures
        all_loaded(arrivals@) ==> bytes_view(r) == canvas_result(ordered(arrivals@, n as nat), *format),
        !all_loaded(arrivals@) ==> exists|k: int|
            first_failure(arrivals@, k) && r == Err::<Vec<u8>, JobError>(
                JobError::Load { index: arrivals@[k].index, error: arrivals@[k].result->Err_0 },
            ),
{
    match gather(n, arrivals) {
        Ok(crops) => {
            assert(all_wf(views(crops@))) by {
                assert forall|k: int| 0 <= k < views(crops@).len() implies (
                #[trigger] views(crops@)[k]).wf() by {
                    assert(crops@[k].wf());
                }
            }
            finish_crops(&crops, format)
        },
        Err(e) => Err(e),
    }
}

/// The crops of the first `n` entries, loaded in order, or the position and
/// error of the first entry that failed.
pub open spec fn loads(infos: Seq<ImageInfo>, sources: Seq<Option<Seq<u8>>>, n: nat) -> Result<
    Seq<RasterView>,
    (int, LoadError),
>
    decreases n,
{
    if n == 0 {
        Ok(Seq::empty())
    } else {
        match loads(infos, sources, (n - 1) as nat) {
            Err(e) => Err(e),
            Ok(cs) => match entry_result(infos[n - 1], sources[n - 1]) {
                Err(e) => Err(((n - 1) as int, e)),
                Ok(c) => Ok(cs.push(c)),
            },
        }
    }
}

/// What running a job gives, from the bytes read for each entry.
pub open spec fn job_result(args: GenerateEventArgs, sources: Seq<Option<Seq<u8>>>) -> Result<
    Seq<u8>,
    JobError,
> {
    match job_check(args) {
        Err(e) => Err(e),
        Ok(()) => match loads(args.imgs@, sources, args.imgs@.len()) {
            Err((i, e)) => Err(JobError::Load { index: i as usize, error: e }),
            Ok(cs) => canvas_result(cs, args.format),
        },
    }
}

pub open spec fn sources_view(sources: Seq<Option<Vec<u8>>>) -> Seq<Option<Seq<u8>>> {
    sources.map_values(|s: Option<Vec<u8>>| bytes_of(s))
}

proof fn lemma_loads_err_stays(infos: Seq<ImageInfo>, sources: Seq<Option<Seq<u8>>>, m: nat, n: nat)
    requires
        m <= n,
        loads(infos, sources, m) is Err,
    ensures
        loads(infos, sources, n) == loads(infos, sources, m),
    decreases n,
{
    if n > m {
        lemma_loads_err_stays(infos, sources, m, (n - 1) as nat);
    }
}

/// Runs a job on the bytes read for its entries, one after the other: the
/// encoded canvas, or why the job failed. The result depends on the job and
/// the bytes alone.
pub fn generate(args: &GenerateEventArgs, sources: &Vec<Option<Vec<u8>>>) -> (r: Result<
    Vec<u8>,
    JobError,
>)
    requires
        sources@.len() == args.imgs@.len(),
    ensures
        bytes_view(r) == job_result(*args, sources_view(sources@)),
{
    let ghost srcs = sources_view(sources@);
    let ghost infos = args.imgs@;
    match check_job(args) {
        Err(e) => return Err(e),
        Ok(()) => {},
    }
    let mut crops: Vec<Raster> = Vec::new();
    assert(views(crops@) =~= Seq::<RasterView>::empty());
    let mut k: usize = 0;
    while k < args.imgs.len()
        invariant
            k <= infos.len(),
            infos == args.imgs@,
            srcs == sources_view(sources@),
            sources@.len() == infos.len(),
            job_check(*args) is Ok,
            loads(infos, srcs, k as nat) == Ok::<Seq<RasterView>, (int, LoadError)>(views(crops@)),
            all_wf(views(crops@)),
        decreases infos.len() - k,
    {
        let a = load_entry(k, &args.imgs[k], &sources[k]);
        assert(srcs[k as int] == bytes_of(sources@[k as int]));
        match a.result {
            Ok(c) => {
                let ghost prior = crops@;
                crops.push(c);
                proof {
                    assert(views(crops@) =~= views(prior).push(c@));
                    assert forall|j: int| 0 <= j < views(crops@).len() implies (#[trigger] views(
                        crops@,
                    )[j]).wf() by {
                        if j < prior.len() {
                            assert(views(crops@)[j] == views(prior)[j]);
                        }
                    }
                }
            },
            Err(e) => {
                proof {
                    assert(loads(infos, srcs, (k + 1) as nat) == Err::<
                        Seq<RasterView>,
                        (int, LoadError),
                    >((k as int, e)));
                    lemma_loads_err_stays(infos, srcs, (k + 1) as nat, infos.len());
                }
                return Err(JobError::Load { index: k, error: e });
            },
        }
        k = k + 1;
    }
    finish_crops(&crops, &args.format)
}

/// A job without entries is refused whatever its sources, before any of
/// them is read.
pub proof fn lemma_empty_job_fails(args: GenerateEventArgs, sources: Seq<Option<Seq<u8>>>)
    requires
        args.imgs@.len() == 0,
    ensures
        job_result(args, sources) == Err::<Seq<u8>, JobError>(JobError::Empty),
{
}

proof fn lemma_loads_fail_at(infos: Seq<ImageInfo>, sources: Seq<Option<Seq<u8>>>, k: int, n: nat)
    requires
        0 <= k < n,
        entry_result(infos[k], sources[k]) is Err,
    ensures
        loads(infos, sources, n) is Err,
        loads(infos, sources, k as nat) is Ok ==> loads(infos, sources, n) == Err::<
            Seq<RasterView>,
            (int, LoadError),
        >((k, entry_result(infos[k], sources[k])->Err_0)),
    decreases n,
{
    if k < n - 1 {
        lemma_loads_fail_at(infos, sources, k, (n - 1) as nat);
    } else if loads(infos, sources, k as nat) is Err {
        lemma_loads_err_stays(infos, sources, k as nat, n);
    }
}

/// An entry whose source cannot be read fails the whole job.
pub proof fn lemma_unreadable_source_fails(
    args: GenerateEventArgs,
    sources: Seq<Option<Seq<u8>>>,
    k: int,
)
    requires
        sources.len() == args.imgs@.len(),
        0 <= k < sources.len(),
        sources[k] is None,
    ensures
        job_result(args, sources) is Err,
{
    lemma_loads_fail_at(args.imgs@, sources, k, args.imgs@.len());
}

/// An entry whose rectangle reaches past its decoded image fails the whole
/// job; where every entry before it loads, with a crop-bounds error for that
/// entry.
pub proof fn lemma_crop_out_of_bounds_fails(
    args: GenerateEventArgs,
    sources: Seq<Option<Seq<u8>>>,
    k: int,
)
    requires
        job_check(args) is Ok,
        sources.len() == args.imgs@.len(),
        0 <= k < sources.len(),
        sources[k] matches Some(b) && decoded_raster(b) matches Some(img) && !rect_within(
            offset_x_of(args.imgs@[k]) as nat,
            args.imgs@[k].offset_y as nat,
            args.imgs@[k].width as nat,
            args.imgs@[k].height as nat,
            img.width,
            img.height,
        ),
    ensures
        job_result(args, sources) is Err,
        loads(args.imgs@, sources, k as nat) is Ok ==> job_result(args, sources) == Err::<
            Seq<u8>,
            JobError,
        >(JobError::Load { index: k as usize, error: LoadError::CropOutOfBounds }),
{
    lemma_loads_fail_at(args.imgs@, sources, k, args.imgs@.len());
}

} // verus!
