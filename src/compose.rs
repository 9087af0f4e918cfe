use crate::raster::{rows_fit, Raster, RasterView};
use vstd::prelude::*;

verus! {

/// What a sequence of rasters shows.
pub open spec fn views(rs: Seq<Raster>) -> Seq<RasterView> {
    rs.map_values(|r: Raster| r@)
}

/// The widest of the crops; 0 where there are none.
pub open spec fn canvas_width(crops: Seq<RasterView>) -> nat
    decreases crops.len(),
{
    if crops.len() == 0 {
        0
    } else {
        let w = canvas_width(crops.drop_last());
        if crops.last().width > w {
            crops.last().width
        } else {
            w
        }
    }
}

/// The sum of the crops' heights.
pub open spec fn canvas_height(crops: Seq<RasterView>) -> nat
    decreases crops.len(),
{
    if crops.len() == 0 {
        0
    } else {
        canvas_height(crops.drop_last()) + crops.last().height
    }
}

/// A row extended on its right with transparent pixels (all four bytes 0)
/// to `width` pixels.
pub open spec fn pad_row(row: Seq<u8>, width: nat) -> Seq<u8> {
    row + Seq::new((4 * width - row.len()) as nat, |i: int| 0u8)
}

/// The rows of the crops one under the other, first crop on top, each row
/// padded to `width` pixels.
pub open spec fn stack_rows(crops: Seq<RasterView>, width: nat) -> Seq<Seq<u8>>
    decreases crops.len(),
{
    if crops.len() == 0 {
        Seq::empty()
    } else {
        stack_rows(crops.drop_last(), width) + crops.last().rows.map_values(
            |r: Seq<u8>| pad_row(r, width),
        )
    }
}

/// The canvas that stacks the crops: as wide as the widest, as high as all of
/// them together, transparent where a crop is narrower than the canvas.
pub open spec fn composite(crops: Seq<RasterView>) -> RasterView {
    RasterView {
        width: canvas_width(crops),
        height: canvas_height(crops),
        rows: stack_rows(crops, canvas_width(crops)),
    }
}

pub open spec fn all_wf(crops: Seq<RasterView>) -> bool {
    forall|k: int| 0 <= k < crops.len() ==> (#[trigger] crops[k]).wf()
}

proof fn lemma_width_bound(crops: Seq<RasterView>, k: int)
    requires
        0 <= k < crops.len(),
    ensures
        crops[k].width <= canvas_width(crops),
    decreases crops.len(),
{
    if k < crops.len() - 1 {
        lemma_width_bound(crops.drop_last(), k);
    }
}

pub(crate) proof fn lemma_height_prefix(crops: Seq<RasterView>, k: int)
    requires
        0 <= k <= crops.len(),
    ensures
        canvas_height(crops.take(k)) <= canvas_height(crops),
    decreases crops.len(),
{
    if k == crops.len() {
        assert(crops.take(k) =~= crops);
    } else {
        assert(crops.take(k) =~= crops.drop_last().take(k));
        lemma_height_prefix(crops.drop_last(), k);
    }
}

proof fn lemma_stack_len(crops: Seq<RasterView>, width: nat)
    requires
        all_wf(crops),
    ensures
        stack_rows(crops, width).len() == canvas_height(crops),
    decreases crops.len(),
{
    if crops.len() > 0 {
        assert(all_wf(crops.drop_last())) by {
            assert forall|k: int| 0 <= k < crops.drop_last().len() implies (
            #[trigger] crops.drop_last()[k]).wf() by {
                assert(crops.drop_last()[k] == crops[k]);
            }
        }
        assert(crops.last() == crops[crops.len() - 1]);
        lemma_stack_len(crops.drop_last(), width);
    }
}

proof fn lemma_stack_fits(crops: Seq<RasterView>, width: nat)
    requires
        all_wf(crops),
        forall|k: int| 0 <= k < crops.len() ==> (#[trigger] crops[k]).width <= width,
    ensures
        rows_fit(stack_rows(crops, width), width, canvas_height(crops)),
    decreases crops.len(),
{
    if crops.len() > 0 {
        let init = crops.drop_last();
        assert forall|k: int| 0 <= k < init.len() implies (#[trigger] init[k]).wf() && init[k].width
            <= width by {
            assert(init[k] == crops[k]);
        }
        lemma_stack_fits(init, width);
        let last = crops[crops.len() - 1];
        assert(last.wf());
        let tail = last.rows.map_values(|r: Seq<u8>| pad_row(r, width));
        assert forall|y: int| 0 <= y < tail.len() implies (#[trigger] tail[y]).len() == 4 * width by {
            assert(last.rows[y].len() == 4 * last.width);
        }
        let all = stack_rows(crops, width);
        assert(all == stack_rows(init, width) + tail);
        assert forall|y: int| 0 <= y < all.len() implies (#[trigger] all[y]).len() == 4 * width by {
            if y >= stack_rows(init, width).len() {
                assert(all[y] == tail[y - stack_rows(init, width).len()]);
            }
        }
    }
}

proof fn lemma_all_wf_init(crops: Seq<RasterView>)
    requires
        all_wf(crops),
        crops.len() > 0,
    ensures
        all_wf(crops.drop_last()),
{
    assert forall|k: int| 0 <= k < crops.drop_last().len() implies (
    #[trigger] crops.drop_last()[k]).wf() by {
        assert(crops.drop_last()[k] == crops[k]);
    }
}

/// Row `y` of crop `k` lands on the canvas below all crops before it.
proof fn lemma_stack_row(crops: Seq<RasterView>, width: nat, k: int, y: int)
    requires
        all_wf(crops),
        0 <= k < crops.len(),
        0 <= y < crops[k].height,
    ensures
        canvas_height(crops.take(k)) + y < stack_rows(crops, width).len(),
        stack_rows(crops, width)[canvas_height(crops.take(k)) + y] == pad_row(crops[k].rows[y], width),
    decreases crops.len(),
{
    let init = crops.drop_last();
    lemma_all_wf_init(crops);
    lemma_stack_len(init, width);
    lemma_stack_len(crops, width);
    assert(crops[k].wf());
    if k == crops.len() - 1 {
        assert(crops.take(k) =~= init);
    } else {
        assert(crops.take(k) =~= init.take(k));
        assert(init[k] == crops[k]);
        lemma_stack_row(init, width, k, y);
        lemma_height_prefix(init, k + 1);
        assert(init.take(k + 1).drop_last() =~= init.take(k));
    }
}

/// Stacking keeps the order given: exchanging two crops of the same size
/// but different pixels gives another canvas.
pub proof fn lemma_swap_changes_canvas(crops: Seq<RasterView>, i: int, j: int)
    requires
        all_wf(crops),
        0 <= i < j < crops.len(),
        crops[i].width == crops[j].width,
        crops[i].height == crops[j].height,
        crops[i].rows != crops[j].rows,
    ensures
        composite(crops) != composite(crops.update(i, crops[j]).update(j, crops[i])),
{
    let swapped = crops.update(i, crops[j]).update(j, crops[i]);
    assert(swapped[i] == crops[j]);
    assert(all_wf(swapped)) by {
        assert forall|k: int| 0 <= k < swapped.len() implies (#[trigger] swapped[k]).wf() by {
            if k != i && k != j {
                assert(swapped[k] == crops[k]);
            }
        }
    }
    if composite(crops) == composite(swapped) {
        let w = canvas_width(crops);
        assert(swapped.take(i) =~= crops.take(i));
        let off = canvas_height(crops.take(i));
        let a = crops[i];
        let b = crops[j];
        assert(a.wf() && b.wf());
        assert(a.rows =~= b.rows) by {
            assert forall|y: int| 0 <= y < a.rows.len() implies a.rows[y] == b.rows[y] by {
                lemma_stack_row(crops, w, i, y);
                lemma_stack_row(swapped, w, i, y);
                let pa = pad_row(a.rows[y], w);
                let pb = pad_row(b.rows[y], w);
                assert(pa == pb);
                assert(a.rows[y].len() == 4 * a.width);
                assert(b.rows[y].len() == 4 * b.width);
                assert(a.rows[y] =~= pa.subrange(0, (4 * a.width) as int));
                assert(b.rows[y] =~= pb.subrange(0, (4 * a.width) as int));
            }
        }
    }
}

/// Stacks the crops top to bottom in the order given onto a canvas that is
/// as wide as the widest crop and as high as all crops together. Each crop
/// is painted at the left edge; what a narrower crop leaves uncovered stays
/// transparent (all four bytes 0).
pub fn compose(crops: &Vec<Raster>) -> (r: Raster)
    requires
        all_wf(views(crops@)),
        canvas_height(views(crops@)) <= u32::MAX,
    ensures
        r.wf(),
        r@ == composite(views(crops@)),
{
    let ghost cs = views(crops@);
    let mut width: u32 = 0;
    let mut k: usize = 0;
    while k < crops.len()
        invariant
            k <= crops@.len(),
            cs == views(crops@),
            width == canvas_width(cs.take(k as int)),
        decreases crops@.len() - k,
    {
        assert(cs.take(k + 1).drop_last() =~= cs.take(k as int));
        assert(cs.take(k + 1).last() == crops@[k as int]@);
        if crops[k].width > width {
            width = crops[k].width;
        }
        k = k + 1;
    }
    assert(cs.take(crops@.len() as int) =~= cs);
    proof {
        assert forall|k: int| 0 <= k < cs.len() implies (#[trigger] cs[k]).width <= width by {
            lemma_width_bound(cs, k);
        }
    }
    let mut rows: Vec<Vec<u8>> = Vec::new();
    let mut height: u32 = 0;
    let mut k: usize = 0;
    while k < crops.len()
        invariant
            k <= crops@.len(),
            cs == views(crops@),
            all_wf(cs),
            canvas_height(cs) <= u32::MAX,
            forall|j: int| 0 <= j < cs.len() ==> (#[trigger] cs[j]).width <= width,
            height == canvas_height(cs.take(k as int)),
            rows@.map_values(|r: Vec<u8>| r@) == stack_rows(cs.take(k as int), width as nat),
        decreases crops@.len() - k,
    {
        let crop = &crops[k];
        assert(cs[k as int] == crop@);
        assert(crop@.wf());
        proof {
            assert(cs.take(k + 1).drop_last() =~= cs.take(k as int));
            assert(cs.take(k + 1).last() == crop@);
            lemma_height_prefix(cs, k + 1);
        }
        let ghost before = rows@.map_values(|r: Vec<u8>| r@);
        let mut y: usize = 0;
        while y < crop.rows.len()
            invariant
                y <= crop.rows@.len(),
                crop@.wf(),
                crop.width <= width,
                rows@.map_values(|r: Vec<u8>| r@) == before + crop@.rows.take(y as int).map_values(
                    |r: Seq<u8>| pad_row(r, width as nat),
                ),
            decreases crop.rows@.len() - y,
        {
            let src = &crop.rows[y];
            assert(crop@.rows[y as int] == src@);
            let mut row: Vec<u8> = Vec::new();
            let mut b: usize = 0;
            while b < src.len()
                invariant
                    b <= src@.len(),
                    row@ == src@.take(b as int),
                decreases src@.len() - b,
            {
                row.push(src[b]);
                b = b + 1;
                assert(row@ =~= src@.take(b as int));
            }
            assert(src@.take(b as int) =~= src@);
            let mut x: u32 = crop.width;
            while x < width
                invariant
                    crop.width <= x <= width,
                    src@.len() == 4 * crop.width,
                    row@ == src@ + Seq::new((4 * (x - crop.width)) as nat, |i: int| 0u8),
                decreases width - x,
            {
                row.push(0);
                row.push(0);
                row.push(0);
                row.push(0);
                x = x + 1;
                assert(row@ =~= src@ + Seq::new((4 * (x - crop.width)) as nat, |i: int| 0u8));
            }
            assert(row@ == pad_row(src@, width as nat));
            let ghost mid = rows@;
            rows.push(row);
            y = y + 1;
            assert(rows@.map_values(|r: Vec<u8>| r@) =~= before + crop@.rows.take(
                y as int,
            ).map_values(|r: Seq<u8>| pad_row(r, width as nat))) by {
                let lhs = rows@.map_values(|r: Vec<u8>| r@);
                let rhs = before + crop@.rows.take(y as int).map_values(
                    |r: Seq<u8>| pad_row(r, width as nat),
                );
                let prev = mid.map_values(|r: Vec<u8>| r@);
                assert(rows@ == mid.push(row));
                assert(prev == before + crop@.rows.take((y - 1) as int).map_values(
                    |r: Seq<u8>| pad_row(r, width as nat),
                ));
                assert(prev.len() == mid.len());
                assert(lhs.len() == rows@.len());
                assert(crop@.rows.take(y as int).len() == y);
                assert(crop@.rows.take((y - 1) as int).len() == y - 1);
                assert(lhs.len() == rhs.len());
                assert forall|i: int| 0 <= i < lhs.len() implies lhs[i] == rhs[i] by {
                    if i < prev.len() {
                        assert(lhs[i] == prev[i]);
                        if i >= before.len() {
                            assert(crop@.rows.take(y as int)[i - before.len()] == crop@.rows.take(
                                (y - 1) as int,
                            )[i - before.len()]);
                        }
                    } else {
                        assert(lhs[i] == row@);
                        assert(crop@.rows.take(y as int)[i - before.len()] == src@);
                    }
                }
            }
        }
        assert(crop@.rows.take(y as int) =~= crop@.rows);
        height = height + crop.height;
        k = k + 1;
    }
    assert(cs.take(crops@.len() as int) =~= cs);
    proof {
        lemma_stack_fits(cs, width as nat);
    }
    Raster { width, height, rows }
}

} // verus!
