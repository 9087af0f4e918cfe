use vstd::prelude::*;

verus! {

/// An RGBA image with 8 bits per channel, held row by row: row `y` holds
/// `4 * width` bytes, four for each pixel from left to right.
#[derive(Clone, Debug)]
pub struct Raster {
    pub width: u32,
    pub height: u32,
    pub rows: Vec<Vec<u8>>,
}

/// What a raster shows: its size and its rows of bytes.
pub struct RasterView {
    pub width: nat,
    pub height: nat,
    pub rows: Seq<Seq<u8>>,
}

impl View for Raster {
    type V = RasterView;

    open spec fn view(&self) -> RasterView {
        RasterView {
            width: self.width as nat,
            height: self.height as nat,
            rows: self.rows@.map_values(|r: Vec<u8>| r@),
        }
    }
}

/// `rows` has `height` rows of `4 * width` bytes each.
pub open spec fn rows_fit(rows: Seq<Seq<u8>>, width: nat, height: nat) -> bool {
    &&& rows.len() == height
    &&& forall|y: int| 0 <= y < rows.len() ==> (#[trigger] rows[y]).len() == 4 * width
}

/// The rows of a `width` x `height` image whose bytes lie in `data` row after
/// row.
pub open spec fn rows_of_flat(data: Seq<u8>, width: nat, height: nat) -> Seq<Seq<u8>> {
    Seq::new(height, |y: int| data.subrange(4 * width * y, 4 * width * (y + 1)))
}

/// The rows of the `w` x `h` rectangle whose top left pixel is `(x, y)`.
pub open spec fn crop_rows(rows: Seq<Seq<u8>>, x: nat, y: nat, w: nat, h: nat) -> Seq<Seq<u8>> {
    Seq::new(h, |i: int| rows[y + i].subrange(4 * x as int, 4 * (x + w) as int))
}

/// The rectangle `(x, y, w, h)` lies within an image of the given size.
pub open spec fn rect_within(x: nat, y: nat, w: nat, h: nat, width: nat, height: nat) -> bool {
    x + w <= width && y + h <= height
}

impl RasterView {
    pub open spec fn wf(self) -> bool {
        rows_fit(self.rows, self.width, self.height)
    }

    /// The four channels of pixel `(x, y)`.
    pub open spec fn pixel(self, x: int, y: int) -> Seq<u8> {
        self.rows[y].subrange(4 * x, 4 * x + 4)
    }
}

impl Raster {
    pub open spec fn wf(&self) -> bool {
        self@.wf()
    }

    /// The image of the given size whose RGBA bytes lie in `data` row after
    /// row; `None` where `data` does not hold exactly `4 * width * height`
    /// bytes.
    pub fn from_rgba(width: u32, height: u32, data: Vec<u8>) -> (r: Option<Raster>)
        ensures
            r is Some <==> data@.len() == 4 * width * height,
            r matches Some(img) ==> img.wf() && img.width == width && img.height == height
                && img@.rows == rows_of_flat(data@, width as nat, height as nat),
    {
        let n = data.len();
        if height == 0 {
            if n != 0 {
                return None;
            }
            let r = Raster { width, height, rows: Vec::new() };
            assert(r@.rows =~= rows_of_flat(data@, width as nat, 0));
            return Some(r);
        }
        let row_len_wide: u64 = (width as u64) * 4;
        if (n as u64) % (height as u64) != 0 || (n as u64) / (height as u64) != row_len_wide {
            proof {
                let w = width as int;
                let h = height as int;
                let nn = n as int;
                assert(h > 0);
                if nn == 4 * w * h {
                    assert(nn % h == 0 && nn / h == 4 * w) by (nonlinear_arith)
                        requires nn == 4 * w * h, h > 0;
                }
            }
            return None;
        }
        let row_len: usize = n / (height as usize);
        proof {
            let h = height as int;
            let nn = n as int;
            let q = nn / h;
            assert(nn % h == 0 && q == 4 * width);
            assert(nn == q * h + nn % h) by (nonlinear_arith) requires h > 0, q == nn / h;
            assert(nn == 4 * width * height) by (nonlinear_arith)
                requires nn == q * h, q == 4 * width, h == height;
        }
        let mut rows: Vec<Vec<u8>> = Vec::new();
        let mut y: usize = 0;
        while y < height as usize
            invariant
                y <= height,
                row_len as int == 4 * width,
                n == data@.len(),
                n as int == row_len * height,
                rows@.len() == y,
                forall|i: int|
                    0 <= i < y ==> (#[trigger] rows@[i])@ == data@.subrange(
                        4 * width * i,
                        4 * width * (i + 1),
                    ),
            decreases height - y,
        {
            proof {
                assert(y * row_len + row_len <= n) by (nonlinear_arith)
                    requires y < height, n == row_len * height;
            }
            let start: usize = y * row_len;
            let mut row: Vec<u8> = Vec::new();
            assert(row@ =~= data@.subrange(start as int, start as int));
            let mut b: usize = 0;
            while b < row_len
                invariant
                    b <= row_len,
                    start + row_len <= n,
                    n == data@.len(),
                    row@ == data@.subrange(start as int, start + b),
                decreases row_len - b,
            {
                row.push(data[start + b]);
                b = b + 1;
                assert(row@ =~= data@.subrange(start as int, start + b));
            }
            proof {
                assert(start as int == 4 * width * y) by (nonlinear_arith)
                    requires start == y * row_len, row_len == 4 * width;
                assert(start + row_len == 4 * width * (y + 1)) by (nonlinear_arith)
                    requires start == y * row_len, row_len == 4 * width;
            }
            rows.push(row);
            y = y + 1;
        }
        let r = Raster { width, height, rows };
        assert(r@.rows =~= rows_of_flat(data@, width as nat, height as nat));
        assert forall|i: int| 0 <= i < r@.rows.len() implies (#[trigger] r@.rows[i]).len() == 4
            * width by {
            assert(r@.rows[i] == rows@[i]@);
            assert(4 * width * (i + 1) == 4 * width * i + 4 * width) by (nonlinear_arith);
            assert(4 * width * (i + 1) <= 4 * width * height) by (nonlinear_arith)
                requires i < height;
        }
        Some(r)
    }

    /// The RGBA bytes of the image, row after row.
    pub fn to_rgba(&self) -> (r: Vec<u8>)
        requires
            self.wf(),
        ensures
            r@ == self@.rows.flatten(),
    {
        let mut out: Vec<u8> = Vec::new();
        let mut y: usize = 0;
        while y < self.rows.len()
            invariant
                y <= self.rows@.len(),
                out@ == self@.rows.take(y as int).flatten_alt(),
            decreases self.rows@.len() - y,
        {
            let row = &self.rows[y];
            let ghost before = out@;
            let mut b: usize = 0;
            while b < row.len()
                invariant
                    b <= row@.len(),
                    out@ == before + row@.take(b as int),
                decreases row@.len() - b,
            {
                out.push(row[b]);
                b = b + 1;
                assert(out@ =~= before + row@.take(b as int));
            }
            proof {
                let rs = self@.rows;
                assert(rs.take(y + 1).drop_last() =~= rs.take(y as int));
                assert(row@.take(b as int) =~= row@);
            }
            y = y + 1;
        }
        proof {
            let rs = self@.rows;
            assert(rs.take(rs.len() as int) =~= rs);
            rs.lemma_flatten_and_flatten_alt_are_equivalent();
        }
        out
    }

    /// The four channels (red, green, blue, alpha) of pixel `(x, y)`.
    pub fn pixel(&self, x: u32, y: u32) -> (r: (u8, u8, u8, u8))
        requires
            self.wf(),
            x < self.width,
            y < self.height,
        ensures
            seq![r.0, r.1, r.2, r.3] == self@.pixel(x as int, y as int),
    {
        let row = &self.rows[y as usize];
        let _len = row.len();
        assert(self@.rows[y as int] == row@);
        assert(row@.len() == 4 * self.width);
        let i: usize = 4 * (x as usize);
        let r = (row[i], row[i + 1], row[i + 2], row[i + 3]);
        assert(seq![r.0, r.1, r.2, r.3] =~= self@.pixel(x as int, y as int));
        r
    }

    /// The `w` x `h` rectangle whose top left pixel is `(x, y)`; `None` where
    /// the rectangle does not lie within the image.
    pub fn crop(&self, x: u32, y: u32, w: u32, h: u32) -> (r: Option<Raster>)
        requires
            self.wf(),
        ensures
            r is Some <==> rect_within(x as nat, y as nat, w as nat, h as nat, self@.width, self@.height),
            r matches Some(c) ==> c.wf() && c.width == w && c.height == h
                && c@.rows == crop_rows(self@.rows, x as nat, y as nat, w as nat, h as nat),
    {
        if (x as u64) + (w as u64) > self.width as u64 || (y as u64) + (h as u64) > self.height as u64 {
            return None;
        }
        let mut rows: Vec<Vec<u8>> = Vec::new();
        let mut i: u32 = 0;
        while i < h
            invariant
                self.wf(),
                i <= h,
                x + w <= self.width,
                y + h <= self.height,
                rows@.len() == i,
                forall|k: int|
                    0 <= k < i ==> (#[trigger] rows@[k])@ == self@.rows[y + k].subrange(
                        4 * x,
                        4 * (x + w),
                    ),
            decreases h - i,
        {
            let src = &self.rows[(y + i) as usize];
            assert(self@.rows[y + i] == src@);
            assert(src@.len() == 4 * self.width);
            let _len = src.len();
            let from: usize = 4 * (x as usize);
            let to: usize = 4 * ((x + w) as usize);
            let mut row: Vec<u8> = Vec::new();
            let mut b: usize = from;
            while b < to
                invariant
                    from <= b <= to,
                    to <= src@.len(),
                    row@ == src@.subrange(from as int, b as int),
                decreases to - b,
            {
                row.push(src[b]);
                b = b + 1;
                assert(row@ =~= src@.subrange(from as int, b as int));
            }
            rows.push(row);
            i = i + 1;
        }
        let r = Raster { width: w, height: h, rows };
        assert(r@.rows =~= crop_rows(self@.rows, x as nat, y as nat, w as nat, h as nat));
        assert forall|k: int| 0 <= k < r@.rows.len() implies (#[trigger] r@.rows[k]).len() == 4
            * w by {
            assert(r@.rows[k] == rows@[k]@);
            assert(self@.rows[y + k].len() == 4 * self.width);
        }
        Some(r)
    }
}

} // verus!
