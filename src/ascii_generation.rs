//! Sampling of a grayscale raster into cell signatures, and matching of each
//! cell against a signature table.

use vstd::prelude::*;

use crate::intensity::{CharIntensities, Intensity, ToneCurve, ONE};
use crate::text_write::{lines_text, TextWrite};

verus! {

/// A single-channel raster, row-major.
#[derive(Clone, Debug)]
pub struct GrayRaster {
    pub width: u32,
    pub height: u32,
    pub pixels: Vec<u8>,
}

impl GrayRaster {
    /// One value per pixel.
    pub open spec fn wf(&self) -> bool {
        self.pixels@.len() == self.width * self.height
    }

    pub open spec fn pixel(&self, x: int, y: int) -> int {
        self.pixels@[y * self.width + x] as int
    }

    /// Sum of the pixels of column `x` for `y` in `[y1, y2)`.
    pub open spec fn column_sum(&self, x: int, y1: int, y2: int) -> int
        decreases y2 - y1,
    {
        if y2 <= y1 {
            0
        } else {
            self.column_sum(x, y1, y2 - 1) + self.pixel(x, y2 - 1)
        }
    }

    /// Sum of the pixels for `x` in `[x1, x2)` and `y` in `[y1, y2)`.
    pub open spec fn block_sum(&self, x1: int, x2: int, y1: int, y2: int) -> int
        decreases x2 - x1,
    {
        if x2 <= x1 {
            0
        } else {
            self.block_sum(x1, x2 - 1, y1, y2) + self.column_sum(x2 - 1, y1, y2)
        }
    }

    /// Mean pixel value over the inclusive block `(x1, y1)-(x2, y2)`, divided by
    /// 256, on the fixed-point scale of `ONE` (where 1/256 is 256), rounded down.
    pub open spec fn block_mean(&self, x1: int, y1: int, x2: int, y2: int) -> int {
        self.block_sum(x1, x2 + 1, y1, y2 + 1) * 256 / ((x2 - x1 + 1) * (y2 - y1 + 1))
    }

    /// The raw signature of cell `(i, j)`, read from the 3x3 block whose
    /// top-left pixel is `(3i, 3j)`: the left and right columns, the top and
    /// bottom rows, and the centre pixel.
    pub open spec fn raw_cell(&self, i: int, j: int) -> Intensity {
        let (x, y) = (3 * i, 3 * j);
        Intensity {
            left: self.block_mean(x, y, x, y + 2) as u32,
            right: self.block_mean(x + 2, y, x + 2, y + 2) as u32,
            top: self.block_mean(x, y, x + 2, y) as u32,
            bottom: self.block_mean(x, y + 2, x + 2, y + 2) as u32,
            middle: self.block_mean(x + 1, y + 1, x + 1, y + 1) as u32,
        }
    }

    /// The raster with these dimensions and pixels, when their number matches.
    pub fn from_raw(width: u32, height: u32, pixels: Vec<u8>) -> (r: Option<GrayRaster>)
        ensures
            r is Some <==> pixels@.len() == width * height,
            r matches Some(g) ==> g.width == width && g.height == height && g.pixels@
                == pixels@,
    {
        assert(width * height <= 0xffff_ffff * 0xffff_ffff) by (nonlinear_arith)
            requires
                width <= 0xffff_ffff,
                height <= 0xffff_ffff,
        ;
        if (pixels.len() as u128) == (width as u128) * (height as u128) {
            Some(GrayRaster { width, height, pixels })
        } else {
            None
        }
    }
}

/// Mean of the inclusive block `(x1, y1)-(x2, y2)`, divided by 256.
pub fn avg_intensity(image: &GrayRaster, x1: u32, y1: u32, x2: u32, y2: u32) -> (r: u32)
    requires
        image.wf(),
        x1 <= x2 < image.width,
        y1 <= y2 < image.height,
    ensures
        r == image.block_mean(x1 as int, y1 as int, x2 as int, y2 as int),
        r < ONE,
{
    let w = image.width;
    let len = image.pixels.len();
    let ghost rows = y2 - y1 + 1;
    let mut s: u128 = 0;
    let ghost mut cnt: int = 0;
    assert((x1 - x1) * rows == 0) by (nonlinear_arith);
    for i in x1..x2 + 1
        invariant
            image.wf(),
            w == image.width,
            len == image.pixels@.len(),
            x2 < image.width,
            y1 <= y2 < image.height,
            rows == y2 - y1 + 1,
            s == image.block_sum(x1 as int, i as int, y1 as int, y2 + 1),
            cnt == (i - x1) * rows,
            0 <= s <= 255 * cnt,
    {
        let ghost s0 = s;
        assert((i - x1) * rows + rows == (i + 1 - x1) * rows) by (nonlinear_arith);
        assert(cnt + rows <= 0x1_0000_0000 * 0x1_0000_0000) by (nonlinear_arith)
            requires
                cnt == (i - x1) * rows,
                0 <= i - x1 < 0x1_0000_0000,
                0 < rows <= 0x1_0000_0000,
        ;
        for j in y1..y2 + 1
            invariant
                image.wf(),
                w == image.width,
                len == image.pixels@.len(),
                i < image.width,
                y2 < image.height,
                s == s0 + image.column_sum(i as int, y1 as int, j as int),
                s0 <= 255 * cnt,
                s <= 255 * (cnt + (j - y1)),
                cnt + rows <= 0x1_0000_0000 * 0x1_0000_0000,
                rows == y2 - y1 + 1,
        {
            assert(j * w + i < len) by (nonlinear_arith)
                requires
                    j < image.height,
                    i < w,
                    len == w * image.height,
            ;
            let k = j as usize * w as usize + i as usize;
            s = s + image.pixels[k] as u128;
        }
        proof {
            cnt = cnt + rows;
        }
    }
    assert((x2 - x1 + 1) * (y2 - y1 + 1) <= 0x1_0000_0000 * 0x1_0000_0000) by (nonlinear_arith)
        requires
            x1 <= x2 < 0x1_0000_0000,
            y1 <= y2 < 0x1_0000_0000,
    ;
    let count: u128 = (x2 - x1 + 1) as u128 * (y2 - y1 + 1) as u128;
    assert(count >= 1) by (nonlinear_arith)
        requires
            count == (x2 - x1 + 1) * (y2 - y1 + 1),
            x2 >= x1,
            y2 >= y1,
    ;
    assert((s * 256) / (count as int) < 65536) by (nonlinear_arith)
        requires
            s <= 255 * count,
            count >= 1,
            s >= 0,
    ;
    (s * 256 / count) as u32
}

/// The raw signature of output cell `(i, j)`.
pub fn cell_intensity(image: &GrayRaster, i: u32, j: u32) -> (r: Intensity)
    requires
        image.wf(),
        3 * i + 2 < image.width,
        3 * j + 2 < image.height,
    ensures
        r == image.raw_cell(i as int, j as int),
        r.wf(),
{
    let x = 3 * i;
    let y = 3 * j;
    Intensity {
        left: avg_intensity(image, x, y, x, y + 2),
        right: avg_intensity(image, x + 2, y, x + 2, y + 2),
        top: avg_intensity(image, x, y, x + 2, y),
        bottom: avg_intensity(image, x, y + 2, x + 2, y + 2),
        middle: avg_intensity(image, x + 1, y + 1, x + 1, y + 1),
    }
}

/// Entry `k` is at the least distance from `cell`, and every entry before it is farther.
pub open spec fn is_first_nearest(cell: Intensity, a: Seq<(char, Intensity)>, k: int) -> bool {
    &&& 0 <= k < a.len()
    &&& forall|j: int|
        0 <= j < a.len() ==> cell.spec_distance(&a[k].1) <= cell.spec_distance(&(#[trigger] a[j]).1)
    &&& forall|j: int| 0 <= j < k ==> cell.spec_distance(&(#[trigger] a[j]).1) > cell.spec_distance(&a[k].1)
}

/// `c` is the character of the first entry nearest to `cell`; a space for an empty table.
pub open spec fn is_best_match(cell: Intensity, a: Seq<(char, Intensity)>, c: char) -> bool {
    if a.len() == 0 {
        c == ' '
    } else {
        exists|k: int| is_first_nearest(cell, a, k) && a[k].0 == c
    }
}

/// The character whose signature is nearest to `cell`, the earliest on ties.
pub fn best_match(cell: &Intensity, alphabet: &CharIntensities) -> (c: char)
    ensures
        is_best_match(*cell, alphabet@, c),
{
    let n = alphabet.len();
    if n == 0 {
        return ' ';
    }
    let mut best: usize = 0;
    let mut best_distance = cell.distance(&alphabet[0].1);
    for k in 1..n
        invariant
            n == alphabet@.len(),
            best < k,
            best_distance == cell.spec_distance(&alphabet@[best as int].1),
            forall|j: int|
                0 <= j < k ==> best_distance <= cell.spec_distance(&(#[trigger] alphabet@[j]).1),
            forall|j: int|
                0 <= j < best ==> cell.spec_distance(&(#[trigger] alphabet@[j]).1) > best_distance,
    {
        let d = cell.distance(&alphabet[k].1);
        if d < best_distance {
            best = k;
            best_distance = d;
        }
    }
    assert(is_first_nearest(*cell, alphabet@, best as int));
    alphabet[best].0
}

/// A table of one entry matches its character, whatever the cell.
pub proof fn lemma_single_entry_always_matches(cell: Intensity, entry: (char, Intensity), c: char)
    requires
        is_best_match(cell, seq![entry], c),
    ensures
        c == entry.0,
{
    let k = choose|k: int| is_first_nearest(cell, seq![entry], k) && seq![entry][k].0 == c;
    assert(k == 0);
}

/// `rows` is the `new_width` by `new_height` grid of characters: each cell
/// sampled, tone-mapped by `curve`, and matched against `char_intensities`.
pub open spec fn is_rendering(
    rows: Seq<Seq<char>>,
    new_width: u32,
    new_height: u32,
    image: GrayRaster,
    char_intensities: Seq<(char, Intensity)>,
    curve: ToneCurve,
) -> bool {
    &&& rows.len() == new_height
    &&& forall|j: int|
        0 <= j < new_height ==> {
            let row = #[trigger] rows[j];
            &&& row.len() == new_width
            &&& forall|i: int|
                0 <= i < new_width ==> is_best_match(
                    curve.spec_tone(image.raw_cell(i, j)),
                    char_intensities,
                    #[trigger] row[i],
                )
        }
}

/// The characters of the grid, row by row.
pub fn render_rows(
    new_width: u32,
    new_height: u32,
    image: &GrayRaster,
    char_intensities: &CharIntensities,
    curve: &ToneCurve,
) -> (rows: Vec<Vec<char>>)
    requires
        image.wf(),
        curve.wf(),
        image.width == 3 * new_width,
        image.height == 3 * new_height,
    ensures
        is_rendering(
            rows@.map_values(|r: Vec<char>| r@),
            new_width,
            new_height,
            *image,
            char_intensities@,
            *curve,
        ),
{
    let mut rows: Vec<Vec<char>> = Vec::new();
    for j in 0..new_height
        invariant
            image.wf(),
            curve.wf(),
            image.width == 3 * new_width,
            image.height == 3 * new_height,
            rows@.len() == j,
            forall|jj: int|
                0 <= jj < j ==> {
                    let row = #[trigger] rows@[jj];
                    &&& row@.len() == new_width
                    &&& forall|i: int|
                        0 <= i < new_width ==> is_best_match(
                            curve.spec_tone(image.raw_cell(i, jj)),
                            char_intensities@,
                            #[trigger] row@[i],
                        )
                },
    {
        let mut row: Vec<char> = Vec::new();
        for i in 0..new_width
            invariant
                image.wf(),
                curve.wf(),
                image.width == 3 * new_width,
                image.height == 3 * new_height,
                j < new_height,
                row@.len() == i,
                forall|ii: int|
                    0 <= ii < i ==> is_best_match(
                        curve.spec_tone(image.raw_cell(ii, j as int)),
                        char_intensities@,
                        #[trigger] row@[ii],
                    ),
        {
            let mut cell = cell_intensity(image, i, j);
            let tone = |x: u32| -> (r: u32)
                requires
                    x <= ONE,
                    curve.wf(),
                ensures
                    r == curve.spec_map(x),
                { curve.map(x) };
            cell.apply(tone);
            assert(cell == curve.spec_tone(image.raw_cell(i as int, j as int)));
            row.push(best_match(&cell, char_intensities));
        }
        rows.push(row);
    }
    assert(is_rendering(
        rows@.map_values(|r: Vec<char>| r@),
        new_width,
        new_height,
        *image,
        char_intensities@,
        *curve,
    ));
    rows
}

/// Renders the grid and hands it to `writer` row by row, each row followed by a
/// newline, without flushing; stops at the first error of the writer and returns it.
pub fn asciify<E, W: TextWrite<E>>(
    writer: &mut W,
    new_width: u32,
    new_height: u32,
    image: &GrayRaster,
    char_intensities: &CharIntensities,
    curve: &ToneCurve,
) -> (r: Result<(), E>)
    requires
        image.wf(),
        curve.wf(),
        image.width == 3 * new_width,
        image.height == 3 * new_height,
    ensures
        new_height == 0 ==> r is Ok && final(writer).written() == old(writer).written(),
        r is Ok ==> exists|rows: Seq<Seq<char>>|
            is_rendering(rows, new_width, new_height, *image, char_intensities@, *curve)
                && final(writer).written() == old(writer).written() + lines_text(rows),
{
    let rows = render_rows(new_width, new_height, image, char_intensities, curve);
    let ghost grid = rows@.map_values(|r: Vec<char>| r@);
    let ghost start = writer.written();
    let n = rows.len();
    assert(grid.len() == rows@.len());
    for j in 0..n
        invariant
            n == rows@.len(),
            n == new_height,
            grid == rows@.map_values(|r: Vec<char>| r@),
            writer.written() == start + lines_text(grid.take(j as int)),
    {
        let row = &rows[j];
        let m = row.len();
        let ghost before = writer.written();
        for i in 0..m
            invariant
                m == row@.len(),
                j < n,
                n == new_height,
                *row == rows@[j as int],
                before == start + lines_text(grid.take(j as int)),
                writer.written() == before + row@.take(i as int),
        {
            match writer.write_char(row[i]) {
                Ok(()) => {},
                Err(e) => return Err(e),
            }
            assert(row@.take(i + 1) =~= row@.take(i as int).push(row@[i as int]));
            assert(writer.written() =~= before + row@.take(i + 1));
        }
        match writer.write_newline() {
            Ok(()) => {},
            Err(e) => return Err(e),
        }
        proof {
            assert(row@.take(m as int) =~= row@);
            assert(grid.take(j + 1).drop_last() =~= grid.take(j as int));
            assert(grid.take(j + 1).last() == row@);
            assert(writer.written() =~= start + lines_text(grid.take(j + 1)));
        }
    }
    assert(grid.take(n as int) =~= grid);
    Ok(())
}

} // verus!
