//! Row-major pixel grids.

use vstd::prelude::*;
use crate::rgb::RGB;
use crate::vec3::SCALE;

verus! {

/// Width and height of an image, in pixels.
#[derive(Clone, Copy, Debug, PartialEq, Eq, Structural)]
pub struct Resolution {
    pub width: usize,
    pub height: usize,
}

/// A grid of pixels stored row by row, top row first.
pub struct Image {
    pub resolution: Resolution,
    pub content: Vec<RGB>,
}

/// Position of the pixel at `row`, `col` in the row-major content.
pub open spec fn flat_index(width: int, row: int, col: int) -> int {
    row * width + col
}

proof fn lemma_flat_index_in_bounds(width: int, height: int, row: int, col: int)
    requires
        0 <= row < height,
        0 <= col < width,
    ensures
        0 <= flat_index(width, row, col) < width * height,
        flat_index(width, row, col) + width - col <= width * height,
{
    assert(0 <= row * width + col < width * height && row * width + width <= width * height)
        by (nonlinear_arith)
        requires
            0 <= row < height,
            0 <= col < width,
    ;
}

impl Image {
    /// The content holds one valid pixel per cell of the grid.
    pub open spec fn wf(&self) -> bool {
        self.content.len() == self.resolution.width * self.resolution.height && forall|i: int|
            0 <= i < self.content.len() ==> (#[trigger] self.content@[i]).wf()
    }

    /// An all-black image.
    pub fn new(resolution: Resolution) -> (r: Image)
        requires
            resolution.width * resolution.height <= usize::MAX,
        ensures
            r.wf(),
            r.resolution == resolution,
            forall|i: int| 0 <= i < r.content.len() ==> #[trigger] r.content@[i] == (RGB { r: 0, g: 0, b: 0 }),
    {
        let pixels_count = resolution.width * resolution.height;
        let mut content: Vec<RGB> = Vec::new();
        let mut i: usize = 0;
        while i < pixels_count
            invariant
                i <= pixels_count,
                content.len() == i,
                forall|k: int| 0 <= k < i ==> #[trigger] content@[k] == (RGB { r: 0, g: 0, b: 0 }),
            decreases pixels_count - i,
        {
            content.push(RGB::black());
            i = i + 1;
        }
        Image { resolution, content }
    }

    /// An image with the given row-major pixels.
    pub fn new_with_content(resolution: Resolution, content: Vec<RGB>) -> (r: Image)
        requires
            content.len() == resolution.width * resolution.height,
            forall|i: int| 0 <= i < content.len() ==> (#[trigger] content@[i]).wf(),
        ensures
            r.wf(),
            r.resolution == resolution,
            r.content@ == content@,
    {
        Image { resolution, content }
    }

    pub fn width(&self) -> (r: usize)
        ensures
            r == self.resolution.width,
    {
        self.resolution.width
    }

    pub fn height(&self) -> (r: usize)
        ensures
            r == self.resolution.height,
    {
        self.resolution.height
    }

    /// The pixel at `row`, `column` (row 0 is the top).
    pub fn index(&self, row: usize, column: usize) -> (r: RGB)
        requires
            self.wf(),
            row < self.resolution.height,
            column < self.resolution.width,
        ensures
            r == self.content@[flat_index(self.resolution.width as int, row as int, column as int)],
            r.wf(),
    {
        proof {
            lemma_flat_index_in_bounds(
                self.resolution.width as int,
                self.resolution.height as int,
                row as int,
                column as int,
            );
        }
        self.content[row * self.resolution.width + column]
    }

    /// Sets the pixel at `row`, `column`, leaving every other pixel as it was.
    pub fn set(&mut self, row: usize, column: usize, rgb: RGB)
        requires
            old(self).wf(),
            row < old(self).resolution.height,
            column < old(self).resolution.width,
            rgb.wf(),
        ensures
            final(self).wf(),
            final(self).resolution == old(self).resolution,
            final(self).content@ == old(self).content@.update(
                flat_index(old(self).resolution.width as int, row as int, column as int),
                rgb,
            ),
    {
        proof {
            lemma_flat_index_in_bounds(
                self.resolution.width as int,
                self.resolution.height as int,
                row as int,
                column as int,
            );
        }
        let flat_index = row * self.resolution.width + column;
        self.content.set(flat_index, rgb);
    }
}

/// A square gradient: red grows down the rows, green along the columns, blue
/// stays at a quarter.
pub fn test_image(width: usize, height: usize) -> (r: Image)
    requires
        width == height,
        width >= 2,
        width * height <= usize::MAX,
    ensures
        r.wf(),
        r.resolution == (Resolution { width, height }),
        forall|i: int, j: int|
            0 <= i < height && 0 <= j < width ==> #[trigger] r.content@[flat_index(
                width as int,
                i,
                j,
            )] == (RGB {
                r: (i * SCALE / (width - 1) as int) as i64,
                g: (j * SCALE / (height - 1) as int) as i64,
                b: (SCALE / 4) as i64,
            }),
{
    let mut image = Image::new(Resolution { width, height });
    let mut i: usize = 0;
    while i < height
        invariant
            width == height,
            width >= 2,
            image.wf(),
            image.resolution == (Resolution { width, height }),
            i <= height,
            forall|a: int, b: int|
                0 <= a < i && 0 <= b < width ==> #[trigger] image.content@[flat_index(
                    width as int,
                    a,
                    b,
                )] == (RGB {
                    r: (a * SCALE / (width - 1) as int) as i64,
                    g: (b * SCALE / (height - 1) as int) as i64,
                    b: (SCALE / 4) as i64,
                }),
        decreases height - i,
    {
        let mut j: usize = 0;
        while j < width
            invariant
                width == height,
                width >= 2,
                image.wf(),
                image.resolution == (Resolution { width, height }),
                i < height,
                j <= width,
                forall|a: int, b: int|
                    (0 <= a < i && 0 <= b < width) || (a == i && 0 <= b < j) ==> #[trigger] image.content@[flat_index(
                        width as int,
                        a,
                        b,
                    )] == (RGB {
                        r: (a * SCALE / (width - 1) as int) as i64,
                        g: (b * SCALE / (height - 1) as int) as i64,
                        b: (SCALE / 4) as i64,
                    }),
            decreases width - j,
        {
            proof {
                lemma_gradient(i as int, (width - 1) as int);
                lemma_gradient(j as int, (height - 1) as int);
            }
            let rgb = RGB::new(
                ((i as u128) * (SCALE as u128) / ((width - 1) as u128)) as i64,
                ((j as u128) * (SCALE as u128) / ((height - 1) as u128)) as i64,
                SCALE / 4,
            );
            let ghost before = image.content@;
            image.set(i, j, rgb);
            proof {
                assert forall|a: int, b: int|
                    (0 <= a < i && 0 <= b < width) || (a == i && 0 <= b < j + 1) implies #[trigger] image.content@[flat_index(
                        width as int,
                        a,
                        b,
                    )] == (RGB {
                        r: (a * SCALE / (width - 1) as int) as i64,
                        g: (b * SCALE / (height - 1) as int) as i64,
                        b: (SCALE / 4) as i64,
                    }) by {
                    lemma_flat_index_in_bounds(width as int, height as int, a, b);
                    lemma_flat_index_in_bounds(width as int, height as int, i as int, j as int);
                    if a != i || b != j {
                        lemma_flat_index_distinct(width as int, a, b, i as int, j as int);
                        assert(image.content@[flat_index(width as int, a, b)] == before[flat_index(
                            width as int,
                            a,
                            b,
                        )]);
                    } else {
                        assert(image.content@[flat_index(width as int, a, b)] == rgb);
                    }
                }
            }
            j = j + 1;
        }
        i = i + 1;
    }
    image
}

proof fn lemma_gradient(k: int, d: int)
    requires
        0 <= k <= d,
        d >= 1,
    ensures
        0 <= k * SCALE / d <= SCALE,
        k * SCALE <= d * SCALE,
{
    assert(0 <= k * SCALE <= d * SCALE) by (nonlinear_arith)
        requires
            0 <= k <= d,
    ;
    vstd::arithmetic::div_mod::lemma_div_is_ordered(k * SCALE, d * SCALE, d);
    vstd::arithmetic::div_mod::lemma_div_is_ordered(0, k * SCALE, d);
    vstd::arithmetic::div_mod::lemma_fundamental_div_mod_converse(d * SCALE, d, SCALE as int, 0);
}

proof fn lemma_flat_index_distinct(width: int, a: int, b: int, i: int, j: int)
    requires
        0 <= b < width,
        0 <= j < width,
        0 <= a,
        0 <= i,
        a != i || b != j,
    ensures
        flat_index(width, a, b) != flat_index(width, i, j),
{
    if a < i {
        assert(a * width + b < i * width + j) by (nonlinear_arith)
            requires
                a < i,
                0 <= b < width,
                0 <= j,
        ;
    } else if a > i {
        assert(i * width + j < a * width + b) by (nonlinear_arith)
            requires
                i < a,
                0 <= j < width,
                0 <= b,
        ;
    }
}

} // verus!
