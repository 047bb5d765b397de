//! Per-pixel classification: neighbourhood, activation grid, marching-squares
//! pattern and glyph.

use vstd::prelude::*;
use crate::bitmap::{Pixel, Image, dist2, rgba_distance_squared};

verus! {

/// Two pixels count as one region when their squared distance is below this.
pub const SIMILARITY_THRESHOLD: u32 = 50;

/// A 3×3 grid of cells.
pub open spec fn is_grid<T>(g: Seq<Vec<T>>) -> bool {
    g.len() == 3 && forall|i: int| 0 <= i < 3 ==> #[trigger] g[i]@.len() == 3
}

/// A 3×3 grid whose cells are all 0 or 1.
pub open spec fn is_binary_grid(g: Seq<Vec<u8>>) -> bool {
    is_grid(g) && forall|i: int, j: int| 0 <= i < 3 && 0 <= j < 3 ==> #[trigger] g[i]@[j] <= 1
}

/// The neighbourhood of `(x, y)`: row 0 is the row below (`y + 1`), row 1 the
/// pixel's own row, row 2 the row above; column `j` is `x + j - 1`.
pub open spec fn neighbor_of(image: Image, x: int, y: int, i: int, j: int) -> Pixel {
    image.sample(x + j - 1, y + 1 - i)
}

/// A cell is active when its pixel is similar to the centre pixel.
pub open spec fn active(p: Pixel, center: Pixel) -> u8 {
    if dist2(p, center) < SIMILARITY_THRESHOLD {
        1
    } else {
        0
    }
}

/// The activation of cell `(i, j)` of the neighbourhood of `(x, y)`.
pub open spec fn activation_of(image: Image, x: int, y: int, i: int, j: int) -> u8 {
    active(neighbor_of(image, x, y, i, j), image.pixel_at(x, y))
}

fn neighbor_pixel(image: &Image, x: u32, y: u32, i: usize, j: usize) -> (r: Pixel)
    requires
        image.wf(),
        image.in_bounds(x as int, y as int),
        i < 3,
        j < 3,
    ensures
        r == neighbor_of(*image, x as int, y as int, i as int, j as int),
{
    let transparent = Pixel { r: 0, g: 0, b: 0, a: 0 };
    if (j == 0 && x == 0) || (i == 2 && y == 0) {
        return transparent;
    }
    let nx: u32 = if j == 0 {
        x - 1
    } else if j == 1 {
        x
    } else {
        x + 1
    };
    let ny: u32 = if i == 0 {
        y + 1
    } else if i == 1 {
        y
    } else {
        y - 1
    };
    match image.get_pixel_checked(nx, ny) {
        Some(p) => p,
        None => transparent,
    }
}

/// The 3×3 block of pixels around `(x, y)`, rows ordered below, same, above;
/// coordinates outside the image give transparent black.
pub fn neighborhood(image: &Image, x: u32, y: u32) -> (r: Vec<Vec<Pixel>>)
    requires
        image.wf(),
        image.in_bounds(x as int, y as int),
    ensures
        is_grid(r@),
        forall|i: int, j: int|
            0 <= i < 3 && 0 <= j < 3 ==> #[trigger] r@[i]@[j] == neighbor_of(*image, x as int, y as int, i, j),
{
    let mut rows: Vec<Vec<Pixel>> = Vec::new();
    for i in 0..3usize
        invariant
            image.wf(),
            image.in_bounds(x as int, y as int),
            rows@.len() == i,
            forall|k: int| 0 <= k < i ==> #[trigger] rows@[k]@.len() == 3,
            forall|k: int, j: int|
                0 <= k < i && 0 <= j < 3 ==> #[trigger] rows@[k]@[j] == neighbor_of(*image, x as int, y as int, k, j),
    {
        let mut row: Vec<Pixel> = Vec::new();
        for j in 0..3usize
            invariant
                image.wf(),
                image.in_bounds(x as int, y as int),
                i < 3,
                row@.len() == j,
                forall|l: int| 0 <= l < j ==> #[trigger] row@[l] == neighbor_of(*image, x as int, y as int, i as int, l),
        {
            row.push(neighbor_pixel(image, x, y, i, j));
        }
        rows.push(row);
    }
    rows
}

/// Marks each pixel of a 3×3 block with 1 when it is similar to `center`, else 0.
pub fn activation_grid(block: &Vec<Vec<Pixel>>, center: Pixel) -> (r: Vec<Vec<u8>>)
    requires
        is_grid(block@),
    ensures
        is_binary_grid(r@),
        forall|i: int, j: int|
            0 <= i < 3 && 0 <= j < 3 ==> #[trigger] r@[i]@[j] == active(block@[i]@[j], center),
{
    let mut rows: Vec<Vec<u8>> = Vec::new();
    for i in 0..3usize
        invariant
            is_grid(block@),
            rows@.len() == i,
            forall|k: int| 0 <= k < i ==> #[trigger] rows@[k]@.len() == 3,
            forall|k: int, j: int|
                0 <= k < i && 0 <= j < 3 ==> #[trigger] rows@[k]@[j] == active(block@[k]@[j], center),
    {
        let mut row: Vec<u8> = Vec::new();
        for j in 0..3usize
            invariant
                is_grid(block@),
                i < 3,
                row@.len() == j,
                forall|l: int| 0 <= l < j ==> #[trigger] row@[l] == active(block@[i as int]@[l], center),
        {
            assert(block@[i as int]@.len() == 3);
            let d = rgba_distance_squared(block[i][j], center);
            row.push(if d < SIMILARITY_THRESHOLD { 1u8 } else { 0u8 });
        }
        rows.push(row);
    }
    rows
}

/// Cell `(i, j)` of sub-grid `k` of a 3×3 grid; the sub-grids are, in order,
/// top-left, top-right, bottom-left and bottom-right.
pub open spec fn sub_cell(g: Seq<Vec<u8>>, k: int, i: int, j: int) -> u8 {
    g[k / 2 + i]@[k % 2 + j]
}

/// The four overlapping 2×2 sub-grids of a 3×3 grid: top-left, top-right,
/// bottom-left, bottom-right.
pub fn extract_2x2(grid: &Vec<Vec<u8>>) -> (r: Vec<[[u8; 2]; 2]>)
    requires
        is_grid(grid@),
    ensures
        r@.len() == 4,
        forall|k: int, i: int, j: int|
            0 <= k < 4 && 0 <= i < 2 && 0 <= j < 2 ==> #[trigger] r@[k][i][j] == sub_cell(grid@, k, i, j),
{
    assert(grid@[0]@.len() == 3 && grid@[1]@.len() == 3 && grid@[2]@.len() == 3);
    let r = vec![
        [[grid[0][0], grid[0][1]], [grid[1][0], grid[1][1]]],
        [[grid[0][1], grid[0][2]], [grid[1][1], grid[1][2]]],
        [[grid[1][0], grid[1][1]], [grid[2][0], grid[2][1]]],
        [[grid[1][1], grid[1][2]], [grid[2][1], grid[2][2]]],
    ];
    assert forall|k: int, i: int, j: int|
        0 <= k < 4 && 0 <= i < 2 && 0 <= j < 2 implies #[trigger] r@[k][i][j] == sub_cell(grid@, k, i, j) by {
        assert(k == 0 || k == 1 || k == 2 || k == 3);
    }
    r
}

/// A 2×2 square whose cells are all 0 or 1.
pub open spec fn is_binary_square(s: [[u8; 2]; 2]) -> bool {
    s[0][0] <= 1 && s[0][1] <= 1 && s[1][0] <= 1 && s[1][1] <= 1
}

/// Number of active cells of a 2×2 square.
pub open spec fn square_sum(s: [[u8; 2]; 2]) -> int {
    s[0][0] + s[0][1] + s[1][0] + s[1][1]
}

/// The 4-bit pattern of a square: bit 3 top-left, bit 2 top-right, bit 1
/// bottom-right, bit 0 bottom-left.
pub open spec fn square_index(s: [[u8; 2]; 2]) -> int {
    8 * s[0][0] + 4 * s[0][1] + 2 * s[1][1] + s[1][0]
}

/// The marching-squares index of a binary 2×2 square.
pub fn marching_square_index(square: [[u8; 2]; 2]) -> (r: u8)
    requires
        is_binary_square(square),
    ensures
        r == square_index(square),
        r < 16,
{
    square[0][0] * 8 + square[0][1] * 4 + square[1][1] * 2 + square[1][0]
}

/// Position among four sums of the largest one, the last one on ties.
pub open spec fn last_max_of(s0: int, s1: int, s2: int, s3: int) -> int {
    if s3 >= s0 && s3 >= s1 && s3 >= s2 {
        3
    } else if s2 >= s0 && s2 >= s1 {
        2
    } else if s1 >= s0 {
        1
    } else {
        0
    }
}

/// The sub-grid with the most active cells; among equal sums the one that
/// comes last wins.
pub open spec fn chosen_square(subs: Seq<[[u8; 2]; 2]>) -> int {
    last_max_of(square_sum(subs[0]), square_sum(subs[1]), square_sum(subs[2]), square_sum(subs[3]))
}

fn square_count(s: [[u8; 2]; 2]) -> (r: u32)
    ensures
        r == square_sum(s),
{
    s[0][0] as u32 + s[0][1] as u32 + s[1][0] as u32 + s[1][1] as u32
}

/// The chosen sub-grid is the last one of maximal sum: no sub-grid has a larger
/// sum, and every later one has a strictly smaller sum. These two facts pin it down.
pub proof fn lemma_chosen_square_is_last_maximum(subs: Seq<[[u8; 2]; 2]>, k: int)
    requires
        subs.len() == 4,
        0 <= k < 4,
    ensures
        (k == chosen_square(subs)) <==> (
            (forall|j: int| 0 <= j < 4 ==> square_sum(#[trigger] subs[j]) <= square_sum(subs[k]))
            && (forall|j: int| k < j < 4 ==> square_sum(#[trigger] subs[j]) < square_sum(subs[k]))),
{
    let c = chosen_square(subs);
    assert(0 <= c < 4);
    assert forall|j: int| 0 <= j < 4 implies square_sum(#[trigger] subs[j]) <= square_sum(subs[c]) by {
        assert(j == 0 || j == 1 || j == 2 || j == 3);
    }
    assert forall|j: int| c < j < 4 implies square_sum(#[trigger] subs[j]) < square_sum(subs[c]) by {
        assert(j == 1 || j == 2 || j == 3);
    }
    if k != c {
        if (forall|j: int| 0 <= j < 4 ==> square_sum(#[trigger] subs[j]) <= square_sum(subs[k]))
            && (forall|j: int| k < j < 4 ==> square_sum(#[trigger] subs[j]) < square_sum(subs[k])) {
            assert(square_sum(subs[c]) <= square_sum(subs[k]));
            assert(square_sum(subs[k]) <= square_sum(subs[c]));
            if k < c {
                assert(square_sum(subs[c]) < square_sum(subs[k]));
            } else {
                assert(square_sum(subs[k]) < square_sum(subs[c]));
            }
        }
    }
}

/// Position of the sub-grid with the highest sum, the later one on ties.
pub fn best_subgrid(subs: &Vec<[[u8; 2]; 2]>) -> (r: usize)
    requires
        subs@.len() == 4,
    ensures
        r == chosen_square(subs@),
        r < 4,
{
    let mut best: usize = 0;
    let mut best_sum: u32 = square_count(subs[0]);
    for k in 1..4usize
        invariant
            subs@.len() == 4,
            best < k,
            best_sum == square_sum(subs@[best as int]),
            forall|j: int| 0 <= j < k ==> square_sum(#[trigger] subs@[j]) <= best_sum,
            forall|j: int| best < j < k ==> square_sum(#[trigger] subs@[j]) < best_sum,
    {
        let s = square_count(subs[k]);
        if s >= best_sum {
            best = k;
            best_sum = s;
        }
    }
    proof {
        lemma_chosen_square_is_last_maximum(subs@, best as int);
    }
    best
}

} // verus!
