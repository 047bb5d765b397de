//! Glyph selection, cell formatting and assembly of the text raster.

use vstd::prelude::*;
use vstd::string::*;
use crate::bitmap::{Pixel, Image};
use crate::text::{decimal, push_char, push_chars, push_decimal};
use crate::pattern::{
    activation_of, neighborhood, activation_grid, extract_2x2, best_subgrid,
    marching_square_index, square_sum, sub_cell, last_max_of,
};

verus! {

/// The glyph for each of the sixteen pattern indices.
pub open spec fn glyph_table() -> Seq<char> {
    seq![' ', '~', '$', '>', '\u{2576}', '=', '<', '=', '^', '+', '$', '$', '~', '*', '@', '#']
}

/// The glyph that stands for pattern `index`.
pub fn glyph(index: u8) -> (c: char)
    requires
        index < 16,
    ensures
        c == glyph_table()[index as int],
{
    match index {
        0 => ' ',
        1 => '~',
        2 => '$',
        3 => '>',
        4 => '\u{2576}',
        5 => '=',
        6 => '<',
        7 => '=',
        8 => '^',
        9 => '+',
        10 => '$',
        11 => '$',
        12 => '~',
        13 => '*',
        14 => '@',
        _ => '#',
    }
}

/// The pattern index chosen for pixel `(x, y)` of `image`.
pub open spec fn pattern_of(image: Image, x: int, y: int) -> int {
    let a = |i: int, j: int| activation_of(image, x, y, i, j) as int;
    let s = |k: int| a(k / 2, k % 2) + a(k / 2, k % 2 + 1) + a(k / 2 + 1, k % 2) + a(k / 2 + 1, k % 2 + 1);
    let k = last_max_of(s(0), s(1), s(2), s(3));
    8 * a(k / 2, k % 2) + 4 * a(k / 2, k % 2 + 1) + 2 * a(k / 2 + 1, k % 2 + 1) + a(k / 2 + 1, k % 2)
}

/// A pixel whose alpha, as a fraction of 255, is below one quarter.
pub open spec fn is_transparent(p: Pixel) -> bool {
    4 * p.a < 255
}

/// The glyph `c` coloured with the RGB of `p` by a 24-bit foreground escape
/// sequence, followed by a reset.
pub open spec fn colored(c: char, p: Pixel) -> Seq<char> {
    seq!['\x1b', '[', '3', '8', ';', '2', ';'] + decimal(p.r as nat) + seq![';'] + decimal(p.g as nat)
        + seq![';'] + decimal(p.b as nat) + seq!['m', c, '\x1b', '[', '0', 'm']
}

/// The text of one opaque cell: the bare glyph in grayscale, else the coloured glyph.
pub open spec fn formatted(c: char, p: Pixel, gray_scale: bool) -> Seq<char> {
    if gray_scale {
        seq![c]
    } else {
        colored(c, p)
    }
}

/// The text of the cell for pixel `(x, y)`.
pub open spec fn cell_text(image: Image, x: int, y: int, gray_scale: bool) -> Seq<char> {
    let p = image.pixel_at(x, y);
    if is_transparent(p) {
        seq![' ']
    } else {
        formatted(glyph_table()[pattern_of(image, x, y)], p, gray_scale)
    }
}

/// Renders glyph `c` for pixel `p`: the bare glyph in grayscale, otherwise the
/// glyph wrapped in a 24-bit colour escape with `p`'s RGB and a reset.
pub fn format_pixel(c: char, p: Pixel, gray_scale: bool) -> (r: String)
    ensures
        r@ == formatted(c, p, gray_scale),
{
    let mut s = String::new();
    if gray_scale {
        push_char(&mut s, c);
        proof {
            assert(s@ =~= seq![c]);
        }
    } else {
        push_chars(&mut s, &['\x1b', '[', '3', '8', ';', '2', ';']);
        push_decimal(&mut s, p.r as u64);
        push_char(&mut s, ';');
        push_decimal(&mut s, p.g as u64);
        push_char(&mut s, ';');
        push_decimal(&mut s, p.b as u64);
        push_chars(&mut s, &['m', c, '\x1b', '[', '0', 'm']);
        proof {
            assert(s@ =~= colored(c, p));
        }
    }
    s
}

/// The text cell for pixel `(x, y)`: a blank for a transparent pixel, else the
/// glyph of its neighbourhood's pattern, formatted.
pub fn pixel_cell(image: &Image, x: u32, y: u32, gray_scale: bool) -> (r: String)
    requires
        image.wf(),
        image.in_bounds(x as int, y as int),
    ensures
        r@ == cell_text(*image, x as int, y as int, gray_scale),
{
    let p = image.get_pixel(x, y);
    if (p.a as u32) * 4 < 255 {
        let mut s = String::new();
        push_char(&mut s, ' ');
        proof {
            assert(s@ =~= seq![' ']);
        }
        return s;
    }
    let block = neighborhood(image, x, y);
    let grid = activation_grid(&block, p);
    let subs = extract_2x2(&grid);
    let k = best_subgrid(&subs);
    let ghost a = |i: int, j: int| activation_of(*image, x as int, y as int, i, j) as int;
    proof {
        assert forall|i: int, j: int| 0 <= i < 3 && 0 <= j < 3 implies grid@[i]@[j] as int == a(i, j) by {}
        assert forall|m: int| 0 <= m < 4 implies square_sum(#[trigger] subs@[m])
            == a(m / 2, m % 2) + a(m / 2, m % 2 + 1) + a(m / 2 + 1, m % 2) + a(m / 2 + 1, m % 2 + 1) by {
            assert(subs@[m][0][0] == sub_cell(grid@, m, 0, 0));
            assert(subs@[m][0][1] == sub_cell(grid@, m, 0, 1));
            assert(subs@[m][1][0] == sub_cell(grid@, m, 1, 0));
            assert(subs@[m][1][1] == sub_cell(grid@, m, 1, 1));
        }
        assert(subs@[k as int][0][0] == sub_cell(grid@, k as int, 0, 0));
        assert(subs@[k as int][0][1] == sub_cell(grid@, k as int, 0, 1));
        assert(subs@[k as int][1][0] == sub_cell(grid@, k as int, 1, 0));
        assert(subs@[k as int][1][1] == sub_cell(grid@, k as int, 1, 1));
    }
    let idx = marching_square_index(subs[k]);
    let c = glyph(idx);
    format_pixel(c, p, gray_scale)
}

/// The text cells of every pixel of `image`, row by row.
pub open spec fn image_cells(image: Image, gray_scale: bool) -> Seq<Seq<Seq<char>>> {
    Seq::new(
        image.height as nat,
        |y: int| Seq::new(image.width as nat, |x: int| cell_text(image, x, y, gray_scale)),
    )
}

/// The characters of each cell of a raster of strings.
pub open spec fn cells_view(raster: Seq<Vec<String>>) -> Seq<Seq<Seq<char>>> {
    Seq::new(raster.len(), |y: int| Seq::new(raster[y]@.len(), |x: int| raster[y]@[x]@))
}

/// The cells of one row written one after the other.
pub open spec fn join_cells(cells: Seq<Seq<char>>) -> Seq<char>
    decreases cells.len(),
{
    if cells.len() == 0 {
        seq![]
    } else {
        join_cells(cells.drop_last()) + cells.last()
    }
}

/// The rows of a raster, each joined and ended by a newline.
pub open spec fn raster_text(rows: Seq<Seq<Seq<char>>>) -> Seq<char>
    decreases rows.len(),
{
    if rows.len() == 0 {
        seq![]
    } else {
        raster_text(rows.drop_last()) + join_cells(rows.last()).push('\n')
    }
}

/// The formatted cell of every pixel, indexed by row and then column.
pub fn output_raster(image: &Image, gray_scale: bool) -> (r: Vec<Vec<String>>)
    requires
        image.wf(),
    ensures
        r@.len() == image.height,
        forall|y: int| 0 <= y < image.height ==> #[trigger] r@[y]@.len() == image.width,
        forall|y: int, x: int|
            0 <= y < image.height && 0 <= x < image.width
                ==> #[trigger] r@[y]@[x]@ == cell_text(*image, x, y, gray_scale),
        cells_view(r@) == image_cells(*image, gray_scale),
{
    let mut rows: Vec<Vec<String>> = Vec::new();
    for y in 0..image.height
        invariant
            image.wf(),
            rows@.len() == y,
            forall|k: int| 0 <= k < y ==> #[trigger] rows@[k]@.len() == image.width,
            forall|k: int, x: int|
                0 <= k < y && 0 <= x < image.width
                    ==> #[trigger] rows@[k]@[x]@ == cell_text(*image, x, k, gray_scale),
    {
        let mut row: Vec<String> = Vec::new();
        for x in 0..image.width
            invariant
                image.wf(),
                y < image.height,
                row@.len() == x,
                forall|l: int| 0 <= l < x ==> #[trigger] row@[l]@ == cell_text(*image, l, y as int, gray_scale),
        {
            row.push(pixel_cell(image, x, y, gray_scale));
        }
        rows.push(row);
    }
    assert(cells_view(rows@) =~~= image_cells(*image, gray_scale));
    rows
}

/// Concatenates each row's cells with no separator and ends every row with a newline.
pub fn serialize_raster(raster: &Vec<Vec<String>>) -> (r: String)
    ensures
        r@ == raster_text(cells_view(raster@)),
{
    let ghost rows = cells_view(raster@);
    let mut buff = String::new();
    for y in 0..raster.len()
        invariant
            rows == cells_view(raster@),
            buff@ == raster_text(rows.subrange(0, y as int)),
    {
        let ghost start = buff@;
        let row = &raster[y];
        for x in 0..row.len()
            invariant
                rows == cells_view(raster@),
                row == raster@[y as int],
                y < raster@.len(),
                buff@ == start + join_cells(rows[y as int].subrange(0, x as int)),
        {
            buff.append(row[x].as_str());
            proof {
                assert(rows[y as int].subrange(0, x + 1).drop_last() =~= rows[y as int].subrange(0, x as int));
            }
        }
        push_char(&mut buff, '\n');
        proof {
            assert(rows[y as int].subrange(0, row@.len() as int) =~= rows[y as int]);
            assert(rows.subrange(0, y + 1).drop_last() =~= rows.subrange(0, y as int));
        }
    }
    proof {
        assert(rows.subrange(0, raster@.len() as int) =~= rows);
    }
    buff
}

/// The character art of `image`: one cell per pixel, rows ended by newlines.
/// An image of width zero gives one empty line per row, one of height zero no text.
pub fn ascii_representation_from_image(image: &Image, gray_scale: bool) -> (r: String)
    requires
        image.wf(),
    ensures
        r@ == raster_text(image_cells(*image, gray_scale)),
{
    let raster = output_raster(image, gray_scale);
    serialize_raster(&raster)
}

/// Of any pixel that is less than a quarter opaque, the cell is a single blank,
/// whatever its colour, its neighbourhood or the grayscale flag.
pub proof fn lemma_transparent_pixel_is_blank(image: Image, x: int, y: int, gray_scale: bool)
    requires
        image.in_bounds(x, y),
        image.pixel_at(x, y).a * 4 < 255,
    ensures
        cell_text(image, x, y, gray_scale) == seq![' '],
{
}

/// In an opaque image of one colour, at least two pixels wide and high, every
/// pixel has the full pattern 15, whose glyph is `#`.
pub proof fn lemma_uniform_image_full_pattern(image: Image, c: Pixel, x: int, y: int)
    requires
        image.width >= 2,
        image.height >= 2,
        c.a == 255,
        forall|i: int, j: int| image.in_bounds(i, j) ==> image.pixel_at(i, j) == c,
        image.in_bounds(x, y),
    ensures
        pattern_of(image, x, y) == 15,
        glyph_table()[pattern_of(image, x, y)] == '#',
        cell_text(image, x, y, true) == seq!['#'],
{
    let a = |i: int, j: int| activation_of(image, x, y, i, j) as int;
    let s = |k: int| a(k / 2, k % 2) + a(k / 2, k % 2 + 1) + a(k / 2 + 1, k % 2) + a(k / 2 + 1, k % 2 + 1);
    assert(image.pixel_at(x, y) == c);
    assert forall|i: int, j: int| 0 <= i < 3 && 0 <= j < 3 implies #[trigger] a(i, j) <= 1 by {}
    assert forall|i: int, j: int|
        0 <= i < 3 && 0 <= j < 3 && image.in_bounds(x + j - 1, y + 1 - i) implies #[trigger] a(i, j) == 1 by {
        assert(image.pixel_at(x + j - 1, y + 1 - i) == c);
    }
    let r0: int = if y + 1 < image.height { 0 } else { 1 };
    let c0: int = if x >= 1 { 0 } else { 1 };
    let k0 = 2 * r0 + c0;
    assert(a(r0, c0) == 1 && a(r0, c0 + 1) == 1 && a(r0 + 1, c0) == 1 && a(r0 + 1, c0 + 1) == 1);
    assert(s(k0) == 4);
    let k = last_max_of(s(0), s(1), s(2), s(3));
    assert(0 <= k < 4);
    assert(s(k) >= s(k0));
    assert(a(k / 2, k % 2) == 1 && a(k / 2, k % 2 + 1) == 1 && a(k / 2 + 1, k % 2) == 1
        && a(k / 2 + 1, k % 2 + 1) == 1);
}

/// The glyph table as it stands: patterns 5 and 7 share `=`; 2, 10 and 11 share
/// `$`; 1 and 12 share `~`; pattern 0 is a blank and 15 is `#`.
pub proof fn lemma_glyph_table_shared_entries()
    ensures
        glyph_table().len() == 16,
        glyph_table()[5] == glyph_table()[7],
        glyph_table()[2] == glyph_table()[10],
        glyph_table()[10] == glyph_table()[11],
        glyph_table()[1] == glyph_table()[12],
        glyph_table()[0] == ' ',
        glyph_table()[15] == '#',
        glyph_table()[0] != glyph_table()[12],
{
}

/// The text has one row per pixel row, and each row one cell per pixel column.
pub proof fn lemma_raster_dimensions(image: Image, gray_scale: bool)
    ensures
        image_cells(image, gray_scale).len() == image.height,
        forall|y: int| 0 <= y < image.height ==> #[trigger] image_cells(image, gray_scale)[y].len() == image.width,
{
}

/// In grayscale every cell of the text is a single character.
pub proof fn lemma_grayscale_cells_are_single_chars(image: Image, x: int, y: int)
    requires
        image.in_bounds(x, y),
    ensures
        cell_text(image, x, y, true).len() == 1,
{
}

proof fn lemma_same_pixels_same_cell(first: Image, second: Image, x: int, y: int, gray_scale: bool)
    requires
        first.width == second.width,
        first.height == second.height,
        first.data@ == second.data@,
    ensures
        cell_text(first, x, y, gray_scale) == cell_text(second, x, y, gray_scale),
{
    assert forall|i: int, j: int| #[trigger] first.sample(i, j) == second.sample(i, j) by {}
    assert forall|i: int, j: int|
        #[trigger] activation_of(first, x, y, i, j) == activation_of(second, x, y, i, j) by {
        assert(first.sample(x + j - 1, y + 1 - i) == second.sample(x + j - 1, y + 1 - i));
        assert(first.pixel_at(x, y) == second.pixel_at(x, y));
    }
    assert(pattern_of(first, x, y) == pattern_of(second, x, y));
}

/// The text depends only on the image's size, its pixels and the grayscale
/// flag: converting the same image twice gives identical text.
pub proof fn lemma_conversion_deterministic(first: Image, second: Image, gray_scale: bool)
    requires
        first.width == second.width,
        first.height == second.height,
        first.data@ == second.data@,
    ensures
        raster_text(image_cells(first, gray_scale)) == raster_text(image_cells(second, gray_scale)),
{
    assert forall|y: int, x: int| #[trigger] cell_text(first, x, y, gray_scale) == cell_text(second, x, y, gray_scale) by {
        lemma_same_pixels_same_cell(first, second, x, y, gray_scale);
    }
    assert(image_cells(first, gray_scale) =~~= image_cells(second, gray_scale));
}

} // verus!
