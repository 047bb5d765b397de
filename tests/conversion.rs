use ascii_animations::bitmap::{rgba_distance_squared, Image, Pixel};
use ascii_animations::frames::{frame_file_name, lex_less_eq, plan_frames, sort_names};
use ascii_animations::pattern::{
    activation_grid, best_subgrid, extract_2x2, marching_square_index, neighborhood,
};
use ascii_animations::render::{
    ascii_representation_from_image, format_pixel, glyph, output_raster, pixel_cell,
    serialize_raster,
};
use ascii_animations::resize::{resize_image, ResizeError, DEFAULT_FATNESS};

fn uniform(width: u32, height: u32, p: [u8; 4]) -> Image {
    let mut data = Vec::new();
    for _ in 0..(width * height) {
        data.extend_from_slice(&p);
    }
    Image::from_rgba(width, height, data).unwrap()
}

fn px(r: u8, g: u8, b: u8, a: u8) -> Pixel {
    Pixel { r, g, b, a }
}

#[test]
fn distance_is_sum_of_squared_channel_differences() {
    assert_eq!(rgba_distance_squared(px(10, 20, 30, 40), px(13, 16, 30, 50)), 9 + 16 + 0 + 100);
    assert_eq!(rgba_distance_squared(px(0, 0, 0, 0), px(255, 255, 255, 255)), 4 * 65025);
    assert_eq!(rgba_distance_squared(px(7, 7, 7, 7), px(7, 7, 7, 7)), 0);
}

#[test]
fn from_rgba_checks_buffer_length() {
    assert!(Image::from_rgba(2, 2, vec![0; 15]).is_none());
    assert!(Image::from_rgba(2, 2, vec![0; 16]).is_some());
    assert!(Image::from_rgba(0, 5, vec![]).is_some());
}

#[test]
fn get_pixel_checked_outside_is_none() {
    let img = Image::from_rgba(2, 1, vec![1, 2, 3, 4, 5, 6, 7, 8]).unwrap();
    assert_eq!(img.get_pixel_checked(1, 0), Some(px(5, 6, 7, 8)));
    assert_eq!(img.get_pixel_checked(2, 0), None);
    assert_eq!(img.get_pixel_checked(0, 1), None);
}

#[test]
fn neighborhood_rows_are_below_same_above_with_transparent_border() {
    // 3x3 image whose pixel (x, y) has red channel 10 * y + x.
    let mut data = Vec::new();
    for y in 0..3u8 {
        for x in 0..3u8 {
            data.extend_from_slice(&[10 * y + x, 0, 0, 255]);
        }
    }
    let img = Image::from_rgba(3, 3, data).unwrap();
    let block = neighborhood(&img, 1, 1);
    assert_eq!(block[0][0].r, 20);
    assert_eq!(block[0][2].r, 22);
    assert_eq!(block[1][1].r, 11);
    assert_eq!(block[2][0].r, 0);
    assert_eq!(block[2][1].r, 1);
    let corner = neighborhood(&img, 0, 0);
    let clear = px(0, 0, 0, 0);
    assert_eq!(corner[0][0], clear);
    assert_eq!(corner[1][0], clear);
    assert_eq!(corner[2][0], clear);
    assert_eq!(corner[2][1], clear);
    assert_eq!(corner[2][2], clear);
    assert_eq!(corner[0][1].r, 10);
    assert_eq!(corner[1][2].r, 1);
}

#[test]
fn activation_threshold_is_strictly_below_fifty() {
    let center = px(100, 100, 100, 255);
    let block = vec![
        vec![px(107, 100, 100, 255), px(100, 100, 100, 255), px(108, 100, 100, 255)],
        vec![px(100, 105, 100, 250), center, px(0, 0, 0, 0)],
        vec![px(100, 100, 107, 255), px(101, 101, 101, 255), px(100, 100, 100, 248)],
    ];
    let grid = activation_grid(&block, center);
    assert_eq!(grid, vec![vec![1, 1, 0], vec![0, 1, 0], vec![1, 1, 1]]);
}

#[test]
fn extract_2x2_order_is_tl_tr_bl_br() {
    let grid = vec![vec![1, 0, 1], vec![0, 1, 1], vec![1, 1, 0]];
    let subs = extract_2x2(&grid);
    assert_eq!(subs[0], [[1, 0], [0, 1]]);
    assert_eq!(subs[1], [[0, 1], [1, 1]]);
    assert_eq!(subs[2], [[0, 1], [1, 1]]);
    assert_eq!(subs[3], [[1, 1], [1, 0]]);
}

#[test]
fn marching_square_index_bit_layout() {
    assert_eq!(marching_square_index([[1, 0], [0, 0]]), 8);
    assert_eq!(marching_square_index([[0, 1], [0, 0]]), 4);
    assert_eq!(marching_square_index([[0, 0], [0, 1]]), 2);
    assert_eq!(marching_square_index([[0, 0], [1, 0]]), 1);
    assert_eq!(marching_square_index([[1, 1], [1, 1]]), 15);
    assert_eq!(marching_square_index([[0, 0], [0, 0]]), 0);
}

#[test]
fn best_subgrid_ties_go_to_the_later_one() {
    let all_equal = vec![[[1, 1], [0, 0]]; 4];
    assert_eq!(best_subgrid(&all_equal), 3);
    let first_two = vec![[[1, 1], [1, 1]], [[1, 1], [1, 1]], [[1, 0], [0, 0]], [[0, 0], [0, 0]]];
    assert_eq!(best_subgrid(&first_two), 1);
    let middle = vec![[[1, 0], [0, 0]], [[1, 1], [1, 0]], [[0, 1], [1, 1]], [[0, 0], [1, 1]]];
    assert_eq!(best_subgrid(&middle), 2);
    let first = vec![[[1, 1], [1, 1]], [[1, 1], [1, 0]], [[0, 1], [1, 1]], [[0, 0], [1, 1]]];
    assert_eq!(best_subgrid(&first), 0);
}

#[test]
fn tie_break_decides_the_glyph() {
    // Top-left, top-right and bottom-right each have three active cells: the
    // bottom-right one ([[1, 1], [0, 1]], index 14) is chosen.
    let grid = vec![vec![1, 1, 0], vec![0, 1, 1], vec![0, 0, 1]];
    let subs = extract_2x2(&grid);
    let k = best_subgrid(&subs);
    assert_eq!(k, 3);
    assert_eq!(marching_square_index(subs[k]), 14);
    assert_eq!(glyph(14), '@');
}

#[test]
fn glyph_table_is_exact() {
    let expected = [
        ' ', '~', '$', '>', '\u{2576}', '=', '<', '=', '^', '+', '$', '$', '~', '*', '@', '#',
    ];
    for (i, c) in expected.iter().enumerate() {
        assert_eq!(glyph(i as u8), *c);
    }
    assert_eq!(glyph(5), glyph(7));
    assert_eq!(glyph(2), glyph(10));
    assert_eq!(glyph(10), glyph(11));
    assert_eq!(glyph(1), glyph(12));
    assert_ne!(glyph(0), glyph(12));
}

#[test]
fn format_pixel_grayscale_and_color() {
    assert_eq!(format_pixel('#', px(255, 0, 7, 255), true), "#");
    assert_eq!(format_pixel('#', px(255, 0, 7, 255), false), "\x1b[38;2;255;0;7m#\x1b[0m");
    assert_eq!(format_pixel('~', px(12, 100, 9, 1), false), "\x1b[38;2;12;100;9m~\x1b[0m");
}

#[test]
fn transparent_pixels_are_blank() {
    let img = uniform(3, 3, [200, 10, 10, 63]);
    for y in 0..3 {
        for x in 0..3 {
            assert_eq!(pixel_cell(&img, x, y, true), " ");
            assert_eq!(pixel_cell(&img, x, y, false), " ");
        }
    }
    let opaque_enough = uniform(3, 3, [200, 10, 10, 64]);
    assert_eq!(pixel_cell(&opaque_enough, 1, 1, true), "#");
}

#[test]
fn uniform_opaque_image_is_all_full_blocks() {
    let img = uniform(4, 3, [30, 60, 90, 255]);
    let text = ascii_representation_from_image(&img, true);
    assert_eq!(text, "####\n####\n####\n");
}

#[test]
fn single_pixel_image_has_no_full_sub_grid() {
    // Every neighbour lies outside the image, so only the centre is active and
    // the last sub-grid holding it (top-left cell of bottom-right) wins.
    let img = uniform(1, 1, [30, 60, 90, 255]);
    assert_eq!(ascii_representation_from_image(&img, true), "^\n");
}

#[test]
fn end_to_end_two_by_two() {
    let img = uniform(2, 2, [10, 20, 30, 255]);
    let resized = resize_image(&img, 2, 2, Some(100)).unwrap();
    assert_eq!(resized.width, 2);
    assert_eq!(resized.height, 2);
    let gray = ascii_representation_from_image(&resized, true);
    assert_eq!(gray, "##\n##\n");
    let cell = "\x1b[38;2;10;20;30m#\x1b[0m";
    let color = ascii_representation_from_image(&resized, false);
    assert_eq!(color, format!("{cell}{cell}\n{cell}{cell}\n"));
}

#[test]
fn raster_dimensions_follow_the_image() {
    let img = uniform(5, 2, [1, 2, 3, 255]);
    let raster = output_raster(&img, true);
    assert_eq!(raster.len(), 2);
    assert!(raster.iter().all(|row| row.len() == 5));
    assert_eq!(serialize_raster(&raster), "#####\n#####\n");
}

#[test]
fn empty_images_give_empty_rasters() {
    let none = Image::from_rgba(0, 0, vec![]).unwrap();
    assert_eq!(ascii_representation_from_image(&none, false), "");
    let thin = Image::from_rgba(0, 2, vec![]).unwrap();
    assert_eq!(ascii_representation_from_image(&thin, true), "\n\n");
}

#[test]
fn resize_uses_rounded_fatness() {
    let img = uniform(3, 3, [1, 2, 3, 255]);
    let r = resize_image(&img, 20, 7, None).unwrap();
    assert_eq!((r.width, r.height), (49, 7));
    assert_eq!(DEFAULT_FATNESS, 245);
    let r = resize_image(&img, 3, 2, Some(150)).unwrap();
    assert_eq!((r.width, r.height), (5, 2));
    let r = resize_image(&img, 10, 4, Some(249)).unwrap();
    assert_eq!((r.width, r.height), (25, 4));
    let text = ascii_representation_from_image(&r, true);
    assert_eq!(text.lines().count(), 4);
    assert!(text.lines().all(|l| l.chars().count() == 25));
}

#[test]
fn resize_samples_nearest_pixels() {
    let img = Image::from_rgba(2, 1, vec![1, 2, 3, 255, 9, 8, 7, 255]).unwrap();
    let r = resize_image(&img, 4, 1, Some(100)).unwrap();
    assert_eq!(
        r.data,
        vec![1, 2, 3, 255, 1, 2, 3, 255, 9, 8, 7, 255, 9, 8, 7, 255]
    );
}

#[test]
fn resize_errors() {
    let empty = Image::from_rgba(0, 0, vec![]).unwrap();
    let blank = resize_image(&empty, 2, 2, Some(100)).unwrap();
    assert_eq!((blank.width, blank.height), (2, 2));
    assert_eq!(blank.data, vec![0; 16]);
    assert!(resize_image(&empty, 0, 2, Some(100)).is_ok());
    let img = uniform(1, 1, [0, 0, 0, 255]);
    assert_eq!(resize_image(&img, u32::MAX, 1, None).err(), Some(ResizeError::TooLarge));
    assert_eq!(
        resize_image(&img, 4_000_000, 4_000_000_000, Some(100_000)).err(),
        Some(ResizeError::TooLarge)
    );
}

#[test]
fn conversion_is_repeatable() {
    let mut data = Vec::new();
    for i in 0..36u8 {
        data.extend_from_slice(&[i * 7, 255 - i, i * 3, if i % 5 == 0 { 10 } else { 255 }]);
    }
    let img = Image::from_rgba(6, 6, data).unwrap();
    for gray in [true, false] {
        assert_eq!(
            ascii_representation_from_image(&img, gray),
            ascii_representation_from_image(&img, gray)
        );
    }
}

#[test]
fn frame_file_names_are_zero_padded() {
    assert_eq!(frame_file_name(0), "frame_0000.txt");
    assert_eq!(frame_file_name(1), "frame_0001.txt");
    assert_eq!(frame_file_name(2), "frame_0002.txt");
    assert_eq!(frame_file_name(42), "frame_0042.txt");
    assert_eq!(frame_file_name(9999), "frame_9999.txt");
    assert_eq!(frame_file_name(12345), "frame_12345.txt");
}

#[test]
fn names_sort_lexicographically() {
    let names = vec![
        "frame_0003.png".to_string(),
        "frame_0001.png".to_string(),
        "frame_0002.png".to_string(),
    ];
    assert_eq!(
        sort_names(names),
        vec!["frame_0001.png", "frame_0002.png", "frame_0003.png"]
    );
    let mixed = vec!["b".to_string(), "ab".to_string(), "a".to_string(), "".to_string()];
    assert_eq!(sort_names(mixed), vec!["", "a", "ab", "b"]);
    assert!(lex_less_eq(&"abc".to_string(), &"abd".to_string()));
    assert!(!lex_less_eq(&"b".to_string(), &"abc".to_string()));
    assert!(lex_less_eq(&"same".to_string(), &"same".to_string()));
}

#[test]
fn three_frames_get_sequential_names_in_sorted_order() {
    let extracted = vec![
        "frame_0002.png".to_string(),
        "frame_0003.png".to_string(),
        "frame_0001.png".to_string(),
    ];
    let sorted = sort_names(extracted);
    let outputs: Vec<String> = (0..sorted.len()).map(frame_file_name).collect();
    assert_eq!(outputs, vec!["frame_0000.txt", "frame_0001.txt", "frame_0002.txt"]);
    assert_eq!(sorted[0], "frame_0001.png");
    assert_eq!(sort_names(outputs.clone()), outputs);
}

#[test]
fn plan_frames_orders_names_and_keeps_only_first_resized() {
    let extracted = vec![
        "frame_0003.png".to_string(),
        "frame_0001.png".to_string(),
        "frame_0002.png".to_string(),
    ];
    let jobs = plan_frames(extracted, true);
    assert_eq!(jobs.len(), 3);
    let sources: Vec<&str> = jobs.iter().map(|j| j.source.as_str()).collect();
    let outputs: Vec<&str> = jobs.iter().map(|j| j.output.as_str()).collect();
    let saves: Vec<bool> = jobs.iter().map(|j| j.save_resized).collect();
    assert_eq!(sources, vec!["frame_0001.png", "frame_0002.png", "frame_0003.png"]);
    assert_eq!(outputs, vec!["frame_0000.txt", "frame_0001.txt", "frame_0002.txt"]);
    assert_eq!(saves, vec![true, false, false]);
    let unsaved = plan_frames(vec!["a.png".to_string()], false);
    assert!(!unsaved[0].save_resized);
    assert!(plan_frames(Vec::new(), true).is_empty());
}
