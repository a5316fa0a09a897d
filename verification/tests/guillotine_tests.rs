use guillotine::partition::{guillotine, guillotine_tiles, partition_step, Axis, Step, Threshold};
use guillotine::raster::{Img, Pixel};
use guillotine::Error;

fn px(r: u8, g: u8, b: u8) -> Pixel {
    Pixel { r, g, b }
}

const BLACK: Pixel = Pixel { r: 0, g: 0, b: 0 };
const WHITE: Pixel = Pixel { r: 255, g: 255, b: 255 };

/// A `w` by `h` image whose pixel at `(x, y)` is `f(x, y)`.
fn image_from(w: usize, h: usize, f: impl Fn(usize, usize) -> Pixel) -> Img {
    let mut rows = Vec::new();
    for y in 0..h {
        let mut row = Vec::new();
        for x in 0..w {
            row.push(f(x, y));
        }
        rows.push(row);
    }
    Img::new(w, rows).unwrap()
}

fn solid(w: usize, h: usize, p: Pixel) -> Img {
    image_from(w, h, |_, _| p)
}

#[test]
fn uniform_image_returned_whole() {
    let img = solid(120, 130, px(7, 99, 201));
    let thr = Threshold { num: 30, den: 1 };
    let out = guillotine(img, &thr, 100).unwrap();
    assert_eq!(out.len(), 1);
    assert_eq!(out[0], solid(120, 130, px(7, 99, 201)));
}

#[test]
fn uniform_image_returned_whole_at_zero_threshold() {
    // The winning score must strictly exceed the threshold, so a zero
    // threshold still leaves a perfectly uniform image uncut.
    let img = solid(110, 110, WHITE);
    let thr = Threshold { num: 0, den: 1 };
    let out = guillotine(img, &thr, 100).unwrap();
    assert_eq!(out.len(), 1);
}

#[test]
fn sub_minimum_width_yields_nothing() {
    let img = solid(50, 200, BLACK);
    let thr = Threshold { num: 30, den: 1 };
    let out = guillotine(img, &thr, 100).unwrap();
    assert_eq!(out.len(), 0);
}

#[test]
fn sub_minimum_height_yields_nothing() {
    let img = solid(200, 99, BLACK);
    let thr = Threshold { num: 30, den: 1 };
    let out = guillotine(img, &thr, 100).unwrap();
    assert_eq!(out.len(), 0);
}

#[test]
fn sub_minimum_step_is_discard() {
    let img = solid(50, 200, BLACK);
    let thr = Threshold { num: 30, den: 1 };
    match partition_step(img, &thr, 100).unwrap() {
        Step::Discard => {},
        _ => panic!("expected the sub-minimum image to be discarded"),
    }
}

#[test]
fn uniform_step_emits_input() {
    let img = solid(120, 130, px(1, 2, 3));
    let thr = Threshold { num: 30, den: 1 };
    match partition_step(img, &thr, 100).unwrap() {
        Step::Emit(out) => assert_eq!(out, solid(120, 130, px(1, 2, 3))),
        _ => panic!("expected the uniform image to be emitted whole"),
    }
}

/// A black square with a white cross through row 20 and column 20: by
/// symmetry the best horizontal and the best vertical cut have exactly equal
/// mean scores, and the tie must pick the horizontal axis.
#[test]
fn axis_tie_picks_horizontal() {
    let cross = image_from(40, 40, |x, y| if x == 20 || y == 20 { WHITE } else { BLACK });
    let thr = Threshold { num: 30, den: 1 };
    match partition_step(cross, &thr, 10).unwrap() {
        Step::Split(axis, a, b) => {
            assert_eq!(axis, Axis::Horizontal);
            assert_eq!(a.width(), 40);
            assert_eq!(a.height(), 20);
            assert_eq!(b.width(), 40);
            assert_eq!(b.height(), 20);
            let top = image_from(40, 20, |x, _| if x == 20 { WHITE } else { BLACK });
            assert_eq!(a, top);
        },
        _ => panic!("expected a cut"),
    }
}

/// Two equally strong horizontal cuts: the first (lowest offset) wins.
#[test]
fn equal_scores_on_one_axis_pick_first() {
    // Rows: black, white, black, black. The boundaries after row 1 and
    // after row 2 both score 255 per channel; the cut goes after row 1.
    let img = image_from(2, 4, |_, y| if y == 1 { WHITE } else { BLACK });
    let best = guillotine::profile::difference_horizontal(&img).unwrap();
    assert_eq!(best, (1, 2 * 3 * 255));
}

#[test]
fn difference_sums_are_exact() {
    let mut rows = Vec::new();
    rows.push(vec![px(0, 0, 0), px(10, 0, 0), px(0, 0, 0)]);
    rows.push(vec![px(30, 0, 0), px(0, 0, 0), px(0, 0, 0)]);
    let img = Img::new(3, rows).unwrap();
    // Rows differ by |0-30| + |10-0| + |0-0| = 40.
    assert_eq!(guillotine::profile::difference_horizontal(&img).unwrap(), (1, 40));
    // Column pairs differ by 10 + 30 = 40 and by 10 + 0 = 10; the first
    // maximum wins.
    assert_eq!(guillotine::profile::difference_vertical(&img).unwrap(), (1, 40));
}

#[test]
fn profile_needs_two_lines() {
    let one_row = solid(5, 1, BLACK);
    assert_eq!(guillotine::profile::difference_horizontal(&one_row), Err(Error::EmptyAxis));
    let one_col = solid(1, 5, BLACK);
    assert_eq!(guillotine::profile::difference_vertical(&one_col), Err(Error::EmptyAxis));
}

#[test]
fn single_column_region_is_an_explicit_error() {
    // With a minimum size of 1 a single-column image is not discarded, yet
    // its vertical axis has no adjacent column pair.
    let img = solid(1, 5, BLACK);
    let thr = Threshold { num: 30, den: 1 };
    assert_eq!(guillotine(img, &thr, 1), Err(Error::EmptyAxis));
}

#[test]
fn malformed_images_are_rejected() {
    assert!(Img::new(0, Vec::new()).is_err());
    let no_rows: Vec<Vec<Pixel>> = Vec::new();
    assert!(Img::new(3, no_rows).is_err());
    let mut ragged = Vec::new();
    ragged.push(vec![BLACK, BLACK]);
    ragged.push(vec![BLACK]);
    assert!(Img::new(2, ragged).is_err());
}

/// A 200 by 100 image, black on the left half and white on the right:
/// the one strong discontinuity sits between columns 99 and 100, so the
/// image splits into two uniform 100 by 100 halves, left before right.
#[test]
fn two_halves_split_left_then_right() {
    let img = image_from(200, 100, |x, _| if x < 100 { BLACK } else { WHITE });
    let thr = Threshold { num: 30, den: 1 };
    let tiles = guillotine_tiles(img, &thr, 100).unwrap();
    assert_eq!(tiles.len(), 2);
    assert_eq!((tiles[0].x, tiles[0].y), (0, 0));
    assert_eq!(tiles[0].img, solid(100, 100, BLACK));
    assert_eq!((tiles[1].x, tiles[1].y), (100, 0));
    assert_eq!(tiles[1].img, solid(100, 100, WHITE));
}

/// A 200 by 100 black image with a single fully contrasting white column at
/// column 100. The cut falls just before the line; the right half then cuts
/// again right after the line, and both resulting slivers fall below the
/// minimum size and are discarded, so only the left half survives.
#[test]
fn thin_line_leaves_sub_minimum_slivers_discarded() {
    let img = image_from(200, 100, |x, _| if x == 100 { WHITE } else { BLACK });
    let thr = Threshold { num: 30, den: 1 };
    let out = guillotine(img, &thr, 100).unwrap();
    assert_eq!(out.len(), 1);
    assert_eq!(out[0], solid(100, 100, BLACK));
}

/// Raising the threshold on a fixed image never increases the number of
/// tiles: at 30 the two-halves image yields its two halves, while at 300
/// (above the mean score 255 of the boundary) it stays whole.
#[test]
fn raising_threshold_never_increases_tiles() {
    let low = Threshold { num: 30, den: 1 };
    let high = Threshold { num: 300, den: 1 };
    let img = image_from(200, 100, |x, _| if x < 100 { BLACK } else { WHITE });
    let out_low = guillotine(img, &low, 100).unwrap();
    let img = image_from(200, 100, |x, _| if x < 100 { BLACK } else { WHITE });
    let out_high = guillotine(img, &high, 100).unwrap();
    assert_eq!(out_low.len(), 2);
    assert_eq!(out_high.len(), 1);
    assert!(out_low.len() >= out_high.len());
}

/// A fractional threshold: mean score 2/3 per channel is kept exactly.
/// A pair of lines differing by 2 in one channel of each pixel has mean
/// score 2/3, which exceeds 13/20 but not 7/10.
#[test]
fn fractional_thresholds_compare_exactly() {
    let img = image_from(4, 2, |_, y| if y == 0 { px(0, 0, 0) } else { px(2, 0, 0) });
    let below = Threshold { num: 13, den: 20 };
    let above = Threshold { num: 7, den: 10 };
    let out = guillotine(img, &below, 1);
    // Accepted: the cut splits into two 4 by 1 rows, both below no minimum
    // but 1, and each row then has no horizontal pair left.
    assert_eq!(out, Err(Error::EmptyAxis));
    let img = image_from(4, 2, |_, y| if y == 0 { px(0, 0, 0) } else { px(2, 0, 0) });
    let out = guillotine(img, &above, 1).unwrap();
    assert_eq!(out.len(), 1);
}

/// Offsets of nested cuts: a 2 by 2 checker of uniform 100-pixel squares
/// cuts horizontally first (ties favor horizontal), then each half cuts
/// vertically, producing the four quadrants in order with their offsets.
#[test]
fn four_quadrants_with_offsets() {
    let img = image_from(
        200,
        200,
        |x, y| if (x < 100) ^ (y < 100) { WHITE } else { BLACK },
    );
    let thr = Threshold { num: 30, den: 1 };
    let tiles = guillotine_tiles(img, &thr, 100).unwrap();
    assert_eq!(tiles.len(), 4);
    assert_eq!((tiles[0].x, tiles[0].y), (0, 0));
    assert_eq!(tiles[0].img, solid(100, 100, BLACK));
    assert_eq!((tiles[1].x, tiles[1].y), (100, 0));
    assert_eq!(tiles[1].img, solid(100, 100, WHITE));
    assert_eq!((tiles[2].x, tiles[2].y), (0, 100));
    assert_eq!(tiles[2].img, solid(100, 100, WHITE));
    assert_eq!((tiles[3].x, tiles[3].y), (100, 100));
    assert_eq!(tiles[3].img, solid(100, 100, BLACK));
}
