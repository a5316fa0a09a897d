//! The partitioner: the cut decision and the recursive guillotine split.
//!
//! Every decision is defined once, as a spec function, and the executable
//! code is proved to return exactly what those definitions say. A score is
//! the difference sum of a line pair; its mean per-channel form is that sum
//! divided by (line length x 3), and all comparisons between scores, and
//! against the threshold, are done by cross-multiplication, so they are the
//! exact comparisons of the underlying rational numbers.

use vstd::prelude::*;
use crate::Error;
use crate::raster::{crop_spec, Img, ImgV, MAX_DIM};
use crate::profile::{
    best_col_cut, best_row_cut, col_pair_sum, col_sums, first_max_idx, lemma_first_max_props,
    row_pair_sum, row_sums,
};

verus! {

/// The discontinuity threshold, an exact non-negative rational
/// `num / den`. A cut is accepted only when the winning mean score strictly
/// exceeds it.
#[derive(Clone, Copy, PartialEq, Eq, Structural, Debug)]
pub struct Threshold {
    pub num: u64,
    pub den: u64,
}

impl Threshold {
    pub open spec fn wf(self) -> bool {
        self.den >= 1
    }
}

/// The direction of a cut: horizontal cuts split into top and bottom,
/// vertical cuts into left and right.
#[derive(Clone, Copy, PartialEq, Eq, Structural, Debug)]
pub enum Axis {
    Horizontal,
    Vertical,
}

/// `v` clamped to `[lo, hi]`.
pub open spec fn clamped(v: int, lo: int, hi: int) -> int {
    if v < lo {
        lo
    } else if v > hi {
        hi
    } else {
        v
    }
}

/// The 1-based row offset of the strongest horizontal cut. For an image with
/// at least two rows this is exactly `1 + first_max_idx(row_sums(img))`; the
/// clamp only pins the value into `[1, height - 1]` so the split below it is
/// well defined on every argument.
pub open spec fn h_cut(img: ImgV) -> int {
    clamped(1 + first_max_idx(row_sums(img)), 1, img.height() - 1)
}

/// The 1-based column offset of the strongest vertical cut.
pub open spec fn v_cut(img: ImgV) -> int {
    clamped(1 + first_max_idx(col_sums(img)), 1, img.width - 1)
}

/// Difference sum at the strongest horizontal cut.
pub open spec fn h_best_sum(img: ImgV) -> int {
    row_pair_sum(img, h_cut(img) - 1)
}

/// Difference sum at the strongest vertical cut.
pub open spec fn v_best_sum(img: ImgV) -> int {
    col_pair_sum(img, v_cut(img) - 1)
}

/// The horizontal axis wins when its mean score is at least the vertical
/// one: `h_sum / (3 width) >= v_sum / (3 height)` cross-multiplied. An exact
/// tie picks horizontal.
pub open spec fn prefers_horizontal(img: ImgV) -> bool {
    h_best_sum(img) * img.height() >= v_best_sum(img) * img.width
}

/// The mean score `sum / (3 len)` strictly exceeds the threshold
/// `thr.num / thr.den`, cross-multiplied.
pub open spec fn exceeds(sum: int, len: int, thr: Threshold) -> bool {
    sum * thr.den > thr.num * 3 * len
}

/// The cut decision: the winning axis's score strictly exceeds the
/// threshold.
pub open spec fn accepts(img: ImgV, thr: Threshold) -> bool {
    if prefers_horizontal(img) {
        exceeds(h_best_sum(img), img.width, thr)
    } else {
        exceeds(v_best_sum(img), img.height(), thr)
    }
}

/// A leaf sub-image together with the offset of its top-left corner in the
/// coordinates of the image the recursion started from.
#[verifier::ext_equal]
pub struct TileV {
    pub x: int,
    pub y: int,
    pub img: ImgV,
}

/// What the recursive guillotine emits for an image whose top-left corner
/// sits at `(ox, oy)`:
/// - a region below the minimum size in either dimension is discarded;
/// - a region whose winning score does not exceed the threshold is emitted
///   whole;
/// - otherwise the region is split at the winning cut and the two halves are
///   partitioned in turn, the first half's tiles before the second's;
/// - a region that passes the size gate with fewer than two rows or columns
///   has no difference profile on one axis, which is an explicit failure.
pub open spec fn guillotine_spec(img: ImgV, thr: Threshold, min: int, ox: int, oy: int) -> Result<
    Seq<TileV>,
    Error,
>
    decreases img.width + img.height(),
{
    if img.width < min || img.height() < min {
        Ok(Seq::empty())
    } else if img.height() < 2 || img.width < 2 {
        Err(Error::EmptyAxis)
    } else if !accepts(img, thr) {
        Ok(seq![TileV { x: ox, y: oy, img }])
    } else if prefers_horizontal(img) {
        let k = h_cut(img);
        let top = crop_spec(img, 0, 0, img.width, k);
        let bottom = crop_spec(img, 0, k, img.width, img.height() - k);
        match guillotine_spec(top, thr, min, ox, oy) {
            Err(e) => Err(e),
            Ok(ta) => match guillotine_spec(bottom, thr, min, ox, oy + k) {
                Err(e) => Err(e),
                Ok(tb) => Ok(ta + tb),
            },
        }
    } else {
        let k = v_cut(img);
        let left = crop_spec(img, 0, 0, k, img.height());
        let right = crop_spec(img, k, 0, img.width - k, img.height());
        match guillotine_spec(left, thr, min, ox, oy) {
            Err(e) => Err(e),
            Ok(ta) => match guillotine_spec(right, thr, min, ox + k, oy) {
                Err(e) => Err(e),
                Ok(tb) => Ok(ta + tb),
            },
        }
    }
}

proof fn lemma_mul_le(a: int, b: int, ca: int, cb: int)
    by (nonlinear_arith)
    requires
        0 <= a <= ca,
        0 <= b <= cb,
    ensures
        a * b <= ca * cb,
{
}

/// What one recursion step decides for an image: discard it, emit it whole,
/// or split it in two along an axis.
pub enum Step {
    Discard,
    Emit(Img),
    Split(Axis, Img, Img),
}

/// Applies the size gate, the two profilers and the threshold decision
/// once, and returns the decision together with the two freshly cut halves
/// when a cut is accepted.
/// Everything the decision is stated over is defined in this module's spec
/// functions, so a driver that performs the recursion itself (for instance
/// to run the two halves concurrently) decides nothing on its own.
pub fn partition_step(img: Img, thr: &Threshold, min: usize) -> (result: Result<Step, Error>)
    requires
        img.wf(),
        thr.wf(),
    ensures
        match result {
            Ok(step) => match step {
                Step::Discard => img@.width < min || img@.height() < min,
                Step::Emit(out) => {
                    &&& img@.width >= min && img@.height() >= min
                    &&& img@.width >= 2 && img@.height() >= 2
                    &&& !accepts(img@, *thr)
                    &&& out@ == img@
                },
                Step::Split(axis, a, b) => {
                    &&& img@.width >= min && img@.height() >= min
                    &&& img@.width >= 2 && img@.height() >= 2
                    &&& accepts(img@, *thr)
                    &&& (axis == Axis::Horizontal <==> prefers_horizontal(img@))
                    &&& a.wf() && b.wf()
                    &&& if prefers_horizontal(img@) {
                        &&& a@ == crop_spec(img@, 0, 0, img@.width, h_cut(img@))
                        &&& b@ == crop_spec(
                            img@,
                            0,
                            h_cut(img@),
                            img@.width,
                            img@.height() - h_cut(img@),
                        )
                    } else {
                        &&& a@ == crop_spec(img@, 0, 0, v_cut(img@), img@.height())
                        &&& b@ == crop_spec(
                            img@,
                            v_cut(img@),
                            0,
                            img@.width - v_cut(img@),
                            img@.height(),
                        )
                    }
                },
            },
            Err(e) => {
                &&& e == Error::EmptyAxis
                &&& img@.width >= min && img@.height() >= min
                &&& (img@.width < 2 || img@.height() < 2)
            },
        },
{
    let w = img.width();
    let h = img.height();
    if w < min || h < min {
        return Ok(Step::Discard);
    }
    if h < 2 || w < 2 {
        return Err(Error::EmptyAxis);
    }
    let (h_idx, h_sum) = best_row_cut(&img);
    let (v_idx, v_sum) = best_col_cut(&img);
    proof {
        lemma_first_max_props(row_sums(img@));
        lemma_first_max_props(col_sums(img@));
        assert(h_idx as int == h_cut(img@));
        assert(v_idx as int == v_cut(img@));
        lemma_mul_le(h_sum as int, h as int, u64::MAX as int, MAX_DIM as int);
        lemma_mul_le(v_sum as int, w as int, u64::MAX as int, MAX_DIM as int);
        lemma_mul_le(h_sum as int, thr.den as int, u64::MAX as int, u64::MAX as int);
        lemma_mul_le(v_sum as int, thr.den as int, u64::MAX as int, u64::MAX as int);
        lemma_mul_le(
            thr.num as int * 3,
            w as int,
            3 * (u64::MAX as int),
            MAX_DIM as int,
        );
        lemma_mul_le(
            thr.num as int * 3,
            h as int,
            3 * (u64::MAX as int),
            MAX_DIM as int,
        );
    }
    let horizontal = (h_sum as u128) * (h as u128) >= (v_sum as u128) * (w as u128);
    let accept = if horizontal {
        (h_sum as u128) * (thr.den as u128) > (thr.num as u128) * 3 * (w as u128)
    } else {
        (v_sum as u128) * (thr.den as u128) > (thr.num as u128) * 3 * (h as u128)
    };
    if !accept {
        return Ok(Step::Emit(img));
    }
    if horizontal {
        let a = img.crop(0, 0, w, h_idx);
        let b = img.crop(0, h_idx, w, h - h_idx);
        Ok(Step::Split(Axis::Horizontal, a, b))
    } else {
        let a = img.crop(0, 0, v_idx, h);
        let b = img.crop(v_idx, 0, w - v_idx, h);
        Ok(Step::Split(Axis::Vertical, a, b))
    }
}

/// A leaf sub-image and the offset of its top-left corner in the image the
/// recursion started from.
pub struct Tile {
    pub x: usize,
    pub y: usize,
    pub img: Img,
}

impl View for Tile {
    type V = TileV;

    open spec fn view(&self) -> TileV {
        TileV { x: self.x as int, y: self.y as int, img: self.img@ }
    }
}

/// The mathematical values of a vector of tiles.
pub open spec fn tile_views(s: Seq<Tile>) -> Seq<TileV> {
    s.map_values(|t: Tile| t@)
}

/// The result of the executable partitioner, seen mathematically.
pub open spec fn tiles_view(r: Result<Vec<Tile>, Error>) -> Result<Seq<TileV>, Error> {
    match r {
        Ok(v) => Ok(tile_views(v@)),
        Err(e) => Err(e),
    }
}

proof fn lemma_tile_views_concat(a: Seq<Tile>, b: Seq<Tile>)
    ensures
        tile_views(a + b) == tile_views(a) + tile_views(b),
{
    assert(tile_views(a + b) =~= tile_views(a) + tile_views(b));
}

fn guillotine_rec(img: Img, thr: &Threshold, min: usize, ox: usize, oy: usize) -> (result: Result<
    Vec<Tile>,
    Error,
>)
    requires
        img.wf(),
        thr.wf(),
        ox + img@.width <= MAX_DIM,
        oy + img@.height() <= MAX_DIM,
    ensures
        tiles_view(result) == guillotine_spec(img@, *thr, min as int, ox as int, oy as int),
    decreases img@.width + img@.height(),
{
    let ghost iv = img@;
    match partition_step(img, thr, min) {
        Err(e) => Err(e),
        Ok(Step::Discard) => {
            let empty: Vec<Tile> = Vec::new();
            proof {
                assert(tile_views(empty@) =~= Seq::<TileV>::empty());
            }
            Ok(empty)
        },
        Ok(Step::Emit(out)) => {
            let mut v: Vec<Tile> = Vec::new();
            v.push(Tile { x: ox, y: oy, img: out });
            proof {
                assert(tile_views(v@) =~= seq![TileV { x: ox as int, y: oy as int, img: iv }]);
            }
            Ok(v)
        },
        Ok(Step::Split(axis, a, b)) => {
            let (bx, by) = match axis {
                Axis::Horizontal => (ox, oy + a.height()),
                Axis::Vertical => (ox + a.width(), oy),
            };
            match guillotine_rec(a, thr, min, ox, oy) {
                Err(e) => Err(e),
                Ok(mut ta) => match guillotine_rec(b, thr, min, bx, by) {
                    Err(e) => Err(e),
                    Ok(mut tb) => {
                        proof {
                            lemma_tile_views_concat(ta@, tb@);
                        }
                        ta.append(&mut tb);
                        Ok(ta)
                    },
                },
            }
        },
    }
}

/// Recursively partitions `img` and returns the leaf sub-images each with
/// the offset of its top-left corner in `img`, in cut order: for every
/// accepted cut, all tiles of the first half before all tiles of the second.
pub fn guillotine_tiles(img: Img, thr: &Threshold, min: usize) -> (result: Result<
    Vec<Tile>,
    Error,
>)
    requires
        img.wf(),
        thr.wf(),
    ensures
        tiles_view(result) == guillotine_spec(img@, *thr, min as int, 0, 0),
{
    guillotine_rec(img, thr, min, 0, 0)
}

/// The sub-images of a sequence of tiles, offsets dropped.
pub open spec fn tile_imgs(tiles: Seq<TileV>) -> Seq<ImgV> {
    tiles.map_values(|t: TileV| t.img)
}

/// The mathematical values of a vector of images.
pub open spec fn img_views(v: Seq<Img>) -> Seq<ImgV> {
    v.map_values(|i: Img| i@)
}

/// Recursively partitions `img` and returns the leaf sub-images in cut
/// order. Same output as [`guillotine_tiles`], without the offsets.
pub fn guillotine(img: Img, thr: &Threshold, min: usize) -> (result: Result<Vec<Img>, Error>)
    requires
        img.wf(),
        thr.wf(),
    ensures
        match result {
            Ok(v) => guillotine_spec(img@, *thr, min as int, 0, 0) matches Ok(tiles)
                && img_views(v@) == tile_imgs(tiles),
            Err(e) => guillotine_spec(img@, *thr, min as int, 0, 0) == Err::<Seq<TileV>, Error>(e),
        },
{
    let mut tiles = match guillotine_tiles(img, thr, min) {
        Err(e) => {
            return Err(e);
        },
        Ok(tiles) => tiles,
    };
    let ghost all = tiles@;
    let mut rev: Vec<Img> = Vec::new();
    while tiles.len() > 0
        invariant
            tiles@.len() + rev@.len() == all.len(),
            tiles@ == all.subrange(0, tiles@.len() as int),
            forall|i: int| 0 <= i < rev@.len()
                ==> (#[trigger] rev@[i])@ == all[all.len() - 1 - i]@.img,
        decreases tiles@.len(),
    {
        let ghost pre = tiles@;
        match tiles.pop() {
            Some(t) => {
                proof {
                    assert(pre[pre.len() - 1] == all[pre.len() - 1]);
                    assert(tiles@ =~= all.subrange(0, tiles@.len() as int));
                }
                rev.push(t.img);
            },
            None => {},
        }
    }
    let mut out: Vec<Img> = Vec::new();
    while rev.len() > 0
        invariant
            rev@.len() + out@.len() == all.len(),
            forall|i: int| 0 <= i < rev@.len()
                ==> (#[trigger] rev@[i])@ == all[all.len() - 1 - i]@.img,
            forall|i: int| 0 <= i < out@.len() ==> (#[trigger] out@[i])@ == all[i]@.img,
        decreases rev@.len(),
    {
        match rev.pop() {
            Some(im) => {
                out.push(im);
            },
            None => {},
        }
    }
    proof {
        assert(img_views(out@) =~= tile_imgs(tile_views(all)));
    }
    Ok(out)
}

} // verus!
