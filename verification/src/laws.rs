//! Properties of the recursive partition, proved once and for all over
//! [`guillotine_spec`]: the emitted tiles are faithful disjoint pieces of the
//! source, they cover it whenever no branch of the recursion discards an
//! undersized sliver, a uniform image is returned whole, an exact tie
//! between the axes picks horizontal, and raising the threshold never
//! increases the number of tiles.

use vstd::prelude::*;
use crate::partition::{
    accepts, exceeds, guillotine_spec, h_best_sum, h_cut, prefers_horizontal, v_best_sum, v_cut,
    Threshold, TileV,
};
use crate::profile::{col_of, lemma_line_pair_sum_zero};
use crate::raster::{crop_spec, ImgV};

verus! {

/// `(x, y)`, in the coordinates of the image the recursion started from,
/// falls inside tile `t`.
pub open spec fn in_tile(t: TileV, x: int, y: int) -> bool {
    &&& t.x <= x < t.x + t.img.width
    &&& t.y <= y < t.y + t.img.height()
}

/// Tile `t` is a faithful piece of `src` (whose top-left corner sits at
/// `(ox, oy)`): it lies inside `src` and shows exactly `src`'s pixels at its
/// offset.
pub open spec fn tile_matches(src: ImgV, ox: int, oy: int, t: TileV) -> bool {
    &&& t.img.wf()
    &&& ox <= t.x && t.x + t.img.width <= ox + src.width
    &&& oy <= t.y && t.y + t.img.height() <= oy + src.height()
    &&& forall|i: int, j: int|
        0 <= i < t.img.height() && 0 <= j < t.img.width
            ==> #[trigger] t.img.pix(j, i) == src.pix(t.x - ox + j, t.y - oy + i)
}

/// No point lies in two distinct tiles.
pub open spec fn disjoint_tiles(tiles: Seq<TileV>) -> bool {
    forall|p: int, q: int, x: int, y: int|
        #![trigger in_tile(tiles[p], x, y), in_tile(tiles[q], x, y)]
        0 <= p < q < tiles.len() ==> !(in_tile(tiles[p], x, y) && in_tile(tiles[q], x, y))
}

/// Every tile is a faithful piece of `src` and no two overlap.
pub open spec fn sound_tiles(src: ImgV, ox: int, oy: int, tiles: Seq<TileV>) -> bool {
    &&& forall|p: int| 0 <= p < tiles.len() ==> tile_matches(src, ox, oy, #[trigger] tiles[p])
    &&& disjoint_tiles(tiles)
}

/// Some tile contains `(x, y)`.
pub open spec fn covered(tiles: Seq<TileV>, x: int, y: int) -> bool {
    exists|p: int| 0 <= p < tiles.len() && in_tile(#[trigger] tiles[p], x, y)
}

/// Every point of the `w` by `h` rectangle at `(ox, oy)` lies in some tile.
pub open spec fn covers(tiles: Seq<TileV>, ox: int, oy: int, w: int, h: int) -> bool {
    forall|x: int, y: int|
        ox <= x < ox + w && oy <= y < oy + h ==> #[trigger] covered(tiles, x, y)
}

/// No branch of the recursion, run with this threshold and minimum size,
/// ever discards a region: the image passes the size gate, both axes have a
/// profile, and whenever a cut is accepted both halves satisfy the same
/// condition in turn. Where this fails, a sliver below the minimum size is
/// dropped and the output does not cover the input.
pub open spec fn never_gated(img: ImgV, thr: Threshold, min: int) -> bool
    decreases img.width + img.height(),
{
    if img.width < min || img.height() < min || img.width < 2 || img.height() < 2 {
        false
    } else if !accepts(img, thr) {
        true
    } else if prefers_horizontal(img) {
        let k = h_cut(img);
        &&& never_gated(crop_spec(img, 0, 0, img.width, k), thr, min)
        &&& never_gated(crop_spec(img, 0, k, img.width, img.height() - k), thr, min)
    } else {
        let k = v_cut(img);
        &&& never_gated(crop_spec(img, 0, 0, k, img.height()), thr, min)
        &&& never_gated(crop_spec(img, k, 0, img.width - k, img.height()), thr, min)
    }
}

/// A crop of a well-formed image is well formed and shows the source's
/// pixels at its offset.
pub proof fn lemma_crop_wf(img: ImgV, x0: int, y0: int, w: int, h: int)
    requires
        img.wf(),
        0 <= x0,
        0 <= y0,
        1 <= w,
        1 <= h,
        x0 + w <= img.width,
        y0 + h <= img.height(),
    ensures
        crop_spec(img, x0, y0, w, h).wf(),
        crop_spec(img, x0, y0, w, h).width == w,
        crop_spec(img, x0, y0, w, h).height() == h,
        forall|i: int, j: int|
            0 <= i < h && 0 <= j < w
                ==> #[trigger] crop_spec(img, x0, y0, w, h).pix(j, i) == img.pix(x0 + j, y0 + i),
{
    let c = crop_spec(img, x0, y0, w, h);
    assert forall|y: int| 0 <= y < c.rows.len() implies (#[trigger] c.rows[y]).len() == c.width by {
        assert(img.rows[y0 + y].len() == img.width);
    }
}

/// Tiles that are faithful pieces of a crop are faithful pieces of the
/// cropped image, with the crop's own offset added.
proof fn lemma_matches_crop_lift(
    img: ImgV,
    ox: int,
    oy: int,
    x0: int,
    y0: int,
    w: int,
    h: int,
    t: TileV,
)
    requires
        img.wf(),
        0 <= x0,
        0 <= y0,
        1 <= w,
        1 <= h,
        x0 + w <= img.width,
        y0 + h <= img.height(),
        tile_matches(crop_spec(img, x0, y0, w, h), ox + x0, oy + y0, t),
    ensures
        tile_matches(img, ox, oy, t),
{
    let c = crop_spec(img, x0, y0, w, h);
    lemma_crop_wf(img, x0, y0, w, h);
    assert forall|i: int, j: int| 0 <= i < t.img.height() && 0 <= j < t.img.width implies
        #[trigger] t.img.pix(j, i) == img.pix(t.x - ox + j, t.y - oy + i) by {
        assert(t.img.pix(j, i) == c.pix(t.x - (ox + x0) + j, t.y - (oy + y0) + i));
        assert(c.pix(t.x - (ox + x0) + j, t.y - (oy + y0) + i) == img.pix(
            x0 + (t.x - (ox + x0) + j),
            y0 + (t.y - (oy + y0) + i),
        ));
    }
}

/// Whatever tiles the guillotine emits are faithful, pairwise disjoint
/// pieces of the input.
pub proof fn lemma_tiles_sound(img: ImgV, thr: Threshold, min: int, ox: int, oy: int)
    requires
        img.wf(),
    ensures
        guillotine_spec(img, thr, min, ox, oy) is Ok ==> sound_tiles(
            img,
            ox,
            oy,
            guillotine_spec(img, thr, min, ox, oy)->Ok_0,
        ),
    decreases img.width + img.height(),
{
    let r = guillotine_spec(img, thr, min, ox, oy);
    if img.width < min || img.height() < min {
        assert(r->Ok_0.len() == 0);
    } else if img.height() < 2 || img.width < 2 {
    } else if !accepts(img, thr) {
        let tiles = r->Ok_0;
        let t = TileV { x: ox, y: oy, img };
        assert(tiles =~= seq![t]);
        assert(tile_matches(img, ox, oy, t));
    } else {
        let horiz = prefers_horizontal(img);
        let x0 = if horiz { 0 } else { v_cut(img) };
        let y0 = if horiz { h_cut(img) } else { 0 };
        let aw = if horiz { img.width } else { v_cut(img) };
        let ah = if horiz { h_cut(img) } else { img.height() };
        let bw = if horiz { img.width } else { img.width - v_cut(img) };
        let bh = if horiz { img.height() - h_cut(img) } else { img.height() };
        let a = crop_spec(img, 0, 0, aw, ah);
        let b = crop_spec(img, x0, y0, bw, bh);
        lemma_crop_wf(img, 0, 0, aw, ah);
        lemma_crop_wf(img, x0, y0, bw, bh);
        let ra = guillotine_spec(a, thr, min, ox, oy);
        let rb = guillotine_spec(b, thr, min, ox + x0, oy + y0);
        lemma_tiles_sound(a, thr, min, ox, oy);
        lemma_tiles_sound(b, thr, min, ox + x0, oy + y0);
        if ra is Ok && rb is Ok {
            let ta = ra->Ok_0;
            let tb = rb->Ok_0;
            let tiles = r->Ok_0;
            assert(tiles == ta + tb);
            assert forall|p: int| 0 <= p < tiles.len() implies tile_matches(
                img,
                ox,
                oy,
                #[trigger] tiles[p],
            ) by {
                if p < ta.len() {
                    assert(tiles[p] == ta[p]);
                    assert(tile_matches(a, ox, oy, ta[p]));
                    lemma_matches_crop_lift(img, ox, oy, 0, 0, aw, ah, ta[p]);
                } else {
                    assert(tiles[p] == tb[p - ta.len()]);
                    assert(tile_matches(b, ox + x0, oy + y0, tb[p - ta.len()]));
                    lemma_matches_crop_lift(img, ox, oy, x0, y0, bw, bh, tiles[p]);
                }
            }
            assert forall|p: int, q: int, x: int, y: int|
                0 <= p < q < tiles.len() implies !(in_tile(tiles[p], x, y) && in_tile(
                tiles[q],
                x,
                y,
            )) by {
                if q < ta.len() {
                    assert(tiles[p] == ta[p]);
                    assert(tiles[q] == ta[q]);
                    assert(!(in_tile(ta[p], x, y) && in_tile(ta[q], x, y)));
                } else if p >= ta.len() {
                    assert(tiles[p] == tb[p - ta.len()]);
                    assert(tiles[q] == tb[q - ta.len()]);
                    assert(!(in_tile(tb[p - ta.len()], x, y) && in_tile(tb[q - ta.len()], x, y)));
                } else {
                    let t1 = ta[p];
                    let t2 = tb[q - ta.len()];
                    assert(tiles[p] == t1);
                    assert(tiles[q] == t2);
                    if in_tile(t1, x, y) && in_tile(t2, x, y) {
                        assert(tile_matches(a, ox, oy, t1));
                        assert(tile_matches(b, ox + x0, oy + y0, t2));
                        if horiz {
                            assert(y < t1.y + t1.img.height());
                            assert(t1.y + t1.img.height() <= oy + ah);
                            assert(y >= t2.y >= oy + y0);
                            assert(false);
                        } else {
                            assert(x < t1.x + t1.img.width);
                            assert(t1.x + t1.img.width <= ox + aw);
                            assert(x >= t2.x >= ox + x0);
                            assert(false);
                        }
                    }
                }
            }
        }
    }
}

/// PARTITION COMPLETENESS. When no branch of the recursion discards a
/// sliver, the guillotine succeeds and its tiles, mapped back through their
/// offsets, cover every pixel of the input exactly once: every point of the
/// input rectangle lies in a tile, no point lies in two, and each tile shows
/// exactly the input's pixels at its offset.
pub proof fn lemma_partition_complete(img: ImgV, thr: Threshold, min: int, ox: int, oy: int)
    requires
        img.wf(),
        never_gated(img, thr, min),
    ensures
        guillotine_spec(img, thr, min, ox, oy) is Ok,
        sound_tiles(img, ox, oy, guillotine_spec(img, thr, min, ox, oy)->Ok_0),
        covers(guillotine_spec(img, thr, min, ox, oy)->Ok_0, ox, oy, img.width, img.height()),
    decreases img.width + img.height(),
{
    lemma_tiles_sound(img, thr, min, ox, oy);
    let r = guillotine_spec(img, thr, min, ox, oy);
    if !accepts(img, thr) {
        let tiles = r->Ok_0;
        let t = TileV { x: ox, y: oy, img };
        assert(tiles == seq![t]);
        assert forall|x: int, y: int| ox <= x < ox + img.width && oy <= y < oy + img.height()
            implies #[trigger] covered(tiles, x, y) by {
            assert(tiles[0] == t);
            assert(in_tile(tiles[0], x, y));
        }
    } else {
        let horiz = prefers_horizontal(img);
        let x0 = if horiz { 0 } else { v_cut(img) };
        let y0 = if horiz { h_cut(img) } else { 0 };
        let aw = if horiz { img.width } else { v_cut(img) };
        let ah = if horiz { h_cut(img) } else { img.height() };
        let bw = if horiz { img.width } else { img.width - v_cut(img) };
        let bh = if horiz { img.height() - h_cut(img) } else { img.height() };
        let a = crop_spec(img, 0, 0, aw, ah);
        let b = crop_spec(img, x0, y0, bw, bh);
        lemma_crop_wf(img, 0, 0, aw, ah);
        lemma_crop_wf(img, x0, y0, bw, bh);
        lemma_partition_complete(a, thr, min, ox, oy);
        lemma_partition_complete(b, thr, min, ox + x0, oy + y0);
        let ta = guillotine_spec(a, thr, min, ox, oy)->Ok_0;
        let tb = guillotine_spec(b, thr, min, ox + x0, oy + y0)->Ok_0;
        let tiles = r->Ok_0;
        assert(tiles == ta + tb);
        assert forall|x: int, y: int| ox <= x < ox + img.width && oy <= y < oy + img.height()
            implies #[trigger] covered(tiles, x, y) by {
            if x < ox + aw && y < oy + ah {
                assert(covered(ta, x, y));
                let p = choose|p: int| 0 <= p < ta.len() && in_tile(#[trigger] ta[p], x, y);
                assert(tiles[p] == ta[p]);
                assert(in_tile(tiles[p], x, y));
            } else {
                assert(ox + x0 <= x < ox + x0 + bw && oy + y0 <= y < oy + y0 + bh);
                assert(covered(tb, x, y));
                let q = choose|q: int| 0 <= q < tb.len() && in_tile(#[trigger] tb[q], x, y);
                assert(tiles[ta.len() + q] == tb[q]);
                assert(in_tile(tiles[ta.len() + q], x, y));
            }
        }
    }
}

/// All pixels of the image show one and the same color.
pub open spec fn uniform(img: ImgV) -> bool {
    forall|x: int, y: int|
        0 <= x < img.width && 0 <= y < img.height() ==> #[trigger] img.pix(x, y) == img.pix(0, 0)
}

proof fn lemma_mul_nonneg(a: int, b: int)
    by (nonlinear_arith)
    requires
        0 <= a,
        0 <= b,
    ensures
        0 <= a * b,
{
}

/// A uniform image has a zero difference sum at every cut, so no cut
/// exceeds any threshold.
proof fn lemma_uniform_rejects(img: ImgV, thr: Threshold)
    requires
        img.wf(),
        img.width >= 2,
        img.height() >= 2,
        uniform(img),
    ensures
        !accepts(img, thr),
{
    let hk = h_cut(img);
    let vk = v_cut(img);
    assert(1 <= hk <= img.height() - 1);
    assert(1 <= vk <= img.width - 1);
    assert forall|i: int| 0 <= i < img.width implies img.rows[hk - 1][i] == img.rows[hk][i] by {
        assert(img.pix(i, hk - 1) == img.pix(0, 0));
        assert(img.pix(i, hk) == img.pix(0, 0));
    }
    lemma_line_pair_sum_zero(img.rows[hk - 1], img.rows[hk], img.width);
    assert(h_best_sum(img) == 0);
    assert forall|y: int| 0 <= y < img.height() implies col_of(img, vk - 1)[y] == col_of(
        img,
        vk,
    )[y] by {
        assert(img.pix(vk - 1, y) == img.pix(0, 0));
        assert(img.pix(vk, y) == img.pix(0, 0));
    }
    lemma_line_pair_sum_zero(col_of(img, vk - 1), col_of(img, vk), img.height());
    assert(v_best_sum(img) == 0);
    lemma_mul_nonneg(thr.num * 3, img.width);
    lemma_mul_nonneg(thr.num * 3, img.height());
    assert(!exceeds(0, img.width, thr));
    assert(!exceeds(0, img.height(), thr));
}

/// IDEMPOTENCE OF NON-CUT. A uniform image at least the minimum size in
/// both dimensions, with at least two lines on each axis, is emitted whole:
/// the output is exactly one tile, the input itself at its own offset.
pub proof fn lemma_uniform_one_tile(img: ImgV, thr: Threshold, min: int, ox: int, oy: int)
    requires
        img.wf(),
        thr.wf(),
        uniform(img),
        min <= img.width,
        min <= img.height(),
        2 <= img.width,
        2 <= img.height(),
    ensures
        guillotine_spec(img, thr, min, ox, oy) == Ok::<Seq<TileV>, crate::Error>(
            seq![TileV { x: ox, y: oy, img }],
        ),
{
    lemma_uniform_rejects(img, thr);
}

/// SUB-MINIMUM REJECTION. An image below the minimum size in either
/// dimension yields no tiles at all.
pub proof fn lemma_sub_minimum(img: ImgV, thr: Threshold, min: int, ox: int, oy: int)
    requires
        img.wf(),
        img.width < min || img.height() < min,
    ensures
        guillotine_spec(img, thr, min, ox, oy) == Ok::<Seq<TileV>, crate::Error>(Seq::empty()),
{
}

/// TIE-BREAK DETERMINISM. When the two axes' best mean scores are exactly
/// equal (cross-multiplied over their distinct denominators), the horizontal
/// axis is chosen, so an accepted cut splits into top and bottom at the
/// horizontal cut offset.
pub proof fn lemma_tie_picks_horizontal(img: ImgV, thr: Threshold, min: int, ox: int, oy: int)
    requires
        img.wf(),
        min <= img.width,
        min <= img.height(),
        2 <= img.width,
        2 <= img.height(),
        h_best_sum(img) * img.height() == v_best_sum(img) * img.width,
        accepts(img, thr),
    ensures
        prefers_horizontal(img),
        guillotine_spec(img, thr, min, ox, oy) == ({
            let k = h_cut(img);
            let top = crop_spec(img, 0, 0, img.width, k);
            let bottom = crop_spec(img, 0, k, img.width, img.height() - k);
            match guillotine_spec(top, thr, min, ox, oy) {
                Err(e) => Err(e),
                Ok(ta) => match guillotine_spec(bottom, thr, min, ox, oy + k) {
                    Err(e) => Err(e),
                    Ok(tb) => Ok(ta + tb),
                },
            }
        }),
{
}

/// The mean score `sum / (3 len)` exceeding the larger threshold `thr2`
/// exceeds the smaller threshold `thr1` too.
proof fn lemma_exceeds_monotone(sum: int, len: int, thr1: Threshold, thr2: Threshold)
    by (nonlinear_arith)
    requires
        thr1.wf(),
        thr2.wf(),
        thr1.num * thr2.den <= thr2.num * thr1.den,
        0 <= len,
        exceeds(sum, len, thr2),
    ensures
        exceeds(sum, len, thr1),
{
}

/// Under a condition that keeps every branch alive, the guillotine emits at
/// least one tile.
pub proof fn lemma_count_at_least_one(img: ImgV, thr: Threshold, min: int, ox: int, oy: int)
    requires
        img.wf(),
        never_gated(img, thr, min),
    ensures
        guillotine_spec(img, thr, min, ox, oy) is Ok,
        guillotine_spec(img, thr, min, ox, oy)->Ok_0.len() >= 1,
    decreases img.width + img.height(),
{
    if accepts(img, thr) {
        let horiz = prefers_horizontal(img);
        let x0 = if horiz { 0 } else { v_cut(img) };
        let y0 = if horiz { h_cut(img) } else { 0 };
        let aw = if horiz { img.width } else { v_cut(img) };
        let ah = if horiz { h_cut(img) } else { img.height() };
        let bw = if horiz { img.width } else { img.width - v_cut(img) };
        let bh = if horiz { img.height() - h_cut(img) } else { img.height() };
        lemma_crop_wf(img, 0, 0, aw, ah);
        lemma_crop_wf(img, x0, y0, bw, bh);
        lemma_count_at_least_one(crop_spec(img, 0, 0, aw, ah), thr, min, ox, oy);
        lemma_count_at_least_one(crop_spec(img, x0, y0, bw, bh), thr, min, ox + x0, oy + y0);
    }
}

/// MONOTONE THRESHOLD. With the same image and minimum size, a larger
/// threshold `thr2` never yields more tiles than a smaller threshold
/// `thr1`, provided the run with the smaller threshold never discards a
/// sliver. (Where it does, a raised threshold can keep a region whole that
/// the lower one would cut entirely into discarded slivers, and the count
/// can grow.)
pub proof fn lemma_threshold_monotone(
    img: ImgV,
    thr1: Threshold,
    thr2: Threshold,
    min: int,
    ox: int,
    oy: int,
)
    requires
        img.wf(),
        thr1.wf(),
        thr2.wf(),
        thr1.num * thr2.den <= thr2.num * thr1.den,
        never_gated(img, thr1, min),
    ensures
        guillotine_spec(img, thr1, min, ox, oy) is Ok,
        guillotine_spec(img, thr2, min, ox, oy) is Ok,
        guillotine_spec(img, thr1, min, ox, oy)->Ok_0.len() >= guillotine_spec(
            img,
            thr2,
            min,
            ox,
            oy,
        )->Ok_0.len(),
    decreases img.width + img.height(),
{
    lemma_count_at_least_one(img, thr1, min, ox, oy);
    if accepts(img, thr2) {
        if prefers_horizontal(img) {
            lemma_exceeds_monotone(h_best_sum(img), img.width, thr1, thr2);
        } else {
            lemma_exceeds_monotone(v_best_sum(img), img.height(), thr1, thr2);
        }
        assert(accepts(img, thr1));
        let horiz = prefers_horizontal(img);
        let x0 = if horiz { 0 } else { v_cut(img) };
        let y0 = if horiz { h_cut(img) } else { 0 };
        let aw = if horiz { img.width } else { v_cut(img) };
        let ah = if horiz { h_cut(img) } else { img.height() };
        let bw = if horiz { img.width } else { img.width - v_cut(img) };
        let bh = if horiz { img.height() - h_cut(img) } else { img.height() };
        lemma_crop_wf(img, 0, 0, aw, ah);
        lemma_crop_wf(img, x0, y0, bw, bh);
        lemma_threshold_monotone(crop_spec(img, 0, 0, aw, ah), thr1, thr2, min, ox, oy);
        lemma_threshold_monotone(
            crop_spec(img, x0, y0, bw, bh),
            thr1,
            thr2,
            min,
            ox + x0,
            oy + y0,
        );
    }
}

} // verus!
