//! The profiler: per-line difference profiles and the strongest discontinuity.
//!
//! A line is one full row or one full column. For each adjacent pair of lines
//! the profiler sums the absolute per-channel differences over every pixel
//! position. The mean per-channel score of a pair is that sum divided by
//! (line length x 3); the library keeps the exact integer sum and leaves the
//! constant positive denominator to the comparisons, which cross-multiply, so
//! no precision is ever lost.

use vstd::prelude::*;
use crate::Error;
use crate::raster::{Img, ImgV, Pixel, MAX_DIM};

verus! {

/// Absolute difference of one channel.
pub open spec fn ch_diff(a: u8, b: u8) -> int {
    if a >= b {
        a - b
    } else {
        b - a
    }
}

/// Sum of the absolute differences of the three channels of two pixels.
/// At most 765.
pub open spec fn pix_diff(a: Pixel, b: Pixel) -> int {
    ch_diff(a.r, b.r) + ch_diff(a.g, b.g) + ch_diff(a.b, b.b)
}

/// Sum of [`pix_diff`] over the first `n` positions of two lines.
pub open spec fn line_pair_sum(a: Seq<Pixel>, b: Seq<Pixel>, n: int) -> int
    decreases n,
{
    if n <= 0 {
        0
    } else {
        line_pair_sum(a, b, n - 1) + pix_diff(a[n - 1], b[n - 1])
    }
}

/// Two lines that agree pointwise have a zero difference sum.
pub proof fn lemma_line_pair_sum_zero(a: Seq<Pixel>, b: Seq<Pixel>, n: int)
    requires
        forall|i: int| 0 <= i < n ==> a[i] == b[i],
    ensures
        line_pair_sum(a, b, n) == 0,
    decreases n,
{
    if n > 0 {
        lemma_line_pair_sum_zero(a, b, n - 1);
    }
}

/// Column `x` of `img`, as a line of pixels from top to bottom.
pub open spec fn col_of(img: ImgV, x: int) -> Seq<Pixel> {
    Seq::new(img.rows.len(), |y: int| img.rows[y][x])
}

/// Difference sum between row `y` and row `y + 1`.
pub open spec fn row_pair_sum(img: ImgV, y: int) -> int {
    line_pair_sum(img.rows[y], img.rows[y + 1], img.width)
}

/// Difference sum between column `x` and column `x + 1`.
pub open spec fn col_pair_sum(img: ImgV, x: int) -> int {
    line_pair_sum(col_of(img, x), col_of(img, x + 1), img.height())
}

/// The horizontal difference profile: one score per adjacent row pair.
pub open spec fn row_sums(img: ImgV) -> Seq<int> {
    Seq::new((img.height() - 1) as nat, |y: int| row_pair_sum(img, y))
}

/// The vertical difference profile: one score per adjacent column pair.
pub open spec fn col_sums(img: ImgV) -> Seq<int> {
    Seq::new((img.width - 1) as nat, |x: int| col_pair_sum(img, x))
}

/// Index of the first maximum of a non-empty sequence: the lowest index that
/// no later entry strictly exceeds. On an empty or one-entry sequence it is 0.
pub open spec fn first_max_idx(s: Seq<int>) -> int
    decreases s.len(),
{
    if s.len() <= 1 {
        0
    } else {
        let r = first_max_idx(s.take(s.len() - 1));
        if s[s.len() - 1] > s[r] {
            s.len() - 1
        } else {
            r
        }
    }
}

/// The first maximum lies in range, is a maximum, and strictly exceeds every
/// earlier entry.
pub proof fn lemma_first_max_props(s: Seq<int>)
    requires
        s.len() >= 1,
    ensures
        0 <= first_max_idx(s) < s.len(),
        forall|j: int| 0 <= j < s.len() ==> #[trigger] s[j] <= s[first_max_idx(s)],
        forall|j: int| 0 <= j < first_max_idx(s) ==> #[trigger] s[j] < s[first_max_idx(s)],
    decreases s.len(),
{
    if s.len() > 1 {
        let t = s.take(s.len() - 1);
        lemma_first_max_props(t);
        assert(forall|j: int| 0 <= j < t.len() ==> t[j] == s[j]);
    }
}

/// Any index with the first-maximum properties is the first maximum.
pub proof fn lemma_first_max_unique(s: Seq<int>, i: int)
    requires
        0 <= i < s.len(),
        forall|j: int| 0 <= j < s.len() ==> s[j] <= s[i],
        forall|j: int| 0 <= j < i ==> s[j] < s[i],
    ensures
        i == first_max_idx(s),
    decreases s.len(),
{
    if s.len() > 1 {
        let t = s.take(s.len() - 1);
        assert(forall|j: int| 0 <= j < t.len() ==> t[j] == s[j]);
        if i < s.len() - 1 {
            lemma_first_max_unique(t, i);
        } else {
            lemma_first_max_props(t);
        }
    }
}

/// Exact difference sum of two lines of equal length.
pub fn line_diff_sum(a: &Vec<Pixel>, b: &Vec<Pixel>) -> (sum: u64)
    requires
        a@.len() == b@.len(),
        a@.len() <= MAX_DIM,
    ensures
        sum as int == line_pair_sum(a@, b@, a@.len() as int),
        sum as int <= 765 * a@.len(),
{
    let mut sum: u64 = 0;
    let mut i: usize = 0;
    while i < a.len()
        invariant
            0 <= i <= a@.len(),
            a@.len() == b@.len(),
            a@.len() <= MAX_DIM,
            sum as int == line_pair_sum(a@, b@, i as int),
            sum as int <= 765 * i as int,
        decreases a@.len() - i,
    {
        let pa = a[i];
        let pb = b[i];
        let dr: u64 = if pa.r >= pb.r { (pa.r - pb.r) as u64 } else { (pb.r - pa.r) as u64 };
        let dg: u64 = if pa.g >= pb.g { (pa.g - pb.g) as u64 } else { (pb.g - pa.g) as u64 };
        let db: u64 = if pa.b >= pb.b { (pa.b - pb.b) as u64 } else { (pb.b - pa.b) as u64 };
        sum = sum + dr + dg + db;
        i += 1;
    }
    sum
}

/// Column `x` copied out as an owned line.
pub fn extract_col(img: &Img, x: usize) -> (line: Vec<Pixel>)
    requires
        img.wf(),
        (x as int) < img@.width,
    ensures
        line@ == col_of(img@, x as int),
{
    let mut line: Vec<Pixel> = Vec::new();
    let h = img.height();
    let mut y: usize = 0;
    while y < h
        invariant
            0 <= y <= h,
            img.wf(),
            (x as int) < img@.width,
            h as int == img@.height(),
            line@.len() == y as int,
            forall|j: int| 0 <= j < y ==> #[trigger] line@[j] == img@.rows[j][x as int],
        decreases h - y,
    {
        line.push(img.pixel(x, y));
        y += 1;
    }
    proof {
        assert(line@ =~= col_of(img@, x as int));
    }
    line
}

/// Position and difference sum of the strongest discontinuity between
/// adjacent rows: the returned index is 1-based (the number of rows above the
/// cut), ties go to the lowest index.
pub fn best_row_cut(img: &Img) -> (best: (usize, u64))
    requires
        img.wf(),
        img@.height() >= 2,
    ensures
        best.0 as int == 1 + first_max_idx(row_sums(img@)),
        best.1 as int == row_pair_sum(img@, best.0 - 1),
        1 <= best.0 < img@.height(),
        forall|j: int| 0 <= j < img@.height() - 1 ==> row_sums(img@)[j] <= best.1 as int,
{
    let h = img.height();
    let mut best_idx: usize = 0;
    let mut best_sum: u64 = line_diff_sum(img.row(0), img.row(1));
    let mut y: usize = 1;
    while y < h - 1
        invariant
            1 <= y <= img@.height() - 1,
            img.wf(),
            h as int == img@.height(),
            0 <= best_idx < y,
            best_sum as int == row_pair_sum(img@, best_idx as int),
            forall|j: int| 0 <= j < y ==> row_sums(img@)[j] <= best_sum as int,
            forall|j: int| 0 <= j < best_idx ==> row_sums(img@)[j] < best_sum as int,
        decreases h - y,
    {
        let s = line_diff_sum(img.row(y), img.row(y + 1));
        if s > best_sum {
            best_idx = y;
            best_sum = s;
        }
        y += 1;
    }
    proof {
        lemma_first_max_unique(row_sums(img@), best_idx as int);
    }
    (best_idx + 1, best_sum)
}

/// Position and difference sum of the strongest discontinuity between
/// adjacent columns: the returned index is 1-based (the number of columns
/// left of the cut), ties go to the lowest index.
pub fn best_col_cut(img: &Img) -> (best: (usize, u64))
    requires
        img.wf(),
        img@.width >= 2,
    ensures
        best.0 as int == 1 + first_max_idx(col_sums(img@)),
        best.1 as int == col_pair_sum(img@, best.0 - 1),
        1 <= best.0 < img@.width,
        forall|j: int| 0 <= j < img@.width - 1 ==> col_sums(img@)[j] <= best.1 as int,
{
    let w = img.width();
    let mut old_line = extract_col(img, 0);
    let mut new_line = extract_col(img, 1);
    let mut best_idx: usize = 0;
    let mut best_sum: u64 = line_diff_sum(&old_line, &new_line);
    let mut x: usize = 1;
    while x < w - 1
        invariant
            1 <= x <= img@.width - 1,
            img.wf(),
            w as int == img@.width,
            new_line@ == col_of(img@, x as int),
            0 <= best_idx < x,
            best_sum as int == col_pair_sum(img@, best_idx as int),
            forall|j: int| 0 <= j < x ==> col_sums(img@)[j] <= best_sum as int,
            forall|j: int| 0 <= j < best_idx ==> col_sums(img@)[j] < best_sum as int,
        decreases w - x,
    {
        old_line = new_line;
        new_line = extract_col(img, x + 1);
        let s = line_diff_sum(&old_line, &new_line);
        if s > best_sum {
            best_idx = x;
            best_sum = s;
        }
        x += 1;
    }
    proof {
        lemma_first_max_unique(col_sums(img@), best_idx as int);
    }
    (best_idx + 1, best_sum)
}

/// The horizontal difference profile's strongest discontinuity, for
/// standalone use: explicit failure when no adjacent row pair exists.
pub fn difference_horizontal(img: &Img) -> (result: Result<(usize, u64), Error>)
    requires
        img.wf(),
    ensures
        match result {
            Ok(best) => {
                &&& img@.height() >= 2
                &&& best.0 as int == 1 + first_max_idx(row_sums(img@))
                &&& best.1 as int == row_pair_sum(img@, best.0 - 1)
            },
            Err(e) => e == Error::EmptyAxis && img@.height() < 2,
        },
{
    if img.height() < 2 {
        Err(Error::EmptyAxis)
    } else {
        Ok(best_row_cut(img))
    }
}

/// The vertical difference profile's strongest discontinuity, for standalone
/// use: explicit failure when no adjacent column pair exists.
pub fn difference_vertical(img: &Img) -> (result: Result<(usize, u64), Error>)
    requires
        img.wf(),
    ensures
        match result {
            Ok(best) => {
                &&& img@.width >= 2
                &&& best.0 as int == 1 + first_max_idx(col_sums(img@))
                &&& best.1 as int == col_pair_sum(img@, best.0 - 1)
            },
            Err(e) => e == Error::EmptyAxis && img@.width < 2,
        },
{
    if img.width() < 2 {
        Err(Error::EmptyAxis)
    } else {
        Ok(best_col_cut(img))
    }
}

} // verus!
