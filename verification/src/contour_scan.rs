//! A raster scan of an edge map traces exactly one sequence of walks, so the
//! contours that `trace_contours` returns are determined by the map and the
//! minimum length.

use vstd::prelude::*;

use crate::canny::pix;
use crate::contour::{is_scan, is_walk, mark_walks, start_of};

verus! {

/// Two walks from the same start with the same pixels visited agree on their
/// first `i + 1` points.
proof fn lemma_walk_prefix(
    px: Seq<bool>,
    vis: Seq<bool>,
    w: int,
    h: int,
    c1: Seq<(u32, u32)>,
    c2: Seq<(u32, u32)>,
    i: int,
)
    requires
        is_walk(px, vis, w, h, c1),
        is_walk(px, vis, w, h, c2),
        c1[0] == c2[0],
        0 <= i < c1.len(),
        i < c2.len(),
    ensures
        c1.take(i + 1) == c2.take(i + 1),
    decreases i,
{
    if i > 0 {
        let j = i - 1;
        lemma_walk_prefix(px, vis, w, h, c1, c2, j);
        assert(c1.take(j + 1)[j] == c1[j]);
        assert(c2.take(j + 1)[j] == c2[j]);
        assert(c1[j + 1] == c2[j + 1]);
    }
    assert(c1.take(i + 1) =~= c2.take(i + 1));
}

/// A walk is determined by its start and the pixels visited before it.
proof fn lemma_walk_unique(
    px: Seq<bool>,
    vis: Seq<bool>,
    w: int,
    h: int,
    c1: Seq<(u32, u32)>,
    c2: Seq<(u32, u32)>,
)
    requires
        is_walk(px, vis, w, h, c1),
        is_walk(px, vis, w, h, c2),
        c1[0] == c2[0],
    ensures
        c1 == c2,
{
    if c1.len() < c2.len() {
        let n = c1.len() - 1;
        lemma_walk_prefix(px, vis, w, h, c1, c2, n);
        assert(c1 =~= c1.take(n + 1));
        assert(c2.take(n + 1)[n] == c2[n]);
        assert(c2[n + 1] == c2[n + 1]);
    } else if c2.len() < c1.len() {
        let n = c2.len() - 1;
        lemma_walk_prefix(px, vis, w, h, c2, c1, n);
        assert(c2 =~= c2.take(n + 1));
        assert(c1.take(n + 1)[n] == c1[n]);
        assert(c1[n + 1] == c1[n + 1]);
    } else {
        lemma_walk_prefix(px, vis, w, h, c1, c2, c1.len() - 1);
        assert(c1 =~= c1.take(c1.len() as int));
        assert(c2 =~= c2.take(c2.len() as int));
    }
}

/// Two points inside a map of width `w` with the same raster index are equal.
proof fn lemma_pix_injective(x1: int, y1: int, x2: int, y2: int, w: int)
    requires
        0 <= x1 < w,
        0 <= x2 < w,
        0 <= y1,
        0 <= y2,
        pix(x1, y1, w) == pix(x2, y2, w),
    ensures
        x1 == x2,
        y1 == y2,
{
    vstd::arithmetic::div_mod::lemma_fundamental_div_mod_converse(pix(x1, y1, w), w, y1, x1);
    vstd::arithmetic::div_mod::lemma_fundamental_div_mod_converse(pix(x2, y2, w), w, y2, x2);
}

/// Two scans that agree on their first `k` walks agree on walk `k` too.
proof fn lemma_scan_step(
    px: Seq<bool>,
    w: int,
    h: int,
    ws1: Seq<Seq<(u32, u32)>>,
    ws2: Seq<Seq<(u32, u32)>>,
    k: int,
)
    requires
        is_scan(px, w, h, ws1),
        is_scan(px, w, h, ws2),
        0 <= k < ws1.len(),
        k < ws2.len(),
        ws1.take(k) == ws2.take(k),
    ensures
        ws1[k] == ws2[k],
{
    let none = Seq::new((w * h) as nat, |i: int| false);
    let m = mark_walks(none, ws1.take(k), w);
    let c1 = ws1[k];
    let c2 = ws2[k];
    assert(is_walk(px, m, w, h, c1));
    assert(is_walk(px, m, w, h, c2));
    let s1 = start_of(c1, w);
    let s2 = start_of(c2, w);
    if s1 < s2 {
        assert(px[s1]);
        assert(m[s1]);
    } else if s2 < s1 {
        assert(px[s2]);
        assert(m[s2]);
    }
    lemma_pix_injective(c1[0].0 as int, c1[0].1 as int, c2[0].0 as int, c2[0].1 as int, w);
    lemma_walk_unique(px, m, w, h, c1, c2);
}

/// Two scans that agree on their first `k` walks agree on their first
/// `k + 1`.
proof fn lemma_scan_prefix(
    px: Seq<bool>,
    w: int,
    h: int,
    ws1: Seq<Seq<(u32, u32)>>,
    ws2: Seq<Seq<(u32, u32)>>,
    k: int,
)
    requires
        is_scan(px, w, h, ws1),
        is_scan(px, w, h, ws2),
        0 <= k <= ws1.len(),
        k <= ws2.len(),
    ensures
        ws1.take(k) == ws2.take(k),
    decreases k,
{
    if k > 0 {
        lemma_scan_prefix(px, w, h, ws1, ws2, k - 1);
        lemma_scan_step(px, w, h, ws1, ws2, k - 1);
        assert(ws1.take(k) =~= ws2.take(k)) by {
            assert forall|j: int| 0 <= j < k implies ws1.take(k)[j] == ws2.take(k)[j] by {
                if j < k - 1 {
                    assert(ws1.take(k - 1)[j] == ws2.take(k - 1)[j]);
                }
            }
        }
    }
}

/// A scan that agrees with another on all its walks leaves no edge pixel open
/// for one more: the two have the same length.
proof fn lemma_scan_ends(
    px: Seq<bool>,
    w: int,
    h: int,
    short: Seq<Seq<(u32, u32)>>,
    long: Seq<Seq<(u32, u32)>>,
)
    requires
        is_scan(px, w, h, short),
        is_scan(px, w, h, long),
        short.len() <= long.len(),
        long.take(short.len() as int) == short,
    ensures
        short.len() == long.len(),
{
    if short.len() < long.len() {
        let none = Seq::new((w * h) as nat, |i: int| false);
        let n = short.len() as int;
        let c = long[n];
        assert(is_walk(px, mark_walks(none, long.take(n), w), w, h, c));
        crate::canny::lemma_pix_bounds(c[0].0 as int, c[0].1 as int, w, h);
        assert(px[start_of(c, w)]);
        assert(mark_walks(none, short, w)[start_of(c, w)]);
    }
}

/// A raster scan of an edge map traces exactly one sequence of walks: what
/// `trace_contours` returns is determined by the map and the minimum length.
pub proof fn lemma_scan_unique(px: Seq<bool>, w: int, h: int, ws1: Seq<Seq<(u32, u32)>>, ws2: Seq<Seq<(u32, u32)>>)
    requires
        is_scan(px, w, h, ws1),
        is_scan(px, w, h, ws2),
    ensures
        ws1 == ws2,
{
    if ws1.len() < ws2.len() {
        lemma_scan_prefix(px, w, h, ws1, ws2, ws1.len() as int);
        assert(ws1.take(ws1.len() as int) =~= ws1);
        lemma_scan_ends(px, w, h, ws1, ws2);
    } else if ws2.len() < ws1.len() {
        lemma_scan_prefix(px, w, h, ws1, ws2, ws2.len() as int);
        assert(ws2.take(ws2.len() as int) =~= ws2);
        lemma_scan_ends(px, w, h, ws2, ws1);
    } else {
        lemma_scan_prefix(px, w, h, ws1, ws2, ws1.len() as int);
        assert(ws1.take(ws1.len() as int) =~= ws1);
        assert(ws2.take(ws2.len() as int) =~= ws2);
    }
}

} // verus!
