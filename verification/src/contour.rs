//! Contour tracing over a binary edge map, ahead of B-Spline fitting.
//!
//! Pixels are scanned in raster order. Each edge pixel not yet visited starts
//! a contour that walks, from the current pixel, to the first unvisited edge
//! neighbour in clockwise order starting East (E, SE, S, SW, W, NW, N, NE),
//! marking each pixel visited, until no such neighbour is left. Contours
//! shorter than a minimum length are dropped (their pixels stay visited).

use vstd::prelude::*;

use crate::canny::{pix, EdgeMap};

verus! {

/// The eight neighbour directions, clockwise from East: x offsets.
pub open spec fn dir_dx(k: int) -> int {
    if k == 0 || k == 1 || k == 7 {
        1
    } else if k == 2 || k == 6 {
        0
    } else {
        -1
    }
}

/// The eight neighbour directions, clockwise from East: y offsets.
pub open spec fn dir_dy(k: int) -> int {
    if k == 1 || k == 2 || k == 3 {
        1
    } else if k == 0 || k == 4 {
        0
    } else {
        -1
    }
}

/// Whether `(x, y)` is an edge pixel of the `w × h` map not yet visited.
pub open spec fn open_at(px: Seq<bool>, vis: Seq<bool>, w: int, h: int, x: int, y: int) -> bool {
    0 <= x < w && 0 <= y < h && px[pix(x, y, w)] && !vis[pix(x, y, w)]
}

/// Whether direction `k` from `(x, y)` leads to an open pixel.
pub open spec fn step_open(px: Seq<bool>, vis: Seq<bool>, w: int, h: int, x: int, y: int, k: int) -> bool {
    open_at(px, vis, w, h, x + dir_dx(k), y + dir_dy(k))
}

/// The first direction from `(x, y)`, in clockwise order from East, that leads
/// to an open pixel; 8 where there is none.
pub open spec fn first_open_dir(px: Seq<bool>, vis: Seq<bool>, w: int, h: int, x: int, y: int) -> int {
    if step_open(px, vis, w, h, x, y, 0) {
        0
    } else if step_open(px, vis, w, h, x, y, 1) {
        1
    } else if step_open(px, vis, w, h, x, y, 2) {
        2
    } else if step_open(px, vis, w, h, x, y, 3) {
        3
    } else if step_open(px, vis, w, h, x, y, 4) {
        4
    } else if step_open(px, vis, w, h, x, y, 5) {
        5
    } else if step_open(px, vis, w, h, x, y, 6) {
        6
    } else if step_open(px, vis, w, h, x, y, 7) {
        7
    } else {
        8
    }
}

/// `vis` with the pixels of the points `c` marked visited.
pub open spec fn mark_all(vis: Seq<bool>, c: Seq<(u32, u32)>, w: int) -> Seq<bool>
    decreases c.len(),
{
    if c.len() == 0 {
        vis
    } else {
        mark_all(vis, c.drop_last(), w).update(pix(c.last().0 as int, c.last().1 as int, w), true)
    }
}

/// `vis` with the pixels of all the walks `ws` marked visited.
pub open spec fn mark_walks(vis: Seq<bool>, ws: Seq<Seq<(u32, u32)>>, w: int) -> Seq<bool>
    decreases ws.len(),
{
    if ws.len() == 0 {
        vis
    } else {
        mark_all(mark_walks(vis, ws.drop_last(), w), ws.last(), w)
    }
}

/// Whether `c` is the walk that starts at `c[0]` with the pixels `vis`
/// already visited: each next point is the first open neighbour of the point
/// before it, once the points so far are visited, and the last point has no
/// open neighbour.
pub open spec fn is_walk(px: Seq<bool>, vis: Seq<bool>, w: int, h: int, c: Seq<(u32, u32)>) -> bool {
    &&& c.len() >= 1
    &&& open_at(px, vis, w, h, c[0].0 as int, c[0].1 as int)
    &&& forall|i: int|
        #![trigger c[i + 1]]
        0 <= i < c.len() - 1 ==> {
            let v = mark_all(vis, c.take(i + 1), w);
            let k = first_open_dir(px, v, w, h, c[i].0 as int, c[i].1 as int);
            &&& k < 8
            &&& c[i + 1].0 == c[i].0 + dir_dx(k)
            &&& c[i + 1].1 == c[i].1 + dir_dy(k)
        }
    &&& first_open_dir(px, mark_all(vis, c, w), w, h, c.last().0 as int, c.last().1 as int) == 8
}

/// The raster index of the start of walk `c`.
pub open spec fn start_of(c: Seq<(u32, u32)>, w: int) -> int {
    pix(c[0].0 as int, c[0].1 as int, w)
}

/// Whether `ws` is the sequence of walks that a raster scan of the `w × h`
/// edge map `px` traces: each walk starts at the first edge pixel, in raster
/// order, that the walks before it have not visited, and after the last walk
/// every edge pixel is visited.
pub open spec fn is_scan(px: Seq<bool>, w: int, h: int, ws: Seq<Seq<(u32, u32)>>) -> bool {
    let none = Seq::new((w * h) as nat, |i: int| false);
    &&& forall|k: int|
        #![trigger ws[k]]
        0 <= k < ws.len() ==> is_walk(px, mark_walks(none, ws.take(k), w), w, h, ws[k])
    &&& forall|k: int, p: int|
        #![trigger ws[k], px[p]]
        0 <= k < ws.len() && 0 <= p < start_of(ws[k], w) && px[p] ==> mark_walks(
            none,
            ws.take(k),
            w,
        )[p]
    &&& forall|p: int| 0 <= p < w * h && #[trigger] px[p] ==> mark_walks(none, ws, w)[p]
}

/// The walks of `ws` that are at least `min_len` points long, in order.
pub open spec fn long_walks(ws: Seq<Seq<(u32, u32)>>, min_len: int) -> Seq<Seq<(u32, u32)>> {
    ws.filter(|c: Seq<(u32, u32)>| c.len() >= min_len)
}

/// The views of contours.
pub open spec fn contours_view(v: Seq<Vec<(u32, u32)>>) -> Seq<Seq<(u32, u32)>> {
    v.map_values(|c: Vec<(u32, u32)>| c@)
}

/// The number of unvisited entries of `vis`.
pub open spec fn unvisited(vis: Seq<bool>) -> int
    decreases vis.len(),
{
    if vis.len() == 0 {
        0
    } else {
        unvisited(vis.drop_last()) + if vis.last() {
            0int
        } else {
            1
        }
    }
}

proof fn lemma_unvisited_mark(vis: Seq<bool>, i: int)
    requires
        0 <= i < vis.len(),
        !vis[i],
    ensures
        unvisited(vis.update(i, true)) == unvisited(vis) - 1,
        unvisited(vis) >= 1,
    decreases vis.len(),
{
    lemma_unvisited_nonneg(vis.drop_last());
    if i == vis.len() - 1 {
        assert(vis.update(i, true).drop_last() =~= vis.drop_last());
    } else {
        assert(vis.update(i, true).drop_last() =~= vis.drop_last().update(i, true));
        lemma_unvisited_mark(vis.drop_last(), i);
    }
}

proof fn lemma_unvisited_nonneg(vis: Seq<bool>)
    ensures
        unvisited(vis) >= 0,
    decreases vis.len(),
{
    if vis.len() > 0 {
        lemma_unvisited_nonneg(vis.drop_last());
    }
}

/// Marking only sets entries: what was visited stays visited, and every
/// point of `c` inside the map ends up visited.
proof fn lemma_mark_all(vis: Seq<bool>, c: Seq<(u32, u32)>, w: int)
    requires
        forall|j: int|
            0 <= j < c.len() ==> 0 <= #[trigger] pix(c[j].0 as int, c[j].1 as int, w) < vis.len(),
    ensures
        mark_all(vis, c, w).len() == vis.len(),
        forall|i: int| 0 <= i < vis.len() && vis[i] ==> #[trigger] mark_all(vis, c, w)[i],
        forall|j: int|
            0 <= j < c.len() && 0 <= pix(c[j].0 as int, c[j].1 as int, w) < vis.len()
                ==> #[trigger] mark_all(vis, c, w)[pix(c[j].0 as int, c[j].1 as int, w)],
    decreases c.len(),
{
    if c.len() > 0 {
        assert forall|j: int| 0 <= j < c.drop_last().len() implies 0 <= #[trigger] pix(
            c.drop_last()[j].0 as int,
            c.drop_last()[j].1 as int,
            w,
        ) < vis.len() by {
            assert(c.drop_last()[j] == c[j]);
        }
        lemma_mark_all(vis, c.drop_last(), w);
        assert forall|j: int|
            0 <= j < c.len() && 0 <= pix(c[j].0 as int, c[j].1 as int, w) < vis.len()
                implies #[trigger] mark_all(vis, c, w)[pix(c[j].0 as int, c[j].1 as int, w)] by {
            if j < c.len() - 1 {
                assert(c.drop_last()[j] == c[j]);
            }
        }
    }
}

/// The neighbour of `(x, y)` in direction `k`, where it lies inside the map.
fn neighbour(x: usize, y: usize, w: usize, h: usize, k: usize) -> (r: Option<(usize, usize)>)
    requires
        x < w,
        y < h,
        k < 8,
    ensures
        match r {
            Some((nx, ny)) => nx == x + dir_dx(k as int) && ny == y + dir_dy(k as int) && nx < w
                && ny < h,
            None => !(0 <= x + dir_dx(k as int) < w && 0 <= y + dir_dy(k as int) < h),
        },
{
    let nx = if k == 0 || k == 1 || k == 7 {
        if x + 1 < w {
            x + 1
        } else {
            return None;
        }
    } else if k == 2 || k == 6 {
        x
    } else {
        if x >= 1 {
            x - 1
        } else {
            return None;
        }
    };
    let ny = if k == 1 || k == 2 || k == 3 {
        if y + 1 < h {
            y + 1
        } else {
            return None;
        }
    } else if k == 0 || k == 4 {
        y
    } else {
        if y >= 1 {
            y - 1
        } else {
            return None;
        }
    };
    Some((nx, ny))
}

proof fn lemma_pix_in(x: int, y: int, w: int, h: int)
    requires
        0 <= x < w,
        0 <= y < h,
    ensures
        0 <= pix(x, y, w) < w * h,
{
    assert(0 <= y * w + x < w * h) by (nonlinear_arith)
        requires
            0 <= x < w,
            0 <= y < h,
    ;
}

/// The walk from `(sx, sy)`: visits the start, then steps to the first open
/// neighbour of the current pixel, in clockwise order from East, until there
/// is none. Returns the points in order; marks them visited.
fn walk_from(px: &Vec<bool>, visited: &mut Vec<bool>, w: usize, h: usize, sx: usize, sy: usize) -> (c: Vec<(u32, u32)>)
    requires
        w <= u32::MAX,
        h <= u32::MAX,
        w * h <= u32::MAX,
        px@.len() == w * h,
        old(visited)@.len() == w * h,
        sx < w,
        sy < h,
        open_at(px@, old(visited)@, w as int, h as int, sx as int, sy as int),
    ensures
        final(visited)@ == mark_all(old(visited)@, c@, w as int),
        final(visited)@.len() == w * h,
        is_walk(px@, old(visited)@, w as int, h as int, c@),
        c@[0] == (sx as u32, sy as u32),
        forall|j: int|
            0 <= j < c@.len() ==> 0 <= #[trigger] pix(c@[j].0 as int, c@[j].1 as int, w as int)
                < w * h,
{
    let ghost vis0 = visited@;
    let ghost n = (w * h) as int;
    proof {
        lemma_pix_in(sx as int, sy as int, w as int, h as int);
    }
    let mut contour: Vec<(u32, u32)> = Vec::new();
    contour.push((sx as u32, sy as u32));
    visited.set(sy * w + sx, true);
    let mut cx = sx;
    let mut cy = sy;
    proof {
        assert((sx as u32) as int == sx);
        assert((sy as u32) as int == sy);
        assert(contour@.drop_last() =~= Seq::<(u32, u32)>::empty());
        assert(mark_all(vis0, contour@.drop_last(), w as int) == vis0);
        assert(contour@.last() == (sx as u32, sy as u32));
        assert(visited@ =~= mark_all(vis0, contour@, w as int));
    }
    loop
        invariant
            w <= u32::MAX,
            h <= u32::MAX,
            w * h <= u32::MAX,
            n == w * h,
            px@.len() == n,
            vis0.len() == n,
            visited@.len() == n,
            cx < w,
            cy < h,
            contour@.len() >= 1,
            contour@[0] == (sx as u32, sy as u32),
            open_at(px@, vis0, w as int, h as int, sx as int, sy as int),
            contour@.last() == (cx as u32, cy as u32),
            visited@ == mark_all(vis0, contour@, w as int),
            forall|j: int|
                0 <= j < contour@.len() ==> 0 <= #[trigger] pix(
                    contour@[j].0 as int,
                    contour@[j].1 as int,
                    w as int,
                ) < n,
            forall|i: int|
                #![trigger contour@[i + 1]]
                0 <= i < contour@.len() - 1 ==> {
                    let v = mark_all(vis0, contour@.take(i + 1), w as int);
                    let k = first_open_dir(
                        px@,
                        v,
                        w as int,
                        h as int,
                        contour@[i].0 as int,
                        contour@[i].1 as int,
                    );
                    &&& k < 8
                    &&& contour@[i + 1].0 == contour@[i].0 + dir_dx(k)
                    &&& contour@[i + 1].1 == contour@[i].1 + dir_dy(k)
                },
        ensures
            visited@.len() == n,
            contour@[0] == (sx as u32, sy as u32),
            visited@ == mark_all(vis0, contour@, w as int),
            is_walk(px@, vis0, w as int, h as int, contour@),
            forall|j: int|
                0 <= j < contour@.len() ==> 0 <= #[trigger] pix(
                    contour@[j].0 as int,
                    contour@[j].1 as int,
                    w as int,
                ) < n,
        decreases unvisited(visited@),
    {
        let next = first_open_neighbour(px, visited, w, h, cx, cy);
        match next {
            Some((nx, ny)) => {
                proof {
                    lemma_pix_in(nx as int, ny as int, w as int, h as int);
                    lemma_unvisited_mark(visited@, pix(nx as int, ny as int, w as int));
                    assert((cx as u32) as int == cx);
                    assert((cy as u32) as int == cy);
                    assert((nx as u32) as int == nx);
                    assert((ny as u32) as int == ny);
                }
                let ghost before = contour@;
                let ghost vbefore = visited@;
                visited.set(ny * w + nx, true);
                contour.push((nx as u32, ny as u32));
                cx = nx;
                cy = ny;
                proof {
                    assert(contour@.drop_last() =~= before);
                    assert(contour@.take(before.len() as int) =~= before);
                    assert forall|i: int|
                        #![trigger contour@[i + 1]]
                        0 <= i < contour@.len() - 1 implies {
                            let v = mark_all(vis0, contour@.take(i + 1), w as int);
                            let k = first_open_dir(
                                px@,
                                v,
                                w as int,
                                h as int,
                                contour@[i].0 as int,
                                contour@[i].1 as int,
                            );
                            &&& k < 8
                            &&& contour@[i + 1].0 == contour@[i].0 + dir_dx(k)
                            &&& contour@[i + 1].1 == contour@[i].1 + dir_dy(k)
                        } by {
                        assert(contour@.take(i + 1) =~= before.take(i + 1));
                        assert(contour@[i] == before[i]);
                        if i < before.len() - 1 {
                            assert(contour@[i + 1] == before[i + 1]);
                        } else {
                            assert(before.take(i + 1) =~= before);
                            assert(before[i] == before.last());
                        }
                    }
                    assert forall|j: int| 0 <= j < contour@.len() implies 0 <= #[trigger] pix(
                        contour@[j].0 as int,
                        contour@[j].1 as int,
                        w as int,
                    ) < n by {
                        if j < before.len() {
                            assert(contour@[j] == before[j]);
                        }
                    }
                }
            },
            None => {
                proof {
                    assert((cx as u32) as int == cx);
                    assert((cy as u32) as int == cy);
                    assert((sx as u32) as int == sx);
                    assert((sy as u32) as int == sy);
                    assert(contour@.last().0 as int == cx);
                    assert(contour@.last().1 as int == cy);
                    assert(contour@[0].0 as int == sx);
                    assert(contour@[0].1 as int == sy);
                }
                break;
            },
        }
    }
    contour
}

/// The first neighbour of `(cx, cy)`, in clockwise order from East, that is
/// an edge pixel not yet visited.
fn first_open_neighbour(px: &Vec<bool>, visited: &Vec<bool>, w: usize, h: usize, cx: usize, cy: usize) -> (next: Option<(usize, usize)>)
    requires
        w * h <= u32::MAX,
        px@.len() == w * h,
        visited@.len() == w * h,
        cx < w,
        cy < h,
    ensures
        match next {
            Some((nx, ny)) => nx < w && ny < h && {
                let d = first_open_dir(px@, visited@, w as int, h as int, cx as int, cy as int);
                &&& d < 8
                &&& nx == cx + dir_dx(d)
                &&& ny == cy + dir_dy(d)
                &&& open_at(px@, visited@, w as int, h as int, nx as int, ny as int)
            },
            None => first_open_dir(px@, visited@, w as int, h as int, cx as int, cy as int) == 8,
        },
{
    let mut k: usize = 0;
    while k < 8
        invariant
            w * h <= u32::MAX,
            px@.len() == w * h,
            visited@.len() == w * h,
            cx < w,
            cy < h,
            k <= 8,
            forall|j: int|
                0 <= j < k ==> !step_open(px@, visited@, w as int, h as int, cx as int, cy as int, j),
        decreases 8 - k,
    {
        match neighbour(cx, cy, w, h, k) {
            Some((nx, ny)) => {
                proof {
                    lemma_pix_in(nx as int, ny as int, w as int, h as int);
                }
                let ni = ny * w + nx;
                if px[ni] && !visited[ni] {
                    assert(step_open(px@, visited@, w as int, h as int, cx as int, cy as int, k as int));
                    return Some((nx, ny));
                }
            },
            None => {},
        }
        k = k + 1;
    }
    None
}

/// What a raster scan has established once it has looked at the pixels before
/// index `idx`: the walks `ws` it traced so far are walks, started in raster
/// order at pixels before `idx`, each at the first edge pixel that the earlier
/// walks had not visited, and every edge pixel before `idx` is visited.
pub open spec fn scan_upto(px: Seq<bool>, w: int, h: int, ws: Seq<Seq<(u32, u32)>>, idx: int) -> bool {
    let none = Seq::new((w * h) as nat, |i: int| false);
    &&& forall|k: int|
        #![trigger ws[k]]
        0 <= k < ws.len() ==> is_walk(px, mark_walks(none, ws.take(k), w), w, h, ws[k])
            && start_of(ws[k], w) < idx
    &&& forall|k: int, p: int|
        #![trigger ws[k], px[p]]
        0 <= k < ws.len() && 0 <= p < start_of(ws[k], w) && px[p] ==> mark_walks(
            none,
            ws.take(k),
            w,
        )[p]
    &&& forall|p: int| 0 <= p < idx && #[trigger] px[p] ==> mark_walks(none, ws, w)[p]
}

/// The scan moves past a pixel that starts no walk.
proof fn lemma_scan_skip(px: Seq<bool>, w: int, h: int, ws: Seq<Seq<(u32, u32)>>, idx: int)
    requires
        scan_upto(px, w, h, ws, idx),
        0 <= idx,
        px[idx] ==> mark_walks(Seq::new((w * h) as nat, |i: int| false), ws, w)[idx],
    ensures
        scan_upto(px, w, h, ws, idx + 1),
{
}

/// The scan traces the walk `c` from pixel `idx`.
proof fn lemma_scan_walk(
    px: Seq<bool>,
    w: int,
    h: int,
    ws: Seq<Seq<(u32, u32)>>,
    idx: int,
    c: Seq<(u32, u32)>,
)
    requires
        scan_upto(px, w, h, ws, idx),
        0 <= idx < w * h,
        mark_walks(Seq::new((w * h) as nat, |i: int| false), ws, w).len() == w * h,
        is_walk(px, mark_walks(Seq::new((w * h) as nat, |i: int| false), ws, w), w, h, c),
        start_of(c, w) == idx,
        forall|j: int|
            0 <= j < c.len() ==> 0 <= #[trigger] pix(c[j].0 as int, c[j].1 as int, w) < w * h,
    ensures
        scan_upto(px, w, h, ws.push(c), idx + 1),
        mark_walks(Seq::new((w * h) as nat, |i: int| false), ws.push(c), w) == mark_all(
            mark_walks(Seq::new((w * h) as nat, |i: int| false), ws, w),
            c,
            w,
        ),
{
    let none = Seq::new((w * h) as nat, |i: int| false);
    let ws2 = ws.push(c);
    let v = mark_walks(none, ws, w);
    assert(ws2.drop_last() =~= ws);
    assert(ws2.take(ws.len() as int) =~= ws);
    assert forall|k: int| 0 <= k < ws.len() implies #[trigger] ws2.take(k) == ws.take(k) by {
        assert(ws2.take(k) =~= ws.take(k));
    }
    lemma_mark_all(v, c, w);
    assert forall|k: int|
        #![trigger ws2[k]]
        0 <= k < ws2.len() implies is_walk(px, mark_walks(none, ws2.take(k), w), w, h, ws2[k])
        && start_of(ws2[k], w) < idx + 1 by {
        if k < ws.len() {
            assert(ws2[k] == ws[k]);
        }
    }
    assert forall|k: int, p: int|
        #![trigger ws2[k], px[p]]
        0 <= k < ws2.len() && 0 <= p < start_of(ws2[k], w) && px[p] implies mark_walks(
        none,
        ws2.take(k),
        w,
    )[p] by {
        if k < ws.len() {
            assert(ws2[k] == ws[k]);
        }
    }
    assert forall|p: int| 0 <= p < idx + 1 && #[trigger] px[p] implies mark_walks(none, ws2, w)[p] by {
        if p < idx {
            assert(v[p]);
        } else {
            assert(pix(c[0].0 as int, c[0].1 as int, w) == p);
        }
    }
}

/// Keeping the walks of at least `min_len` points, walk by walk.
proof fn lemma_long_walks_push(ws: Seq<Seq<(u32, u32)>>, c: Seq<(u32, u32)>, min_len: int)
    ensures
        long_walks(ws.push(c), min_len) == if c.len() >= min_len {
            long_walks(ws, min_len).push(c)
        } else {
            long_walks(ws, min_len)
        },
{
    reveal(Seq::filter);
    assert(ws.push(c).drop_last() =~= ws);
}

/// Trace 8-connected contours from a binary edge map, keeping those with at
/// least `min_len` points. Points are `(x, y)` pixel coordinates.
pub fn trace_contours(edge: &EdgeMap, min_len: usize) -> (out: Vec<Vec<(u32, u32)>>)
    requires
        edge.wf(),
    ensures
        exists|ws: Seq<Seq<(u32, u32)>>|
            is_scan(edge.pixels@, edge.width as int, edge.height as int, ws) && contours_view(out@)
                == long_walks(ws, min_len as int),
{
    let w = edge.width as usize;
    let h = edge.height as usize;
    let n = w * h;
    let ghost px = edge.pixels@;
    let ghost none = Seq::new(n as nat, |i: int| false);
    let mut visited: Vec<bool> = Vec::new();
    let mut i: usize = 0;
    while i < n
        invariant
            i <= n,
            visited@ =~= Seq::new(i as nat, |j: int| false),
        decreases n - i,
    {
        visited.push(false);
        i = i + 1;
    }
    let mut contours: Vec<Vec<(u32, u32)>> = Vec::new();
    let ghost mut ws: Seq<Seq<(u32, u32)>> = Seq::empty();
    let mut idx: usize = 0;
    let mut sx: usize = 0;
    let mut sy: usize = 0;
    proof {
        if n > 0 {
            assert(w > 0 && h > 0) by (nonlinear_arith)
                requires
                    n == w * h,
                    n > 0,
            ;
        }
        assert(pix(0, 0, w as int) == 0);
    }
    while idx < n
        invariant
            edge.wf(),
            w == edge.width,
            h == edge.height,
            px == edge.pixels@,
            n == w * h,
            none == Seq::new(n as nat, |i: int| false),
            idx <= n,
            idx < n ==> sx < w && sy < h,
            idx == pix(sx as int, sy as int, w as int),
            visited@ == mark_walks(none, ws, w as int),
            visited@.len() == n,
            contours_view(contours@) == long_walks(ws, min_len as int),
            scan_upto(px, w as int, h as int, ws, idx as int),
        decreases n - idx,
    {
        if edge.pixels[idx] && !visited[idx] {
            let ghost vis0 = visited@;
            let contour = walk_from(&edge.pixels, &mut visited, w, h, sx, sy);
            let ghost c = contour@;
            proof {
                lemma_scan_walk(px, w as int, h as int, ws, idx as int, c);
                lemma_long_walks_push(ws, c, min_len as int);
            }
            if contour.len() >= min_len {
                contours.push(contour);
            }
            proof {
                ws = ws.push(c);
            }
            assert(contours_view(contours@) =~= long_walks(ws, min_len as int));
        } else {
            proof {
                lemma_scan_skip(px, w as int, h as int, ws, idx as int);
            }
        }
        idx = idx + 1;
        if sx + 1 < w {
            sx = sx + 1;
        } else {
            proof {
                assert(pix(sx + 1, sy as int, w as int) == pix(0, sy + 1, w as int)) by (nonlinear_arith)
                    requires
                        sx + 1 == w,
                ;
                if idx < n {
                    assert(sy + 1 < h) by (nonlinear_arith)
                        requires
                            idx == (sy + 1) * w,
                            idx < w * h,
                    ;
                }
            }
            sx = 0;
            sy = sy + 1;
        }
    }
    assert(is_scan(px, w as int, h as int, ws));
    contours
}

} // verus!
