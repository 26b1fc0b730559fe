//! The integer stages of the Canny edge detector used for the S1 Geometric
//! Skeleton: the edge map, and edge tracking by hysteresis.
//!
//! Blurring, Sobel gradients, non-maximum suppression and the double
//! threshold work on floating-point magnitudes and produce one `EdgeState`
//! per pixel; hysteresis then turns weak pixels connected to strong ones into
//! strong pixels and yields the binary `EdgeMap`.

use vstd::prelude::*;

verus! {

/// Output of the Canny detector: a flat `width × height` bitmask where
/// `true` means a confirmed strong edge pixel.
#[derive(Debug, Clone)]
pub struct EdgeMap {
    pub width: u32,
    pub height: u32,
    /// Row-major. `pixels[y * width + x]` is `true` for an edge pixel.
    pub pixels: Vec<bool>,
}

/// Index of pixel `(x, y)` in a row-major map of width `w`.
pub open spec fn pix(x: int, y: int, w: int) -> int {
    y * w + x
}

/// An index of a pixel inside a `w × h` map lies before `w × h`.
pub proof fn lemma_pix_bounds(x: int, y: int, w: int, h: int)
    requires
        0 <= x < w,
        0 <= y < h,
    ensures
        0 <= pix(x, y, w) < w * h,
        pix(x, y, w) + w == pix(x, y + 1, w),
{
    assert(0 <= y * w + x < w * h) by (nonlinear_arith)
        requires
            0 <= x < w,
            0 <= y < h,
    ;
    assert((y + 1) * w == y * w + w) by (nonlinear_arith);
}

impl EdgeMap {
    /// The map holds one pixel per position, and its pixel count fits in a `u32`.
    pub open spec fn wf(&self) -> bool {
        &&& self.pixels@.len() == self.width * self.height
        &&& self.width * self.height <= u32::MAX
    }

    /// Whether `(x, y)` is an edge pixel; `false` outside the map.
    pub fn get(&self, x: u32, y: u32) -> (r: bool)
        requires
            self.wf(),
        ensures
            r == (x < self.width && y < self.height && self.pixels@[pix(
                x as int,
                y as int,
                self.width as int,
            )]),
    {
        if x >= self.width || y >= self.height {
            return false;
        }
        proof {
            lemma_pix_bounds(x as int, y as int, self.width as int, self.height as int);
        }
        self.pixels[(y * self.width + x) as usize]
    }
}

/// The state of a pixel after the double threshold.
#[derive(Debug, Clone, Copy, PartialEq, Eq, Structural)]
pub enum EdgeState {
    /// Below the low threshold.
    NoEdge,
    /// Between the thresholds.
    Weak,
    /// At or above the high threshold.
    Strong,
}

/// Whether `j` is one of the eight neighbours of pixel index `i` in a map of width `w`.
pub open spec fn neighbours(i: int, w: int, j: int) -> bool {
    ||| j == i - w - 1
    ||| j == i - w
    ||| j == i - w + 1
    ||| j == i - 1
    ||| j == i + 1
    ||| j == i + w - 1
    ||| j == i + w
    ||| j == i + w + 1
}

/// Whether one of the eight neighbours of pixel index `i` is strong.
pub open spec fn has_strong_nb(s: Seq<EdgeState>, i: int, w: int) -> bool {
    ||| s[i - w - 1] == EdgeState::Strong
    ||| s[i - w] == EdgeState::Strong
    ||| s[i - w + 1] == EdgeState::Strong
    ||| s[i - 1] == EdgeState::Strong
    ||| s[i + 1] == EdgeState::Strong
    ||| s[i + w - 1] == EdgeState::Strong
    ||| s[i + w] == EdgeState::Strong
    ||| s[i + w + 1] == EdgeState::Strong
}

/// Whether `(x, y)` is an interior pixel (not on the border) of a `w × h` map.
pub open spec fn interior(x: int, y: int, w: int, h: int) -> bool {
    1 <= x < w - 1 && 1 <= y < h - 1
}

/// Whether the pixel set `t` holds every strong pixel of `e` and every weak
/// interior pixel of `e` that has a neighbour in `t`.
pub open spec fn closed_under(e: Seq<EdgeState>, w: int, h: int, t: Set<int>) -> bool {
    &&& forall|i: int| 0 <= i < e.len() && e[i] == EdgeState::Strong ==> #[trigger] t.contains(i)
    &&& forall|x: int, y: int, j: int|
        #![trigger e[pix(x, y, w)], t.contains(j)]
        interior(x, y, w, h) && e[pix(x, y, w)] == EdgeState::Weak && neighbours(pix(x, y, w), w, j)
            && t.contains(j) ==> t.contains(pix(x, y, w))
}

/// The eight neighbours of pixel `(x, y)` are the pixels at offsets
/// `(dx, dy)`, each in `-1..=1`, other than `(0, 0)`: each of them is a
/// neighbour for hysteresis, and a strong pixel at any of them is a strong
/// neighbour of `(x, y)`.
pub proof fn lemma_eight_neighbours(s: Seq<EdgeState>, x: int, y: int, w: int, dx: int, dy: int)
    requires
        -1 <= dx <= 1,
        -1 <= dy <= 1,
        dx != 0 || dy != 0,
    ensures
        neighbours(pix(x, y, w), w, (y + dy) * w + (x + dx)),
        s[(y + dy) * w + (x + dx)] == EdgeState::Strong ==> has_strong_nb(s, pix(x, y, w), w),
{
    assert((y + dy) * w == y * w + dy * w) by (nonlinear_arith);
    if dy == -1 {
        assert(dy * w == -w) by (nonlinear_arith)
            requires
                dy == -1,
        ;
    } else if dy == 0 {
        assert(dy * w == 0) by (nonlinear_arith)
            requires
                dy == 0,
        ;
    } else {
        assert(dy * w == w) by (nonlinear_arith)
            requires
                dy == 1,
        ;
    }
}

/// Returns `true` if any of the eight neighbours of `(x, y)` is strong.
pub fn has_strong_neighbour(edge: &[EdgeState], x: usize, y: usize, w: usize) -> (r: bool)
    requires
        1 <= x,
        1 <= y,
        x < i32::MAX,
        y < i32::MAX,
        pix(x as int, y as int, w as int) + w + 1 < edge.len(),
    ensures
        r == has_strong_nb(edge@, pix(x as int, y as int, w as int), w as int),
{
    proof {
        assert((y - 1) * w == y * w - w) by (nonlinear_arith);
        assert(0 <= (y - 1) * w) by (nonlinear_arith)
            requires
                1 <= y,
        ;
    }
    let i = y * w + x;
    let up = i - w;
    let down = i + w;
    edge[up - 1] == EdgeState::Strong || edge[up] == EdgeState::Strong || edge[up + 1]
        == EdgeState::Strong || edge[i - 1] == EdgeState::Strong || edge[i + 1]
        == EdgeState::Strong || edge[down - 1] == EdgeState::Strong || edge[down]
        == EdgeState::Strong || edge[down + 1] == EdgeState::Strong
}

/// The number of weak pixels among the first `k` of `s`.
pub open spec fn weak_count(s: Seq<EdgeState>, k: int) -> int
    decreases k,
{
    if k <= 0 {
        0
    } else {
        weak_count(s, k - 1) + if s[k - 1] == EdgeState::Weak {
            1int
        } else {
            0
        }
    }
}

proof fn lemma_weak_count_bounds(s: Seq<EdgeState>, k: int)
    requires
        0 <= k,
    ensures
        0 <= weak_count(s, k) <= k,
    decreases k,
{
    if k > 0 {
        lemma_weak_count_bounds(s, k - 1);
    }
}

/// Turning a weak pixel strong lowers the weak count.
proof fn lemma_weak_count_promote(s: Seq<EdgeState>, i: int, k: int)
    requires
        0 <= i < s.len(),
        s[i] == EdgeState::Weak,
        0 <= k <= s.len(),
    ensures
        weak_count(s.update(i, EdgeState::Strong), k) == weak_count(s, k) - (if i < k {
            1int
        } else {
            0
        }),
    decreases k,
{
    if k > 0 {
        lemma_weak_count_promote(s, i, k - 1);
    }
}

/// Promoting a weak interior pixel with a strong neighbour keeps every strong
/// pixel inside each closed set.
proof fn lemma_promote_sound(e: Seq<EdgeState>, st: Seq<EdgeState>, w: int, h: int, x: int, y: int)
    requires
        st.len() == e.len(),
        interior(x, y, w, h),
        0 <= pix(x, y, w) - w - 1,
        pix(x, y, w) + w + 1 < e.len(),
        e[pix(x, y, w)] == EdgeState::Weak,
        has_strong_nb(st, pix(x, y, w), w),
        forall|t: Set<int>| #[trigger]
            closed_under(e, w, h, t) ==> forall|i: int|
                0 <= i < st.len() && st[i] == EdgeState::Strong ==> t.contains(i),
    ensures
        forall|t: Set<int>| #[trigger]
            closed_under(e, w, h, t) ==> t.contains(pix(x, y, w)),
{
    let i = pix(x, y, w);
    assert forall|t: Set<int>| #[trigger] closed_under(e, w, h, t) implies t.contains(i) by {
        let j = if st[i - w - 1] == EdgeState::Strong {
            i - w - 1
        } else if st[i - w] == EdgeState::Strong {
            i - w
        } else if st[i - w + 1] == EdgeState::Strong {
            i - w + 1
        } else if st[i - 1] == EdgeState::Strong {
            i - 1
        } else if st[i + 1] == EdgeState::Strong {
            i + 1
        } else if st[i + w - 1] == EdgeState::Strong {
            i + w - 1
        } else if st[i + w] == EdgeState::Strong {
            i + w
        } else {
            i + w + 1
        };
        assert(st[j] == EdgeState::Strong);
        assert(t.contains(j));
        assert(neighbours(i, w, j));
        assert(e[pix(x, y, w)] == EdgeState::Weak);
    }
}

/// The pixels that hysteresis may mark: strong pixels, and weak interior
/// pixels.
pub open spec fn may_mark(e: Seq<EdgeState>, w: int, h: int) -> Set<int> {
    Set::new(
        |i: int|
            0 <= i < e.len() && (e[i] == EdgeState::Strong || (e[i] == EdgeState::Weak && interior(
                i % w,
                i / w,
                w,
                h,
            ))),
    )
}

/// The strong pixels and the weak interior pixels form a closed set.
proof fn lemma_may_mark_closed(e: Seq<EdgeState>, w: int, h: int)
    requires
        1 <= w,
        1 <= h,
        e.len() == w * h,
    ensures
        closed_under(e, w, h, may_mark(e, w, h)),
{
    let t = may_mark(e, w, h);
    assert forall|x: int, y: int, j: int|
        #![trigger e[pix(x, y, w)], t.contains(j)]
        interior(x, y, w, h) && e[pix(x, y, w)] == EdgeState::Weak && neighbours(pix(x, y, w), w, j)
            && t.contains(j) implies t.contains(pix(x, y, w)) by {
        lemma_pix_bounds(x, y, w, h);
        vstd::arithmetic::div_mod::lemma_fundamental_div_mod_converse(pix(x, y, w), w, y, x);
    }
}

/// Edge tracking by hysteresis: weak pixels 8-connected, through weak interior
/// pixels, to a strong pixel become strong; the result marks the strong pixels.
///
/// The marked set is the smallest set of pixels that holds every strong pixel
/// and every weak interior pixel with a marked neighbour.
pub fn hysteresis(edge: Vec<EdgeState>, width: u32, height: u32) -> (m: EdgeMap)
    requires
        1 <= width,
        1 <= height,
        edge@.len() == width * height,
        width * height <= u32::MAX,
    ensures
        m.width == width,
        m.height == height,
        m.wf(),
        forall|i: int|
            0 <= i < edge@.len() && edge@[i] == EdgeState::Strong ==> #[trigger] m.pixels@[i],
        forall|x: int, y: int, j: int|
            #![trigger m.pixels@[pix(x, y, width as int)], m.pixels@[j]]
            interior(x, y, width as int, height as int) && edge@[pix(x, y, width as int)]
                == EdgeState::Weak && neighbours(pix(x, y, width as int), width as int, j)
                && 0 <= j < edge@.len() && m.pixels@[j] ==> m.pixels@[pix(x, y, width as int)],
        forall|t: Set<int>| #[trigger]
            closed_under(edge@, width as int, height as int, t) ==> forall|i: int|
                0 <= i < edge@.len() && m.pixels@[i] ==> t.contains(i),
        forall|i: int|
            0 <= i < edge@.len() && #[trigger] m.pixels@[i] ==> edge@[i] == EdgeState::Strong || (
            edge@[i] == EdgeState::Weak && interior(
                i % width as int,
                i / width as int,
                width as int,
                height as int,
            )),
{
    let w = width as usize;
    let h = height as usize;
    let ghost e = edge@;
    let ghost n = e.len() as int;
    let mut st = edge;
    let mut changed = true;
    assert(n == w * h);
    proof {
        lemma_weak_count_bounds(e, n);
    }
    while changed
        invariant
            weak_count(st@, n) >= 0,
            e.len() == n,
            w == width,
            h == height,
            1 <= w,
            1 <= h,
            n == w * h,
            w * h <= u32::MAX,
            st@.len() == n,
            forall|i: int| 0 <= i < n && e[i] == EdgeState::Strong ==> st@[i] == EdgeState::Strong,
            forall|i: int| 0 <= i < n && st@[i] == EdgeState::Weak ==> e[i] == EdgeState::Weak,
            forall|i: int|
                0 <= i < n ==> (st@[i] == EdgeState::NoEdge <==> e[i] == EdgeState::NoEdge),
            forall|t: Set<int>| #[trigger]
                closed_under(e, w as int, h as int, t) ==> forall|i: int|
                    0 <= i < n && st@[i] == EdgeState::Strong ==> t.contains(i),
            !changed ==> forall|x: int, y: int|
                #![trigger st@[pix(x, y, w as int)]]
                interior(x, y, w as int, h as int) && st@[pix(x, y, w as int)] == EdgeState::Weak
                    ==> !has_strong_nb(st@, pix(x, y, w as int), w as int),
        decreases 2 * weak_count(st@, n) + if changed {
            1int
        } else {
            0
        },
    {
        changed = false;
        let ghost start = st@;
        let mut y: usize = 1;
        while y < h - 1
            invariant
                w == width,
                h == height,
                1 <= w,
                1 <= h,
                n == w * h,
                w * h <= u32::MAX,
                1 <= y,
                y <= h - 1 || h <= 2,
                e.len() == n,
                st@.len() == n,
                forall|i: int|
                    0 <= i < n && e[i] == EdgeState::Strong ==> st@[i] == EdgeState::Strong,
                forall|i: int| 0 <= i < n && st@[i] == EdgeState::Weak ==> e[i] == EdgeState::Weak,
                forall|i: int|
                    0 <= i < n ==> (st@[i] == EdgeState::NoEdge <==> e[i] == EdgeState::NoEdge),
                forall|t: Set<int>| #[trigger]
                    closed_under(e, w as int, h as int, t) ==> forall|i: int|
                        0 <= i < n && st@[i] == EdgeState::Strong ==> t.contains(i),
                changed ==> weak_count(st@, n) < weak_count(start, n),
                !changed ==> st@ == start,
                !changed ==> forall|x: int, yy: int|
                    #![trigger st@[pix(x, yy, w as int)]]
                    interior(x, yy, w as int, h as int) && yy < y && st@[pix(x, yy, w as int)]
                        == EdgeState::Weak ==> !has_strong_nb(st@, pix(x, yy, w as int), w as int),
            decreases h - y,
        {
            let mut x: usize = 1;
            while x < w - 1
                invariant
                    w == width,
                    h == height,
                    1 <= w,
                    n == w * h,
                    w * h <= u32::MAX,
                    1 <= y,
                    y + 1 < h,
                    1 <= x,
                    x <= w - 1 || w <= 2,
                    e.len() == n,
                    st@.len() == n,
                    forall|i: int|
                        0 <= i < n && e[i] == EdgeState::Strong ==> st@[i] == EdgeState::Strong,
                    forall|i: int|
                        0 <= i < n && st@[i] == EdgeState::Weak ==> e[i] == EdgeState::Weak,
                    forall|i: int|
                        0 <= i < n ==> (st@[i] == EdgeState::NoEdge <==> e[i] == EdgeState::NoEdge),
                    forall|t: Set<int>| #[trigger]
                        closed_under(e, w as int, h as int, t) ==> forall|i: int|
                            0 <= i < n && st@[i] == EdgeState::Strong ==> t.contains(i),
                    changed ==> weak_count(st@, n) < weak_count(start, n),
                    !changed ==> st@ == start,
                    !changed ==> forall|xx: int, yy: int|
                        #![trigger st@[pix(xx, yy, w as int)]]
                        interior(xx, yy, w as int, h as int) && (yy < y || (yy == y && xx < x))
                            && st@[pix(xx, yy, w as int)] == EdgeState::Weak ==> !has_strong_nb(
                            st@,
                            pix(xx, yy, w as int),
                            w as int,
                        ),
                decreases w - x,
            {
                proof {
                    lemma_pix_bounds(x as int, y as int, w as int, h as int);
                    lemma_pix_bounds(x as int, y + 1, w as int, h as int);
                    lemma_pix_bounds(x as int, y - 1, w as int, h as int);
                    lemma_pix_bounds(x + 1, y + 1, w as int, h as int);
                    assert(w < i32::MAX && h < i32::MAX) by (nonlinear_arith)
                        requires
                            3 <= w,
                            3 <= h,
                            w * h <= u32::MAX,
                    ;
                }
                let idx = y * w + x;
                if st[idx] == EdgeState::Weak && has_strong_neighbour(st.as_slice(), x, y, w) {
                    proof {
                        lemma_promote_sound(e, st@, w as int, h as int, x as int, y as int);
                        lemma_weak_count_promote(st@, idx as int, n);
                        lemma_weak_count_bounds(st@, n);
                    }
                    st.set(idx, EdgeState::Strong);
                    changed = true;
                }
                x = x + 1;
            }
            y = y + 1;
        }
        proof {
            lemma_weak_count_bounds(st@, n);
        }
    }
    // Collect the strong pixels.
    let mut pixels: Vec<bool> = Vec::new();
    let mut i: usize = 0;
    while i < st.len()
        invariant
            st@.len() == n,
            i <= n,
            pixels@.len() == i,
            forall|j: int| 0 <= j < i ==> pixels@[j] == (st@[j] == EdgeState::Strong),
        decreases n - i,
    {
        pixels.push(st[i] == EdgeState::Strong);
        i = i + 1;
    }
    let m = EdgeMap { width, height, pixels };
    proof {
        lemma_may_mark_closed(e, w as int, h as int);
        let t = may_mark(e, w as int, h as int);
        assert(closed_under(e, w as int, h as int, t));
        assert forall|i: int| 0 <= i < n && #[trigger] m.pixels@[i] implies t.contains(i) by {
            assert(st@[i] == EdgeState::Strong);
        }
        assert forall|x: int, y: int, j: int|
            #![trigger m.pixels@[pix(x, y, width as int)], m.pixels@[j]]
            interior(x, y, width as int, height as int) && e[pix(x, y, width as int)]
                == EdgeState::Weak && neighbours(pix(x, y, width as int), width as int, j) && 0 <= j
                < n && m.pixels@[j] implies m.pixels@[pix(x, y, width as int)] by {
            lemma_pix_bounds(x, y, w as int, h as int);
            let k = pix(x, y, w as int);
            if st@[k] != EdgeState::Strong {
                assert(st@[k] == EdgeState::Weak);
                assert(st@[j] == EdgeState::Strong);
                assert(!has_strong_nb(st@, k, w as int));
            }
        }
    }
    m
}

} // verus!
