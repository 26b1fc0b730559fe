//! The `VEC_` chunk: cubic B-Spline control points of the S1 Geometric
//! Skeleton, quantised to 16-bit fixed point and delta-coded.
//!
//! ```text
//! [spline_count: u32 LE]
//! For each spline:
//!   [degree: u8]            = 3 (cubic)
//!   [ctrl_count: u16 LE]    number of control points
//!   [dx: i16 LE][dy: i16 LE]  control points (delta-coded from previous)
//!   ...
//! ```
//!
//! Coordinates are in quarter pixels (1 unit = 1/4 pixel); the first point of
//! each spline is coded against `(0, 0)`, each later point against the point
//! before it, and each delta is clamped to the `i16` range.

use vstd::prelude::*;

use crate::bytes::{
    i16_le_bytes, le_i16, le_u16, le_u32, lemma_i16_roundtrip, lemma_u16_roundtrip,
    lemma_u32_roundtrip, push_i16_le, push_u16_le, push_u32_le, read_i16_le, read_u16_le,
    read_u32_le, u16_le_bytes, u32_le_bytes,
};

verus! {

/// A cubic B-Spline's control points, in quarter-pixel units.
#[derive(Debug, Clone)]
pub struct QuantSpline {
    pub control_points: Vec<(i32, i32)>,
}

impl View for QuantSpline {
    type V = Seq<(i32, i32)>;

    open spec fn view(&self) -> Seq<(i32, i32)> {
        self.control_points@
    }
}

// ── Writing ──────────────────────────────────────────────────────────────────

/// `d` clamped to the `i16` range.
pub open spec fn clamp_i16(d: int) -> i16 {
    if d < -32768 {
        -32768i16
    } else if d > 32767 {
        32767i16
    } else {
        d as i16
    }
}

/// The point that point `j` is delta-coded against.
pub open spec fn prev_point(pts: Seq<(i32, i32)>, j: int) -> (i32, i32) {
    if j == 0 {
        (0i32, 0i32)
    } else {
        pts[j - 1]
    }
}

/// The four bytes of point `j`: its clamped deltas from the point before.
pub open spec fn point_bytes(pts: Seq<(i32, i32)>, j: int) -> Seq<u8> {
    i16_le_bytes(clamp_i16(pts[j].0 - prev_point(pts, j).0)) + i16_le_bytes(
        clamp_i16(pts[j].1 - prev_point(pts, j).1),
    )
}

/// The bytes of the first `k` points.
#[verifier::opaque]
pub open spec fn points_bytes(pts: Seq<(i32, i32)>, k: int) -> Seq<u8>
    decreases k,
{
    if k <= 0 {
        Seq::empty()
    } else {
        points_bytes(pts, k - 1) + point_bytes(pts, k - 1)
    }
}

/// The bytes of one spline; its count field holds the number of points
/// truncated to 16 bits.
pub open spec fn spline_bytes(pts: Seq<(i32, i32)>) -> Seq<u8> {
    seq![3u8] + u16_le_bytes((pts.len() % 65536) as u16) + points_bytes(pts, pts.len() as int)
}

/// The bytes of a sequence of splines, one after another.
#[verifier::opaque]
pub open spec fn splines_body(ss: Seq<Seq<(i32, i32)>>) -> Seq<u8>
    decreases ss.len(),
{
    if ss.len() == 0 {
        Seq::empty()
    } else {
        spline_bytes(ss[0]) + splines_body(ss.drop_first())
    }
}

/// The `VEC_` chunk data for `ss`; its count field holds the number of
/// splines truncated to 32 bits.
pub open spec fn vec_chunk_bytes(ss: Seq<Seq<(i32, i32)>>) -> Seq<u8> {
    u32_le_bytes((ss.len() % 4294967296) as u32) + splines_body(ss)
}

/// Each point's coordinates differ from the point before (the first from
/// `(0, 0)`) by an amount that fits in an `i32`.
pub open spec fn deltas_fit_i32(pts: Seq<(i32, i32)>) -> bool {
    forall|j: int|
        0 <= j < pts.len() ==> i32::MIN <= #[trigger] pts[j].0 - prev_point(pts, j).0 <= i32::MAX
            && i32::MIN <= pts[j].1 - prev_point(pts, j).1 <= i32::MAX
}

/// The views of a slice of splines.
pub open spec fn splines_view(s: Seq<QuantSpline>) -> Seq<Seq<(i32, i32)>> {
    s.map_values(|q: QuantSpline| q@)
}

/// One more spline appends its bytes.
proof fn lemma_splines_body_push(ss: Seq<Seq<(i32, i32)>>, x: Seq<(i32, i32)>)
    ensures
        splines_body(ss.push(x)) == splines_body(ss) + spline_bytes(x),
    decreases ss.len(),
{
    reveal(splines_body);
    reveal(points_bytes);
    if ss.len() == 0 {
        assert(ss.push(x).drop_first() =~= Seq::<Seq<(i32, i32)>>::empty());
        assert(splines_body(ss.push(x).drop_first()) == Seq::<u8>::empty());
        assert(ss.push(x)[0] == x);
        assert(splines_body(ss.push(x)) =~= splines_body(ss) + spline_bytes(x));
    } else {
        lemma_splines_body_push(ss.drop_first(), x);
        assert(ss.push(x).drop_first() =~= ss.drop_first().push(x));
        assert(ss.push(x)[0] == ss[0]);
        let a = spline_bytes(ss[0]);
        let r = splines_body(ss.drop_first());
        assert(splines_body(ss.push(x)) == a + splines_body(ss.drop_first().push(x)));
        assert(splines_body(ss.push(x)) == a + (r + spline_bytes(x)));
        assert(splines_body(ss) == a + r);
        assert(a + (r + spline_bytes(x)) =~= (a + r) + spline_bytes(x));
    }
}

fn clamp_delta(d: i32) -> (r: i16)
    ensures
        r == clamp_i16(d as int),
{
    if d < -32768 {
        -32768
    } else if d > 32767 {
        32767
    } else {
        d as i16
    }
}

/// Appends the bytes of one spline.
fn push_spline(out: &mut Vec<u8>, pts: &Vec<(i32, i32)>)
    requires
        deltas_fit_i32(pts@),
    ensures
        final(out)@ == old(out)@ + spline_bytes(pts@),
{
    let ghost start = out@;
    out.push(3u8);
    push_u16_le(out, (pts.len() as u64 % 65536) as u16);
    let ghost hdr = out@;
    let mut prev_x: i32 = 0;
    let mut prev_y: i32 = 0;
    let mut j: usize = 0;
    reveal(points_bytes);
    assert(hdr =~= hdr + points_bytes(pts@, 0));
    while j < pts.len()
        invariant
            deltas_fit_i32(pts@),
            j <= pts@.len(),
            (prev_x, prev_y) == prev_point(pts@, j as int),
            out@ == hdr + points_bytes(pts@, j as int),
        decreases pts@.len() - j,
    {
        let (qx, qy) = pts[j];
        assert(i32::MIN <= pts@[j as int].0 - prev_point(pts@, j as int).0 <= i32::MAX);
        let dx = clamp_delta(qx - prev_x);
        let dy = clamp_delta(qy - prev_y);
        push_i16_le(out, dx);
        push_i16_le(out, dy);
        prev_x = qx;
        prev_y = qy;
        j = j + 1;
        reveal(points_bytes);
        assert(out@ =~= hdr + points_bytes(pts@, j as int));
    }
    assert(out@ =~= start + spline_bytes(pts@));
}

/// Serialise quantised splines into the `VEC_` chunk binary format.
pub fn serialise_splines(splines: &[QuantSpline]) -> (out: Vec<u8>)
    requires
        forall|i: int| 0 <= i < splines@.len() ==> deltas_fit_i32(#[trigger] splines@[i]@),
    ensures
        out@ == vec_chunk_bytes(splines_view(splines@)),
{
    let ghost ss = splines_view(splines@);
    let mut out: Vec<u8> = Vec::new();
    push_u32_le(&mut out, (splines.len() as u64 % 4294967296) as u32);
    let ghost hdr = out@;
    let mut i: usize = 0;
    assert(ss.take(0) =~= Seq::<Seq<(i32, i32)>>::empty());
    reveal(splines_body);
    assert(out@ =~= hdr + splines_body(ss.take(0)));
    while i < splines.len()
        invariant
            ss == splines_view(splines@),
            forall|i: int| 0 <= i < splines@.len() ==> deltas_fit_i32(#[trigger] splines@[i]@),
            i <= splines@.len(),
            out@ == hdr + splines_body(ss.take(i as int)),
        decreases splines@.len() - i,
    {
        assert(deltas_fit_i32(splines@[i as int]@));
        push_spline(&mut out, &splines[i].control_points);
        proof {
            lemma_splines_body_push(ss.take(i as int), ss[i as int]);
            assert(ss.take(i as int).push(ss[i as int]) =~= ss.take(i + 1));
        }
        i = i + 1;
    }
    assert(ss.take(i as int) =~= ss);
    out
}

// ── Reading ──────────────────────────────────────────────────────────────────

/// The sum of the first `k` deltas stored from `d[p]` on, each delta at
/// `d[p + 4 j + off]`.
pub open spec fn delta_sum(d: Seq<u8>, p: int, k: int, off: int) -> int
    decreases k,
{
    if k <= 0 {
        0
    } else {
        delta_sum(d, p, k - 1, off) + le_i16(d, p + 4 * (k - 1) + off)
    }
}

/// The `n` points decoded from the deltas stored from `d[p]` on: point `j` is
/// the sum of deltas `0..=j`.
pub open spec fn decoded_points(d: Seq<u8>, p: int, n: int) -> Seq<(i32, i32)> {
    Seq::new(n as nat, |j: int| (delta_sum(d, p, j + 1, 0) as i32, delta_sum(d, p, j + 1, 2) as i32))
}

/// The `count` splines stored from `d[pos]` on, or `None` where the bytes end
/// too early.
pub open spec fn parse_spline_list(d: Seq<u8>, pos: int, count: int) -> Option<
    Seq<Seq<(i32, i32)>>,
>
    decreases count,
{
    if count <= 0 {
        Some(Seq::empty())
    } else if pos < 0 || pos + 3 > d.len() {
        None
    } else {
        let n = le_u16(d, pos + 1);
        if pos + 3 + 4 * n > d.len() {
            None
        } else {
            match parse_spline_list(d, pos + 3 + 4 * n, count - 1) {
                Some(rest) => Some(seq![decoded_points(d, pos + 3, n)] + rest),
                None => None,
            }
        }
    }
}

/// The splines of `VEC_` chunk data, or `None` where the data is too short.
pub open spec fn parse_vec_chunk(d: Seq<u8>) -> Option<Seq<Seq<(i32, i32)>>> {
    if d.len() < 4 {
        None
    } else {
        parse_spline_list(d, 4, le_u32(d, 0))
    }
}

/// Each partial sum of `k` deltas lies within `k` times the `i16` range.
proof fn lemma_delta_sum_bounds(d: Seq<u8>, p: int, k: int, off: int)
    requires
        0 <= k,
    ensures
        -32768 * k <= delta_sum(d, p, k, off) <= 32767 * k,
    decreases k,
{
    if k > 0 {
        lemma_delta_sum_bounds(d, p, k - 1, off);
    }
}

/// `s` put in front of the splines of `r`.
pub open spec fn spline_prefixed(done: Seq<Seq<(i32, i32)>>, r: Option<Seq<Seq<(i32, i32)>>>) -> Option<
    Seq<Seq<(i32, i32)>>,
> {
    match r {
        Some(rest) => Some(done + rest),
        None => None,
    }
}

/// Decodes `n` points from the deltas stored from `data[p]` on.
fn decode_points(data: &[u8], p: usize, n: usize) -> (pts: Vec<(i32, i32)>)
    requires
        n <= 65535,
        p + 4 * n <= data.len(),
    ensures
        pts@ == decoded_points(data@, p as int, n as int),
{
    let mut pts: Vec<(i32, i32)> = Vec::new();
    let mut cur_x: i32 = 0;
    let mut cur_y: i32 = 0;
    let mut j: usize = 0;
    while j < n
        invariant
            n <= 65535,
            p + 4 * n <= data.len(),
            j <= n,
            cur_x == delta_sum(data@, p as int, j as int, 0),
            cur_y == delta_sum(data@, p as int, j as int, 2),
            pts@ =~= decoded_points(data@, p as int, j as int),
        decreases n - j,
    {
        proof {
            lemma_delta_sum_bounds(data@, p as int, j + 1, 0);
            lemma_delta_sum_bounds(data@, p as int, j + 1, 2);
            assert(-32768 * (j + 1) >= -32768 * 65535);
            assert(32767 * (j + 1) <= 32767 * 65535);
        }
        let dx = read_i16_le(data, p + 4 * j);
        let dy = read_i16_le(data, p + 4 * j + 2);
        cur_x = cur_x + dx as i32;
        cur_y = cur_y + dy as i32;
        pts.push((cur_x, cur_y));
        j = j + 1;
    }
    pts
}

/// Deserialise the `VEC_` chunk binary back into quantised splines (for
/// decoder use). Returns `None` where the data ends before the splines its
/// count field announces; bytes after them are ignored.
pub fn deserialise_splines(data: &[u8]) -> (r: Option<Vec<QuantSpline>>)
    ensures
        match r {
            Some(v) => parse_vec_chunk(data@) == Some(splines_view(v@)),
            None => parse_vec_chunk(data@) is None,
        },
{
    if data.len() < 4 {
        return None;
    }
    let count = read_u32_le(data, 0);
    let mut pos: usize = 4;
    let mut splines: Vec<QuantSpline> = Vec::new();
    let mut k: u32 = 0;
    while k < count
        invariant
            4 <= pos <= data@.len(),
            k <= count,
            count == le_u32(data@, 0),
            parse_vec_chunk(data@) == spline_prefixed(
                splines_view(splines@),
                parse_spline_list(data@, pos as int, count - k),
            ),
        decreases count - k,
    {
        if data.len() - pos < 3 {
            return None;
        }
        let n = read_u16_le(data, pos + 1) as usize;
        if data.len() - pos - 3 < n * 4 {
            return None;
        }
        let pts = decode_points(data, pos + 3, n);
        let ghost before = splines_view(splines@);
        let ghost rest = parse_spline_list(data@, pos + 3 + 4 * n, count - k - 1);
        splines.push(QuantSpline { control_points: pts });
        proof {
            assert(splines_view(splines@) =~= before.push(pts@));
            match rest {
                Some(r) => {
                    assert(before + (seq![pts@] + r) =~= before.push(pts@) + r);
                },
                None => {},
            }
        }
        pos = pos + 3 + 4 * n;
        k = k + 1;
    }
    assert(splines_view(splines@) + Seq::<Seq<(i32, i32)>>::empty() =~= splines_view(splines@));
    Some(splines)
}

// ── Reading back what was written ────────────────────────────────────────────

/// Each point's coordinates differ from the point before (the first from
/// `(0, 0)`) by an amount that fits in an `i16`, so that no delta is clamped.
pub open spec fn deltas_fit_i16(pts: Seq<(i32, i32)>) -> bool {
    forall|j: int|
        0 <= j < pts.len() ==> -32768 <= #[trigger] pts[j].0 - prev_point(pts, j).0 <= 32767
            && -32768 <= pts[j].1 - prev_point(pts, j).1 <= 32767
}

/// Splines that the `VEC_` format carries without loss: fewer than 2^32 of
/// them, each with fewer than 2^16 points and no clamped delta.
pub open spec fn splines_encodable(ss: Seq<Seq<(i32, i32)>>) -> bool {
    &&& ss.len() < 4294967296
    &&& forall|i: int|
        0 <= i < ss.len() ==> (#[trigger] ss[i]).len() < 65536 && deltas_fit_i16(ss[i])
}

/// Point `j`'s four bytes sit at `4 j .. 4 j + 4` of the points' bytes.
proof fn lemma_points_bytes_at(pts: Seq<(i32, i32)>, k: int, j: int)
    requires
        0 <= j < k,
    ensures
        points_bytes(pts, k).len() == 4 * k,
        points_bytes(pts, k).subrange(4 * j, 4 * j + 4) == point_bytes(pts, j),
    decreases k,
{
    reveal(splines_body);
    reveal(points_bytes);
    lemma_points_bytes_len(pts, k - 1);
    if j == k - 1 {
        assert(points_bytes(pts, k).subrange(4 * j, 4 * j + 4) =~= point_bytes(pts, j));
    } else {
        lemma_points_bytes_at(pts, k - 1, j);
        assert(points_bytes(pts, k).subrange(4 * j, 4 * j + 4) =~= points_bytes(pts, k - 1).subrange(
            4 * j,
            4 * j + 4,
        ));
    }
}

/// The points' bytes are four per point.
proof fn lemma_points_bytes_len(pts: Seq<(i32, i32)>, k: int)
    requires
        0 <= k,
    ensures
        points_bytes(pts, k).len() == 4 * k,
    decreases k,
{
    reveal(splines_body);
    reveal(points_bytes);
    if k > 0 {
        lemma_points_bytes_len(pts, k - 1);
    }
}

/// Coordinate `c` of a point: `x` for 0, `y` otherwise.
pub open spec fn coord(pt: (i32, i32), c: int) -> int {
    if c == 0 {
        pt.0 as int
    } else {
        pt.1 as int
    }
}

/// The sum of the first `k` clamped deltas of coordinate `c`.
pub open spec fn clamped_delta_sum(pts: Seq<(i32, i32)>, k: int, c: int) -> int
    decreases k,
{
    if k <= 0 {
        0
    } else {
        clamped_delta_sum(pts, k - 1, c) + clamp_i16(
            coord(pts[k - 1], c) - coord(prev_point(pts, k - 1), c),
        ) as int
    }
}

/// The points that the clamped deltas of `pts` add up to: `pts` itself where
/// no delta is clamped.
pub open spec fn clamped_points(pts: Seq<(i32, i32)>) -> Seq<(i32, i32)> {
    Seq::new(
        pts.len(),
        |j: int| (clamped_delta_sum(pts, j + 1, 0) as i32, clamped_delta_sum(pts, j + 1, 1) as i32),
    )
}

/// Where no delta is clamped, the deltas add up to the points.
proof fn lemma_clamped_sum_exact(pts: Seq<(i32, i32)>, j: int, c: int)
    requires
        0 <= j < pts.len(),
        deltas_fit_i16(pts),
    ensures
        clamped_delta_sum(pts, j + 1, c) == coord(pts[j], c),
    decreases j,
{
    if j > 0 {
        lemma_clamped_sum_exact(pts, j - 1, c);
    }
    let d = coord(pts[j], c) - coord(prev_point(pts, j), c);
    assert(-32768 <= pts[j].0 - prev_point(pts, j).0 <= 32767);
    assert(-32768 <= d <= 32767);
    assert(clamp_i16(d) as int == d);
    assert(clamped_delta_sum(pts, j + 1, c) == clamped_delta_sum(pts, j, c) + clamp_i16(d) as int);
}

/// Where no delta is clamped, the clamped points are the points.
proof fn lemma_clamped_points_exact(pts: Seq<(i32, i32)>)
    requires
        deltas_fit_i16(pts),
    ensures
        clamped_points(pts) == pts,
{
    assert forall|j: int| 0 <= j < pts.len() implies #[trigger] clamped_points(pts)[j] == pts[j] by {
        lemma_clamped_sum_exact(pts, j, 0);
        lemma_clamped_sum_exact(pts, j, 1);
    }
    assert(clamped_points(pts) =~= pts);
}

/// Decoding the bytes of points gives the points that their clamped deltas
/// add up to.
proof fn lemma_decode_points(b: Seq<u8>, p: int, pts: Seq<(i32, i32)>)
    requires
        0 <= p,
        p + 4 * pts.len() <= b.len(),
        b.subrange(p, p + 4 * pts.len()) == points_bytes(pts, pts.len() as int),
    ensures
        decoded_points(b, p, pts.len() as int) == clamped_points(pts),
{
    let n = pts.len() as int;
    assert forall|j: int| 0 <= j < n implies #[trigger] decoded_points(b, p, n)[j]
        == clamped_points(pts)[j] by {
        lemma_delta_sums(b, p, pts, j);
    }
    assert(decoded_points(b, p, n) =~= clamped_points(pts));
}

/// The two deltas of point `j`, read back from the points' bytes.
proof fn lemma_point_fields(b: Seq<u8>, p: int, pts: Seq<(i32, i32)>, j: int)
    requires
        0 <= p,
        0 <= j < pts.len(),
        p + 4 * pts.len() <= b.len(),
        b.subrange(p, p + 4 * pts.len()) == points_bytes(pts, pts.len() as int),
    ensures
        le_i16(b, p + 4 * j) == clamp_i16(pts[j].0 - prev_point(pts, j).0),
        le_i16(b, p + 4 * j + 2) == clamp_i16(pts[j].1 - prev_point(pts, j).1),
{
    let n = pts.len() as int;
    lemma_points_bytes_at(pts, n, j);
    let pb = point_bytes(pts, j);
    let all = b.subrange(p, p + 4 * n);
    let dx = clamp_i16(pts[j].0 - prev_point(pts, j).0);
    let dy = clamp_i16(pts[j].1 - prev_point(pts, j).1);
    assert(b.subrange(p + 4 * j, p + 4 * j + 2) =~= all.subrange(4 * j, 4 * j + 2));
    assert(all.subrange(4 * j, 4 * j + 2) =~= pb.subrange(0, 2));
    assert(pb.subrange(0, 2) =~= i16_le_bytes(dx));
    lemma_i16_roundtrip(dx, b, p + 4 * j);
    assert(b.subrange(p + 4 * j + 2, p + 4 * j + 4) =~= all.subrange(4 * j + 2, 4 * j + 4));
    assert(all.subrange(4 * j + 2, 4 * j + 4) =~= pb.subrange(2, 4));
    assert(pb.subrange(2, 4) =~= i16_le_bytes(dy));
    lemma_i16_roundtrip(dy, b, p + 4 * j + 2);
}

/// The running sums of the stored deltas are the sums of the clamped deltas.
proof fn lemma_delta_sums(b: Seq<u8>, p: int, pts: Seq<(i32, i32)>, j: int)
    requires
        0 <= p,
        0 <= j < pts.len(),
        p + 4 * pts.len() <= b.len(),
        b.subrange(p, p + 4 * pts.len()) == points_bytes(pts, pts.len() as int),
    ensures
        delta_sum(b, p, j + 1, 0) == clamped_delta_sum(pts, j + 1, 0),
        delta_sum(b, p, j + 1, 2) == clamped_delta_sum(pts, j + 1, 1),
    decreases j,
{
    if j > 0 {
        lemma_delta_sums(b, p, pts, j - 1);
    }
    lemma_point_fields(b, p, pts, j);
    assert(delta_sum(b, p, j + 1, 0) == delta_sum(b, p, j, 0) + le_i16(b, p + 4 * j + 0));
    assert(delta_sum(b, p, j + 1, 2) == delta_sum(b, p, j, 2) + le_i16(b, p + 4 * j + 2));
    assert(clamped_delta_sum(pts, j + 1, 0) == clamped_delta_sum(pts, j, 0) + clamp_i16(
        pts[j].0 - prev_point(pts, j).0,
    ) as int);
    assert(clamped_delta_sum(pts, j + 1, 1) == clamped_delta_sum(pts, j, 1) + clamp_i16(
        pts[j].1 - prev_point(pts, j).1,
    ) as int);
}

/// Reading the bytes of one spline at `p`.
proof fn lemma_spline_at(b: Seq<u8>, p: int, pts: Seq<(i32, i32)>)
    requires
        0 <= p,
        p + 3 + 4 * pts.len() <= b.len(),
        b.subrange(p, p + 3 + 4 * pts.len()) == spline_bytes(pts),
        pts.len() < 65536,
    ensures
        le_u16(b, p + 1) == pts.len(),
        decoded_points(b, p + 3, pts.len() as int) == clamped_points(pts),
{
    let n = pts.len() as int;
    let sb = spline_bytes(pts);
    lemma_points_bytes_len(pts, n);
    assert(b.subrange(p + 1, p + 3) =~= sb.subrange(1, 3));
    assert(sb.subrange(1, 3) =~= u16_le_bytes((n % 65536) as u16));
    lemma_u16_roundtrip((n % 65536) as u16, b, p + 1);
    assert(b.subrange(p + 3, p + 3 + 4 * n) =~= sb.subrange(3, 3 + 4 * n));
    assert(sb.subrange(3, 3 + 4 * n) =~= points_bytes(pts, n));
    lemma_decode_points(b, p + 3, pts);
}

/// The splines that reading back the bytes of `ss` gives: each spline's
/// clamped points.
pub open spec fn read_back(ss: Seq<Seq<(i32, i32)>>) -> Seq<Seq<(i32, i32)>> {
    ss.map_values(|pts: Seq<(i32, i32)>| clamped_points(pts))
}

/// Reading the bytes of the splines `ss`, placed after any bytes `x`, gives
/// their clamped points.
proof fn lemma_parse_splines_body(x: Seq<u8>, ss: Seq<Seq<(i32, i32)>>)
    requires
        forall|i: int| 0 <= i < ss.len() ==> (#[trigger] ss[i]).len() < 65536,
    ensures
        parse_spline_list(x + splines_body(ss), x.len() as int, ss.len() as int) == Some(
            read_back(ss),
        ),
    decreases ss.len(),
{
    reveal(splines_body);
    reveal(points_bytes);
    if ss.len() == 0 {
        assert(read_back(ss) =~= Seq::<Seq<(i32, i32)>>::empty());
    } else {
        let pts = ss[0];
        let rest = ss.drop_first();
        let n = pts.len() as int;
        let p = x.len() as int;
        let b = x + splines_body(ss);
        let x2 = x + spline_bytes(pts);
        lemma_points_bytes_len(pts, n);
        assert(b =~= x2 + splines_body(rest));
        assert(b.subrange(p, p + 3 + 4 * n) =~= spline_bytes(pts));
        assert(pts.len() < 65536);
        lemma_spline_at(b, p, pts);
        assert forall|i: int| 0 <= i < rest.len() implies (#[trigger] rest[i]).len() < 65536 by {
            assert(rest[i] == ss[i + 1]);
        }
        lemma_parse_splines_body(x2, rest);
        assert(x2.len() == p + 3 + 4 * n);
        assert(seq![clamped_points(pts)] + read_back(rest) =~= read_back(ss));
    }
}

/// Deserialising what serialising writes gives, for each spline, the points
/// that its clamped deltas add up to, for every list of fewer than 2^32
/// splines of fewer than 2^16 points each.
pub proof fn lemma_deserialise_serialised(ss: Seq<Seq<(i32, i32)>>)
    requires
        ss.len() < 4294967296,
        forall|i: int| 0 <= i < ss.len() ==> (#[trigger] ss[i]).len() < 65536,
    ensures
        parse_vec_chunk(vec_chunk_bytes(ss)) == Some(read_back(ss)),
{
    let hdr = u32_le_bytes((ss.len() % 4294967296) as u32);
    let b = vec_chunk_bytes(ss);
    assert(b.subrange(0, 4) =~= hdr);
    lemma_u32_roundtrip((ss.len() % 4294967296) as u32, b, 0);
    lemma_parse_splines_body(hdr, ss);
}

/// Deserialising what serialising writes gives back the splines, for every
/// list of splines that the format carries without loss (`splines_encodable`).
pub proof fn lemma_deserialise_after_serialise(ss: Seq<Seq<(i32, i32)>>)
    requires
        splines_encodable(ss),
    ensures
        parse_vec_chunk(vec_chunk_bytes(ss)) == Some(ss),
{
    lemma_deserialise_serialised(ss);
    assert forall|i: int| 0 <= i < ss.len() implies #[trigger] read_back(ss)[i] == ss[i] by {
        lemma_clamped_points_exact(ss[i]);
    }
    assert(read_back(ss) =~= ss);
}

} // verus!
