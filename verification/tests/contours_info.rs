use libafix::canny::EdgeMap;
use libafix::contour::trace_contours;
use libafix::info::{is_jpeg, spline_count, summarize_lat, summarize_meta, LatSummary};

fn map(w: u32, h: u32, on: &[(u32, u32)]) -> EdgeMap {
    let mut pixels = vec![false; (w * h) as usize];
    for &(x, y) in on {
        pixels[(y * w + x) as usize] = true;
    }
    EdgeMap { width: w, height: h, pixels }
}

#[test]
fn traces_a_line_in_order() {
    let m = map(6, 3, &[(1, 1), (2, 1), (3, 1), (4, 1)]);
    let cs = trace_contours(&m, 1);
    assert_eq!(cs, vec![vec![(1, 1), (2, 1), (3, 1), (4, 1)]]);
}

#[test]
fn walks_prefer_east_then_clockwise() {
    // From (1,0): East is (2,0); from (2,0): East off, SE (3,1); then S (3,2).
    let m = map(5, 4, &[(1, 0), (2, 0), (3, 1), (3, 2), (0, 3)]);
    let cs = trace_contours(&m, 1);
    assert_eq!(cs, vec![vec![(1, 0), (2, 0), (3, 1), (3, 2)], vec![(0, 3)]]);
}

#[test]
fn short_contours_are_dropped_but_visited() {
    let m = map(5, 4, &[(1, 0), (2, 0), (3, 1), (3, 2), (0, 3)]);
    let cs = trace_contours(&m, 2);
    assert_eq!(cs, vec![vec![(1, 0), (2, 0), (3, 1), (3, 2)]]);
    assert!(trace_contours(&m, 5).is_empty());
}

#[test]
fn a_branch_starts_a_second_contour() {
    // A "T": the walk goes East along the bar; the stem is traced later.
    let m = map(5, 4, &[(0, 0), (1, 0), (2, 0), (1, 1), (1, 2)]);
    let cs = trace_contours(&m, 1);
    assert_eq!(cs, vec![vec![(0, 0), (1, 0), (2, 0), (1, 1), (1, 2)]]);
    let m = map(5, 4, &[(0, 0), (1, 0), (2, 0), (3, 0), (1, 2), (1, 3)]);
    let cs = trace_contours(&m, 1);
    assert_eq!(cs, vec![vec![(0, 0), (1, 0), (2, 0), (3, 0)], vec![(1, 2), (1, 3)]]);
}

#[test]
fn empty_map_has_no_contours() {
    assert!(trace_contours(&map(4, 4, &[]), 1).is_empty());
    assert!(trace_contours(&EdgeMap { width: 0, height: 0, pixels: vec![] }, 1).is_empty());
}

#[test]
fn lat_summaries_by_sub_format() {
    let mut d = vec![0u8; 14];
    d[0] = 0x02;
    d[1..5].copy_from_slice(&4u32.to_le_bytes());
    d[5..9].copy_from_slice(&3u32.to_le_bytes());
    d[13] = 77;
    assert_eq!(summarize_lat(&d), Some(LatSummary::Dct { tiles_w: 4, tiles_h: 3, quality: 77 }));
    d[0] = 0x01;
    d[9..13].copy_from_slice(&4u32.to_le_bytes());
    assert_eq!(
        summarize_lat(&d),
        Some(LatSummary::Vae { width: 4, height: 3, channels: 4 })
    );
    let mut r = vec![0u8; 14];
    r[0..4].copy_from_slice(&128u32.to_le_bytes());
    r[4..8].copy_from_slice(&64u32.to_le_bytes());
    r[8..12].copy_from_slice(&4u32.to_le_bytes());
    assert_eq!(
        summarize_lat(&r),
        Some(LatSummary::Raw { width: 128, height: 64, channels: 4 })
    );
    assert_eq!(summarize_lat(&r[..13]), None);
}

#[test]
fn vec_counts_and_jpeg_magic() {
    assert_eq!(spline_count(&[5, 0, 0, 0, 9]), Some(5));
    assert_eq!(spline_count(&[5, 0, 0]), None);
    assert!(is_jpeg(&[0xFF, 0xD8, 0xFF, 0xE0]));
    assert!(!is_jpeg(&[0xFF, 0xD8]));
    assert!(!is_jpeg(&[0x89, 0x50, 0x4E, 0x47]));
}

#[test]
fn meta_summary_reads_creator_and_profile() {
    let data = br#"{"version":"1.0","creator":"afix-encoder/1.0.0 (Yaka-Core)","profile":"web-lossy","quality":85}"#;
    let m = summarize_meta(data);
    assert_eq!(m.creator.as_deref(), Some("afix-encoder/1.0.0 (Yaka-Core)"));
    assert_eq!(m.profile.as_deref(), Some("web-lossy"));
}

#[test]
fn meta_summary_skips_what_is_not_text() {
    let m = summarize_meta(br#"{"creator":5}"#);
    assert_eq!(m.creator, None);
    assert_eq!(m.profile, None);
    let m = summarize_meta(b"not json");
    assert_eq!(m.creator, None);
    assert_eq!(m.profile, None);
    let m = summarize_meta(br#"["creator","profile"]"#);
    assert_eq!(m.creator, None);
}
