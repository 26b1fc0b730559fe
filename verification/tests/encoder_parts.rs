use libafix::bspline::{deserialise_splines, serialise_splines, QuantSpline};
use libafix::canny::{has_strong_neighbour, hysteresis, EdgeMap, EdgeState};
use EdgeState::{NoEdge, Strong, Weak};
use libafix::dct::{decode_dct, extract_block, DctLatent};
use libafix::encoder::{
    assemble_file, encode_residual, grid_cells, region_names, EncodeOptions, EncodedStreams,
};
use libafix::saliency::{downsample2, upsample2};
use libafix::{AfixFile, ChunkId, Profile};

fn quantise(points: &[(f32, f32)]) -> QuantSpline {
    QuantSpline {
        control_points: points
            .iter()
            .map(|&(x, y)| ((x * 4.0).round() as i32, (y * 4.0).round() as i32))
            .collect(),
    }
}

#[test]
fn serialise_deserialise_roundtrip() {
    let spline = quantise(&[(10.0, 20.0), (30.0, 40.0), (50.0, 60.0), (70.0, 80.0)]);
    let data = serialise_splines(&[spline.clone()]);
    let recovered = deserialise_splines(&data).expect("deserialise failed");
    assert_eq!(recovered.len(), 1);
    let eps = 0.5;
    for (a, b) in [(10.0f32, 20.0f32), (30.0, 40.0), (50.0, 60.0), (70.0, 80.0)]
        .iter()
        .zip(recovered[0].control_points.iter())
    {
        let (bx, by) = (b.0 as f32 / 4.0, b.1 as f32 / 4.0);
        assert!((a.0 - bx).abs() < eps, "x mismatch: {} vs {}", a.0, bx);
        assert!((a.1 - by).abs() < eps, "y mismatch: {} vs {}", a.1, by);
    }
}

#[test]
fn vec_chunk_layout() {
    let s = QuantSpline { control_points: vec![(4, -8), (6, -8)] };
    let data = serialise_splines(&[s]);
    assert_eq!(
        data,
        vec![1, 0, 0, 0, 3, 2, 0, 4, 0, 0xF8, 0xFF, 2, 0, 0, 0]
    );
    let back = deserialise_splines(&data).unwrap();
    assert_eq!(back[0].control_points, vec![(4, -8), (6, -8)]);
}

#[test]
fn large_deltas_are_clamped() {
    let s = QuantSpline { control_points: vec![(100_000, 0), (0, -100_000)] };
    let back = deserialise_splines(&serialise_splines(&[s])).unwrap();
    assert_eq!(back[0].control_points, vec![(32767, 0), (-1, -32768)]);
}

#[test]
fn short_vec_data_is_refused() {
    assert!(deserialise_splines(&[1, 0, 0]).is_none());
    // One spline announced, none present.
    assert!(deserialise_splines(&[1, 0, 0, 0]).is_none());
    // A spline announcing two points but holding one.
    assert!(deserialise_splines(&[1, 0, 0, 0, 3, 2, 0, 1, 0, 1, 0]).is_none());
    // No splines; trailing bytes ignored.
    assert_eq!(deserialise_splines(&[0, 0, 0, 0, 9, 9]).unwrap().len(), 0);
}

#[test]
fn many_splines_roundtrip() {
    let splines: Vec<QuantSpline> = (0..20)
        .map(|i| QuantSpline {
            control_points: (0..i).map(|k| (k * 37 - 400, 1000 - k * i)).collect(),
        })
        .collect();
    let back = deserialise_splines(&serialise_splines(&splines)).unwrap();
    assert_eq!(back.len(), 20);
    for (a, b) in back.iter().zip(splines.iter()) {
        assert_eq!(a.control_points, b.control_points);
    }
}

#[test]
fn dct_latent_roundtrip() {
    let l = DctLatent {
        tiles_w: 2,
        tiles_h: 1,
        quality: 90,
        sal_scale_bits: vec![1.5f32.to_bits(), 3.0f32.to_bits()],
        coeffs: (0..384).map(|k| (k as i16) * 7 - 1000).collect(),
    };
    let data = l.to_bytes();
    assert_eq!(data[0], 0x02, "LAT_ sub-format byte must be 0x02 (DCT)");
    assert_eq!(data.len(), 14 + 8 + 768);
    assert_eq!(&data[9..13], &3u32.to_le_bytes());
    let back = decode_dct(&data).unwrap();
    assert_eq!(back.tiles_w, 2);
    assert_eq!(back.tiles_h, 1);
    assert_eq!(back.quality, 90);
    assert_eq!(f32::from_bits(back.sal_scale_bits[1]), 3.0);
    assert_eq!(back.coeffs, l.coeffs);
}

#[test]
fn dct_decode_refuses_other_or_short_data() {
    assert!(decode_dct(&[0x02; 13]).is_none());
    let mut d = vec![0x01u8; 14];
    assert!(decode_dct(&d).is_none());
    d[0] = 0x02;
    d[1..5].copy_from_slice(&1u32.to_le_bytes());
    d[5..9].copy_from_slice(&1u32.to_le_bytes());
    assert!(decode_dct(&d).is_none());
    d.extend_from_slice(&[0; 4]);
    assert!(decode_dct(&d).is_none());
    d.extend_from_slice(&[0; 384]);
    let l = decode_dct(&d).unwrap();
    assert_eq!(l.coeffs.len(), 192);
    // Zero tiles: just the header.
    let mut z = vec![0u8; 14];
    z[0] = 0x02;
    assert_eq!(decode_dct(&z).unwrap().coeffs.len(), 0);
}

#[test]
fn edge_map_get_is_false_outside() {
    let m = EdgeMap { width: 2, height: 2, pixels: vec![true, false, false, true] };
    assert!(m.get(0, 0));
    assert!(!m.get(1, 0));
    assert!(m.get(1, 1));
    assert!(!m.get(2, 0));
    assert!(!m.get(0, 5));
}

#[test]
fn hysteresis_promotes_connected_weak_pixels_only() {
    let w = 6u32;
    let h = 5u32;
    let states = vec![
        NoEdge, NoEdge, NoEdge, NoEdge, NoEdge, NoEdge,
        NoEdge, Strong, Weak,   NoEdge, NoEdge, NoEdge,
        NoEdge, NoEdge, NoEdge, Weak,   NoEdge, NoEdge,
        NoEdge, NoEdge, NoEdge, NoEdge, NoEdge, Weak,
        NoEdge, Weak,   NoEdge, NoEdge, NoEdge, NoEdge,
    ];
    let m = hysteresis(states, w, h);
    let on: Vec<usize> = m.pixels.iter().enumerate().filter(|(_, &b)| b).map(|(i, _)| i).collect();
    // (1,1) strong; (2,1) and (3,2) connected weak; (5,3) and (1,4) are on the border.
    assert_eq!(on, vec![7, 8, 15]);
    assert_eq!(m.width, w);
    assert_eq!(m.height, h);
}

#[test]
fn hysteresis_follows_long_chains_in_any_direction() {
    let w = 7usize;
    let h = 7usize;
    let mut s = vec![NoEdge; w * h];
    // A weak chain walking right to left, up and back down, ending at a strong pixel.
    for x in 1..6 {
        s[1 * w + x] = Weak;
    }
    for y in 2..6 {
        s[y * w + 1] = Weak;
    }
    s[5 * w + 5] = Strong;
    for x in 2..5 {
        s[5 * w + x] = Weak;
    }
    let m = hysteresis(s.clone(), w as u32, h as u32);
    for i in 0..w * h {
        assert_eq!(m.pixels[i], s[i] != NoEdge, "pixel {i}");
    }
    assert!(has_strong_neighbour(&[Strong, NoEdge, NoEdge, NoEdge, NoEdge, NoEdge, NoEdge, NoEdge, NoEdge], 1, 1, 3));
    assert!(!has_strong_neighbour(&[Weak; 9], 1, 1, 3));
}

#[test]
fn downsample_averages_blocks() {
    let src: Vec<u8> = vec![
        10, 20, 30, 40, 50,
        60, 70, 80, 90, 100,
        1, 2, 3, 4, 5,
    ];
    let d = downsample2(&src, 5, 3);
    // 2×1 output: blocks at x = 0 and x = 2, rows 0..2.
    assert_eq!(d, vec![(10 + 20 + 60 + 70) / 4, (30 + 40 + 80 + 90) / 4]);
    assert_eq!(downsample2(&[7], 1, 1), vec![7]);
    assert_eq!(downsample2(&[7, 9], 2, 1), vec![8]);
}

#[test]
fn upsample_repeats_nearest_source() {
    let src = [1.0f32, 2.0, 3.0, 4.0];
    let d = upsample2(&src, 2, 2, 4, 3);
    assert_eq!(
        d,
        vec![1.0, 1.0, 2.0, 2.0, 1.0, 1.0, 2.0, 2.0, 3.0, 3.0, 4.0, 4.0]
    );
}

#[test]
fn residual_is_original_minus_reconstruction() {
    let orig: Vec<u8> = (0..2 * 2 * 3).map(|v| v as u8 * 10).collect();
    let rec: Vec<u8> = vec![5; 3];
    let out = encode_residual(&orig, 2, 2, &rec, 1, 1);
    assert_eq!(&out[0..4], b"RES2");
    assert_eq!(&out[4..8], &2u32.to_le_bytes());
    assert_eq!(&out[8..12], &2u32.to_le_bytes());
    let samples: Vec<i16> =
        out[12..].chunks(2).map(|c| i16::from_le_bytes([c[0], c[1]])).collect();
    assert_eq!(samples, vec![-5, 5, 15, 0, 0, 0, 0, 0, 0, 0, 0, 0]);
}

#[test]
fn encode_options_default() {
    let o = EncodeOptions::default();
    assert_eq!(o.profile, Profile::WebLossy);
    assert_eq!(o.quality, 85);
    assert!(o.semantic && o.preview);
    assert_eq!(o.preview_quality, 60);
}

fn streams(o: &EncodeOptions) -> EncodedStreams {
    EncodedStreams {
        meta: b"{}".to_vec(),
        preview: if o.preview { Some(vec![0xFF, 0xD8, 0xFF]) } else { None },
        s1: vec![0, 0, 0, 0],
        s2: vec![2],
        s3: if o.profile.requires_residual() { Some(b"RES2".to_vec()) } else { None },
        objm: if o.semantic { Some(b"{}".to_vec()) } else { None },
    }
}

fn ids(f: &AfixFile) -> Vec<ChunkId> {
    f.chunks.iter().map(|c| c.id).collect()
}

#[test]
fn all_mandatory_chunks_present() {
    let o = EncodeOptions::default();
    let f = assemble_file(64f64.to_bits(), 64f64.to_bits(), &o, streams(&o));
    assert!(f.get_chunk(ChunkId::Meta).is_some());
    assert!(f.get_chunk(ChunkId::Vec).is_some());
    assert!(f.get_chunk(ChunkId::Lat).is_some());
    assert!(f.get_chunk(ChunkId::Res).is_none(), "no RES in lossy");
    assert!(f.get_chunk(ChunkId::ObjManifest).is_some());
    assert_eq!(
        ids(&f),
        vec![ChunkId::Meta, ChunkId::Preview, ChunkId::Vec, ChunkId::Lat, ChunkId::ObjManifest]
    );
}

#[test]
fn lossless_profile_has_residual() {
    let o = EncodeOptions { profile: Profile::WebLossless, quality: 90, semantic: false, ..Default::default() };
    let f = assemble_file(32f64.to_bits(), 32f64.to_bits(), &o, streams(&o));
    assert!(f.get_chunk(ChunkId::Res).is_some());
    assert_eq!(ids(&f), vec![ChunkId::Meta, ChunkId::Preview, ChunkId::Vec, ChunkId::Lat, ChunkId::Res]);
}

#[test]
fn prev_chunk_absent_when_disabled() {
    let o = EncodeOptions { preview: false, ..Default::default() };
    let f = assemble_file(32f64.to_bits(), 32f64.to_bits(), &o, streams(&o));
    assert!(f.get_chunk(ChunkId::Preview).is_none());
    assert_eq!(f64::from_bits(f.header.dimensions.width_bits), 32.0);
}

#[test]
fn region_grid_is_three_by_three() {
    let cells = grid_cells(64, 64);
    assert_eq!(cells.len(), 9);
    assert_eq!(cells[0], (0, 0, 21, 21));
    assert_eq!(cells[1], (21, 0, 21, 21));
    assert_eq!(cells[2], (42, 0, 21, 21));
    assert_eq!(cells[3], (0, 21, 21, 21));
    assert_eq!(cells[8], (42, 42, 21, 21));
    // Cells of tiny images are at least one pixel.
    let tiny = grid_cells(2, 7);
    assert_eq!(tiny[4], (1, 2, 1, 2));
    assert_eq!(tiny[8], (2, 4, 1, 2));
}

#[test]
fn region_names_number_subjects_in_order() {
    let subject = [false, true, false, true, true, false, false, false, false];
    let names = region_names(&subject);
    assert_eq!(names.len(), 9);
    let ids: Vec<&str> = names.iter().map(|n| n.id.as_str()).collect();
    assert_eq!(
        ids,
        vec![
            "region_0_0", "subject_1", "region_2_0", "subject_2", "subject_3", "region_2_1", "region_0_2",
            "region_1_2", "region_2_2"
        ]
    );
    assert_eq!(names[1].label, "subject");
    assert_eq!(names[1].category, "subject");
    assert_eq!(names[0].label, "background");
    assert_eq!(names[0].category, "background");
}

#[test]
fn large_deltas_are_clamped_on_the_way() {
    let s = QuantSpline { control_points: vec![(100000, -5), (100001, 40000)] };
    let data = serialise_splines(&[s]);
    let back = deserialise_splines(&data).expect("what was written parses");
    assert_eq!(back.len(), 1);
    assert_eq!(back[0].control_points, vec![(32767, -5), (32768, 32762)]);
}

#[test]
fn tiles_repeat_the_last_row_and_column() {
    // A 3 × 2 channel.
    let channel: Vec<u8> = vec![1, 2, 3, 4, 5, 6];
    let tile = extract_block(&channel, 3, 2, 0, 0);
    assert_eq!(tile.len(), 64);
    assert_eq!(&tile[0..8], &[1, 2, 3, 3, 3, 3, 3, 3]);
    for row in 1..8 {
        assert_eq!(&tile[row * 8..row * 8 + 8], &[4, 5, 6, 6, 6, 6, 6, 6]);
    }
    // A tile that starts inside a larger channel.
    let wide: Vec<u32> = (0..20 * 10).collect();
    let t = extract_block(&wide, 20, 10, 16, 8);
    assert_eq!(t[0], 8 * 20 + 16);
    assert_eq!(t[3], 8 * 20 + 19);
    assert_eq!(t[7], 8 * 20 + 19);
    assert_eq!(t[8], 9 * 20 + 16);
    assert_eq!(t[63], 9 * 20 + 19);
}

#[test]
fn prev_chunk_present_by_default() {
    let o = EncodeOptions::default();
    let f = assemble_file(32f64.to_bits(), 32f64.to_bits(), &o, streams(&o));
    assert!(f.get_chunk(ChunkId::Preview).is_some());
    // The preview comes right after META.
    assert_eq!(f.chunks[1].id, ChunkId::Preview);
}

#[test]
fn dimensions_preserved() {
    let o = EncodeOptions::default();
    let f = assemble_file(48f64.to_bits(), 36f64.to_bits(), &o, streams(&o));
    assert_eq!(f64::from_bits(f.header.dimensions.width_bits), 48.0);
    assert_eq!(f64::from_bits(f.header.dimensions.height_bits), 36.0);
}

#[test]
fn lat_chunk_has_dct_sub_format() {
    let latent = DctLatent { tiles_w: 4, tiles_h: 4, quality: 85, sal_scale_bits: vec![0; 16], coeffs: vec![0; 16 * 192] };
    let lat = latent.to_bytes();
    assert_eq!(lat[0], 0x02, "LAT_ sub-format byte must be 0x02 (DCT)");
}

#[test]
fn reconstruction_plus_residual_restores_the_source() {
    // A 3 × 2 original and a 2 × 1 reconstruction.
    let orig: Vec<u8> = (0..18).map(|i| (i * 14) as u8).collect();
    let rec: Vec<u8> = vec![255, 0, 7, 100, 3, 250];
    let out = encode_residual(&orig, 3, 2, &rec, 2, 1);
    assert_eq!(out.len(), 12 + 6 * 3 * 2);
    for py in 0..2usize {
        for px in 0..3usize {
            for ch in 0..3usize {
                let k = (py * 3 + px) * 3 + ch;
                let r = i16::from_le_bytes([out[12 + 2 * k], out[13 + 2 * k]]);
                if px < 2 && py < 1 {
                    assert_eq!(rec[(py * 2 + px) * 3 + ch] as i16 + r, orig[k] as i16);
                } else {
                    assert_eq!(r, 0);
                }
            }
        }
    }
}

#[test]
fn upsampling_to_nothing_needs_no_source() {
    let none: Vec<u8> = Vec::new();
    assert!(upsample2(&none, 0, 0, 0, 5).is_empty());
    assert!(upsample2(&none, 0, 3, 4, 0).is_empty());
}
