use libafix::studio::{
    chunk_id_rgb, format_bytes, quality_label, quality_rgb, ConvertState, ProfileChoice,
};
use libafix::{ChunkId, Profile};

#[test]
fn format_bytes_under_1k() {
    assert_eq!(format_bytes(0), "0 B");
    assert_eq!(format_bytes(512), "512 B");
    assert_eq!(format_bytes(1023), "1023 B");
}

#[test]
fn format_bytes_kilobytes() {
    assert_eq!(format_bytes(1024), "1.0 KB");
    assert_eq!(format_bytes(2048), "2.0 KB");
}

#[test]
fn format_bytes_megabytes() {
    assert_eq!(format_bytes(1024 * 1024), "1.0 MB");
}

#[test]
fn profile_choice_roundtrip() {
    for &choice in &[
        ProfileChoice::WebLossy,
        ProfileChoice::WebLossless,
        ProfileChoice::Spatial,
        ProfileChoice::Trusted,
        ProfileChoice::Full,
    ] {
        // Ensure label is non-empty and profile conversion does not panic.
        assert!(!choice.label().is_empty());
        let _ = choice.to_profile();
    }
}

#[test]
fn convert_state_default_quality_is_85() {
    let state = ConvertState::new();
    assert_eq!(state.quality, 85);
}

#[test]
fn quality_label_ranges() {
    assert_eq!(quality_label(0), "Low");
    assert_eq!(quality_label(30), "Low");
    assert_eq!(quality_label(31), "Medium");
    assert_eq!(quality_label(60), "Medium");
    assert_eq!(quality_label(61), "High");
    assert_eq!(quality_label(85), "High");
    assert_eq!(quality_label(86), "Maximum");
    assert_eq!(quality_label(100), "Maximum");
}

// ── Further cases ────────────────────────────────────────────────────────────

fn float_formatted(n: u64) -> String {
    if n < 1024 {
        format!("{n} B")
    } else if n < 1024 * 1024 {
        format!("{:.1} KB", n as f64 / 1024.0)
    } else {
        format!("{:.1} MB", n as f64 / (1024.0 * 1024.0))
    }
}

#[test]
fn format_bytes_agrees_with_float_formatting() {
    let mut samples: Vec<u64> = vec![
        1280, 1536, 1075, 1126, 1177, 1228, 1331, 1382, 1433, 1484, 1535, 1048575, 1048576,
        1101004, 1153433, 1205862, 1310720, 1572864, 123456789, 987654321012,
        (1u64 << 53) - 1, 1u64 << 53, (1u64 << 53) + 1, (1u64 << 54) + 3, u64::MAX - 1,
        u64::MAX, 1u64 << 63, (1u64 << 63) + 1024, 0x1234_5678_9ABC_DEF0,
    ];
    let mut x: u64 = 0x9E37_79B9_7F4A_7C15;
    for _ in 0..2000 {
        x ^= x << 13;
        x ^= x >> 7;
        x ^= x << 17;
        samples.push(x >> (x % 64));
        samples.push(1024 + x % (1024 * 1024 * 4));
    }
    for n in samples {
        assert_eq!(format_bytes(n), float_formatted(n), "n = {n}");
    }
}

#[test]
fn profile_choices_select_their_profiles() {
    assert_eq!(ProfileChoice::WebLossless.to_profile(), Profile::WebLossless);
    assert_eq!(ProfileChoice::Trusted.label(), "trusted");
    assert_eq!(ProfileChoice::default(), ProfileChoice::WebLossy);
    for c in [
        ProfileChoice::WebLossy,
        ProfileChoice::WebLossless,
        ProfileChoice::Spatial,
        ProfileChoice::Trusted,
        ProfileChoice::Full,
    ] {
        assert_eq!(c.label(), c.to_profile().name());
    }
}

#[test]
fn convert_state_starts_empty() {
    let s = ConvertState::new();
    assert!(s.input_files.is_empty());
    assert!(s.output_dir.is_none());
    assert!(s.results.is_empty());
    assert!(!s.busy && !s.no_preview);
    assert_eq!(s.profile, ProfileChoice::WebLossy);
}

#[test]
fn chunk_id_color_returns_distinct_colors() {
    // Different well-known chunks get distinct colours.
    let meta_c = chunk_id_rgb(ChunkId::Meta);
    let lat_c = chunk_id_rgb(ChunkId::Lat);
    let vec_c = chunk_id_rgb(ChunkId::Vec);
    assert_ne!(meta_c, lat_c);
    assert_ne!(meta_c, vec_c);
    assert_ne!(lat_c, vec_c);
}

#[test]
fn chunk_badge_colours() {
    assert_eq!(chunk_id_rgb(ChunkId::Meta), (200, 180, 100));
    assert_eq!(chunk_id_rgb(ChunkId::Preview), (220, 160, 80));
    assert_eq!(chunk_id_rgb(ChunkId::ObjManifest), (200, 100, 140));
    assert_eq!(chunk_id_rgb(ChunkId::Depth), (160, 160, 180));
    assert_eq!(chunk_id_rgb(ChunkId::Unknown(*b"ABCD")), (160, 160, 180));
}

#[test]
fn quality_colour_ranges() {
    assert_eq!(quality_rgb(0), (220, 100, 80));
    assert_eq!(quality_rgb(30), (220, 100, 80));
    assert_eq!(quality_rgb(31), (220, 180, 60));
    assert_eq!(quality_rgb(60), (220, 180, 60));
    assert_eq!(quality_rgb(61), (100, 200, 120));
    assert_eq!(quality_rgb(85), (100, 200, 120));
    assert_eq!(quality_rgb(86), (80, 160, 255));
    assert_eq!(quality_rgb(255), (80, 160, 255));
}

#[test]
fn add_files_skips_files_already_listed_or_picked() {
    let mut state = ConvertState::new();
    let key = |s: &str| s.as_bytes().to_vec();
    state.add_files(&[], vec!["a.png".into(), "b.png".into()], &[key("a"), key("b")]);
    assert_eq!(state.input_files.len(), 2);
    let listed: Vec<Vec<u8>> = vec![key("a"), key("b")];
    state.add_files(
        &listed,
        vec!["b2.png".into(), "c.png".into(), "c2.png".into(), "d.png".into()],
        &[key("b"), key("c"), key("c"), key("d")],
    );
    let names: Vec<String> = state.input_files.iter().map(|p| p.display().to_string()).collect();
    assert_eq!(names, vec!["a.png", "b.png", "c.png", "d.png"]);
    assert_eq!(state.quality, 85);
}
