use libafix::{Chunk, ChunkId, Profile, Version};
use Profile::{Full, Spatial, Trusted, WebLossless, WebLossy};

#[test]
fn chunk_ids_roundtrip_through_bytes() {
    for (id, bytes) in [
        (ChunkId::Meta, *b"META"),
        (ChunkId::Vec, *b"VEC_"),
        (ChunkId::Lat, *b"LAT_"),
        (ChunkId::Res, *b"RES_"),
        (ChunkId::Depth, *b"DPTH"),
        (ChunkId::Sig, *b"SIGB"),
        (ChunkId::ObjManifest, *b"OBJM"),
        (ChunkId::Preview, *b"PREV"),
    ] {
        assert_eq!(id.to_bytes(), bytes);
        assert_eq!(ChunkId::from_bytes(bytes), id);
        assert_eq!(id.name().as_bytes(), &bytes);
    }
    assert_eq!(ChunkId::from_bytes(*b"XYZW"), ChunkId::Unknown(*b"XYZW"));
    assert_eq!(ChunkId::Unknown(*b"XYZW").to_bytes(), *b"XYZW");
    assert_eq!(ChunkId::Unknown(*b"XYZW").name(), "????");
    // An unknown identifier spelling a registered one reads back as that one.
    assert_eq!(ChunkId::from_bytes(ChunkId::Unknown(*b"META").to_bytes()), ChunkId::Meta);
}

#[test]
fn same_as_compares_identifiers() {
    assert!(ChunkId::Meta.same_as(&ChunkId::Meta));
    assert!(!ChunkId::Meta.same_as(&ChunkId::Vec));
    assert!(ChunkId::Unknown(*b"abcd").same_as(&ChunkId::Unknown(*b"abcd")));
    assert!(!ChunkId::Unknown(*b"abcd").same_as(&ChunkId::Unknown(*b"abce")));
}

#[test]
fn encryption_flag_is_bit_zero() {
    let c = |flags| Chunk { id: ChunkId::Lat, flags, data: vec![] };
    assert!(!c(0).is_encrypted());
    assert!(c(1).is_encrypted());
    assert!(!c(2).is_encrypted());
    assert!(c(0xFFFF).is_encrypted());
}

#[test]
fn current_version_is_1_0_4() {
    assert_eq!(Version::current(), Version { major: 1, minor: 0, patch: 4, flag: 0 });
}

#[test]
fn profile_requirements() {
    let all = [WebLossy, WebLossless, Spatial, Trusted, Full];
    let residual: Vec<bool> = all.iter().map(|p| p.requires_residual()).collect();
    let depth: Vec<bool> = all.iter().map(|p| p.requires_depth()).collect();
    let sig: Vec<bool> = all.iter().map(|p| p.requires_signature()).collect();
    assert_eq!(residual, vec![false, true, false, false, true]);
    assert_eq!(depth, vec![false, false, true, false, true]);
    assert_eq!(sig, vec![false, false, false, true, true]);
    assert_eq!(Profile::default(), WebLossy);
}

#[test]
fn profile_names_parse_back() {
    for p in [WebLossy, WebLossless, Spatial, Trusted, Full] {
        assert_eq!(Profile::parse(p.name()), Ok(p));
        assert_eq!(p.name().parse::<Profile>(), Ok(p));
    }
    assert_eq!(WebLossless.name(), "web-lossless");
    assert_eq!(Profile::parse("lossy"), Err("unknown profile 'lossy'".to_string()));
    assert_eq!(Profile::parse(""), Err("unknown profile ''".to_string()));
}

#[test]
fn version_text() {
    assert_eq!(Version::current().to_text(), "1.0.4");
    assert_eq!(Version { major: 12, minor: 0, patch: 255, flag: 7 }.to_text(), "12.0.255");
}
