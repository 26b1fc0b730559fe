use libafix::{
    crc32_of, AfixError, AfixFile, Chunk, ChunkId, Profile, Version, MAGIC, PAYLOAD_OFFSET,
};

fn make_simple_file() -> AfixFile {
    let mut f = AfixFile::new(1920.0f64.to_bits(), 1080.0f64.to_bits(), Profile::WebLossy);
    f.add_chunk(Chunk {
        id: ChunkId::Meta,
        flags: 0,
        data: br#"{"version":"1.0","creator":"test"}"#.to_vec(),
    });
    f.add_chunk(Chunk { id: ChunkId::Vec, flags: 0, data: vec![0xDE, 0xAD, 0xBE, 0xEF] });
    f
}

fn written(f: &AfixFile) -> Vec<u8> {
    let mut buf = Vec::new();
    f.write(&mut buf);
    buf
}

#[test]
fn roundtrip_write_read() {
    let original = make_simple_file();
    let buf = written(&original);
    let parsed = AfixFile::read(&buf).expect("read failed");

    assert_eq!(f64::from_bits(parsed.header.dimensions.width_bits), 1920.0);
    assert_eq!(f64::from_bits(parsed.header.dimensions.height_bits), 1080.0);
    assert_eq!(parsed.chunks.len(), 2);
    assert_eq!(parsed.chunks[0].id, ChunkId::Meta);
    assert_eq!(parsed.chunks[1].id, ChunkId::Vec);
}

#[test]
fn bad_magic_is_rejected() {
    let buf = b"NOPE\x00".to_vec();
    assert!(matches!(AfixFile::read(&buf), Err(AfixError::InvalidMagic(_))));
}

#[test]
fn crc_mismatch_is_rejected() {
    let f = make_simple_file();
    let mut raw = written(&f);
    // PAYLOAD starts at 0xB1. First chunk: 4(id)+4(len)+2(flags)+2(res) = 12 bytes before data.
    let flip_pos = (PAYLOAD_OFFSET + 12) as usize;
    raw[flip_pos] ^= 0xFF;
    assert!(matches!(AfixFile::read(&raw), Err(AfixError::CrcMismatch { .. })));
}

#[test]
fn magic_bytes_are_correct() {
    assert_eq!(&MAGIC, b"AFIXK");
}

#[test]
fn payload_offset_is_correct() {
    assert_eq!(PAYLOAD_OFFSET, 0xB1);
}

// ── Further cases ────────────────────────────────────────────────────────────

#[test]
fn written_layout_matches_the_format() {
    let f = make_simple_file();
    let buf = written(&f);
    let meta_len = 34usize;
    assert_eq!(buf.len(), 0xB1 + (16 + meta_len) + (16 + 4));
    assert_eq!(&buf[0..5], b"AFIXK");
    assert_eq!(&buf[5..9], &[1, 0, 4, 0]);
    assert_eq!(&buf[9..17], &1920.0f64.to_le_bytes());
    assert_eq!(&buf[17..25], &1080.0f64.to_le_bytes());
    assert_eq!(&buf[25..33], &[0u8; 8]);
    // ATOM_MAP entry 0: META at the PAYLOAD start.
    assert_eq!(&buf[33..37], b"META");
    assert_eq!(u64::from_le_bytes(buf[37..45].try_into().unwrap()), 0xB1);
    assert_eq!(u64::from_le_bytes(buf[45..53].try_into().unwrap()), meta_len as u64);
    assert_eq!(
        u32::from_le_bytes(buf[53..57].try_into().unwrap()),
        crc32_of(&f.chunks[0].data)
    );
    // ATOM_MAP entry 1: VEC_ right after META's bytes.
    let vec_off = 0xB1 + 16 + meta_len;
    assert_eq!(&buf[57..61], b"VEC_");
    assert_eq!(u64::from_le_bytes(buf[61..69].try_into().unwrap()), vec_off as u64);
    assert_eq!(&buf[vec_off..vec_off + 4], b"VEC_");
    assert_eq!(&buf[vec_off + 12..vec_off + 16], &[0xDE, 0xAD, 0xBE, 0xEF]);
    // The unused entries are zero.
    assert!(buf[81..177].iter().all(|&b| b == 0));
}

#[test]
fn read_after_write_keeps_every_field() {
    let mut f = AfixFile::new(0.5f64.to_bits(), f64::NAN.to_bits(), Profile::Full);
    f.header.version = Version { major: 2, minor: 7, patch: 1, flag: 9 };
    for (i, id) in [
        ChunkId::Meta,
        ChunkId::Preview,
        ChunkId::Lat,
        ChunkId::Res,
        ChunkId::Depth,
        ChunkId::Sig,
        ChunkId::ObjManifest,
        ChunkId::Unknown(*b"ZZZZ"),
    ]
    .into_iter()
    .enumerate()
    {
        f.add_chunk(Chunk { id, flags: i as u16 * 3, data: vec![i as u8; i * 5] });
    }
    let buf = written(&f);
    let g = AfixFile::read(&buf).expect("read failed");
    assert_eq!(g.header, f.header);
    assert_eq!(g.chunks.len(), f.chunks.len());
    for (a, b) in g.chunks.iter().zip(f.chunks.iter()) {
        assert_eq!(a.id, b.id);
        assert_eq!(a.flags, b.flags);
        assert_eq!(a.data, b.data);
    }
}

#[test]
fn truncated_input_is_an_unexpected_eof() {
    let buf = written(&make_simple_file());
    assert!(matches!(AfixFile::read(&buf[..3]), Err(AfixError::UnexpectedEof)));
    assert!(matches!(AfixFile::read(&buf[..100]), Err(AfixError::UnexpectedEof)));
    // Cut inside the first chunk's header.
    assert!(matches!(AfixFile::read(&buf[..0xB1 + 6]), Err(AfixError::UnexpectedEof)));
    // Cut inside the first chunk's data.
    assert!(matches!(AfixFile::read(&buf[..0xB1 + 20]), Err(AfixError::UnexpectedEof)));
}

#[test]
fn up_to_three_trailing_bytes_end_the_payload() {
    let mut buf = written(&make_simple_file());
    buf.extend_from_slice(&[1, 2, 3]);
    let g = AfixFile::read(&buf).expect("read failed");
    assert_eq!(g.chunks.len(), 2);
    // An empty PAYLOAD is fine too.
    let empty = written(&AfixFile::new(0, 0, Profile::WebLossy));
    assert_eq!(empty.len(), 0xB1);
    assert_eq!(AfixFile::read(&empty).unwrap().chunks.len(), 0);
}

#[test]
fn oversized_chunk_is_rejected() {
    let mut buf = written(&AfixFile::new(0, 0, Profile::WebLossy));
    buf.extend_from_slice(b"LAT_");
    buf.extend_from_slice(&(512u32 * 1024 * 1024 + 1).to_le_bytes());
    buf.extend_from_slice(&[0, 0, 0, 0]);
    assert!(matches!(
        AfixFile::read(&buf),
        Err(AfixError::ChunkTooLarge(n)) if n == 512 * 1024 * 1024 + 1
    ));
}

#[test]
fn crc_mismatch_reports_both_values() {
    let f = make_simple_file();
    let mut raw = written(&f);
    let pos = 0xB1 + 16 + 34 + 12;
    raw[pos] ^= 0x01;
    match AfixFile::read(&raw) {
        Err(AfixError::CrcMismatch { id, stored, computed }) => {
            assert_eq!(&id, b"VEC_");
            assert_eq!(stored, crc32_of(&[0xDE, 0xAD, 0xBE, 0xEF]));
            assert_eq!(computed, crc32_of(&[0xDF, 0xAD, 0xBE, 0xEF]));
        }
        other => panic!("unexpected result {other:?}"),
    }
}

#[test]
fn crc32_matches_the_standard_check_value() {
    assert_eq!(crc32_of(b"123456789"), 0xCBF4_3926);
    assert_eq!(crc32_of(b""), 0);
}

#[test]
fn get_chunk_finds_the_first_match() {
    let mut f = make_simple_file();
    f.add_chunk(Chunk { id: ChunkId::Meta, flags: 1, data: vec![9] });
    assert_eq!(f.get_chunk(ChunkId::Meta).unwrap().flags, 0);
    assert_eq!(f.get_chunk(ChunkId::Vec).unwrap().data, vec![0xDE, 0xAD, 0xBE, 0xEF]);
    assert!(f.get_chunk(ChunkId::Res).is_none());
    assert!(f.get_chunk(ChunkId::Unknown(*b"ABCD")).is_none());
}

#[test]
fn encoded_size_matches_written_length() {
    let f = make_simple_file();
    assert_eq!(f.encoded_size(), Some(written(&f).len() as u64));
}

fn set_u64(buf: &mut [u8], pos: usize, v: u64) {
    buf[pos..pos + 8].copy_from_slice(&v.to_le_bytes());
}

#[test]
fn atom_map_pointing_outside_the_payload_is_rejected() {
    let buf = written(&make_simple_file());
    // Entry 0's offset field sits at 0x21 + 4.
    let mut past_end = buf.clone();
    set_u64(&mut past_end, 0x25, buf.len() as u64);
    assert!(matches!(AfixFile::read(&past_end), Err(AfixError::InvalidAtomMap)));
    let mut before_payload = buf.clone();
    set_u64(&mut before_payload, 0x25, 0x20);
    assert!(matches!(AfixFile::read(&before_payload), Err(AfixError::InvalidAtomMap)));
    // A length that runs past the end of the file.
    let mut too_long = buf.clone();
    set_u64(&mut too_long, 0x25 + 8, buf.len() as u64);
    assert!(matches!(AfixFile::read(&too_long), Err(AfixError::InvalidAtomMap)));
}

#[test]
fn overlapping_atom_map_entries_are_rejected() {
    let buf = written(&make_simple_file());
    // Entry 1 pointed at entry 0's chunk.
    let mut overlap = buf.clone();
    set_u64(&mut overlap, 0x21 + 24 + 4, 0xB1);
    assert!(matches!(AfixFile::read(&overlap), Err(AfixError::InvalidAtomMap)));
}

#[test]
fn unused_atom_map_entries_are_ignored() {
    let mut buf = written(&make_simple_file());
    // Entry 5 is unused (offset 0); its other fields do not matter.
    set_u64(&mut buf, 0x21 + 5 * 24 + 12, u64::MAX);
    assert_eq!(AfixFile::read(&buf).expect("read failed").chunks.len(), 2);
}

#[test]
fn new_then_adds_keeps_order_and_finds_first() {
    let mut f = AfixFile::new(3f64.to_bits(), 4f64.to_bits(), Profile::Full);
    let adds = [(ChunkId::Vec, 1u8), (ChunkId::Meta, 2), (ChunkId::Vec, 3), (ChunkId::Lat, 4)];
    for &(id, b) in &adds {
        f.add_chunk(Chunk { id, flags: 0, data: vec![b] });
    }
    assert_eq!(f.header.version, Version::current());
    assert_eq!(f.chunks.len(), 4);
    for (c, &(id, b)) in f.chunks.iter().zip(adds.iter()) {
        assert_eq!(c.id, id);
        assert_eq!(c.data, vec![b]);
    }
    assert_eq!(f.get_chunk(ChunkId::Vec).unwrap().data, vec![1]);
    assert_eq!(f.get_chunk(ChunkId::Lat).unwrap().data, vec![4]);
    assert!(f.get_chunk(ChunkId::Res).is_none());
}
