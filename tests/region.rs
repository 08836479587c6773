use mca_parser::bigendian::BigEndian;
use mca_parser::region::Region;
use mca_parser::{Chunk, CompressionType, Error};

const EXPECTED_TIMESTAMPS: [((u32, u32), u32); 6] = [
    ((0, 0), 1709838433),
    ((1, 2), 1709837896),
    ((2, 5), 1709837897),
    ((8, 10), 1709837898),
    ((25, 29), 1697927255),
    ((31, 31), 1689320056),
];

/// A zlib stream of the four bytes `[0, 0, 0, 0]`.
const ZLIB_ZEROS: [u8; 12] = [120, 218, 99, 96, 96, 96, 0, 0, 0, 4, 0, 1];

/// A region with one zlib chunk at (0, 0) and the timestamps above.
fn sample_region_bytes() -> Vec<u8> {
    let mut bytes = vec![0u8; 8192];
    bytes[0..4].copy_from_slice(&[0, 0, 2, 1]);
    for ((x, z), ts) in EXPECTED_TIMESTAMPS {
        let i = (z * 32 + x) as usize;
        bytes[4096 + 4 * i..4096 + 4 * i + 4].copy_from_slice(&ts.to_be_bytes());
    }
    bytes.extend((ZLIB_ZEROS.len() as u32 + 1).to_be_bytes());
    bytes.push(2);
    bytes.extend(ZLIB_ZEROS);
    bytes.resize(8192 + 4096, 0);
    bytes
}

/// A header whose first entry points at sector 2, followed by `tail`.
fn forged(tail: &[u8]) -> Vec<u8> {
    let mut bytes: Vec<u8> = Vec::new();
    bytes.extend([0, 0, 2, 2]);
    bytes.extend([0; 1023 * 4]);
    bytes.extend([0; 1024 * 4]);
    bytes.extend(tail);
    bytes
}

#[test]
fn test() {
    let be = BigEndian::from([0, 0, 0, 1]);
    assert_eq!(be.as_u32(), 1);
    assert_eq!(u32::from(be), 1);

    let be = BigEndian::from([0, 0, 1]);
    assert_eq!(be.as_u32(), 1);
    assert_eq!(u32::from(be), 1);
}

#[test]
fn big_endian_round_trip() {
    let be = BigEndian::<4>::from(0x0102_0304u32);
    assert_eq!(be.into_bytes(), [1, 2, 3, 4]);
    assert_eq!(u32::from(be), 0x0102_0304);
    assert_eq!(BigEndian::from([0x12, 0x34, 0x56]).as_u32(), 0x12_3456);
}

#[test]
fn test_get_timestamp() {
    let bytes = sample_region_bytes();
    let region = Region::from_slice(&bytes).unwrap();
    for ((x, z), expected) in EXPECTED_TIMESTAMPS.iter() {
        let ts = region.get_timestamp(*x, *z);
        assert_eq!(ts, *expected, "Checking timestamp at {:?}", (x, z));
    }
}

#[test]
fn test_has_chunk() {
    let bytes = sample_region_bytes();
    let region = Region::from_slice(&bytes).unwrap();
    assert!(region.has_chunk(0, 0));
    assert!(!region.has_chunk(1, 0));
}

#[test]
fn test_validate() {
    let bytes = sample_region_bytes();
    let region = Region::from_slice(&bytes).unwrap();
    assert!(region.validate().is_ok());
}

#[test]
fn sample_chunk_decompresses() {
    let bytes = sample_region_bytes();
    let region = Region::from_vec(bytes).unwrap();
    let chunk = region.get_chunk(0, 0).unwrap().unwrap();
    assert_eq!(chunk.compression_type, CompressionType::Zlib);
    assert_eq!(chunk.len(), ZLIB_ZEROS.len());
    assert_eq!(chunk.data(), &ZLIB_ZEROS[..]);
    assert_eq!(chunk.decompress().unwrap(), vec![0, 0, 0, 0]);
    assert_eq!(region.read_chunk(0, 0).unwrap(), Some(vec![0, 0, 0, 0]));
    assert_eq!(region.read_chunk(5, 5).unwrap(), None);
}

#[test]
fn test_boxed() {
    let bytes = sample_region_bytes();
    let region = Region::from_slice(&bytes).unwrap();
    let chunk = region.get_chunk(0, 0).unwrap().unwrap();
    let box_chunk = chunk.boxed();
    assert!(*box_chunk == chunk);
    assert_eq!(box_chunk.compression_type, chunk.compression_type);
    assert_eq!(box_chunk.data(), chunk.data());
    assert_eq!(box_chunk.decompress().unwrap(), chunk.decompress().unwrap());
}

#[test]
fn missing_header() {
    assert!(matches!(Region::from_slice(&[0u8; 16]), Err(Error::MissingHeader)));
    assert!(matches!(Region::from_vec(vec![0u8; 8191]), Err(Error::MissingHeader)));
}

#[test]
fn test_no_chunks() {
    let bytes = sample_region_bytes();
    let reg = Region::from_slice(&bytes[..8192]).unwrap();
    assert!(matches!(reg.get_chunk(0, 0), Err(Error::UnexpectedEof)));
}

#[test]
fn test_not_enough_chunk_data() {
    let bytes = sample_region_bytes();
    let reg = Region::from_slice(&bytes[..8192]).unwrap();
    assert!(matches!(reg.get_chunk(0, 0), Err(Error::UnexpectedEof)));
}

#[test]
fn header_only_empty_slots_are_none() {
    let bytes = sample_region_bytes();
    let reg = Region::from_slice(&bytes[..8192]).unwrap();
    assert!(matches!(reg.get_chunk(1, 0), Ok(None)));
    assert!(matches!(reg.get_chunk(31, 31), Ok(None)));
}

#[test]
fn test_missing_chunk() {
    let chunk_data = [0u8, 0, 0, 0];
    let mut tail: Vec<u8> = Vec::new();
    tail.extend(BigEndian::from(chunk_data.len() as u32 + 10 + 10).into_bytes());
    tail.push(2);
    tail.extend(chunk_data);
    let bytes = forged(&tail);
    let reg = Region::from_slice(&bytes).unwrap();
    assert!(matches!(reg.get_chunk(0, 0), Err(Error::UnexpectedEof)));
}

#[test]
fn offset_past_end_is_eof() {
    let mut bytes = forged(&[0, 0, 0, 5, 2, 1, 2, 3, 4]);
    bytes[0..4].copy_from_slice(&[0x7f, 0xff, 0xff, 1]);
    let reg = Region::from_slice(&bytes).unwrap();
    assert!(matches!(reg.get_chunk(0, 0), Err(Error::UnexpectedEof)));
}

#[test]
fn offset_into_header_is_eof() {
    let mut bytes = forged(&[0, 0, 0, 5, 2, 1, 2, 3, 4]);
    bytes[0..4].copy_from_slice(&[0, 0, 1, 1]);
    let reg = Region::from_slice(&bytes).unwrap();
    assert!(matches!(reg.get_chunk(0, 0), Err(Error::UnexpectedEof)));
}

#[test]
fn zero_length_is_eof() {
    let bytes = forged(&[0, 0, 0, 0, 2]);
    let reg = Region::from_slice(&bytes).unwrap();
    assert!(matches!(reg.get_chunk(0, 0), Err(Error::UnexpectedEof)));
}

#[test]
fn prefix_cut_short_is_eof() {
    let bytes = forged(&[0, 0]);
    let reg = Region::from_slice(&bytes).unwrap();
    assert!(matches!(reg.get_chunk(0, 0), Err(Error::UnexpectedEof)));
}

#[test]
fn unknown_tag_is_unsupported() {
    let bytes = forged(&[0, 0, 0, 2, 9, 7]);
    let reg = Region::from_slice(&bytes).unwrap();
    assert!(matches!(reg.get_chunk(0, 0), Err(Error::UnsupportedCompression(9))));
}

#[test]
fn gzip_chunk_is_unsupported() {
    let bytes = forged(&[0, 0, 0, 2, 1, 7]);
    let reg = Region::from_slice(&bytes).unwrap();
    let chunk = reg.get_chunk(0, 0).unwrap().unwrap();
    assert_eq!(chunk.compression_type, CompressionType::GZip);
    assert_eq!(chunk.data(), &[7u8][..]);
    assert!(matches!(chunk.decompress(), Err(Error::UnsupportedCompression(1))));
    assert!(matches!(reg.validate(), Err(Error::UnsupportedCompression(1))));
}

#[test]
fn test_invalid_chunks_compress() {
    let chunk_data = [0u8, 0, 0, 0];
    let mut tail: Vec<u8> = Vec::new();
    tail.extend(BigEndian::from(chunk_data.len() as u32 + 1).into_bytes());
    tail.push(2);
    tail.extend(chunk_data);
    let bytes = forged(&tail);
    let reg = Region::from_slice(&bytes).unwrap();
    let chunk = reg.get_chunk(0, 0).unwrap().unwrap();
    assert!(matches!(chunk.decompress().unwrap_err(), Error::DecompressError(_)));
    assert!(matches!(reg.validate(), Err(Error::DecompressError(_))));
}

#[test]
fn test_invalid_chunks_invalid_nbt() {
    let chunk_data = ZLIB_ZEROS;
    let mut tail: Vec<u8> = Vec::new();
    tail.extend(BigEndian::from(chunk_data.len() as u32 + 1).into_bytes());
    tail.push(2);
    tail.extend(chunk_data);
    let bytes = forged(&tail);
    let reg = Region::from_slice(&bytes).unwrap();
    let chunk = reg.get_chunk(0, 0).unwrap().unwrap();
    let decompressed = chunk.decompress().unwrap();
    let decoded = fastnbt::from_bytes::<fastnbt::Value>(&decompressed).map_err(Error::NbtError);
    assert!(matches!(decoded.unwrap_err(), Error::NbtError(_)));
}

#[test]
fn test_missing_chunks() {
    let mut bytes: Vec<u8> = Vec::new();
    bytes.extend([0; 1024 * 4]);
    bytes.extend([0; 1024 * 4]);
    let reg = Region::from_slice(&bytes).unwrap();
    assert!(matches!(reg.get_chunk(0, 0), Ok(None)));
    assert!(!reg.has_chunk(0, 0));
    assert!(reg.validate().is_ok());
}

#[test]
fn chunk_from_block_coordinates() {
    let bytes = sample_region_bytes();
    let region = Region::from_slice(&bytes).unwrap();
    assert!(matches!(region.get_chunk_from_block(15, 15), Ok(Some(_))));
    assert!(matches!(region.get_chunk_from_block(16, 0), Ok(None)));
    assert_eq!(Region::chunk_index(3, 2), 67);
}

#[test]
fn borrowed_chunk_handle() {
    let data = [1u8, 2, 3];
    let chunk = Chunk::new(CompressionType::Uncompressed, &data);
    assert_eq!(chunk.len(), 3);
    assert!(matches!(chunk.decompress(), Err(Error::UnsupportedCompression(3))));
    assert!(chunk == Chunk::new(CompressionType::Uncompressed, &[1, 2, 3]));
    assert!(chunk != Chunk::new(CompressionType::Uncompressed, &[1, 2]));
    assert!(chunk != Chunk::new(CompressionType::Zlib, &[1, 2, 3]));
    assert_eq!(CompressionType::from_tag(127), Some(CompressionType::Custom));
    assert_eq!(CompressionType::from_tag(5), None);
    assert_eq!(CompressionType::LZ4.tag(), 4);
}

#[test]
fn region_over_array() {
    let arr = [0u8; 8192];
    let region = Region::from_array(&arr);
    assert_eq!(region.len(), 8192);
    assert!(!region.has_chunk(31, 0));
    assert!(matches!(region.get_chunk(31, 0), Ok(None)));
}

#[test]
fn decompressed_chunk_round_trips() {
    let mut root = std::collections::HashMap::new();
    root.insert("DataVersion".to_string(), fastnbt::Value::Int(3700));
    let raw = fastnbt::to_bytes(&fastnbt::Value::Compound(root)).unwrap();
    let compressed = miniz_oxide::deflate::compress_to_vec_zlib(&raw, 6);

    let mut bytes = vec![0u8; 8192];
    bytes[0..4].copy_from_slice(&[0, 0, 2, 1]);
    bytes.extend((compressed.len() as u32 + 1).to_be_bytes());
    bytes.push(2);
    bytes.extend(&compressed);
    let region = Region::from_vec(bytes).unwrap();

    let chunk = region.get_chunk(0, 0).unwrap().unwrap();
    assert_eq!(chunk.compression_type, CompressionType::Zlib);
    assert_eq!(chunk.len(), compressed.len());
    let decoded: fastnbt::Value = fastnbt::from_bytes(&chunk.decompress().unwrap()).unwrap();
    match decoded {
        fastnbt::Value::Compound(map) => {
            assert_eq!(map.get("DataVersion"), Some(&fastnbt::Value::Int(3700)));
        }
        other => panic!("unexpected root {:?}", other),
    }
}

#[test]
fn validate_reports_first_slot_x_outer() {
    let mut bytes = vec![0u8; 8192];
    // slot (1, 0) points far past the end: its error is UnexpectedEof.
    bytes[4..8].copy_from_slice(&[0x7f, 0, 0, 1]);
    // slot (0, 1) names an unknown compression: UnsupportedCompression(9).
    bytes[4 * 32..4 * 32 + 4].copy_from_slice(&[0, 0, 2, 1]);
    bytes.extend([0, 0, 0, 2, 9, 0]);
    let region = Region::from_vec(bytes).unwrap();
    assert!(matches!(region.get_chunk(1, 0), Err(Error::UnexpectedEof)));
    assert!(matches!(region.validate(), Err(Error::UnsupportedCompression(9))));
}
