use blinear_tools::chunk::Chunk;
use blinear_tools::convert::{
    convert_bytes, folder_name, get_input_call, get_output_call, output_file_extension_by_mode,
    validate_compression_level, ConverseError, Mode, RegionType,
};
use blinear_tools::region_file::{ParseError, Region};
use blinear_tools::tag::parse_tag;

const BLINEAR_MAGIC: i64 = -0x200812250269;
const LINEAR_MAGIC: u64 = 0xc3ff13183cca9d9a;

fn payload(i: usize) -> Vec<u8> {
    (0..(i % 7 + 1)).map(|k| (i * 31 + k) as u8).collect()
}

fn region_of(n: usize, ts: i64) -> Region {
    let mut chunks = Vec::new();
    for i in 0..n {
        let x = (i % 32) as i32;
        let z = (i / 32) as i32;
        chunks.push(Chunk::new_from_block_pos(x, z, 1000 + i as i64, parse_tag(&payload(i))));
    }
    Region::new(chunks, ts)
}

fn triples(r: &Region) -> Vec<(i32, i32, i64, Vec<u8>)> {
    let mut v: Vec<_> = r
        .chunks()
        .iter()
        .map(|c| (c.x(), c.z(), c.timestamp(), c.to_raw_bytes()))
        .collect();
    v.sort();
    v
}

fn linear_file(grid: u8, rx: i32, rz: i32, buckets: &[Vec<u8>]) -> Vec<u8> {
    let mut b = Vec::new();
    b.extend_from_slice(&LINEAR_MAGIC.to_be_bytes());
    b.push(3);
    b.extend_from_slice(&77i64.to_be_bytes());
    b.push(grid);
    b.extend_from_slice(&rx.to_be_bytes());
    b.extend_from_slice(&rz.to_be_bytes());
    b.extend_from_slice(&[0u8; 128]);
    // one feature, then the end of the list
    b.push(3);
    b.extend_from_slice(b"abc");
    b.extend_from_slice(&9i32.to_be_bytes());
    b.push(0);
    let compressed: Vec<Vec<u8>> = buckets.iter().map(|d| zstd::encode_all(&d[..], 3).unwrap()).collect();
    for c in &compressed {
        b.extend_from_slice(&(c.len() as i32).to_be_bytes());
        b.push(3);
        b.extend_from_slice(&[0u8; 8]);
    }
    for c in &compressed {
        b.extend_from_slice(c);
    }
    b
}

fn empty_record(d: &mut Vec<u8>) {
    d.extend_from_slice(&0i32.to_be_bytes());
    d.extend_from_slice(&0i64.to_be_bytes());
}

fn record(d: &mut Vec<u8>, ts: i64, data: &[u8]) {
    d.extend_from_slice(&(data.len() as i32 + 8).to_be_bytes());
    d.extend_from_slice(&ts.to_be_bytes());
    d.extend_from_slice(data);
}

fn one_chunk_linear() -> Vec<u8> {
    let mut d = Vec::new();
    for _ in 0..160 {
        empty_record(&mut d);
    }
    record(&mut d, 4242, &[10, 20, 30]);
    linear_file(1, 2, -1, &[d])
}

#[test]
fn sector_index_is_bijective() {
    let mut seen = vec![false; 1024];
    for x in 0..32 {
        for z in 0..32 {
            let s = Chunk::new_from_block_pos(x, z, 0, parse_tag(&[])).position_to_sector_index();
            assert!((0..1024).contains(&s));
            assert!(!seen[s as usize]);
            seen[s as usize] = true;
        }
    }
    assert!(seen.iter().all(|b| *b));
}

// Writing and reading place a chunk by the same slot formula,
// (x & 31) | ((z & 31) << 5), and `x` is the high word of a position, so a
// chunk written to a slot is read back from that slot.
#[test]
fn sector_index_formula() {
    assert_eq!(Chunk::new_from_block_pos(3, 2, 0, parse_tag(&[])).position_to_sector_index(), 67);
    assert_eq!(Chunk::new_from_block_pos(-1, 33, 0, parse_tag(&[])).position_to_sector_index(), 31 | (1 << 5));
}

#[test]
fn position_keeps_coordinates() {
    let c = Chunk::new_from_block_pos(-5, -70000, 9, parse_tag(&[1, 2]));
    assert_eq!(c.x(), -5);
    assert_eq!(c.z(), -70000);
    assert_eq!(c.timestamp(), 9);
    assert_eq!(c.get_data().to_bytes(), vec![1, 2]);
    let p = ((7i64) << 32) | (-3i64 & 0xFFFF_FFFF);
    let d = Chunk::new(p, 1, parse_tag(&[]));
    assert_eq!((d.x(), d.z()), (7, -3));
}

#[test]
fn from_sector_and_region_index() {
    let c = Chunk::from_sector(67, 5, &[1]).unwrap();
    assert_eq!((c.x(), c.z()), (3, 2));
    let r = Chunk::from_region_index(33, 1, -1, 5, &[1]).unwrap();
    assert_eq!((r.x(), r.z()), (1025, -1023));
    assert!(Chunk::from_region_index(0, i32::MAX, 0, 5, &[1]).is_err());
}

#[test]
fn blinear_round_trip_sizes_and_levels() {
    for n in [0usize, 1, 512, 1024] {
        for level in [0u8, 1, 6, 22] {
            let r = region_of(n, 5);
            let bytes = r.to_bytes_blinear(123456, level);
            let back = Region::from_bytes_blinear(&bytes).unwrap();
            assert_eq!(back.timestamp(), 123456);
            assert_eq!(triples(&back), triples(&r));
        }
    }
}

#[test]
fn blinear_header_layout() {
    let bytes = region_of(1, 0).to_bytes_blinear(-2, 9);
    assert_eq!(&bytes[0..8], &BLINEAR_MAGIC.to_be_bytes());
    assert_eq!(bytes[8], 2);
    assert_eq!(&bytes[9..17], &(-2i64).to_be_bytes());
    assert_eq!(bytes[17], 9);
}

#[test]
fn blinear_record_checksum() {
    let bytes = region_of(1, 0).to_bytes_blinear(0, 3);
    let body = zstd::decode_all(&bytes[18..]).unwrap();
    let data = payload(0);
    assert_eq!(i32::from_be_bytes(body[0..4].try_into().unwrap()), data.len() as i32 + 16);
    assert_eq!(i32::from_be_bytes(body[4..8].try_into().unwrap()), data.len() as i32);
    assert_eq!(i64::from_be_bytes(body[8..16].try_into().unwrap()), 1000);
    let sum = twox_hash::XxHash32::oneshot(0x0721, &data);
    assert_eq!(u32::from_be_bytes(body[16..20].try_into().unwrap()), sum);
    assert_eq!(&body[20..20 + data.len()], &data[..]);
    assert_eq!(body.len(), 20 + data.len() + 4 * 1023);
}

#[test]
fn blinear_record_function() {
    let c = Chunk::new_from_block_pos(0, 0, 3, parse_tag(&[7, 8]));
    let r = Region::blinear_record(&c, 0xAABBCCDD);
    assert_eq!(r, vec![0, 0, 0, 18, 0, 0, 0, 2, 0, 0, 0, 0, 0, 0, 0, 3, 0xAA, 0xBB, 0xCC, 0xDD, 7, 8]);
}

#[test]
fn blinear_bad_magic_and_version() {
    let mut bytes = region_of(3, 0).to_bytes_blinear(0, 3);
    let mut bad = bytes.clone();
    bad[0] ^= 0xFF;
    assert!(matches!(Region::from_bytes_blinear(&bad), Err(ParseError::HeaderError)));
    bytes[8] = 3;
    assert!(matches!(Region::from_bytes_blinear(&bytes), Err(ParseError::VersionError)));
    assert!(matches!(Region::from_bytes_blinear(&[1, 2]), Err(ParseError::HeaderError)));
}

#[test]
fn blinear_corrupt_body() {
    let mut bytes = region_of(3, 0).to_bytes_blinear(0, 3);
    bytes.truncate(18);
    bytes.extend_from_slice(&[1, 2, 3, 4, 5]);
    assert!(matches!(Region::from_bytes_blinear(&bytes), Err(ParseError::ReadError)));
    let header = bytes[0..17].to_vec();
    assert!(matches!(Region::from_bytes_blinear(&header), Err(ParseError::BufferUnderrun)));
}

#[test]
fn blinear_truncated_body() {
    let mut bytes = region_of(0, 0).to_bytes_blinear(0, 3);
    bytes.truncate(18);
    bytes.extend_from_slice(&zstd::encode_all(&[0u8, 0, 0, 0][..], 3).unwrap());
    assert!(matches!(Region::from_bytes_blinear(&bytes), Err(ParseError::BufferUnderrun)));
}

#[test]
fn linear_single_chunk_position() {
    let r = Region::from_bytes_linear_v2(&one_chunk_linear()).unwrap();
    assert_eq!(r.timestamp(), 77);
    assert_eq!(triples(&r), vec![(69, -32, 4242, vec![10, 20, 30])]);
}

#[test]
fn linear_grid_of_two() {
    // bucket (1, 0): its first record is slot 16 of the region
    let mut d = Vec::new();
    record(&mut d, 1, &[5]);
    let r = Region::from_bytes_linear_v2(&linear_file(2, 0, 0, &[vec![], vec![], d, vec![]])).unwrap();
    assert_eq!(triples(&r), vec![(16, 0, 1, vec![5])]);
}

#[test]
fn linear_errors() {
    let mut good = one_chunk_linear();
    let mut bad = good.clone();
    bad[3] ^= 1;
    assert!(matches!(Region::from_bytes_linear_v2(&bad), Err(ParseError::HeaderError)));
    good[8] = 2;
    assert!(matches!(Region::from_bytes_linear_v2(&good), Err(ParseError::VersionError)));
    let short = one_chunk_linear()[0..100].to_vec();
    assert!(matches!(Region::from_bytes_linear_v2(&short), Err(ParseError::BufferUnderrun)));
    let mut oversized = one_chunk_linear();
    oversized[163..167].copy_from_slice(&0x7fff_0000i32.to_be_bytes());
    assert!(matches!(Region::from_bytes_linear_v2(&oversized), Err(ParseError::BufferUnderrun)));
    let mut garbled = one_chunk_linear();
    let n = garbled.len();
    garbled.truncate(n - 4);
    garbled[163..167].copy_from_slice(&((n - 4 - 176) as i32).to_be_bytes());
    garbled[176..180].copy_from_slice(&[0xde, 0xad, 0xbe, 0xef]);
    assert!(matches!(Region::from_bytes_linear_v2(&garbled), Err(ParseError::ReadError)));
}

#[test]
fn directory_batch_isolates_failures() {
    let good = one_chunk_linear();
    let mut bad = good.clone();
    bad[0] ^= 0xFF;
    let inputs = vec![good.clone(), bad, good];
    let results: Vec<_> = inputs.iter().map(|i| convert_bytes(Mode::LinearBlinear, i, 99, 6)).collect();
    assert_eq!(results.iter().filter(|r| r.is_ok()).count(), 2);
    assert!(matches!(results[1], Err(ConverseError::Parse(ParseError::HeaderError))));
    for r in results.iter().flatten() {
        let back = Region::from_bytes_blinear(r).unwrap();
        assert_eq!(back.timestamp(), 99);
        assert_eq!(triples(&back), vec![(5, 0, 4242, vec![10, 20, 30])]);
    }
}

#[test]
fn unsupported_modes_fail_every_file() {
    let inputs = vec![one_chunk_linear(), region_of(2, 0).to_bytes_blinear(0, 1), vec![1, 2, 3]];
    for mode in [Mode::LinearMca, Mode::McaLinear, Mode::McaBlinear, Mode::BlinearMca, Mode::BlinearLinear] {
        for i in &inputs {
            assert!(matches!(convert_bytes(mode, i, 0, 6), Err(ConverseError::UnsupportedConversion)));
        }
    }
}

#[test]
fn dispatch_sides() {
    let lin = one_chunk_linear();
    assert!(get_input_call(Mode::LinearMca, &lin).is_ok());
    assert!(matches!(get_input_call(Mode::McaBlinear, &lin), Err(ConverseError::UnsupportedConversion)));
    let r = region_of(1, 0);
    assert!(get_output_call(Mode::McaBlinear, &r, 0, 1).is_ok());
    assert!(matches!(get_output_call(Mode::BlinearLinear, &r, 0, 1), Err(ConverseError::UnsupportedConversion)));
}

#[test]
fn names_and_extensions() {
    assert_eq!(folder_name(RegionType::REGION), "region");
    assert_eq!(folder_name(RegionType::POI), "poi");
    assert_eq!(folder_name(RegionType::ENTITIES), "entities");
    assert_eq!(output_file_extension_by_mode(Mode::LinearBlinear), "blinear");
    assert_eq!(output_file_extension_by_mode(Mode::McaBlinear), "blinear");
    assert_eq!(output_file_extension_by_mode(Mode::BlinearLinear), "linear");
    assert_eq!(output_file_extension_by_mode(Mode::LinearMca), "mca");
}

#[test]
fn compression_level_text() {
    assert_eq!(validate_compression_level("6"), Ok(6));
    assert_eq!(validate_compression_level("0"), Ok(0));
    assert_eq!(validate_compression_level("22"), Ok(22));
    assert_eq!(validate_compression_level("+5"), Ok(5));
    assert_eq!(validate_compression_level("0007"), Ok(7));
    assert!(validate_compression_level("23").is_err());
    assert!(validate_compression_level("99999999999").is_err());
    assert!(validate_compression_level("").is_err());
    assert!(validate_compression_level("-1").is_err());
    assert!(validate_compression_level("4a").is_err());
}

#[test]
fn blinear_body_slots() {
    let mut body = Vec::new();
    body.extend_from_slice(&0i32.to_be_bytes());
    body.extend_from_slice(&18i32.to_be_bytes());
    body.extend_from_slice(&2i32.to_be_bytes());
    body.extend_from_slice(&(-4i64).to_be_bytes());
    body.extend_from_slice(&0u32.to_be_bytes());
    body.extend_from_slice(&[9, 8]);
    for _ in 2..1024 {
        body.extend_from_slice(&0i32.to_be_bytes());
    }
    let chunks = Region::blinear_body_chunks(&body).unwrap();
    assert_eq!(chunks.len(), 1);
    assert_eq!((chunks[0].x(), chunks[0].z(), chunks[0].timestamp()), (1, 0, -4));
    assert_eq!(chunks[0].to_raw_bytes(), vec![9, 8]);
    body.truncate(body.len() - 1);
    assert!(matches!(Region::blinear_body_chunks(&body), Err(ParseError::BufferUnderrun)));
}

#[test]
fn linear_bucket_records() {
    let mut d = Vec::new();
    empty_record(&mut d);
    record(&mut d, 3, &[1, 2]);
    // bucket (1, 1) of a grid of four: side 8, second record at local (0, 1)
    let chunks = Region::linear_bucket_chunks(&d, 1, 0, 1, 1, 8).unwrap();
    assert_eq!(chunks.len(), 1);
    assert_eq!((chunks[0].x(), chunks[0].z()), (32 + 8, 9));
    assert_eq!(chunks[0].to_raw_bytes(), vec![1, 2]);
    let mut bad = Vec::new();
    record(&mut bad, 3, &[1, 2]);
    bad.truncate(13);
    assert!(matches!(Region::linear_bucket_chunks(&bad, 0, 0, 0, 0, 32), Err(ParseError::BufferUnderrun)));
}
