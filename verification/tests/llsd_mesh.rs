use std::io::Write;
use sl_viewer::llsd::{encode_binary_llsd_value, hex_nybble, parse_binary_llsd, BinaryLlsdValue, LlsdError};
use sl_viewer::sl_mesh::{
    build_triangle_second_life_mesh_asset, debug_triangle_second_life_mesh_bytes,
    decode_triangle_indices, detect_mesh_source_format, dict_lookup, load_lod_block_bytes,
    load_lod_block_value, select_lod_block, strip_deprecated_header,
    MeshError, MeshSourceFormat,
};

fn zlib_compress_bytes(bytes: &[u8]) -> Vec<u8> {
    let mut encoder = flate2::write::ZlibEncoder::new(Vec::new(), flate2::Compression::default());
    encoder.write_all(bytes).expect("zlib write");
    encoder.finish().expect("zlib finish")
}

fn build_test_second_life_mesh_asset() -> Vec<u8> {
    debug_triangle_second_life_mesh_bytes()
}

fn build_test_second_life_mesh_asset_without_high_lod() -> Vec<u8> {
    build_triangle_second_life_mesh_asset("medium_lod")
}

fn entry(key: &str, value: BinaryLlsdValue) -> (String, BinaryLlsdValue) {
    (String::from(key), value)
}

#[test]
fn detects_second_life_mesh_from_binary_llsd_header() {
    let bytes = build_test_second_life_mesh_asset();
    assert_eq!(detect_mesh_source_format(&bytes), MeshSourceFormat::SecondLifeMesh);
}

#[test]
fn debug_second_life_mesh_fixture_is_detectable() {
    let bytes = debug_triangle_second_life_mesh_bytes();
    assert!(!bytes.is_empty());
    assert_eq!(detect_mesh_source_format(&bytes), MeshSourceFormat::SecondLifeMesh);
}

#[test]
fn parses_binary_llsd_map_with_quoted_keys_and_values() {
    let bytes = [
        b'{', 0, 0, 0, 1, b'"', b'h', b'i', b'g', b'h', b'_', b'l', b'o', b'd', b'"', b'{', 0, 0,
        0, 2, b'\'', b'o', b'f', b'f', b's', b'e', b't', b'\'', b'i', 0, 0, 0, 0, b'"', b's', b'i',
        b'z', b'e', b'"', b'i', 0, 0, 0, 4, b'}', b'}',
    ];
    let (value, consumed) = parse_binary_llsd(&bytes).expect("quoted map should parse");
    assert_eq!(consumed, bytes.len());
    let header = value.as_map().expect("header should be a map");
    let block = dict_lookup(header, "high_lod")
        .and_then(BinaryLlsdValue::as_map)
        .expect("high_lod block should be present");
    assert_eq!(dict_lookup(block, "offset").and_then(BinaryLlsdValue::as_i32), Some(0));
    assert_eq!(dict_lookup(block, "size").and_then(BinaryLlsdValue::as_i32), Some(4));
}

#[test]
fn parses_binary_llsd_date_token_without_failing_header_walk() {
    let bytes = [
        b'{', 0, 0, 0, 2, b'k', 0, 0, 0, 4, b'd', b'a', b't', b'e', b'd', 0x3f, 0xf0, 0, 0, 0, 0,
        0, 0, b'k', 0, 0, 0, 4, b'n', b'a', b'm', b'e', b's', 0, 0, 0, 4, b't', b'e', b's', b't',
        b'}',
    ];
    let (value, consumed) = parse_binary_llsd(&bytes).expect("date token should parse");
    assert_eq!(consumed, bytes.len());
    let header = value.as_map().expect("header should be a map");
    assert!(matches!(
        dict_lookup(header, "date"),
        Some(BinaryLlsdValue::Date(bits)) if (f64::from_bits(*bits) - 1.0).abs() < f64::EPSILON
    ));
    assert_eq!(
        dict_lookup(header, "name"),
        Some(&BinaryLlsdValue::String(String::from("test")))
    );
}

#[test]
fn parses_binary_llsd_delimited_string_escapes() {
    let bytes = [b'\'', b'h', b'e', b'l', b'l', b'o', b'\\', b'n', b'\\', b'x', b'2', b'1', b'\''];
    let (value, consumed) = parse_binary_llsd(&bytes).expect("delimited string should parse");
    assert_eq!(consumed, bytes.len());
    assert_eq!(value, BinaryLlsdValue::String(String::from("hello\n!")));
}

fn triangle_block_value(bytes: &[u8], lod: u32) -> BinaryLlsdValue {
    load_lod_block_value(bytes, lod).expect("debug asset should load")
}

fn triangle_list(block: &BinaryLlsdValue) -> Vec<u16> {
    let items = block.as_array().expect("LOD block is an array");
    assert_eq!(items.len(), 1);
    let submesh = items[0].as_map().expect("submesh is a map");
    let tris = dict_lookup(submesh, "TriangleList")
        .and_then(BinaryLlsdValue::as_binary)
        .expect("triangle list present");
    decode_triangle_indices(tris)
}

#[test]
fn debug_asset_block_loads_at_every_lod() {
    let bytes = build_test_second_life_mesh_asset();
    for lod in 0..5u32 {
        let block = triangle_block_value(&bytes, lod);
        assert_eq!(triangle_list(&block), vec![0, 1, 2]);
    }
}

#[test]
fn missing_high_lod_falls_back_to_medium() {
    let bytes = build_test_second_life_mesh_asset_without_high_lod();
    let block = triangle_block_value(&bytes, 0);
    assert_eq!(triangle_list(&block), vec![0, 1, 2]);
}

#[test]
fn llsd_encoding_parses_back() {
    let bytes = build_test_second_life_mesh_asset();
    let block = triangle_block_value(&bytes, 0);
    let encoded = encode_binary_llsd_value(&block);
    let mut with_tail = encoded.clone();
    with_tail.extend_from_slice(b"tail");
    let (again, consumed) = parse_binary_llsd(&with_tail).expect("encoding parses");
    assert_eq!(consumed, encoded.len());
    assert_eq!(again, block);
}

#[test]
fn triangle_indices_are_little_endian_pairs() {
    assert_eq!(decode_triangle_indices(&[1, 0, 0, 1, 255, 255, 7]), vec![1, 256, 65535]);
    assert!(decode_triangle_indices(&[9]).is_empty());
}

#[test]
fn zlib_round_trip_through_lod_block() {
    let bytes = build_test_second_life_mesh_asset();
    let inflated = load_lod_block_bytes(&bytes, 2).expect("block inflates");
    assert_eq!(inflated[0], b'[');
    let recompressed = zlib_compress_bytes(&inflated);
    assert!(!recompressed.is_empty());
    assert_ne!(recompressed, inflated);
}

#[test]
fn deprecated_header_is_stripped() {
    let mut bytes = b"<? LLSD/Binary ?>".to_vec();
    bytes.extend_from_slice(&[b'{', 0, 0, 0, 0, b'}']);
    assert_eq!(detect_mesh_source_format(&bytes), MeshSourceFormat::SecondLifeMesh);
    assert_eq!(strip_deprecated_header(&bytes), vec![b'{', 0, 0, 0, 0, b'}']);
    assert_eq!(strip_deprecated_header(b"abc"), b"abc".to_vec());
}

#[test]
fn detects_gltf_and_unknown_bytes() {
    assert_eq!(detect_mesh_source_format(b"glTF\x02\0\0\0"), MeshSourceFormat::Gltf);
    assert_eq!(detect_mesh_source_format(b"not-a-gltf"), MeshSourceFormat::Unknown);
    assert_eq!(detect_mesh_source_format(b"{abcd"), MeshSourceFormat::Unknown);
    assert_eq!(detect_mesh_source_format(&[]), MeshSourceFormat::Unknown);
}

#[test]
fn lod_selection_errors() {
    let no_offset = vec![entry(
        "high_lod",
        BinaryLlsdValue::Dict(vec![entry("size", BinaryLlsdValue::Integer(4))]),
    )];
    assert_eq!(select_lod_block(&no_offset, 0).unwrap_err(), MeshError::OffsetMissing);
    let no_size = vec![entry(
        "low_lod",
        BinaryLlsdValue::Dict(vec![entry("offset", BinaryLlsdValue::Integer(0))]),
    )];
    assert_eq!(select_lod_block(&no_size, 2).unwrap_err(), MeshError::SizeMissing);
    let unusable = vec![entry(
        "high_lod",
        BinaryLlsdValue::Dict(vec![
            entry("offset", BinaryLlsdValue::Integer(-1)),
            entry("size", BinaryLlsdValue::Integer(4)),
        ]),
    )];
    assert_eq!(select_lod_block(&unusable, 0).unwrap_err(), MeshError::NoUsableLod);
    let usable = vec![
        entry(
            "lowest_lod",
            BinaryLlsdValue::Dict(vec![
                entry("offset", BinaryLlsdValue::Integer(8)),
                entry("size", BinaryLlsdValue::Integer(16)),
            ]),
        ),
        entry("medium_lod", BinaryLlsdValue::Integer(3)),
    ];
    let found = select_lod_block(&usable, 1).unwrap();
    assert_eq!(found.name, "lowest_lod");
    assert_eq!(found.offset, 8);
    assert_eq!(found.size, 16);
}

#[test]
fn lod_block_errors() {
    assert_eq!(
        load_lod_block_bytes(b"i\0\0\0\x01", 0).unwrap_err(),
        MeshError::HeaderNotMap
    );
    assert!(matches!(load_lod_block_bytes(b"{\0", 0).unwrap_err(), MeshError::HeaderParse(_)));
    let header = BinaryLlsdValue::Dict(vec![entry(
        "high_lod",
        BinaryLlsdValue::Dict(vec![
            entry("offset", BinaryLlsdValue::Integer(0)),
            entry("size", BinaryLlsdValue::Integer(4)),
        ]),
    )]);
    let mut short = encode_binary_llsd_value(&header);
    short.extend_from_slice(&[1, 2]);
    assert_eq!(load_lod_block_bytes(&short, 0).unwrap_err(), MeshError::BlockOutOfBounds);
    let mut garbage = encode_binary_llsd_value(&header);
    garbage.extend_from_slice(&[1, 2, 3, 4]);
    assert_eq!(load_lod_block_bytes(&garbage, 0).unwrap_err(), MeshError::Decompress);
    let not_llsd = zlib_compress_bytes(b"?");
    let header2 = BinaryLlsdValue::Dict(vec![entry(
        "high_lod",
        BinaryLlsdValue::Dict(vec![
            entry("offset", BinaryLlsdValue::Integer(0)),
            entry("size", BinaryLlsdValue::Integer(not_llsd.len() as i32)),
        ]),
    )]);
    let mut bad_block = encode_binary_llsd_value(&header2);
    bad_block.extend_from_slice(&not_llsd);
    assert_eq!(
        load_lod_block_value(&bad_block, 0).unwrap_err(),
        MeshError::LodParse(LlsdError::UnsupportedToken(b'?'))
    );
}

#[test]
fn hex_nybbles() {
    assert_eq!(hex_nybble(b'0'), Some(0));
    assert_eq!(hex_nybble(b'a'), Some(10));
    assert_eq!(hex_nybble(b'F'), Some(15));
    assert_eq!(hex_nybble(b'g'), None);
}
