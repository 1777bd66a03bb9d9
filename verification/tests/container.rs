use lnmp_codec::container::parse_delta_metadata;
use lnmp_codec::container::parse_stream_metadata;

#[test]
fn parse_stream_metadata_bytes() {
    let bytes = [0x00, 0x00, 0x10, 0x00, 0x02, 0x03];
    let meta = parse_stream_metadata(&bytes).unwrap();
    assert_eq!(meta.chunk_size, 4096);
    assert_eq!(meta.checksum_type, 0x02);
    assert_eq!(meta.flags, 0x03);
}

#[test]
fn parse_delta_metadata_bytes() {
    let bytes = [0, 0, 0, 0, 0, 0, 0, 5, 0x01, 0x00];
    let meta = parse_delta_metadata(&bytes).unwrap();
    assert_eq!(meta.base_snapshot, 5);
    assert_eq!(meta.algorithm, 0x01);
    assert_eq!(meta.compression, 0x00);
}

