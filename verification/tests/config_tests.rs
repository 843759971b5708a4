use walrus_codec::{BlobEncoder, CodecError, EncodingConfig, EncodingType};

#[test]
fn zero_shards_is_invalid_configuration() {
    assert_eq!(
        BlobEncoder::new(0).unwrap_err(),
        CodecError::InvalidConfiguration
    );
    assert_eq!(
        EncodingConfig::new(0).unwrap_err(),
        CodecError::InvalidConfiguration
    );
}

#[test]
fn derived_parameters_for_ten_shards() {
    let cfg = EncodingConfig::new(10).unwrap();
    assert_eq!(cfg.max_faults(), 3);
    assert_eq!(cfg.source_primary(), 4);
    assert_eq!(cfg.source_secondary(), 7);
}

#[test]
fn derived_parameters_small_counts() {
    let one = EncodingConfig::new(1).unwrap();
    assert_eq!(one.max_faults(), 0);
    assert_eq!(one.source_primary(), 1);
    assert_eq!(one.source_secondary(), 1);
    let four = EncodingConfig::new(4).unwrap();
    assert_eq!(four.max_faults(), 1);
    assert_eq!(four.source_primary(), 2);
    assert_eq!(four.source_secondary(), 3);
}

#[test]
fn encoding_type_lookup() {
    assert_eq!(EncodingType::from_code(1).unwrap(), EncodingType::RS2);
    assert_eq!(
        EncodingType::from_code(2).unwrap_err(),
        CodecError::UnsupportedEncodingType
    );
    assert_eq!(EncodingType::RS2.code(), 1);
}
