use certified_assets::model::Encoding;

#[test]
fn suffixes_follow_the_file_naming_convention() {
    assert_eq!(Encoding::Identity.suffix(), "");
    assert_eq!(Encoding::Gzip.suffix(), ".gz");
    assert_eq!(Encoding::Brotli.suffix(), ".br");
}

#[test]
fn tokens_are_the_header_values() {
    assert_eq!(Encoding::Identity.token(), "identity");
    assert_eq!(Encoding::Gzip.token(), "gzip");
    assert_eq!(Encoding::Brotli.token(), "br");
}
