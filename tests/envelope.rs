use imt::error::DecodeError;
use imt::header::{Header, MagicNumber, Version};

#[test]
fn version_packs_major_above_minor() {
    let v = Version::new(3, 17);
    assert_eq!(v.0, 3 * 512 + 17);
    assert_eq!(v.major(), 3);
    assert_eq!(v.minor(), 17);
}

#[test]
fn version_largest_components() {
    let v = Version::new(127, 511);
    assert_eq!(v.0, u16::MAX);
    assert_eq!(v.major(), 127);
    assert_eq!(v.minor(), 511);
}

#[test]
fn version_parse_reads_major_and_minor() {
    let v = Version::parse("1.2");
    assert_eq!(v.major(), 1);
    assert_eq!(v.minor(), 2);
    let w = Version::parse("12.345");
    assert_eq!((w.major(), w.minor()), (12, 345));
}

#[test]
fn newer_minor_reader_is_compatible() {
    assert!(Version::new(1, 2).is_compatible(Version::new(1, 5)));
}

#[test]
fn older_minor_reader_is_not_compatible() {
    assert!(!Version::new(1, 5).is_compatible(Version::new(1, 2)));
}

#[test]
fn major_zero_requires_exact_minor() {
    assert!(Version::new(0, 3).is_compatible(Version::new(0, 3)));
    assert!(!Version::new(0, 3).is_compatible(Version::new(0, 4)));
    assert!(!Version::new(0, 4).is_compatible(Version::new(0, 3)));
}

#[test]
fn different_majors_are_not_compatible() {
    assert!(!Version::new(1, 0).is_compatible(Version::new(2, 0)));
    assert!(!Version::new(2, 0).is_compatible(Version::new(1, 9)));
}

#[test]
fn header_encodes_magic_then_version() {
    let mut out = Vec::new();
    Header::new(Version::new(1, 2)).encode(&mut out);
    assert_eq!(out, vec![0xFE, b'I', b'M', b'T', b'D', b'B', 0x02, 0x02]);
}

#[test]
fn header_round_trip() {
    let h = Header::new(Version::new(2, 7));
    let mut out = Vec::new();
    h.encode(&mut out);
    let (back, end) = Header::decode(&out, 0).unwrap();
    assert_eq!(back, h);
    assert_eq!(end, 8);
}

#[test]
fn header_rejects_bad_magic_before_version() {
    let bytes = [0xFE, b'I', b'M', b'T', b'D', b'C'];
    assert_eq!(Header::decode(&bytes, 0), Err(DecodeError::InvalidMagic));
    let bytes = [0u8, 0, 0, 0, 0, 0, 1, 2];
    assert_eq!(Header::decode(&bytes, 0), Err(DecodeError::InvalidMagic));
}

#[test]
fn header_short_input_is_unexpected_end() {
    assert_eq!(Header::decode(&[0xFE, b'I'], 0), Err(DecodeError::UnexpectedEnd));
    let bytes = [0xFE, b'I', b'M', b'T', b'D', b'B', 1];
    assert_eq!(Header::decode(&bytes, 0), Err(DecodeError::UnexpectedEnd));
}

#[test]
fn magic_number_decodes_at_offset() {
    let bytes = [9u8, 0xFE, b'I', b'M', b'T', b'D', b'B'];
    assert_eq!(MagicNumber::decode(&bytes, 1), Ok((MagicNumber, 7)));
}

#[test]
fn header_decode_for_checks_compatibility() {
    let mut out = Vec::new();
    Header::new(Version::new(1, 2)).encode(&mut out);
    assert!(Header::decode_for(&out, 0, Version::new(1, 1)).is_ok());
    assert_eq!(
        Header::decode_for(&out, 0, Version::new(1, 3)),
        Err(DecodeError::IncompatibleVersion { required: Version::new(1, 3).0, found: Version::new(1, 2).0 })
    );
}
