use beframe::digest::{cache_dir_of, hex_string, md5_hex};

#[test]
fn hex_string_two_lowercase_digits_per_byte() {
    assert_eq!(hex_string(&[0xbe, 0xef, 0x00, 0x0a, 0xff]), "beef000aff");
    assert_eq!(hex_string(&[]), "");
}

#[test]
fn md5_hex_of_known_inputs() {
    assert_eq!(md5_hex(b""), "d41d8cd98f00b204e9800998ecf8427e");
    assert_eq!(md5_hex(b"abc"), "900150983cd24fb0d6963f7d28e17f72");
    assert_eq!(
        md5_hex(b"The quick brown fox jumps over the lazy dog"),
        "9e107d9d372bb6826bd81d3542a419d6"
    );
}

#[test]
fn md5_hex_has_32_characters() {
    for data in [&b""[..], &b"a"[..], &[0u8; 1000][..]] {
        assert_eq!(md5_hex(data).len(), 32);
    }
}

#[test]
fn cache_dir_is_fc_slash_digest() {
    assert_eq!(cache_dir_of(b"abc"), "fc/900150983cd24fb0d6963f7d28e17f72");
    assert_eq!(cache_dir_of(b"abc").len(), 35);
}

#[test]
fn different_contents_get_different_names() {
    assert_ne!(md5_hex(b"video one"), md5_hex(b"video two"));
    assert_eq!(md5_hex(b"same"), md5_hex(b"same"));
}
