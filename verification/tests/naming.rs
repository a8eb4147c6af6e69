use beframe::naming::{numbered_file, numbered_file_name, slash_numbered_file, zero_padded_string};

#[test]
fn zero_padding_to_four() {
    assert_eq!(zero_padded_string(0, 4), "0000");
    assert_eq!(zero_padded_string(7, 4), "0007");
    assert_eq!(zero_padded_string(123, 4), "0123");
    assert_eq!(zero_padded_string(9999, 4), "9999");
    assert_eq!(zero_padded_string(12345, 4), "12345");
    assert_eq!(zero_padded_string(u64::MAX, 4), u64::MAX.to_string());
}

#[test]
fn zero_padding_matches_format() {
    for n in [0u64, 1, 9, 10, 99, 100, 999, 1000, 4321, 10000, 987654] {
        assert_eq!(zero_padded_string(n, 4), format!("{:04}", n));
        assert_eq!(zero_padded_string(n, 32), format!("{:032}", n));
        assert_eq!(zero_padded_string(n, 0), format!("{}", n));
    }
}

#[test]
fn numbered_names() {
    assert_eq!(numbered_file_name(3, "jpg"), "0003.jpg");
    assert_eq!(numbered_file_name(42, "mp4"), "0042.mp4");
    assert_eq!(numbered_file("fc/abc", 12, "jpg"), "fc/abc/0012.jpg");
    assert_eq!(numbered_file("out/", 1, "png"), "out/0001.png");
    assert_eq!(slash_numbered_file("fc/abc", 5, "png"), "fc/abc/0005.png");
}

#[test]
fn numbered_names_are_distinct() {
    let names: Vec<String> = (0..200).map(|i| numbered_file_name(i, "jpg")).collect();
    for i in 0..names.len() {
        for j in 0..i {
            assert_ne!(names[i], names[j]);
        }
    }
}
