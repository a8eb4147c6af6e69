use beframe::path::{
    extension_of_path, file_name_of, file_stem_of, files_with_extension, has_extension, join_path,
    positions_with_extension,
    without_extension_of,
};

fn s(x: &str) -> Option<String> {
    Some(x.to_string())
}

#[test]
fn file_name_is_last_component() {
    assert_eq!(file_name_of("a/b.parquet"), s("b.parquet"));
    assert_eq!(file_name_of("a/b/"), s("b"));
    assert_eq!(file_name_of("a/b/."), s("b"));
    assert_eq!(file_name_of("a//b"), s("b"));
    assert_eq!(file_name_of("./x"), s("x"));
    assert_eq!(file_name_of("..."), s("..."));
}

#[test]
fn file_name_absent() {
    assert_eq!(file_name_of(""), None);
    assert_eq!(file_name_of("/"), None);
    assert_eq!(file_name_of("."), None);
    assert_eq!(file_name_of(".."), None);
    assert_eq!(file_name_of("a/.."), None);
    assert_eq!(file_name_of("/./"), None);
}

#[test]
fn file_stem_cases() {
    assert_eq!(file_stem_of("dir/x.tar.gz"), s("x.tar"));
    assert_eq!(file_stem_of("/data/bucket_01.parquet"), s("bucket_01"));
    assert_eq!(file_stem_of(".bashrc"), s(".bashrc"));
    assert_eq!(file_stem_of("a."), s("a"));
    assert_eq!(file_stem_of("dir/..x"), s("."));
    assert_eq!(file_stem_of("noext"), s("noext"));
    assert_eq!(file_stem_of("/"), None);
    assert_eq!(file_stem_of("a/.."), None);
}

#[test]
fn extension_cases() {
    assert_eq!(extension_of_path("dir/a.parquet"), s("parquet"));
    assert_eq!(extension_of_path("dir/x.tar.gz"), s("gz"));
    assert_eq!(extension_of_path(".bashrc"), None);
    assert_eq!(extension_of_path("a."), s(""));
    assert_eq!(extension_of_path("noext"), None);
    assert_eq!(extension_of_path("v.mp4/"), s("mp4"));
}

#[test]
fn has_extension_reads_missing_as_empty() {
    assert!(has_extension("data/x.parquet", "parquet"));
    assert!(!has_extension("data/x.mp4", "parquet"));
    assert!(has_extension("data/x.mp4", "mp4"));
    assert!(!has_extension("data/parquet", "parquet"));
    assert!(has_extension("data/noext", ""));
    assert!(!has_extension("data/x.parquet", ""));
}

#[test]
fn without_extension_cuts_after_stem() {
    assert_eq!(without_extension_of("dir/a.parquet"), "dir/a");
    assert_eq!(without_extension_of("dir/a.parquet/"), "dir/a");
    assert_eq!(without_extension_of("dir/a"), "dir/a");
    assert_eq!(without_extension_of("a.b.c"), "a.b");
    assert_eq!(without_extension_of("/"), "/");
    assert_eq!(without_extension_of(".hidden"), ".hidden");
}

#[test]
fn join_inserts_one_separator() {
    assert_eq!(join_path("fc", "x"), "fc/x");
    assert_eq!(join_path("fc/", "x"), "fc/x");
    assert_eq!(join_path("", "x"), "x");
    assert_eq!(join_path("a", "/abs"), "/abs");
    assert_eq!(join_path("/dev/shm/video", "b1"), "/dev/shm/video/b1");
}

#[test]
fn join_then_file_name_gives_name_back() {
    for base in ["", "/", "a", "a/b/", "/dev/shm"] {
        assert_eq!(file_name_of(&join_path(base, "clip07")), s("clip07"));
    }
}

#[test]
fn file_name_of_stripped_path_is_the_stem() {
    for p in ["dir/a.parquet", "x.tar.gz", "/data/b/.c.d", "dir/a.parquet/"] {
        assert_eq!(file_name_of(&without_extension_of(p)), file_stem_of(p));
    }
}

#[test]
fn listing_filtered_by_extension() {
    let list: Vec<String> = ["/d/a.parquet", "/d/b.mp4", "/d/.parquet", "/d/c.parquet/..", "/d/e.PARQUET", "/d/f.parquet"]
        .iter()
        .map(|x| x.to_string())
        .collect();
    assert_eq!(files_with_extension(&list, "parquet"), vec!["/d/a.parquet".to_string(), "/d/f.parquet".to_string()]);
    assert_eq!(files_with_extension(&list, "mp4"), vec!["/d/b.mp4".to_string()]);
    assert_eq!(files_with_extension(&list, ""), vec!["/d/.parquet".to_string(), "/d/c.parquet/..".to_string()]);
    assert_eq!(files_with_extension(&vec![], "mp4"), Vec::<String>::new());
}

#[test]
fn positions_of_matching_entries() {
    let list: Vec<String> = ["a.mp4", "b.parquet", "c.mp4", "d", "e.mp4/.."].iter().map(|x| x.to_string()).collect();
    assert_eq!(positions_with_extension(&list, "mp4"), vec![0, 2]);
    assert_eq!(positions_with_extension(&list, "parquet"), vec![1]);
    assert_eq!(positions_with_extension(&list, ""), vec![3, 4]);
}
