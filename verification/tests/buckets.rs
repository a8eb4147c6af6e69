use beframe::bucket::pq::Bucket;
use beframe::column::{numbered_videos, present_videos};
use beframe::op::{parquet_buckets, process_single_bucket};
use beframe::plan::select_writes;
use beframe::pq::Bucket as HashedBucket;
use beframe::storage::parquet::{limit_files, Parquet};

const ABC: &str = "900150983cd24fb0d6963f7d28e17f72";

#[test]
fn bucket_split_paths() {
    let b = Bucket::from("/data/b1.parquet".to_string(), "/dev/shm/video");
    assert_eq!(b.local(), "/dev/shm/video/b1");
    assert_eq!(b.path(), "/data/b1.parquet");
    assert_eq!(b.split_path(0), "/dev/shm/video/b1/0000.mp4");
    assert_eq!(b.split_path(41), "/dev/shm/video/b1/0041.mp4");
}

#[test]
fn single_bucket_goes_to_shm() {
    let b = process_single_bucket("x/part-3.parquet".to_string());
    assert_eq!(b.local(), "/dev/shm/video/part-3");
}

#[test]
fn hashed_bucket_dir() {
    let b = HashedBucket::from("a.parquet".to_string(), "/dev/shm".to_string(), b"abc");
    assert_eq!(b.local(), &format!("/dev/shm/{}", ABC));
}

#[test]
fn present_videos_skip_missing() {
    let col = vec![Some(vec![1u8]), None, Some(vec![2, 3]), None];
    assert_eq!(present_videos(&col), vec![vec![1u8], vec![2, 3]]);
    assert_eq!(present_videos(&vec![]), Vec::<Vec<u8>>::new());
}

#[test]
fn numbered_videos_keep_column_positions() {
    let col = vec![Some(vec![1u8]), None, Some(vec![2, 3])];
    assert_eq!(
        numbered_videos(&col),
        vec![("0000.mp4".to_string(), vec![1u8]), ("0002.mp4".to_string(), vec![2, 3])]
    );
}

#[test]
fn numbered_video_names_are_distinct() {
    let col: Vec<Option<Vec<u8>>> = (0..12).map(|i| if i % 3 == 1 { None } else { Some(vec![7u8]) }).collect();
    let out = numbered_videos(&col);
    assert_eq!(out.len(), 8);
    for a in 0..out.len() {
        for b in (a + 1)..out.len() {
            assert_ne!(out[a].0, out[b].0);
        }
    }
    assert_eq!(out[7].0, "0011.mp4");
}

#[test]
fn parquet_save_locations() {
    let p = Parquet::new("/data/b1.parquet".to_string());
    assert_eq!(p.save_path(), "/data/b1");
    assert_eq!(p.path(), "/data/b1.parquet");
    let targets = p.video_targets(&vec![b"abc".to_vec(), b"".to_vec()]);
    assert_eq!(
        targets,
        vec![
            format!("/data/b1/{}.mp4", ABC),
            "/data/b1/d41d8cd98f00b204e9800998ecf8427e.mp4".to_string(),
        ]
    );
}

#[test]
fn writes_skip_existing_and_repeated_files() {
    let t = |s: &str| s.to_string();
    let targets = vec![t("a"), t("b"), t("a"), t("c"), t("b")];
    let on_disk = vec![false, false, false, true, false];
    assert_eq!(select_writes(&targets, &on_disk), vec![0, 1]);
    let on_disk = vec![true, false, true, false, false];
    assert_eq!(select_writes(&targets, &on_disk), vec![1, 3]);
    assert_eq!(select_writes(&vec![], &vec![]), Vec::<usize>::new());
}

#[test]
fn parquet_files_become_buckets() {
    let list: Vec<String> = ["/in/x.parquet", "/in/notes.txt", "/in/y.parquet", "/in/z"]
        .iter()
        .map(|x| x.to_string())
        .collect();
    let buckets = parquet_buckets(&list, "/dev/shm/video");
    assert_eq!(buckets.len(), 2);
    assert_eq!(buckets[0].path(), "/in/x.parquet");
    assert_eq!(buckets[0].local(), "/dev/shm/video/x");
    assert_eq!(buckets[1].path(), "/in/y.parquet");
    assert_eq!(buckets[1].local(), "/dev/shm/video/y");
}

#[test]
fn other_entries_leave_buckets_unchanged() {
    let t = |xs: &[&str]| xs.iter().map(|x| x.to_string()).collect::<Vec<String>>();
    let plain = parquet_buckets(&t(&["/in/x.parquet", "/in/y.parquet"]), "/r");
    let mixed = parquet_buckets(&t(&["/in/b.txt", "/in/x.parquet", "/in/c.PARQUET", "/in/notes", "/in/y.parquet"]), "/r");
    let view = |bs: &Vec<Bucket>| bs.iter().map(|b| (b.path().clone(), b.local().clone())).collect::<Vec<_>>();
    assert_eq!(view(&plain), view(&mixed));
}

#[test]
fn saving_again_writes_nothing() {
    let p = Parquet::new("/data/b1.parquet".to_string());
    let videos = vec![b"abc".to_vec(), b"".to_vec(), b"abc".to_vec()];
    let targets = p.video_targets(&videos);
    let first = select_writes(&targets, &vec![false, false, false]);
    assert_eq!(first, vec![0, 1]);
    let after: Vec<bool> = targets.iter().map(|t| first.iter().any(|&k| &targets[k] == t)).collect();
    assert_eq!(after, vec![true, true, true]);
    assert_eq!(select_writes(&targets, &after), Vec::<usize>::new());
}

#[test]
fn save_ignores_order_and_repeats() {
    let p = Parquet::new("/data/b1.parquet".to_string());
    let saved = |videos: Vec<Vec<u8>>, disk: &[String]| {
        let targets = p.video_targets(&videos);
        let on_disk: Vec<bool> = targets.iter().map(|t| disk.contains(t)).collect();
        let mut out: Vec<(String, Vec<u8>)> = select_writes(&targets, &on_disk)
            .into_iter()
            .map(|k| (targets[k].clone(), videos[k].clone()))
            .collect();
        out.sort();
        out
    };
    let disk = vec!["/data/b1/d41d8cd98f00b204e9800998ecf8427e.mp4".to_string()];
    let a = saved(vec![b"abc".to_vec(), b"".to_vec(), b"xyz".to_vec()], &disk);
    let b = saved(vec![b"xyz".to_vec(), b"abc".to_vec(), b"xyz".to_vec(), b"".to_vec(), b"abc".to_vec()], &disk);
    assert_eq!(a, b);
    assert_eq!(a.len(), 2);
}

#[test]
fn limit_keeps_the_first_files() {
    let ps = |n: usize| (0..n).map(|i| Parquet::new(format!("/d/{}.parquet", i))).collect::<Vec<_>>();
    let names = |v: Vec<Parquet>| v.iter().map(|p| p.path().clone()).collect::<Vec<_>>();
    assert_eq!(limit_files(ps(8), None).len(), 5);
    assert_eq!(limit_files(ps(3), None).len(), 3);
    assert_eq!(names(limit_files(ps(8), Some(2))), vec!["/d/0.parquet".to_string(), "/d/1.parquet".to_string()]);
    assert_eq!(limit_files(ps(8), Some(0)).len(), 0);
    assert_eq!(limit_files(ps(4), Some(10)).len(), 4);
}
