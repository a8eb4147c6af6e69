use beframe::bf_async::process::{frame_dir, frame_file};
use beframe::cap::clip::Beframe as CapBeframe;
use beframe::cap::op::{hash, load_x64, load_x64_rayon};
use beframe::clip::{Beframe, Frame};
use beframe::frames::rgb_frame_bytes;
use beframe::hyper::X264Video;
use beframe::tk::X264Video as TkVideo;
use beframe::video::av::X264Video as AvVideo;

const ABC: &str = "900150983cd24fb0d6963f7d28e17f72";

#[test]
fn hyper_video_named_by_contents() {
    let v = X264Video::load(&b"abc".to_vec());
    assert_eq!(v.hash(), format!("fc/{}", ABC));
    let w = X264Video::load(&b"abc".to_vec());
    assert_eq!(v.hash(), w.hash());
    assert_ne!(v.hash(), X264Video::load(&b"abd".to_vec()).hash());
}

#[test]
fn beframe_hash_is_cache_dir() {
    let b = Beframe::from("videos/a.mp4".to_string(), b"abc");
    assert_eq!(b.hash(), format!("fc/{}", ABC));
    assert_eq!(b.path(), "videos/a.mp4");
    let _f = Frame::new(vec![1, 2, 3], 1, 1);
}

#[test]
fn cap_beframe_frames() {
    let b = CapBeframe::from("v.mp4".to_string(), b"abc");
    assert_eq!(b.hash(), format!("fc/{}", ABC));
    assert_eq!(b.frame_path(0), format!("fc/{}/0000.jpg", ABC));
    assert_eq!(b.frame_path(17), format!("fc/{}/0017.jpg", ABC));
    let l = CapBeframe::load("v.mp4".to_string(), b"abc");
    assert_eq!(l.hash(), b.hash());
    let mut s = CapBeframe::frame_sampler();
    let kept: Vec<Option<u64>> = (0..6).map(|_| s.on_frame()).collect();
    assert_eq!(kept, vec![Some(0), None, None, None, None, Some(1)]);
}

#[test]
fn av_video_from_path() {
    let v = AvVideo::from("videos/clip01.mp4".to_string(), "/data/frame");
    assert_eq!(v.local(), "/data/frame/clip01");
    assert_eq!(v.path(), "videos/clip01.mp4");
    assert_eq!(v.frame_path(3), "/data/frame/clip01/0003.jpg");
}

#[test]
fn av_video_load_stages_in_shm() {
    let v = AvVideo::load(b"abc", "/data/frame");
    assert_eq!(v.path(), &format!("/dev/shm/{}.mp4", ABC));
    assert_eq!(v.local(), &format!("/data/frame/{}", ABC));
    let mut s = AvVideo::frame_sampler();
    let kept: Vec<Option<u64>> = (0..10).map(|_| s.on_frame()).collect();
    assert_eq!(kept[0], Some(0));
    assert_eq!(kept[9], Some(1));
    assert!(kept[1..9].iter().all(|k| k.is_none()));
}

#[test]
fn tk_video_frame_names() {
    let v = TkVideo::load("in.mp4".to_string(), b"abc");
    assert_eq!(v.local(), &format!("fc/{}", ABC));
    assert_eq!(v.frame_path(3), format!("fc/{}/0003.jpg", ABC));
    let mut s = TkVideo::frame_sampler();
    assert_eq!(s.on_frame(), Some(0));
    assert_eq!(s.on_frame(), None);
}

#[test]
fn async_video_frame_names() {
    let v = beframe::bf_async::video::X264Video::load("in.mp4", b"abc");
    assert_eq!(v.path(), "in.mp4");
    assert_eq!(v.frame_path(12), format!("fc/{}/0012.png", ABC));
}

#[test]
fn process_frame_locations() {
    assert_eq!(frame_dir("cc", b"abc"), format!("cc/{}", ABC));
    assert_eq!(frame_file("cc/x", 7), "cc/x/0007.png");
}

#[test]
fn rgb_frames_must_cover_the_image() {
    assert_eq!(rgb_frame_bytes(2, 2, vec![7; 12]), Some(vec![7; 12]));
    assert_eq!(rgb_frame_bytes(2, 2, vec![7; 13]), Some(vec![7; 13]));
    assert_eq!(rgb_frame_bytes(2, 2, vec![7; 11]), None);
    assert_eq!(rgb_frame_bytes(0, 0, vec![]), Some(vec![]));
    assert_eq!(rgb_frame_bytes(u32::MAX, u32::MAX, vec![0; 3]), None);
    if usize::BITS == 64 {
        assert_eq!(rgb_frame_bytes(u32::MAX, 0, vec![]), Some(vec![]));
    } else {
        assert_eq!(rgb_frame_bytes(u32::MAX, 0, vec![]), None);
    }
}

#[test]
fn batch_load_and_hash() {
    let buffs = vec![b"abc".to_vec(), b"".to_vec(), b"abc".to_vec()];
    let videos = load_x64(buffs.clone());
    let hashes = hash(&videos);
    assert_eq!(
        hashes,
        vec![
            format!("fc/{}", ABC),
            "fc/d41d8cd98f00b204e9800998ecf8427e".to_string(),
            format!("fc/{}", ABC),
        ]
    );
    let mut par = hash(&load_x64_rayon(buffs));
    let mut seq = hashes.clone();
    par.sort();
    seq.sort();
    assert_eq!(par, seq);
}
