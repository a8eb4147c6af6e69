use beframe::sampler::FrameSampler;

fn run(stride: u64, frames: u64) -> (Vec<Option<u64>>, u64) {
    let mut s = FrameSampler::new(stride);
    let mut out = Vec::new();
    for _ in 0..frames {
        out.push(s.on_frame());
    }
    (out, s.kept())
}

#[test]
fn keeps_one_in_five() {
    let (out, kept) = run(5, 11);
    let expected = vec![
        Some(0), None, None, None, None,
        Some(1), None, None, None, None,
        Some(2),
    ];
    assert_eq!(out, expected);
    assert_eq!(kept, 3);
}

#[test]
fn stride_one_keeps_every_frame() {
    let (out, kept) = run(1, 4);
    assert_eq!(out, vec![Some(0), Some(1), Some(2), Some(3)]);
    assert_eq!(kept, 4);
}

#[test]
fn kept_count_is_ceiling() {
    for stride in 1..12u64 {
        for n in 0..40u64 {
            let (out, kept) = run(stride, n);
            assert_eq!(kept, (n + stride - 1) / stride);
            let numbers: Vec<u64> = out.iter().filter_map(|x| *x).collect();
            let expected: Vec<u64> = (0..kept).collect();
            assert_eq!(numbers, expected);
        }
    }
}

#[test]
fn counters_track_frames() {
    let mut s = FrameSampler::new(9);
    assert_eq!(s.seen(), 0);
    assert_eq!(s.kept(), 0);
    assert_eq!(s.on_frame(), Some(0));
    for _ in 0..8 {
        assert_eq!(s.on_frame(), None);
    }
    assert_eq!(s.on_frame(), Some(1));
    assert_eq!(s.seen(), 10);
    assert_eq!(s.kept(), 2);
}
