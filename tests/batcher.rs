use lsystem::batcher::{InstanceStream, ShapeBatcher};

#[test]
fn stream_reuse_after_shorter_frame() {
    let mut s: InstanceStream<u32> = InstanceStream::new();
    for i in 0..5u32 {
        s.record(i);
    }
    s.finish();
    assert_eq!(s.instances(), &[0, 1, 2, 3, 4]);
    for i in 10..13u32 {
        s.record(i);
    }
    assert_eq!(s.len(), 3);
    s.finish();
    assert_eq!(s.instances().len(), 3);
    assert_eq!(s.instances(), &[10, 11, 12]);
    assert_eq!(s.len(), 0);
}

#[test]
fn stream_grows_after_longer_frame() {
    let mut s: InstanceStream<u32> = InstanceStream::new();
    s.record(1);
    s.finish();
    for i in 0..4u32 {
        s.record(i);
    }
    s.finish();
    assert_eq!(s.instances(), &[0, 1, 2, 3]);
}

#[test]
fn empty_frame_clears() {
    let mut s: InstanceStream<u32> = InstanceStream::new();
    s.record(7);
    s.finish();
    s.finish();
    assert!(s.instances().is_empty());
}

#[test]
fn batcher_keeps_kinds_apart() {
    let mut b: ShapeBatcher<f32, (f32, f32)> = ShapeBatcher::new();
    b.draw_line(1.5);
    b.draw_circle((2.0, 3.0));
    b.draw_line(4.5);
    b.finish();
    assert_eq!(b.lines.instances(), &[1.5, 4.5]);
    assert_eq!(b.circles.instances(), &[(2.0, 3.0)]);
}
