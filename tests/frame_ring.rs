use furry_render::frames::FrameScheduler;

#[test]
fn new_ring_starts_at_slot_zero() {
    let ring: FrameScheduler<&str, u32> = FrameScheduler::new(vec!["set0", "set1"]);
    assert_eq!(ring.frames_in_flight_count(), 2);
    assert_eq!(ring.tick(), 0);
    assert_eq!(ring.frame_index(), 0);
    assert_eq!(*ring.frame(), "set0");
}

#[test]
fn frame_index_is_tick_modulo_ring_length() {
    let mut ring: FrameScheduler<u8, u32> = FrameScheduler::new(vec![0, 1, 2]);
    for expected in [1usize, 2, 0, 1, 2, 0, 1] {
        ring.begin_frame();
        assert_eq!(ring.frame_index(), expected);
        assert_eq!(ring.tick() as usize % 3, expected);
        assert_eq!(*ring.frame() as usize, expected);
    }
}

#[test]
fn submissions_are_held_until_the_slot_comes_back() {
    let mut ring: FrameScheduler<(), &str> = FrameScheduler::new(vec![(), ()]);
    assert!(ring.begin_frame().is_empty()); // tick 1
    ring.submit_frame(vec!["a", "b"]);
    assert!(ring.begin_frame().is_empty()); // tick 2
    ring.submit_frame(vec!["c"]);
    assert_eq!(ring.begin_frame(), vec!["a", "b"]); // tick 3
    ring.submit_frame(vec![]);
    assert_eq!(ring.begin_frame(), vec!["c"]); // tick 4
    assert!(ring.begin_frame().is_empty()); // tick 5
}

#[test]
fn several_submissions_in_one_tick_are_kept_together() {
    let mut ring: FrameScheduler<(), u32> = FrameScheduler::new(vec![()]);
    ring.begin_frame();
    ring.submit_frame(vec![1]);
    ring.submit_frame(vec![2, 3]);
    assert_eq!(ring.begin_frame(), vec![1, 2, 3]);
}

#[test]
fn frame_mut_writes_the_current_slot() {
    let mut ring: FrameScheduler<u32, ()> = FrameScheduler::new(vec![10, 20]);
    ring.begin_frame();
    *ring.frame_mut() += 5;
    assert_eq!(*ring.frame(), 25);
    ring.begin_frame();
    assert_eq!(*ring.frame(), 10);
}
