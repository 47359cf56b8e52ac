use audioengine::event_loop::EventLoop;

#[test]
fn fresh_loop_needs_a_first_draw() {
    let el = EventLoop::new(100);
    assert!(!el.should_block(0));
    assert!(!el.should_block(3));
    assert_eq!(el.recent_frames(), Vec::<u64>::new());
}

#[test]
fn pace_delay_tops_up_to_ten_milliseconds() {
    let el = EventLoop::new(100);
    assert_eq!(el.pace_delay_ms(100), 10);
    assert_eq!(el.pace_delay_ms(104), 6);
    assert_eq!(el.pace_delay_ms(109), 1);
    assert_eq!(el.pace_delay_ms(110), 0);
    assert_eq!(el.pace_delay_ms(500), 0);
}

#[test]
fn end_tick_consumes_the_update_request() {
    let mut el = EventLoop::new(0);
    el.end_tick(5);
    // With no pending events and no update request the loop may block.
    assert!(el.should_block(0));
    assert!(!el.should_block(1));
    el.needs_update();
    assert!(!el.should_block(0));
}

#[test]
fn end_tick_paces_from_the_new_time() {
    let mut el = EventLoop::new(0);
    el.end_tick(42);
    assert_eq!(el.pace_delay_ms(45), 7);
}

#[test]
fn frame_counter_keeps_a_quarter_second() {
    let mut el = EventLoop::new(0);
    el.end_tick(100);
    el.end_tick(200);
    assert_eq!(el.recent_frames(), vec![100, 200]);
    // At 400 the cutoff is 150: the frame at 100 is dropped.
    el.end_tick(400);
    assert_eq!(el.recent_frames(), vec![200, 400]);
    // At 700 the cutoff is 450: both older frames are dropped.
    el.end_tick(700);
    assert_eq!(el.recent_frames(), vec![700]);
}

#[test]
fn frame_counter_in_the_first_quarter_second() {
    let mut el = EventLoop::new(0);
    el.end_tick(10);
    el.end_tick(20);
    // Below 250 ms nothing can be too old yet.
    assert_eq!(el.recent_frames(), vec![10, 20]);
}
