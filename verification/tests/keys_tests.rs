use pfinder::keys::{Keys, HOLD_FRAMES, KEY_COUNT};

#[test]
fn new_keys_hold_nothing() {
    let k = Keys::new();
    assert_eq!(k.frame, 0);
    for i in 0..KEY_COUNT {
        assert!(!k.held(i));
    }
}

#[test]
fn pressed_key_is_held_for_the_hold_window() {
    let mut k = Keys::new();
    k.tick();
    k.press(0);
    assert!(k.held(0));
    for _ in 1..HOLD_FRAMES {
        k.tick();
        assert!(k.held(0));
    }
    k.tick();
    assert!(!k.held(0));
}

#[test]
fn release_stops_a_key_at_once() {
    let mut k = Keys::new();
    k.tick();
    k.press(3);
    assert!(k.held(3));
    k.release(3);
    assert!(!k.held(3));
}

#[test]
fn press_before_first_tick_does_not_count() {
    // the timer of a key pressed on frame 0 reads as "never pressed"
    let mut k = Keys::new();
    k.press(1);
    assert!(!k.held(1));
}

#[test]
fn keys_are_independent() {
    let mut k = Keys::new();
    k.tick();
    k.press(2);
    k.press(5);
    k.release(2);
    assert!(!k.held(2));
    assert!(k.held(5));
    assert!(!k.held(0));
}

#[test]
fn repeat_event_refreshes_the_window() {
    let mut k = Keys::new();
    k.tick();
    k.press(4);
    for _ in 0..2 {
        k.tick();
    }
    k.press(4);
    for _ in 0..2 {
        k.tick();
    }
    // four frames after the first press, but two after the repeat
    assert!(k.held(4));
    assert_eq!(k.timers[4], 3);
    assert_eq!(k.frame, 5);
}

#[test]
fn movement_stops_three_frames_after_the_last_press() {
    let mut k = Keys::new();
    k.tick();
    k.press(0);
    k.tick();
    k.tick();
    assert!(k.held(0));
    k.tick();
    assert!(!k.held(0));
}
