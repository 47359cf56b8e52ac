use audioengine::keys_state::KeysState;
use audioengine::types::KeyAction;

#[test]
fn current_of_empty_stack_is_none() {
    let stack = KeysState::new();
    assert_eq!(stack.current(), None);
    assert_eq!(stack.held_keys(), Vec::<i32>::new());
}

#[test]
fn press_makes_note_current() {
    let mut stack = KeysState::new();
    assert_eq!(stack.key_down(KeyAction::Press(5)), Some(5));
    assert_eq!(stack.current(), Some(5));
}

#[test]
fn press_press_release_falls_back() {
    // S3: Press(3), Press(5), Release(5) leaves 3 sounding.
    let mut stack = KeysState::new();
    stack.key_down(KeyAction::Press(3));
    stack.key_down(KeyAction::Press(5));
    let after = stack.key_down(KeyAction::Release(5));
    assert_eq!(after, Some(3));
    assert_eq!(stack.current(), Some(3));
}

#[test]
fn repress_keeps_single_entry() {
    // S4: Press(3), Press(3) leaves the stack holding exactly [3].
    let mut stack = KeysState::new();
    stack.key_down(KeyAction::Press(3));
    stack.key_down(KeyAction::Press(3));
    assert_eq!(stack.held_keys(), vec![3]);
}

#[test]
fn repress_moves_note_to_front() {
    // Re-trigger: pressing a held note moves it to the front.
    let mut stack = KeysState::new();
    stack.key_down(KeyAction::Press(1));
    stack.key_down(KeyAction::Press(2));
    let after = stack.key_down(KeyAction::Press(1));
    assert_eq!(after, Some(1));
    assert_eq!(stack.held_keys(), vec![1, 2]);
}

#[test]
fn release_of_unheld_note_is_noop() {
    // Release tolerance: releasing an unheld note changes nothing.
    let mut stack = KeysState::new();
    stack.key_down(KeyAction::Press(4));
    let after = stack.key_down(KeyAction::Release(9));
    assert_eq!(after, Some(4));
    assert_eq!(stack.held_keys(), vec![4]);

    let mut empty = KeysState::new();
    assert_eq!(empty.key_down(KeyAction::Release(0)), None);
    assert_eq!(empty.held_keys(), Vec::<i32>::new());
}

#[test]
fn last_pressed_wins_ordering() {
    // Press(1), Press(2), Release(2): the most recent unreleased press wins.
    let mut stack = KeysState::new();
    stack.key_down(KeyAction::Press(1));
    stack.key_down(KeyAction::Press(2));
    stack.key_down(KeyAction::Release(2));
    assert_eq!(stack.current(), Some(1));
}

#[test]
fn no_duplicates_at_any_observation_point() {
    let events = [
        KeyAction::Press(1),
        KeyAction::Press(2),
        KeyAction::Press(1),
        KeyAction::Release(2),
        KeyAction::Press(3),
        KeyAction::Press(2),
        KeyAction::Press(2),
        KeyAction::Release(1),
        KeyAction::Press(1),
    ];
    let mut stack = KeysState::new();
    for e in events {
        stack.key_down(e);
        let held = stack.held_keys();
        for a in 0..held.len() {
            for b in 0..held.len() {
                if a != b {
                    assert_ne!(held[a], held[b]);
                }
            }
        }
    }
    // Held: 1 (most recent), 2, 3.
    assert_eq!(stack.held_keys(), vec![1, 2, 3]);
}

#[test]
fn release_everything_empties_the_stack() {
    let mut stack = KeysState::new();
    stack.key_down(KeyAction::Press(7));
    stack.key_down(KeyAction::Press(8));
    stack.key_down(KeyAction::Release(7));
    let after = stack.key_down(KeyAction::Release(8));
    assert_eq!(after, None);
    assert_eq!(stack.current(), None);
}
