use invaders::input::{Input, Key};

#[test]
fn opposite_directions_exclude_each_other() {
    let mut input = Input::new();
    input.press(Key::Left);
    assert!(input.left && !input.right);
    input.press(Key::Right);
    assert!(input.right && !input.left);
    input.press(Key::Up);
    input.press(Key::Down);
    assert!(input.down && !input.up);
    assert!(input.right);
}

#[test]
fn release_clears_only_its_key() {
    let mut input = Input::new();
    input.press(Key::Fire);
    input.press(Key::Forward);
    input.press(Key::Left);
    input.release(Key::Fire);
    assert!(!input.fire && input.forward && input.left);
    input.release(Key::Right);
    assert!(input.left);
}
