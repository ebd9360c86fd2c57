use passrs::editor::{input_string, AfterAction};
use passrs::keys::Key;
use passrs::text::{chars_to_string, str_to_chars};

fn buf(s: &str) -> Vec<char> {
    str_to_chars(s)
}

#[test]
fn editor_insert_advances_cursor() {
    let mut b = buf("ac");
    let mut i: usize = 1;
    let r = input_string(&mut b, &mut i, &Key::Char('b'));
    assert!(matches!(r, AfterAction::Continue));
    assert_eq!(chars_to_string(&b), "abc");
    assert_eq!(i, 2);
}

#[test]
fn editor_insert_then_backspace_restores() {
    let original = buf("héllo");
    for at in 0..=original.len() {
        let mut b = original.clone();
        let mut i = at;
        input_string(&mut b, &mut i, &Key::Char('✓'));
        input_string(&mut b, &mut i, &Key::Backspace);
        assert_eq!(b, original);
        assert_eq!(i, at);
    }
}

#[test]
fn editor_moves_clamp_to_bounds() {
    let mut b = buf("ab");
    let mut i: usize = 0;
    input_string(&mut b, &mut i, &Key::Left);
    assert_eq!(i, 0);
    input_string(&mut b, &mut i, &Key::End);
    assert_eq!(i, 2);
    input_string(&mut b, &mut i, &Key::Right);
    assert_eq!(i, 2);
    input_string(&mut b, &mut i, &Key::Home);
    assert_eq!(i, 0);
}

#[test]
fn editor_backspace_at_start_and_delete_at_end_do_nothing() {
    let mut b = buf("xy");
    let mut i: usize = 0;
    input_string(&mut b, &mut i, &Key::Backspace);
    assert_eq!(chars_to_string(&b), "xy");
    i = 2;
    input_string(&mut b, &mut i, &Key::Delete);
    assert_eq!(chars_to_string(&b), "xy");
    assert_eq!(i, 2);
}

#[test]
fn editor_delete_removes_at_cursor() {
    let mut b = buf("aé✓b");
    let mut i: usize = 1;
    input_string(&mut b, &mut i, &Key::Delete);
    assert_eq!(chars_to_string(&b), "a✓b");
    assert_eq!(i, 1);
}

#[test]
fn editor_enter_and_escape_terminate_unchanged() {
    let mut b = buf("pw");
    let mut i: usize = 1;
    assert!(matches!(input_string(&mut b, &mut i, &Key::Enter), AfterAction::Enter));
    assert!(matches!(input_string(&mut b, &mut i, &Key::Esc), AfterAction::Cancel));
    assert_eq!(chars_to_string(&b), "pw");
    assert_eq!(i, 1);
}

#[test]
fn editor_up_down_are_unconsumed() {
    let mut b = buf("pw");
    let mut i: usize = 1;
    assert!(matches!(input_string(&mut b, &mut i, &Key::Up), AfterAction::Continue));
    assert!(matches!(input_string(&mut b, &mut i, &Key::Down), AfterAction::Continue));
    assert_eq!(chars_to_string(&b), "pw");
    assert_eq!(i, 1);
}
