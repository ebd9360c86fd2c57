use passrs::crypto::derive_key;
use passrs::keys::Key;
use passrs::session::{
    Action, MasterPassResult, Mode, PromptState, Session, Tab,
};
use passrs::store::{Password, Passwords};
use passrs::text::{chars_to_string, str_to_chars};
use passrs::totp::TotpCode;

fn store_with_passwords(names: &[&str]) -> Passwords {
    let mut store = Passwords::empty();
    for n in names {
        store.pass.push(Password {
            name: str_to_chars(n),
            password: str_to_chars("pw"),
            delete: false,
        });
    }
    store
}

fn session_on_pass_tab(names: &[&str]) -> Session {
    let mut s = Session::new(store_with_passwords(names), None);
    s.main_key(&Key::Tab);
    assert!(matches!(s.view.tab, Tab::Password));
    s
}

#[test]
fn session_starts_clean_on_the_totp_tab() {
    let s = Session::new(Passwords::empty(), None);
    assert!(matches!(s.view.tab, Tab::Totp));
    assert!(!s.dirty);
    assert!(matches!(s.mode, Mode::Main));
}

#[test]
fn session_selection_moves_are_clamped() {
    let mut s = session_on_pass_tab(&["a", "b", "c"]);
    s.main_key(&Key::Up);
    assert_eq!(s.view.pass_scroll, 0);
    s.main_key(&Key::Down);
    assert_eq!(s.view.pass_scroll, 1);
    s.main_key(&Key::End);
    assert_eq!(s.view.pass_scroll, 2);
    s.main_key(&Key::Down);
    assert_eq!(s.view.pass_scroll, 2);
    s.main_key(&Key::Home);
    assert_eq!(s.view.pass_scroll, 0);
    assert!(!s.dirty);
}

#[test]
fn session_reorder_marks_dirty_and_moves_selection() {
    let mut s = session_on_pass_tab(&["a", "b"]);
    s.main_key(&Key::Char('J'));
    assert_eq!(chars_to_string(&s.store.pass[0].name), "b");
    assert_eq!(chars_to_string(&s.store.pass[1].name), "a");
    assert_eq!(s.view.pass_scroll, 1);
    assert!(s.dirty);
}

#[test]
fn session_tombstone_is_sticky_dirty() {
    let mut s = session_on_pass_tab(&["a"]);
    s.main_key(&Key::Char('d'));
    assert!(s.store.pass[0].delete);
    assert!(s.dirty);
    s.main_key(&Key::Char('d'));
    assert!(!s.store.pass[0].delete);
    assert!(s.dirty);
}

#[test]
fn session_tombstoned_record_is_gone_after_save() {
    let mut s = session_on_pass_tab(&["keep", "drop"]);
    s.main_key(&Key::Char('j'));
    s.main_key(&Key::Char('d'));
    let r = s.main_key(&Key::Esc);
    assert!(matches!(r, Action::Exit));
    assert!(s.dirty);
    s.store.compact();
    let bytes = passrs::persist::store_to_bytes(&s.store);
    let back = passrs::persist::store_from_bytes(bytes).unwrap();
    assert_eq!(back.pass.len(), 1);
    assert_eq!(chars_to_string(&back.pass[0].name), "keep");
}

#[test]
fn session_copy_yields_selected_password() {
    let mut s = session_on_pass_tab(&["a"]);
    match s.main_key(&Key::Char('y')) {
        Action::Copy(text) => assert_eq!(text, "pw".to_string()),
        _ => panic!("expected a copy action"),
    }
    assert!(!s.dirty);
}

#[test]
fn session_copy_on_empty_list_does_nothing() {
    let mut s = session_on_pass_tab(&[]);
    assert!(matches!(s.main_key(&Key::Char('y')), Action::Nothing));
}

#[test]
fn session_edit_commit_replaces_record() {
    let mut s = session_on_pass_tab(&["old"]);
    s.main_key(&Key::Char('e'));
    assert!(matches!(s.mode, Mode::PassDialog(_)));
    // Append to the name, then commit.
    s.pass_dialog_key(&Key::Char('!'));
    s.pass_dialog_key(&Key::Enter);
    assert!(matches!(s.mode, Mode::Main));
    assert_eq!(chars_to_string(&s.store.pass[0].name), "old!");
    assert!(s.dirty);
}

#[test]
fn session_edit_cancel_leaves_record_untouched() {
    let mut s = session_on_pass_tab(&["old"]);
    s.main_key(&Key::Char('e'));
    s.pass_dialog_key(&Key::Char('!'));
    s.pass_dialog_key(&Key::Esc);
    assert!(matches!(s.mode, Mode::Main));
    assert_eq!(chars_to_string(&s.store.pass[0].name), "old");
    assert!(!s.dirty);
}

#[test]
fn session_new_record_is_inserted_after_selection() {
    let mut s = session_on_pass_tab(&["a", "b"]);
    s.main_key(&Key::Char('o'));
    s.pass_dialog_key(&Key::Enter);
    assert_eq!(s.store.pass.len(), 3);
    assert_eq!(chars_to_string(&s.store.pass[1].name), "New Password");
    assert_eq!(s.view.pass_scroll, 1);
    assert!(s.dirty);
}

#[test]
fn session_totp_dialog_clamps_digits() {
    let mut s = Session::new(Passwords::empty(), None);
    s.main_key(&Key::Char('o'));
    assert!(matches!(s.mode, Mode::TotpDialog(_)));
    // Move focus to the digit field and push past both ends.
    s.totp_dialog_key(&Key::Down);
    for _ in 0..5 {
        s.totp_dialog_key(&Key::Right);
    }
    s.totp_dialog_key(&Key::Enter);
    assert_eq!(s.store.totp[0].digits, 7);

    s.main_key(&Key::Char('e'));
    s.totp_dialog_key(&Key::Down);
    for _ in 0..9 {
        s.totp_dialog_key(&Key::Left);
    }
    s.totp_dialog_key(&Key::Enter);
    assert_eq!(s.store.totp[0].digits, 4);
}

#[test]
fn session_totp_commit_interprets_secret() {
    let mut s = Session::new(Passwords::empty(), None);
    s.main_key(&Key::Char('o'));
    // Move focus to the secret field and type a canonical base32 text.
    s.totp_dialog_key(&Key::Up);
    for c in "MFRGG".chars() {
        s.totp_dialog_key(&Key::Char(c));
    }
    s.totp_dialog_key(&Key::Enter);
    assert_eq!(s.store.totp[0].secret, b"abc".to_vec());
    assert!(s.store.totp[0].raw_secret.is_none());
    assert!(s.store.totp[0].cached_codes.is_none());
}

#[test]
fn session_tick_fills_and_reuses_codes() {
    let mut store = Passwords::empty();
    let mut t = TotpCode::new();
    t.set_secret_string(str_to_chars("GEZDGNBVGY3TQOJQGEZDGNBVGY3TQOJQ"));
    store.totp.push(t);
    let mut s = Session::new(store, None);
    s.tick(59);
    assert_eq!(s.store.totp[0].get_code(false), "287082".to_string());
    let cached = s.store.totp[0].cached_codes.as_ref().unwrap().window;
    assert_eq!(cached, 1);
    s.tick(45);
    assert_eq!(s.store.totp[0].get_code(false), "287082".to_string());
}

#[test]
fn session_prompt_replaces_key_and_marks_dirty() {
    let mut s = Session::new(Passwords::empty(), None);
    s.main_key(&Key::Char('p'));
    assert!(matches!(s.mode, Mode::Prompt(_)));
    for c in "hunter2".chars() {
        s.prompt_key(&Key::Char(c));
    }
    s.prompt_key(&Key::Enter);
    assert!(matches!(s.mode, Mode::Main));
    assert_eq!(s.key.as_ref().unwrap(), &derive_key(&b"hunter2".to_vec()));
    assert!(s.dirty);
}

#[test]
fn session_prompt_cancel_changes_nothing() {
    let mut s = Session::new(Passwords::empty(), None);
    s.main_key(&Key::Char('p'));
    s.prompt_key(&Key::Char('x'));
    s.prompt_key(&Key::Esc);
    assert!(matches!(s.mode, Mode::Main));
    assert!(s.key.is_none());
    assert!(!s.dirty);
}

#[test]
fn master_prompt_caps_and_classifies() {
    let mut p = PromptState::new();
    for _ in 0..40 {
        p.prompt_key(&Key::Char('x'));
    }
    assert_eq!(p.text.len(), 32);
    match p.prompt_key(&Key::Enter) {
        Some(MasterPassResult::Password(text)) => assert_eq!(text.len(), 32),
        _ => panic!("expected a password result"),
    }

    let mut empty = PromptState::new();
    assert!(matches!(empty.prompt_key(&Key::Enter), Some(MasterPassResult::NoPassword)));
    let mut esc = PromptState::new();
    assert!(matches!(esc.prompt_key(&Key::Esc), Some(MasterPassResult::Cancel)));
}

#[test]
fn session_window_advance_resets_next_toggle() {
    let mut s = Session::new(Passwords::empty(), None);
    s.tick(45);
    s.main_key(&Key::Char('n'));
    assert!(s.view.totp_next);
    s.tick(59);
    assert!(s.view.totp_next);
    s.tick(60);
    assert!(!s.view.totp_next);
}

#[test]
fn master_prompt_cap_counts_bytes_not_code_points() {
    let mut p = PromptState::new();
    for _ in 0..16 {
        p.prompt_key(&Key::Char('é'));
    }
    assert_eq!(p.text.len(), 16);
    // Sixteen two-byte characters already fill the 32-byte key width:
    // a further character is discarded.
    p.prompt_key(&Key::Char('x'));
    assert_eq!(p.text.len(), 16);
    p.prompt_key(&Key::Backspace);
    p.prompt_key(&Key::Char('x'));
    assert_eq!(p.text.len(), 16);
}

#[test]
fn session_theme_cycle_marks_dirty() {
    let mut s = Session::new(Passwords::empty(), None);
    let before = s.store.ui_colour;
    s.main_key(&Key::Char('c'));
    assert_eq!(s.store.ui_colour, (before + 1) % passrs::store::PALETTE_SIZE);
    assert!(s.dirty);
}

#[test]
fn session_toggles_flip_view_flags() {
    let mut s = Session::new(Passwords::empty(), None);
    s.main_key(&Key::Char('v'));
    assert!(s.view.show_all);
    s.main_key(&Key::Char('n'));
    assert!(s.view.totp_next);
    s.main_key(&Key::Char('v'));
    assert!(!s.view.show_all);
}
