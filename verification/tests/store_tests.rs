use passrs::store::{shift_item, Password, Passwords, PALETTE_SIZE};
use passrs::text::{chars_to_string, str_to_chars};

fn named(name: &str) -> Password {
    Password { name: str_to_chars(name), password: str_to_chars("pw"), delete: false }
}

fn names(v: &Vec<Password>) -> Vec<String> {
    v.iter().map(|p| chars_to_string(&p.name)).collect()
}

#[test]
fn shift_first_up_is_a_no_op() {
    let mut v = vec![named("a"), named("b"), named("c")];
    let mut sel: usize = 0;
    shift_item(&mut v, &mut sel, true);
    assert_eq!(names(&v), vec!["a", "b", "c"]);
    assert_eq!(sel, 0);
}

#[test]
fn shift_last_down_is_a_no_op() {
    let mut v = vec![named("a"), named("b"), named("c")];
    let mut sel: usize = 2;
    shift_item(&mut v, &mut sel, false);
    assert_eq!(names(&v), vec!["a", "b", "c"]);
    assert_eq!(sel, 2);
}

#[test]
fn shift_moves_selection_with_element() {
    let mut v = vec![named("a"), named("b"), named("c")];
    let mut sel: usize = 1;
    shift_item(&mut v, &mut sel, true);
    assert_eq!(names(&v), vec!["b", "a", "c"]);
    assert_eq!(sel, 0);

    let mut sel2: usize = 1;
    shift_item(&mut v, &mut sel2, false);
    assert_eq!(names(&v), vec!["b", "c", "a"]);
    assert_eq!(sel2, 2);
}

#[test]
fn shift_short_list_is_a_no_op() {
    let mut v = vec![named("solo")];
    let mut sel: usize = 0;
    shift_item(&mut v, &mut sel, false);
    assert_eq!(names(&v), vec!["solo"]);
    assert_eq!(sel, 0);
}

#[test]
fn compact_drops_tombstoned_keeping_order() {
    let mut store = Passwords::empty();
    store.pass.push(named("keep1"));
    store.pass.push(named("drop"));
    store.pass.push(named("keep2"));
    store.pass[1].delete = true;
    store.compact();
    assert_eq!(names(&store.pass), vec!["keep1", "keep2"]);
}

#[test]
fn toggle_tombstone_is_reversible() {
    let mut store = Passwords::empty();
    store.pass.push(named("a"));
    store.toggle_pass_delete(0);
    assert!(store.pass[0].delete);
    store.toggle_pass_delete(0);
    assert!(!store.pass[0].delete);
}

#[test]
fn add_pass_inserts_after_index() {
    let mut store = Passwords::empty();
    store.pass.push(named("a"));
    store.pass.push(named("c"));
    store.add_pass(named("b"), 0);
    assert_eq!(names(&store.pass), vec!["a", "b", "c"]);
    store.add_pass(named("z"), 99);
    assert_eq!(names(&store.pass), vec!["a", "b", "c", "z"]);
}

#[test]
fn replace_pass_commits_an_edit() {
    let mut store = Passwords::empty();
    store.pass.push(named("old"));
    store.replace_pass(0, named("new"));
    assert_eq!(names(&store.pass), vec!["new"]);
}

#[test]
fn cycle_theme_wraps_at_palette_size() {
    let mut store = Passwords::empty();
    store.ui_colour = PALETTE_SIZE - 1;
    store.cycle_theme();
    assert_eq!(store.ui_colour, 0);
    store.cycle_theme();
    assert_eq!(store.ui_colour, 1);
}

#[test]
fn clamp_colour_renormalizes_loaded_index() {
    let mut store = Passwords::empty();
    store.ui_colour = PALETTE_SIZE * 3 + 4;
    store.clamp_colour();
    assert_eq!(store.ui_colour, 4);
}

#[test]
fn new_password_record_has_defaults() {
    let p = Password::new();
    assert_eq!(chars_to_string(&p.name), "New Password");
    assert_eq!(p.password.len(), 32);
    assert!(!p.delete);
}

#[test]
fn password_spaced_chars_uses_widest_code_point() {
    let p = Password { name: str_to_chars("n"), password: str_to_chars("aé"), delete: false };
    let (spacing, cols) = p.spaced_chars();
    assert_eq!(spacing, 2);
    assert_eq!(cols, vec![(0usize, 'a'), (2usize, 'é')]);
}

#[test]
fn clip_string_keeps_prefix_and_adds_ellipsis() {
    let clipped = passrs::text::clip_string(&str_to_chars("hello world"), 8);
    assert_eq!(chars_to_string(&clipped), "hell...");
    let whole = passrs::text::clip_string(&str_to_chars("short"), 8);
    assert_eq!(chars_to_string(&whole), "short");
}
