//! The interactive session core: the modal state machine over the
//! master-password prompt, the main list view, and the edit dialogs.
//! The terminal loop feeds decoded keys and clock ticks in and performs
//! the returned actions; every decision is made here.

use vstd::prelude::*;
use crate::editor::{AfterAction, edited_buffer, edited_cursor, input_string};
use crate::keys::Key;
use crate::store::{Passwords, Password, PALETTE_SIZE, shifted_seq, shift_item};
use crate::totp::{TotpCode, clone_chars};

verus! {

/// The two record tabs of the main view.
#[derive(Clone, Copy, PartialEq, Eq, Structural, Debug)]
pub enum Tab {
    Password,
    Totp,
}

/// What the master-password prompt ended with.
pub enum MasterPassResult {
    /// Derive a key from this text.
    Password(Vec<char>),
    /// Run without encryption.
    NoPassword,
    /// Abandon the prompt.
    Cancel,
}

/// The text state of the master-password prompt.
pub struct PromptState {
    pub text: Vec<char>,
    pub cursor: usize,
}

/// Whether the prompt accepts one more typed character: typing is
/// capped once the text holds the key width in UTF-8 bytes.
pub open spec fn prompt_accepts(text: Seq<char>, keyev: Key) -> bool {
    !(vstd::utf8::encode_utf8(text).len() >= 32 && keyev matches Key::Char(_))
}

impl PromptState {
    /// An empty prompt.
    pub fn new() -> (r: PromptState)
        ensures
            r.text@.len() == 0,
            r.cursor@ == 0,
    {
        PromptState { text: Vec::new(), cursor: 0 }
    }

    /// Feed one key to the prompt. Enter ends it, with `NoPassword` for
    /// an empty text; Escape abandons it; a character past the cap is
    /// ignored; anything else edits the hidden text field.
    pub fn prompt_key(&mut self, keyev: &Key) -> (r: Option<MasterPassResult>)
        requires
            old(self).cursor@ <= old(self).text@.len(),
        ensures
            final(self).cursor@ <= final(self).text@.len(),
            !prompt_accepts(old(self).text@, *keyev) ==> *final(self) == *old(self) && r is None,
            prompt_accepts(old(self).text@, *keyev) ==> {
                &&& final(self).text@ == edited_buffer(old(self).text@, old(self).cursor@ as int, *keyev)
                &&& final(self).cursor@ as int == edited_cursor(
                    old(self).text@,
                    old(self).cursor@ as int,
                    *keyev,
                )
                &&& (match keyev {
                    Key::Enter => if old(self).text@.len() == 0 {
                        r matches Some(MasterPassResult::NoPassword)
                    } else {
                        (r matches Some(MasterPassResult::Password(p)) && p@ == old(self).text@)
                    },
                    Key::Esc => r matches Some(MasterPassResult::Cancel),
                    _ => r is None,
                })
            },
    {
        if crate::text::utf8_len_at_least(&self.text, 32) {
            if let Key::Char(_) = keyev {
                return None;
            }
        }
        match input_string(&mut self.text, &mut self.cursor, keyev) {
            AfterAction::Enter => {
                if self.text.len() == 0 {
                    Some(MasterPassResult::NoPassword)
                } else {
                    Some(MasterPassResult::Password(clone_chars(&self.text)))
                }
            },
            AfterAction::Cancel => Some(MasterPassResult::Cancel),
            AfterAction::Continue => None,
        }
    }
}

/// The per-tab selection and display toggles of the main view. The
/// selection doubles as the scroll anchor the viewport is computed from.
#[derive(Clone, Copy, PartialEq, Eq, Structural, Debug)]
pub struct MainState {
    pub tab: Tab,
    pub show_all: bool,
    pub totp_next: bool,
    pub pass_scroll: usize,
    pub totp_scroll: usize,
    /// The last 30-second wall-clock window a tick saw; the next-code
    /// toggle is reset when it advances.
    pub last_window: u64,
}

/// Selections stay on a record whenever a record exists.
pub open spec fn main_wf(v: MainState, s: crate::store::PasswordsView) -> bool {
    &&& (s.pass.len() == 0 ==> v.pass_scroll == 0)
    &&& (s.pass.len() > 0 ==> (v.pass_scroll as int) < s.pass.len())
    &&& (s.totp.len() == 0 ==> v.totp_scroll == 0)
    &&& (s.totp.len() > 0 ==> (v.totp_scroll as int) < s.totp.len())
}

/// An edit dialog over a password record: an owned temporary copy,
/// edited by field index, committed or discarded whole.
pub struct PassEdit {
    /// A new record to insert, rather than a change to `index`.
    pub mode_new: bool,
    /// The record the dialog was opened on (unused for a new record).
    pub index: usize,
    pub temp: Password,
    /// 0 is the name, 1 the password.
    pub field: usize,
    pub cursor: usize,
}

/// An edit dialog over a TOTP record. The secret is edited as one text
/// and interpreted only on commit.
pub struct TotpEdit {
    pub mode_new: bool,
    pub index: usize,
    pub temp: TotpCode,
    pub temp_secret: Vec<char>,
    /// 0 is the name, 1 the digit count, 2 the secret text.
    pub field: usize,
    pub cursor: usize,
}

pub open spec fn pass_edit_wf(d: PassEdit) -> bool {
    &&& d.field < 2
    &&& d.cursor <= pass_field_text(d).len()
}

/// The text of the focused field.
pub open spec fn pass_field_text(d: PassEdit) -> Seq<char> {
    if d.field == 0 {
        d.temp@.name
    } else {
        d.temp@.password
    }
}

pub open spec fn totp_edit_wf(d: TotpEdit) -> bool {
    &&& d.field < 3
    &&& (d.field != 1 ==> d.cursor <= totp_field_text(d).len())
}

/// The text of the focused field; the digit field has none.
pub open spec fn totp_field_text(d: TotpEdit) -> Seq<char> {
    if d.field == 0 {
        d.temp@.name
    } else {
        d.temp_secret@
    }
}



/// How one key transforms a password dialog (Enter and Escape leave it
/// to the session).
pub open spec fn pass_edit_rel(pre: PassEdit, post: PassEdit, keyev: Key) -> bool {
    &&& post.mode_new == pre.mode_new && post.index == pre.index
    &&& (match keyev {
        Key::Enter => post == pre,
        Key::Esc => post == pre,
        Key::Up | Key::Down => {
            &&& post.field == 1 - pre.field
            &&& post.temp@ == pre.temp@
            &&& post.cursor == pass_field_text(post).len()
        },
        _ => {
            &&& post.field == pre.field
            &&& pass_field_text(post) == edited_buffer(
                pass_field_text(pre),
                pre.cursor as int,
                keyev,
            )
            &&& post.cursor as int == edited_cursor(pass_field_text(pre), pre.cursor as int, keyev)
            &&& (pre.field == 0 ==> post.temp@.password == pre.temp@.password)
            &&& (pre.field == 1 ==> post.temp@.name == pre.temp@.name)
            &&& post.temp@.delete == pre.temp@.delete
        },
    })
}

/// How one key transforms a TOTP dialog.
pub open spec fn totp_edit_rel(pre: TotpEdit, post: TotpEdit, keyev: Key) -> bool {
    &&& post.mode_new == pre.mode_new && post.index == pre.index
    &&& post.temp@.raw_secret == pre.temp@.raw_secret
    &&& post.temp@.algorithm == pre.temp@.algorithm
    &&& post.temp@.skew == pre.temp@.skew
    &&& post.temp@.step == pre.temp@.step
    &&& post.temp@.secret == pre.temp@.secret
    &&& post.temp@.cached_codes == pre.temp@.cached_codes
    &&& post.temp@.delete == pre.temp@.delete
    &&& (match keyev {
        Key::Enter => post == pre,
        Key::Esc => post == pre,
        Key::Up => {
            &&& post.field == (if pre.field == 0 {
                2int
            } else {
                pre.field - 1
            })
            &&& post.temp@ == pre.temp@
            &&& post.temp_secret@ == pre.temp_secret@
            &&& (post.field != 1 ==> post.cursor == totp_field_text(post).len())
            &&& (post.field == 1 ==> post.cursor == pre.cursor)
        },
        Key::Down => {
            &&& post.field as int == (pre.field + 1) % 3
            &&& post.temp@ == pre.temp@
            &&& post.temp_secret@ == pre.temp_secret@
            &&& (post.field != 1 ==> post.cursor == totp_field_text(post).len())
            &&& (post.field == 1 ==> post.cursor == pre.cursor)
        },
        _ => {
            &&& post.field == pre.field
            &&& (pre.field == 1 ==> {
                &&& post.temp@.name == pre.temp@.name
                &&& post.temp_secret@ == pre.temp_secret@
                &&& post.cursor == pre.cursor
                &&& post.temp@.digits == (match keyev {
                    Key::Left => if pre.temp@.digits > 4 {
                        (pre.temp@.digits - 1) as usize
                    } else {
                        pre.temp@.digits
                    },
                    Key::Right => if pre.temp@.digits < 7 {
                        (pre.temp@.digits + 1) as usize
                    } else {
                        pre.temp@.digits
                    },
                    _ => pre.temp@.digits,
                })
            })
            &&& (pre.field != 1 ==> {
                &&& post.temp@.digits == pre.temp@.digits
                &&& totp_field_text(post) == edited_buffer(
                    totp_field_text(pre),
                    pre.cursor as int,
                    keyev,
                )
                &&& post.cursor as int == edited_cursor(
                    totp_field_text(pre),
                    pre.cursor as int,
                    keyev,
                )
                &&& (pre.field == 0 ==> post.temp_secret@ == pre.temp_secret@)
                &&& (pre.field == 2 ==> post.temp@.name == pre.temp@.name)
            })
        },
    })
}

/// Feed one key to a password-record dialog. Enter asks for a commit
/// and Escape for a discard, both decided by the session; Up and Down
/// move the field focus, re-seeding the cursor to the end of the newly
/// focused text; anything else edits the focused text.
pub fn pass_edit_key(d: &mut PassEdit, keyev: &Key) -> (r: AfterAction)
    requires
        pass_edit_wf(*old(d)),
    ensures
        pass_edit_wf(*final(d)),
        pass_edit_rel(*old(d), *final(d), *keyev),
        r == (match keyev {
            Key::Enter => AfterAction::Enter,
            Key::Esc => AfterAction::Cancel,
            _ => AfterAction::Continue,
        }),
{
    match keyev {
        Key::Enter => AfterAction::Enter,
        Key::Esc => AfterAction::Cancel,
        Key::Up | Key::Down => {
            d.field = 1 - d.field;
            d.cursor = if d.field == 0 {
                d.temp.name.len()
            } else {
                d.temp.password.len()
            };
            AfterAction::Continue
        },
        _ => {
            if d.field == 0 {
                input_string(&mut d.temp.name, &mut d.cursor, keyev);
            } else {
                input_string(&mut d.temp.password, &mut d.cursor, keyev);
            }
            AfterAction::Continue
        },
    }
}

/// Feed one key to a TOTP-record dialog. The digit field is adjusted
/// with Left and Right, clamped to the declared `[4, 8)` range; the two
/// text fields take the editor keys.
pub fn totp_edit_key(d: &mut TotpEdit, keyev: &Key) -> (r: AfterAction)
    requires
        totp_edit_wf(*old(d)),
    ensures
        totp_edit_wf(*final(d)),
        totp_edit_rel(*old(d), *final(d), *keyev),
        r == (match keyev {
            Key::Enter => AfterAction::Enter,
            Key::Esc => AfterAction::Cancel,
            _ => AfterAction::Continue,
        }),
{
    match keyev {
        Key::Enter => AfterAction::Enter,
        Key::Esc => AfterAction::Cancel,
        Key::Up => {
            d.field = if d.field == 0 {
                2
            } else {
                d.field - 1
            };
            if d.field == 0 {
                d.cursor = d.temp.name.len();
            } else if d.field == 2 {
                d.cursor = d.temp_secret.len();
            }
            AfterAction::Continue
        },
        Key::Down => {
            d.field = (d.field + 1) % 3;
            if d.field == 0 {
                d.cursor = d.temp.name.len();
            } else if d.field == 2 {
                d.cursor = d.temp_secret.len();
            }
            AfterAction::Continue
        },
        _ => {
            if d.field == 0 {
                input_string(&mut d.temp.name, &mut d.cursor, keyev);
            } else if d.field == 2 {
                input_string(&mut d.temp_secret, &mut d.cursor, keyev);
            } else {
                match keyev {
                    Key::Left => {
                        if d.temp.digits > 4 {
                            d.temp.digits = d.temp.digits - 1;
                        }
                    },
                    Key::Right => {
                        if d.temp.digits < 7 {
                            d.temp.digits = d.temp.digits + 1;
                        }
                    },
                    _ => {},
                }
            }
            AfterAction::Continue
        },
    }
}

/// What the loop must do after a key was handled.
pub enum Action {
    Nothing,
    /// Send this text to the clipboard sink.
    Copy(String),
    /// End the session; the loop saves when the session is dirty.
    Exit,
}

/// The current modal state.
pub enum Mode {
    Main,
    /// The in-session master-password prompt (the `p` command).
    Prompt(PromptState),
    PassDialog(PassEdit),
    TotpDialog(TotpEdit),
}

/// The whole interactive session: modal state, per-tab view state, the
/// store, the active encryption key, and the sticky dirty flag.
pub struct Session {
    pub mode: Mode,
    pub view: MainState,
    pub store: Passwords,
    /// The derived 32-byte key, or none for an unencrypted file.
    pub key: Option<Vec<u8>>,
    /// Set once anything was changed; never cleared within a session.
    pub dirty: bool,
}

pub open spec fn mode_wf(m: Mode, s: crate::store::PasswordsView) -> bool {
    match m {
        Mode::Main => true,
        Mode::Prompt(p) => p.cursor <= p.text@.len(),
        Mode::PassDialog(d) => pass_edit_wf(d) && (!d.mode_new ==> (d.index as int) < s.pass.len()),
        Mode::TotpDialog(d) => totp_edit_wf(d) && (!d.mode_new ==> (d.index as int)
            < s.totp.len()),
    }
}

/// The session invariant: selections in bounds, the theme index inside
/// the palette, a key of the cipher's width, a well-formed dialog, and
/// every record cache holding the codes of its window.
pub open spec fn session_wf(s: Session) -> bool {
    &&& main_wf(s.view, s.store@)
    &&& s.store@.ui_colour < PALETTE_SIZE
    &&& (s.key matches Some(k) ==> k@.len() == 32)
    &&& mode_wf(s.mode, s.store@)
    &&& (forall|i: int|
        0 <= i < s.store@.totp.len() ==> crate::totp::cache_coherent(#[trigger] s.store@.totp[i]))
}

impl Session {
    /// Begin a session on a loaded store: the authenticator tab, first
    /// rows selected, nothing dirty. The persisted theme index is
    /// re-normalized here.
    pub fn new(store: Passwords, key: Option<Vec<u8>>) -> (r: Session)
        requires
            key matches Some(k) ==> k@.len() == 32,
            forall|i: int|
                0 <= i < store@.totp.len() ==> (#[trigger] store@.totp[i]).cached_codes is None,
        ensures
            session_wf(r),
            r.mode is Main,
            r.view == (MainState {
                tab: Tab::Totp,
                show_all: false,
                totp_next: false,
                pass_scroll: 0,
                totp_scroll: 0,
                last_window: 0,
            }),
            r.store@.pass == store@.pass,
            r.store@.totp == store@.totp,
            r.store@.ui_colour == store@.ui_colour as int % (PALETTE_SIZE as int),
            r.key == key,
            r.dirty == false,
    {
        let mut store = store;
        store.clamp_colour();
        Session {
            mode: Mode::Main,
            view: MainState {
                tab: Tab::Totp,
                show_all: false,
                totp_next: false,
                pass_scroll: 0,
                totp_scroll: 0,
                last_window: 0,
            },
            store,
            key,
            dirty: false,
        }
    }

    /// Handle one key in the main view: tab switching, clamped
    /// selection moves, reordering, toggles, tombstoning, clipboard
    /// copy, opening dialogs and the re-prompt, and leaving the session.
    /// The dirty flag is sticky: every mutating command sets it, and
    /// nothing clears it.
    #[verifier::rlimit(100)]
    pub fn main_key(&mut self, keyev: &Key) -> (r: Action)
        requires
            session_wf(*old(self)),
            old(self).mode is Main,
        ensures
            session_wf(*final(self)),
            final(self).key == old(self).key,
            final(self).dirty == old(self).dirty || final(self).dirty,
            (match *keyev {
                Key::Esc | Key::Char('q') => {
                    &&& *final(self) == *old(self)
                    &&& r is Exit
                },
                Key::Tab => {
                    &&& final(self).view == (MainState {
                        tab: if old(self).view.tab is Password {
                            Tab::Totp
                        } else {
                            Tab::Password
                        },
                        ..old(self).view
                    })
                    &&& final(self).store@ == old(self).store@
                    &&& final(self).mode is Main
                    &&& final(self).dirty == old(self).dirty
                    &&& r is Nothing
                },
                Key::Up | Key::Char('k') => {
                    &&& final(self).view == (if old(self).view.tab is Password {
                        MainState {
                            pass_scroll: if old(self).view.pass_scroll > 0 {
                                (old(self).view.pass_scroll - 1) as usize
                            } else {
                                0
                            },
                            ..old(self).view
                        }
                    } else {
                        MainState {
                            totp_scroll: if old(self).view.totp_scroll > 0 {
                                (old(self).view.totp_scroll - 1) as usize
                            } else {
                                0
                            },
                            ..old(self).view
                        }
                    })
                    &&& final(self).store@ == old(self).store@
                    &&& final(self).mode is Main
                    &&& final(self).dirty == old(self).dirty
                    &&& r is Nothing
                },
                Key::Down | Key::Char('j') => {
                    &&& final(self).view == (if old(self).view.tab is Password {
                        MainState {
                            pass_scroll: if old(self).store@.pass.len() > 0 && (
                            old(self).view.pass_scroll as int) < old(self).store@.pass.len() - 1 {
                                (old(self).view.pass_scroll + 1) as usize
                            } else {
                                old(self).view.pass_scroll
                            },
                            ..old(self).view
                        }
                    } else {
                        MainState {
                            totp_scroll: if old(self).store@.totp.len() > 0 && (
                            old(self).view.totp_scroll as int) < old(self).store@.totp.len() - 1 {
                                (old(self).view.totp_scroll + 1) as usize
                            } else {
                                old(self).view.totp_scroll
                            },
                            ..old(self).view
                        }
                    })
                    &&& final(self).store@ == old(self).store@
                    &&& final(self).mode is Main
                    &&& final(self).dirty == old(self).dirty
                    &&& r is Nothing
                },
                Key::Home | Key::Char('g') => {
                    &&& final(self).view == (if old(self).view.tab is Password {
                        MainState { pass_scroll: 0, ..old(self).view }
                    } else {
                        MainState { totp_scroll: 0, ..old(self).view }
                    })
                    &&& final(self).store@ == old(self).store@
                    &&& final(self).mode is Main
                    &&& final(self).dirty == old(self).dirty
                    &&& r is Nothing
                },
                Key::End | Key::Char('G') => {
                    &&& final(self).view == (if old(self).view.tab is Password {
                        MainState {
                            pass_scroll: if old(self).store@.pass.len() > 0 {
                                (old(self).store@.pass.len() - 1) as usize
                            } else {
                                0
                            },
                            ..old(self).view
                        }
                    } else {
                        MainState {
                            totp_scroll: if old(self).store@.totp.len() > 0 {
                                (old(self).store@.totp.len() - 1) as usize
                            } else {
                                0
                            },
                            ..old(self).view
                        }
                    })
                    &&& final(self).store@ == old(self).store@
                    &&& final(self).mode is Main
                    &&& final(self).dirty == old(self).dirty
                    &&& r is Nothing
                },
                Key::Char('K') | Key::Char('J') => {
                    &&& (if old(self).view.tab is Password {
                        &&& (final(self).store@.pass, final(self).view.pass_scroll as int)
                            == shifted_seq(
                            old(self).store@.pass,
                            old(self).view.pass_scroll as int,
                            *keyev == Key::Char('K'),
                        )
                        &&& final(self).store@.totp == old(self).store@.totp
                        &&& final(self).view.totp_scroll == old(self).view.totp_scroll
                    } else {
                        &&& (final(self).store@.totp, final(self).view.totp_scroll as int)
                            == shifted_seq(
                            old(self).store@.totp,
                            old(self).view.totp_scroll as int,
                            *keyev == Key::Char('K'),
                        )
                        &&& final(self).store@.pass == old(self).store@.pass
                        &&& final(self).view.pass_scroll == old(self).view.pass_scroll
                    })
                    &&& final(self).store@.ui_colour == old(self).store@.ui_colour
                    &&& final(self).view.tab == old(self).view.tab
                    &&& final(self).view.show_all == old(self).view.show_all
                    &&& final(self).view.totp_next == old(self).view.totp_next
                    &&& final(self).mode is Main
                    &&& final(self).dirty
                    &&& r is Nothing
                },
                Key::Char('v') => {
                    &&& final(self).view == (MainState {
                        show_all: !old(self).view.show_all,
                        ..old(self).view
                    })
                    &&& final(self).store@ == old(self).store@
                    &&& final(self).mode is Main
                    &&& final(self).dirty == old(self).dirty
                    &&& r is Nothing
                },
                Key::Char('n') => {
                    &&& final(self).view == (MainState {
                        totp_next: !old(self).view.totp_next,
                        ..old(self).view
                    })
                    &&& final(self).store@ == old(self).store@
                    &&& final(self).mode is Main
                    &&& final(self).dirty == old(self).dirty
                    &&& r is Nothing
                },
                Key::Char('c') => {
                    &&& final(self).store@ == (crate::store::PasswordsView {
                        ui_colour: ((old(self).store@.ui_colour + 1) % (
                        PALETTE_SIZE as int)) as usize,
                        ..old(self).store@
                    })
                    &&& final(self).view == old(self).view
                    &&& final(self).mode is Main
                    &&& final(self).dirty
                    &&& r is Nothing
                },
                Key::Char('y') => {
                    &&& *final(self) == *old(self)
                    &&& (if old(self).view.tab is Password {
                        if old(self).store@.pass.len() == 0 {
                            r is Nothing
                        } else {
                            (r matches Action::Copy(t) && t@ == old(self).store@.pass[
                                old(self).view.pass_scroll as int
                            ].password)
                        }
                    } else {
                        if old(self).store@.totp.len() == 0 {
                            r is Nothing
                        } else {
                            (r matches Action::Copy(t) && t@ == (
                            match old(self).store@.totp[old(self).view.totp_scroll as int].cached_codes {
                                Some(c) => if old(self).view.totp_next {
                                    c.next
                                } else {
                                    c.current
                                },
                                None => "------"@,
                            }))
                        }
                    })
                },
                Key::Char('d') => {
                    &&& final(self).view == old(self).view
                    &&& final(self).mode is Main
                    &&& (if old(self).view.tab is Password {
                        if old(self).store@.pass.len() == 0 {
                            final(self).store@ == old(self).store@ && final(self).dirty == old(
                                self,
                            ).dirty
                        } else {
                            final(self).store@ == (crate::store::PasswordsView {
                                pass: old(self).store@.pass.update(
                                    old(self).view.pass_scroll as int,
                                    (crate::store::PasswordView {
                                        delete: !old(self).store@.pass[
                                            old(self).view.pass_scroll as int
                                        ].delete,
                                        ..old(self).store@.pass[old(self).view.pass_scroll as int]
                                    }),
                                ),
                                ..old(self).store@
                            }) && final(self).dirty
                        }
                    } else {
                        if old(self).store@.totp.len() == 0 {
                            final(self).store@ == old(self).store@ && final(self).dirty == old(
                                self,
                            ).dirty
                        } else {
                            final(self).store@ == (crate::store::PasswordsView {
                                totp: old(self).store@.totp.update(
                                    old(self).view.totp_scroll as int,
                                    (crate::totp::TotpCodeView {
                                        delete: !old(self).store@.totp[
                                            old(self).view.totp_scroll as int
                                        ].delete,
                                        ..old(self).store@.totp[old(self).view.totp_scroll as int]
                                    }),
                                ),
                                ..old(self).store@
                            }) && final(self).dirty
                        }
                    })
                    &&& r is Nothing
                },
                Key::Char('e') => {
                    &&& final(self).view == old(self).view
                    &&& final(self).store@ == old(self).store@
                    &&& final(self).dirty == old(self).dirty
                    &&& (if old(self).view.tab is Password {
                        if old(self).store@.pass.len() == 0 {
                            final(self).mode is Main
                        } else {
                            (final(self).mode matches Mode::PassDialog(d) && d.mode_new == false
                                && d.index == old(self).view.pass_scroll && d.temp@ == old(
                                self,
                            ).store@.pass[old(self).view.pass_scroll as int] && d.field == 0
                                && d.cursor == d.temp@.name.len())
                        }
                    } else {
                        if old(self).store@.totp.len() == 0 {
                            final(self).mode is Main
                        } else {
                            (final(self).mode matches Mode::TotpDialog(d) && d.mode_new == false
                                && d.index == old(self).view.totp_scroll && d.temp@ == old(
                                self,
                            ).store@.totp[old(self).view.totp_scroll as int] && d.temp_secret@ == (
                            match d.temp@.raw_secret {
                                Some(t) => t,
                                None => crate::totp::base32_encoded(d.temp@.secret),
                            }) && d.field == 0 && d.cursor == d.temp@.name.len())
                        }
                    })
                    &&& r is Nothing
                },
                Key::Char('o') => {
                    &&& final(self).view == old(self).view
                    &&& final(self).store@ == old(self).store@
                    &&& final(self).dirty == old(self).dirty
                    &&& (if old(self).view.tab is Password {
                        (final(self).mode matches Mode::PassDialog(d) && d.mode_new == true
                            && d.index == old(self).view.pass_scroll && d.temp@.name
                            == "New Password"@ && d.temp@.password.len() == 32 && d.temp@.delete
                            == false && d.field == 0 && d.cursor == d.temp@.name.len())
                    } else {
                        (final(self).mode matches Mode::TotpDialog(d) && d.mode_new == true
                            && d.index == old(self).view.totp_scroll && d.temp@.name
                            == "New code"@ && d.temp@.digits == 6 && d.temp@.step == 30
                            && d.temp@.raw_secret is None && d.temp@.secret
                            == Seq::<u8>::empty() && d.temp@.cached_codes is None
                            && d.temp@.delete == false && d.temp_secret@ == crate::totp::base32_encoded(
                            Seq::<u8>::empty(),
                        ) && d.field == 0 && d.cursor == d.temp@.name.len())
                    })
                    &&& r is Nothing
                },
                Key::Char('p') => {
                    &&& final(self).view == old(self).view
                    &&& final(self).store@ == old(self).store@
                    &&& final(self).dirty == old(self).dirty
                    &&& (final(self).mode matches Mode::Prompt(p) && p.text@.len() == 0 && p.cursor
                        == 0)
                    &&& r is Nothing
                },
                _ => {
                    &&& *final(self) == *old(self)
                    &&& r is Nothing
                },
            }),
    {
        match keyev {
            Key::Esc | Key::Char('q') => Action::Exit,
            Key::Tab => {
                self.view.tab = match self.view.tab {
                    Tab::Password => Tab::Totp,
                    Tab::Totp => Tab::Password,
                };
                Action::Nothing
            },
            Key::Up | Key::Char('k') => {
                match self.view.tab {
                    Tab::Password => if self.view.pass_scroll > 0 {
                        self.view.pass_scroll -= 1;
                    },
                    Tab::Totp => if self.view.totp_scroll > 0 {
                        self.view.totp_scroll -= 1;
                    },
                }
                Action::Nothing
            },
            Key::Down | Key::Char('j') => {
                match self.view.tab {
                    Tab::Password => {
                        let n = self.store.pass.len();
                        if n > 0 && self.view.pass_scroll < n - 1 {
                            self.view.pass_scroll += 1;
                        }
                    },
                    Tab::Totp => {
                        let n = self.store.totp.len();
                        if n > 0 && self.view.totp_scroll < n - 1 {
                            self.view.totp_scroll += 1;
                        }
                    },
                }
                Action::Nothing
            },
            Key::Home | Key::Char('g') => {
                match self.view.tab {
                    Tab::Password => {
                        self.view.pass_scroll = 0;
                    },
                    Tab::Totp => {
                        self.view.totp_scroll = 0;
                    },
                }
                Action::Nothing
            },
            Key::End | Key::Char('G') => {
                match self.view.tab {
                    Tab::Password => {
                        let n = self.store.pass.len();
                        self.view.pass_scroll = if n > 0 {
                            n - 1
                        } else {
                            0
                        };
                    },
                    Tab::Totp => {
                        let n = self.store.totp.len();
                        self.view.totp_scroll = if n > 0 {
                            n - 1
                        } else {
                            0
                        };
                    },
                }
                Action::Nothing
            },
            Key::Char('K') | Key::Char('J') => {
                let up = *keyev == Key::Char('K');
                match self.view.tab {
                    Tab::Password => {
                        shift_item(&mut self.store.pass, &mut self.view.pass_scroll, up);
                        proof {
                            lemma_shift_view_pass(old(self).store.pass@, old(self).view.pass_scroll as int, up);
                        }
                    },
                    Tab::Totp => {
                        shift_item(&mut self.store.totp, &mut self.view.totp_scroll, up);
                        proof {
                            lemma_shift_view_totp(old(self).store.totp@, old(self).view.totp_scroll as int, up);
                        }
                    },
                }
                self.dirty = true;
                Action::Nothing
            },
            Key::Char('v') => {
                self.view.show_all = !self.view.show_all;
                Action::Nothing
            },
            Key::Char('n') => {
                self.view.totp_next = !self.view.totp_next;
                Action::Nothing
            },
            Key::Char('c') => {
                self.store.cycle_theme();
                self.dirty = true;
                Action::Nothing
            },
            Key::Char('y') => {
                match self.view.tab {
                    Tab::Password => {
                        if self.store.pass.len() == 0 {
                            Action::Nothing
                        } else {
                            Action::Copy(
                                crate::text::chars_to_string(
                                    &self.store.pass[self.view.pass_scroll].password,
                                ),
                            )
                        }
                    },
                    Tab::Totp => {
                        if self.store.totp.len() == 0 {
                            Action::Nothing
                        } else {
                            Action::Copy(
                                self.store.totp[self.view.totp_scroll].get_code(
                                    self.view.totp_next,
                                ),
                            )
                        }
                    },
                }
            },
            Key::Char('d') => {
                match self.view.tab {
                    Tab::Password => {
                        if self.store.pass.len() > 0 {
                            self.store.toggle_pass_delete(self.view.pass_scroll);
                            self.dirty = true;
                        }
                    },
                    Tab::Totp => {
                        if self.store.totp.len() > 0 {
                            self.store.toggle_totp_delete(self.view.totp_scroll);
                            self.dirty = true;
                        }
                    },
                }
                Action::Nothing
            },
            Key::Char('e') => {
                match self.view.tab {
                    Tab::Password => {
                        if self.store.pass.len() > 0 {
                            let temp = self.store.pass[self.view.pass_scroll].duplicate();
                            let cursor = temp.name.len();
                            self.mode = Mode::PassDialog(
                                PassEdit {
                                    mode_new: false,
                                    index: self.view.pass_scroll,
                                    temp,
                                    field: 0,
                                    cursor,
                                },
                            );
                        }
                    },
                    Tab::Totp => {
                        if self.store.totp.len() > 0 {
                            let temp = self.store.totp[self.view.totp_scroll].duplicate();
                            let temp_secret = temp.get_secret_string();
                            let cursor = temp.name.len();
                            self.mode = Mode::TotpDialog(
                                TotpEdit {
                                    mode_new: false,
                                    index: self.view.totp_scroll,
                                    temp,
                                    temp_secret,
                                    field: 0,
                                    cursor,
                                },
                            );
                        }
                    },
                }
                Action::Nothing
            },
            Key::Char('o') => {
                match self.view.tab {
                    Tab::Password => {
                        let temp = Password::new();
                        let cursor = temp.name.len();
                        self.mode = Mode::PassDialog(
                            PassEdit {
                                mode_new: true,
                                index: self.view.pass_scroll,
                                temp,
                                field: 0,
                                cursor,
                            },
                        );
                    },
                    Tab::Totp => {
                        let temp = TotpCode::new();
                        let temp_secret = temp.get_secret_string();
                        let cursor = temp.name.len();
                        self.mode = Mode::TotpDialog(
                            TotpEdit {
                                mode_new: true,
                                index: self.view.totp_scroll,
                                temp,
                                temp_secret,
                                field: 0,
                                cursor,
                            },
                        );
                    },
                }
                Action::Nothing
            },
            Key::Char('p') => {
                self.mode = Mode::Prompt(PromptState::new());
                Action::Nothing
            },
            _ => Action::Nothing,
        }
    }
}

/// Reordering exec records reorders their views the same way.
proof fn lemma_shift_view_pass(l: Seq<Password>, sel: int, up: bool)
    requires
        0 <= sel < l.len() || l.len() == 0,
    ensures
        Seq::new(shifted_seq(l, sel, up).0.len(), |i: int| shifted_seq(l, sel, up).0[i]@)
            == shifted_seq(Seq::new(l.len(), |i: int| l[i]@), sel, up).0,
        shifted_seq(Seq::new(l.len(), |i: int| l[i]@), sel, up).1 == shifted_seq(l, sel, up).1,
{
    let lv = Seq::new(l.len(), |i: int| l[i]@);
    assert(Seq::new(shifted_seq(l, sel, up).0.len(), |i: int| shifted_seq(l, sel, up).0[i]@)
        =~= shifted_seq(lv, sel, up).0);
}

proof fn lemma_shift_view_totp(l: Seq<TotpCode>, sel: int, up: bool)
    requires
        0 <= sel < l.len() || l.len() == 0,
    ensures
        Seq::new(shifted_seq(l, sel, up).0.len(), |i: int| shifted_seq(l, sel, up).0[i]@)
            == shifted_seq(Seq::new(l.len(), |i: int| l[i]@), sel, up).0,
        shifted_seq(Seq::new(l.len(), |i: int| l[i]@), sel, up).1 == shifted_seq(l, sel, up).1,
{
    let lv = Seq::new(l.len(), |i: int| l[i]@);
    assert(Seq::new(shifted_seq(l, sel, up).0.len(), |i: int| shifted_seq(l, sel, up).0[i]@)
        =~= shifted_seq(lv, sel, up).0);
}


impl Session {
    /// Handle one key in the in-session master-password prompt. A
    /// finished prompt replaces the key (or drops encryption) without
    /// touching the loaded data and marks the session dirty; an
    /// abandoned one changes nothing.
    pub fn prompt_key(&mut self, keyev: &Key)
        requires
            session_wf(*old(self)),
            old(self).mode is Prompt,
        ensures
            session_wf(*final(self)),
            final(self).view == old(self).view,
            final(self).store@ == old(self).store@,
            (match old(self).mode {
                Mode::Prompt(op) => {
                    if !prompt_accepts(op.text@, *keyev) {
                        &&& (final(self).mode matches Mode::Prompt(p2) && p2.text@ == op.text@
                            && p2.cursor == op.cursor)
                        &&& final(self).key == old(self).key
                        &&& final(self).dirty == old(self).dirty
                    } else {
                        match *keyev {
                            Key::Enter => {
                                &&& final(self).mode is Main
                                &&& final(self).dirty
                                &&& (if op.text@.len() == 0 {
                                    final(self).key is None
                                } else {
                                    (final(self).key matches Some(k) && k@
                                        == crate::crypto::derived_key(
                                        vstd::utf8::encode_utf8(op.text@),
                                    ))
                                })
                            },
                            Key::Esc => {
                                &&& final(self).mode is Main
                                &&& final(self).key == old(self).key
                                &&& final(self).dirty == old(self).dirty
                            },
                            _ => {
                                &&& (final(self).mode matches Mode::Prompt(p2) && p2.text@
                                    == edited_buffer(op.text@, op.cursor as int, *keyev)
                                    && p2.cursor as int == edited_cursor(
                                    op.text@,
                                    op.cursor as int,
                                    *keyev,
                                ))
                                &&& final(self).key == old(self).key
                                &&& final(self).dirty == old(self).dirty
                            },
                        }
                    }
                },
                _ => false,
            }),
    {
        let mut m = Mode::Main;
        core::mem::swap(&mut self.mode, &mut m);
        match m {
            Mode::Prompt(mut p) => {
                match p.prompt_key(keyev) {
                    Some(MasterPassResult::Password(text)) => {
                        self.key = Some(crate::crypto::derive_key_text(&text));
                        self.dirty = true;
                    },
                    Some(MasterPassResult::NoPassword) => {
                        self.key = None;
                        self.dirty = true;
                    },
                    Some(MasterPassResult::Cancel) => {},
                    None => {
                        self.mode = Mode::Prompt(p);
                    },
                }
            },
            _ => {
                proof {
                    assert(false);
                }
            },
        }
    }

    /// Handle one key in a password-record dialog. Enter commits the
    /// temporary copy (replacing the edited record, or inserting the
    /// new one after the selection and advancing the selection to it)
    /// and marks the session dirty; Escape discards it; anything else
    /// edits the dialog.
    pub fn pass_dialog_key(&mut self, keyev: &Key)
        requires
            session_wf(*old(self)),
            old(self).mode is PassDialog,
        ensures
            session_wf(*final(self)),
            final(self).key == old(self).key,
            (match old(self).mode {
                Mode::PassDialog(od) => {
                    match *keyev {
                        Key::Esc => {
                            &&& final(self).mode is Main
                            &&& final(self).view == old(self).view
                            &&& final(self).store@ == old(self).store@
                            &&& final(self).dirty == old(self).dirty
                        },
                        Key::Enter => {
                            &&& final(self).mode is Main
                            &&& final(self).dirty
                            &&& (if od.mode_new {
                                &&& final(self).store@ == (crate::store::PasswordsView {
                                    pass: old(self).store@.pass.insert(
                                        if old(self).view.pass_scroll + 1 >= old(
                                            self,
                                        ).store@.pass.len() {
                                            old(self).store@.pass.len() as int
                                        } else {
                                            old(self).view.pass_scroll + 1
                                        },
                                        od.temp@,
                                    ),
                                    ..old(self).store@
                                })
                                &&& final(self).view == (MainState {
                                    pass_scroll: if old(self).store@.pass.len() == 0 {
                                        old(self).view.pass_scroll
                                    } else {
                                        (old(self).view.pass_scroll + 1) as usize
                                    },
                                    ..old(self).view
                                })
                            } else {
                                &&& final(self).store@ == (crate::store::PasswordsView {
                                    pass: old(self).store@.pass.update(od.index as int, od.temp@),
                                    ..old(self).store@
                                })
                                &&& final(self).view == old(self).view
                            })
                        },
                        _ => {
                            &&& (final(self).mode matches Mode::PassDialog(d2) && pass_edit_rel(
                                od,
                                d2,
                                *keyev,
                            ))
                            &&& final(self).view == old(self).view
                            &&& final(self).store@ == old(self).store@
                            &&& final(self).dirty == old(self).dirty
                        },
                    }
                },
                _ => false,
            }),
    {
        let mut m = Mode::Main;
        core::mem::swap(&mut self.mode, &mut m);
        match m {
            Mode::PassDialog(mut d) => {
                match pass_edit_key(&mut d, keyev) {
                    AfterAction::Continue => {
                        self.mode = Mode::PassDialog(d);
                    },
                    AfterAction::Cancel => {},
                    AfterAction::Enter => {
                        if d.mode_new {
                            let had = self.store.pass.len();
                            self.store.add_pass(d.temp, self.view.pass_scroll);
                            if had > 0 {
                                self.view.pass_scroll += 1;
                            }
                        } else {
                            self.store.replace_pass(d.index, d.temp);
                        }
                        self.dirty = true;
                    },
                }
            },
            _ => {
                proof {
                    assert(false);
                }
            },
        }
    }

    /// Handle one key in a TOTP-record dialog. On commit the secret
    /// text is interpreted: valid base32 becomes the canonical decoded
    /// secret, anything else is kept verbatim; the stale code cache is
    /// dropped either way.
    pub fn totp_dialog_key(&mut self, keyev: &Key)
        requires
            session_wf(*old(self)),
            old(self).mode is TotpDialog,
        ensures
            session_wf(*final(self)),
            final(self).key == old(self).key,
            (match old(self).mode {
                Mode::TotpDialog(od) => {
                    match *keyev {
                        Key::Esc => {
                            &&& final(self).mode is Main
                            &&& final(self).view == old(self).view
                            &&& final(self).store@ == old(self).store@
                            &&& final(self).dirty == old(self).dirty
                        },
                        Key::Enter => {
                            &&& final(self).mode is Main
                            &&& final(self).dirty
                            &&& (if od.mode_new {
                                &&& final(self).store@ == (crate::store::PasswordsView {
                                    totp: old(self).store@.totp.insert(
                                        if old(self).view.totp_scroll + 1 >= old(
                                            self,
                                        ).store@.totp.len() {
                                            old(self).store@.totp.len() as int
                                        } else {
                                            old(self).view.totp_scroll + 1
                                        },
                                        crate::totp::committed_totp(od.temp@, od.temp_secret@),
                                    ),
                                    ..old(self).store@
                                })
                                &&& final(self).view == (MainState {
                                    totp_scroll: if old(self).store@.totp.len() == 0 {
                                        old(self).view.totp_scroll
                                    } else {
                                        (old(self).view.totp_scroll + 1) as usize
                                    },
                                    ..old(self).view
                                })
                            } else {
                                &&& final(self).store@ == (crate::store::PasswordsView {
                                    totp: old(self).store@.totp.update(
                                        od.index as int,
                                        crate::totp::committed_totp(od.temp@, od.temp_secret@),
                                    ),
                                    ..old(self).store@
                                })
                                &&& final(self).view == old(self).view
                            })
                        },
                        _ => {
                            &&& (final(self).mode matches Mode::TotpDialog(d2) && totp_edit_rel(
                                od,
                                d2,
                                *keyev,
                            ))
                            &&& final(self).view == old(self).view
                            &&& final(self).store@ == old(self).store@
                            &&& final(self).dirty == old(self).dirty
                        },
                    }
                },
                _ => false,
            }),
    {
        let mut m = Mode::Main;
        core::mem::swap(&mut self.mode, &mut m);
        match m {
            Mode::TotpDialog(mut d) => {
                match totp_edit_key(&mut d, keyev) {
                    AfterAction::Continue => {
                        self.mode = Mode::TotpDialog(d);
                    },
                    AfterAction::Cancel => {},
                    AfterAction::Enter => {
                        let mut rec = d.temp;
                        rec.set_secret_string(d.temp_secret);
                        rec.cached_codes = None;
                        proof {
                            assert(rec@ == crate::totp::committed_totp(d.temp@, d.temp_secret@));
                        }
                        if d.mode_new {
                            let had = self.store.totp.len();
                            self.store.add_totp(rec, self.view.totp_scroll);
                            if had > 0 {
                                self.view.totp_scroll += 1;
                            }
                        } else {
                            self.store.replace_totp(d.index, rec);
                        }
                        self.dirty = true;
                    },
                }
            },
            _ => {
                proof {
                    assert(false);
                }
            },
        }
    }
}

/// A record the tick can refresh: well-formed parameters and a window
/// arithmetic that stays in range.
pub open spec fn refreshable(t: crate::totp::TotpCodeView, now: u64) -> bool {
    &&& crate::totp::totp_wf(t)
    &&& now + t.step <= u64::MAX
}

/// The record after a refresh for the clock reading `now`: the cache
/// holds the current and next code of the record's own window.
pub open spec fn refreshed(t: crate::totp::TotpCodeView, now: u64) -> crate::totp::TotpCodeView {
    crate::totp::TotpCodeView {
        cached_codes: Some(
            (crate::totp::CachedCodesView {
                window: (now as int / t.step as int) as u64,
                current: crate::totp::code_for(t, now as int / t.step as int),
                next: crate::totp::code_for(t, now as int / t.step as int + 1),
            }),
        ),
        ..t
    }
}

impl Session {
    /// One clock tick: reset the next-code toggle when the 30-second
    /// wall-clock window advanced, then bring every refreshable record's
    /// cache to the window of `now`, computing at most one new code per
    /// record when the window advanced contiguously and nothing at all
    /// when it did not change. Records the code algorithm cannot take
    /// are left showing the placeholder.
    pub fn tick(&mut self, now: u64)
        requires
            session_wf(*old(self)),
        ensures
            session_wf(*final(self)),
            final(self).mode == old(self).mode,
            final(self).view == (if now / 30 != old(self).view.last_window {
                MainState { totp_next: false, last_window: now / 30, ..old(self).view }
            } else {
                old(self).view
            }),
            final(self).key == old(self).key,
            final(self).dirty == old(self).dirty,
            final(self).store@.pass == old(self).store@.pass,
            final(self).store@.ui_colour == old(self).store@.ui_colour,
            final(self).store@.totp.len() == old(self).store@.totp.len(),
            forall|i: int|
                0 <= i < old(self).store@.totp.len() ==> #[trigger] final(self).store@.totp[i] == (
                if refreshable(old(self).store@.totp[i], now) {
                    refreshed(old(self).store@.totp[i], now)
                } else {
                    old(self).store@.totp[i]
                }),
    {
        let wall = now / 30;
        if wall != self.view.last_window {
            self.view.totp_next = false;
            self.view.last_window = wall;
        }
        let ghost view1 = self.view;
        let n = self.store.totp.len();
        let mut i: usize = 0;
        while i < n
            invariant
                i <= n,
                n == self.store@.totp.len(),
                n == old(self).store@.totp.len(),
                self.mode == old(self).mode,
                view1 == (if now / 30 != old(self).view.last_window {
                    MainState { totp_next: false, last_window: now / 30, ..old(self).view }
                } else {
                    old(self).view
                }),
                self.view == view1,
                self.key == old(self).key,
                self.dirty == old(self).dirty,
                self.store@.pass == old(self).store@.pass,
                self.store@.ui_colour == old(self).store@.ui_colour,
                session_wf(*old(self)),
                session_wf(*self),
                forall|j: int|
                    0 <= j < i ==> #[trigger] self.store@.totp[j] == (if refreshable(
                        old(self).store@.totp[j],
                        now,
                    ) {
                        refreshed(old(self).store@.totp[j], now)
                    } else {
                        old(self).store@.totp[j]
                    }),
                forall|j: int|
                    i <= j < n ==> #[trigger] self.store@.totp[j] == old(self).store@.totp[j],
            decreases n - i,
        {
            let ghost pre_totp = self.store@.totp;
            let ghost pre_pass = self.store@.pass;
            proof {
                assert(crate::totp::cache_coherent(self.store@.totp[i as int]));
            }
            let mut rec = self.store.totp.remove(i);
            let ghost recv = rec@;
            proof {
                assert(recv == pre_totp[i as int]);
                assert(crate::totp::cache_coherent(recv));
            }
            if rec.step > 0 && rec.digits >= 1 && rec.digits <= 9 && now <= u64::MAX - rec.step {
                let window = now / rec.step;
                proof {
                    vstd::arithmetic::div_mod::lemma_fundamental_div_mod(
                        now as int,
                        rec@.step as int,
                    );
                    assert((window + 1) * rec@.step == window * rec@.step + rec@.step)
                        by (nonlinear_arith);
                    assert(rec@.step * (now as int / rec@.step as int) == (now as int
                        / rec@.step as int) * rec@.step) by (nonlinear_arith);
                }
                let mut fresh = true;
                if let Some(c) = &rec.cached_codes {
                    if c.window == window {
                        fresh = false;
                    }
                }
                if fresh {
                    rec.refresh_at(window);
                    proof {
                        assert(rec@ =~= refreshed(recv, now));
                    }
                } else {
                    proof {
                        let cv = rec@.cached_codes->Some_0;
                        assert(crate::totp::cache_coherent(recv));
                        assert(cv.window == window);
                        assert(cv.current == crate::totp::code_for(recv, window as int));
                        assert(cv.next == crate::totp::code_for(recv, window as int + 1));
                        assert(cv =~= (crate::totp::CachedCodesView {
                            window,
                            current: crate::totp::code_for(recv, now as int / recv.step as int),
                            next: crate::totp::code_for(recv, now as int / recv.step as int + 1),
                        }));
                        assert(rec@ =~= refreshed(recv, now));
                    }
                }
            }
            self.store.totp.insert(i, rec);
            proof {
                assert(self.store@.totp =~= pre_totp.update(
                    i as int,
                    self.store@.totp[i as int],
                ));
                assert(forall|j: int|
                    0 <= j < n && j != i ==> #[trigger] self.store@.totp[j] == pre_totp[j]);
                assert(crate::totp::cache_coherent(self.store@.totp[i as int]));
                assert(self.store@.pass =~= pre_pass);
            }
            i += 1;
        }
    }
}

} // verus!
