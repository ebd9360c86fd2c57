//! The in-memory credential store: ordered password and TOTP record
//! lists with soft deletion, adjacent reordering, save-time compaction,
//! and the persisted theme index.

use vstd::prelude::*;
use vstd::seq_lib::{group_to_multiset_ensures, to_multiset_insert};
use vstd::pervasive::VecAdditionalExecFns;
use crate::text;
use crate::totp::{TotpCode, TotpCodeView, clone_chars};

verus! {

/// Number of theme colours the interface cycles through.
pub const PALETTE_SIZE: usize = 15;

/// One stored password entry. Identity is positional, not keyed.
pub struct Password {
    pub name: Vec<char>,
    pub password: Vec<char>,
    /// Tombstone: marked for removal at save time. Never persisted.
    pub delete: bool,
}

#[verifier::ext_equal]
pub struct PasswordView {
    pub name: Seq<char>,
    pub password: Seq<char>,
    pub delete: bool,
}

impl View for Password {
    type V = PasswordView;

    open spec fn view(&self) -> PasswordView {
        PasswordView { name: self.name@, password: self.password@, delete: self.delete }
    }
}

/// Relies on `rand::thread_rng` and `Rng::sample_iter` with the
/// `Standard` distribution over `char`: the iterator yields uniformly
/// random code points, of which nothing is promised but their number.
#[verifier::external_body]
fn random_chars(n: usize) -> (r: Vec<char>)
    ensures
        r@.len() == n,
{
    rand::Rng::sample_iter::<char, _>(rand::thread_rng(), &rand::distributions::Standard).take(
        n,
    ).collect()
}

impl Password {
    /// The defaults an "add new" action seeds the edit dialog with: a
    /// placeholder name and a 32-code-point random password.
    pub fn new() -> (r: Password)
        ensures
            r@.name == "New Password"@,
            r@.password.len() == 32,
            r@.delete == false,
    {
        Password {
            name: text::str_to_chars("New Password"),
            password: random_chars(32),
            delete: false,
        }
    }

    /// A copy with the same view, for the dialog's copy-edit-commit
    /// protocol.
    pub fn duplicate(&self) -> (r: Password)
        ensures
            r@ == self@,
    {
        Password {
            name: clone_chars(&self.name),
            password: clone_chars(&self.password),
            delete: self.delete,
        }
    }

    /// Display layout of the password under the fixed-slot rendering
    /// rule: the common slot width and each code point with its column.
    pub fn spaced_chars(&self) -> (r: (usize, Vec<(usize, char)>))
        requires
            self@.password.len() * 4 <= usize::MAX,
        ensures
            r.0 == text::max_char_width(self@.password),
            r.1@.len() == self@.password.len(),
            forall|i: int|
                0 <= i < self@.password.len() ==> (#[trigger] r.1@[i]).0 == i * r.0 && r.1@[i].1
                    == self@.password[i],
    {
        text::spaced_chars(&self.password)
    }
}

/// An adjacent swap of the elements at `i` and `i + 1`.
pub open spec fn swap_adjacent_seq<T>(s: Seq<T>, i: int) -> Seq<T> {
    s.update(i, s[i + 1]).update(i + 1, s[i])
}

/// List and selection after a reorder request: a no-op when the list has
/// fewer than two elements or the selection is already at the end it is
/// pushed towards; otherwise the selected element trades places with its
/// neighbour and the selection moves with it.
pub open spec fn shifted_seq<T>(s: Seq<T>, selected: int, up: bool) -> (Seq<T>, int) {
    if s.len() < 2 {
        (s, selected)
    } else if up {
        if selected != 0 {
            (swap_adjacent_seq(s, selected - 1), selected - 1)
        } else {
            (s, selected)
        }
    } else {
        if selected != s.len() - 1 {
            (swap_adjacent_seq(s, selected), selected + 1)
        } else {
            (s, selected)
        }
    }
}

/// Move the selected element one slot towards the front (`up`) or the
/// back, carrying the selection along; a no-op at either end.
pub fn shift_item<T>(vec: &mut Vec<T>, selected: &mut usize, up: bool)
    requires
        old(vec)@.len() > 0 ==> old(selected)@ < old(vec)@.len(),
    ensures
        final(vec)@ == shifted_seq(old(vec)@, old(selected)@ as int, up).0,
        final(selected)@ as int == shifted_seq(old(vec)@, old(selected)@ as int, up).1,
{
    if vec.len() < 2 {
        return ;
    }
    if up {
        if *selected != 0 {
            let moved = vec.remove(*selected);
            vec.insert(*selected - 1, moved);
            proof {
                assert(vec@ =~= swap_adjacent_seq(old(vec)@, old(selected)@ - 1));
            }
            *selected -= 1;
        }
    } else {
        if *selected != vec.len() - 1 {
            let moved = vec.remove(*selected);
            vec.insert(*selected + 1, moved);
            proof {
                assert(vec@ =~= swap_adjacent_seq(old(vec)@, old(selected)@ as int));
            }
            *selected += 1;
        }
    }
}

/// Reorder identity and preservation: shifting the first element up or
/// the last element down changes nothing; any other request keeps the
/// multiset of all elements and moves the selection with its element.
pub proof fn lemma_shift_item_reorder<T>(s: Seq<T>, selected: int, up: bool)
    requires
        0 <= selected < s.len(),
    ensures
        up && selected == 0 ==> shifted_seq(s, selected, up) == (s, selected),
        !up && selected == s.len() - 1 ==> shifted_seq(s, selected, up) == (s, selected),
        shifted_seq(s, selected, up).0.to_multiset() == s.to_multiset(),
        shifted_seq(s, selected, up).0[shifted_seq(s, selected, up).1] == s[selected],
        shifted_seq(s, selected, up).0.len() == s.len(),
{
    broadcast use group_to_multiset_ensures;
    broadcast use to_multiset_insert;

    if s.len() >= 2 {
        if up && selected != 0 {
            lemma_swap_adjacent_multiset(s, selected - 1);
        } else if !up && selected != s.len() - 1 {
            lemma_swap_adjacent_multiset(s, selected);
        }
    }
}

proof fn lemma_swap_adjacent_multiset<T>(s: Seq<T>, i: int)
    requires
        0 <= i,
        i + 1 < s.len(),
    ensures
        swap_adjacent_seq(s, i).to_multiset() == s.to_multiset(),
{
    broadcast use group_to_multiset_ensures;
    broadcast use to_multiset_insert;

    let t = swap_adjacent_seq(s, i);
    assert(t =~= s.remove(i).insert(i + 1, s[i]));
    assert(s.remove(i).to_multiset() == s.to_multiset().remove(s[i]));
    assert(s.remove(i).insert(i + 1, s[i]).to_multiset() == s.remove(i).to_multiset().insert(
        s[i],
    ));
    assert(s.to_multiset().count(s[i]) > 0);
    assert(s.to_multiset().remove(s[i]).insert(s[i]) =~= s.to_multiset());
}

/// The store: ordered record lists plus the persisted theme index.
pub struct Passwords {
    pub pass: Vec<Password>,
    pub totp: Vec<TotpCode>,
    pub ui_colour: usize,
}

#[verifier::ext_equal]
pub struct PasswordsView {
    pub pass: Seq<PasswordView>,
    pub totp: Seq<TotpCodeView>,
    pub ui_colour: usize,
}

impl View for Passwords {
    type V = PasswordsView;

    open spec fn view(&self) -> PasswordsView {
        PasswordsView {
            pass: Seq::new(self.pass@.len(), |i: int| self.pass@[i]@),
            totp: Seq::new(self.totp@.len(), |i: int| self.totp@[i]@),
            ui_colour: self.ui_colour,
        }
    }
}

/// The surviving elements of a record list after compaction: the
/// non-tombstoned ones, in order.
pub open spec fn compacted_pass(s: Seq<PasswordView>) -> Seq<PasswordView> {
    s.filter(|p: PasswordView| !p.delete)
}

pub open spec fn compacted_totp(s: Seq<TotpCodeView>) -> Seq<TotpCodeView> {
    s.filter(|t: TotpCodeView| !t.delete)
}

impl Passwords {
    /// An empty store, as used when no data file exists yet.
    pub fn empty() -> (r: Passwords)
        ensures
            r@.pass.len() == 0,
            r@.totp.len() == 0,
            r@.ui_colour == 0,
    {
        Passwords { pass: Vec::new(), totp: Vec::new(), ui_colour: 0 }
    }

    /// Re-normalize the persisted theme index, so a file written by a
    /// build with a different palette never indexes out of bounds.
    pub fn clamp_colour(&mut self)
        ensures
            final(self)@ == (PasswordsView {
                ui_colour: (old(self)@.ui_colour as int % (PALETTE_SIZE as int)) as usize,
                ..old(self)@
            }),
    {
        self.ui_colour = self.ui_colour % PALETTE_SIZE;
        proof {
            assert(self@ =~= (PasswordsView {
                ui_colour: (old(self)@.ui_colour as int % (PALETTE_SIZE as int)) as usize,
                ..old(self)@
            }));
        }
    }

    /// Advance the theme to the next palette entry, wrapping around.
    pub fn cycle_theme(&mut self)
        requires
            old(self)@.ui_colour < PALETTE_SIZE,
        ensures
            final(self)@ == (PasswordsView {
                ui_colour: ((old(self)@.ui_colour + 1) % (PALETTE_SIZE as int)) as usize,
                ..old(self)@
            }),
    {
        self.ui_colour = (self.ui_colour + 1) % PALETTE_SIZE;
        proof {
            assert(self@ =~= (PasswordsView {
                ui_colour: ((old(self)@.ui_colour + 1) % (PALETTE_SIZE as int)) as usize,
                ..old(self)@
            }));
        }
    }

    /// Insert a new password record immediately after `index` (or at the
    /// end when `index` points at or past the last slot).
    pub fn add_pass(&mut self, record: Password, index: usize)
        ensures
            final(self)@ == (PasswordsView {
                pass: old(self)@.pass.insert(
                    if index + 1 >= old(self)@.pass.len() {
                        old(self)@.pass.len() as int
                    } else {
                        index + 1
                    },
                    record@,
                ),
                ..old(self)@
            }),
    {
        let ghost pos: int = if index + 1 >= self@.pass.len() {
            self@.pass.len() as int
        } else {
            index + 1
        };
        if self.pass.len() == 0 || index >= self.pass.len() - 1 {
            self.pass.push(record);
            proof {
                assert(self.pass@ =~= old(self).pass@.insert(pos, self.pass@.last()));
            }
        } else {
            self.pass.insert(index + 1, record);
        }
        proof {
            assert(self@.pass =~= old(self)@.pass.insert(pos, self.pass@[pos]@));
            assert(self@ =~= (PasswordsView { pass: old(self)@.pass.insert(pos, record@), ..old(self)@ }));
        }
    }

    /// Insert a new TOTP record immediately after `index` (or at the end
    /// when `index` points at or past the last slot).
    pub fn add_totp(&mut self, record: TotpCode, index: usize)
        ensures
            final(self)@ == (PasswordsView {
                totp: old(self)@.totp.insert(
                    if index + 1 >= old(self)@.totp.len() {
                        old(self)@.totp.len() as int
                    } else {
                        index + 1
                    },
                    record@,
                ),
                ..old(self)@
            }),
    {
        let ghost pos: int = if index + 1 >= self@.totp.len() {
            self@.totp.len() as int
        } else {
            index + 1
        };
        if self.totp.len() == 0 || index >= self.totp.len() - 1 {
            self.totp.push(record);
            proof {
                assert(self.totp@ =~= old(self).totp@.insert(pos, self.totp@.last()));
            }
        } else {
            self.totp.insert(index + 1, record);
        }
        proof {
            assert(self@.totp =~= old(self)@.totp.insert(pos, self.totp@[pos]@));
            assert(self@ =~= (PasswordsView { totp: old(self)@.totp.insert(pos, record@), ..old(self)@ }));
        }
    }

    /// Flip the tombstone flag of the password record at `index`: the
    /// reversible soft delete.
    pub fn toggle_pass_delete(&mut self, index: usize)
        requires
            index < old(self)@.pass.len(),
        ensures
            final(self)@ == (PasswordsView {
                pass: old(self)@.pass.update(
                    index as int,
                    (PasswordView {
                        delete: !old(self)@.pass[index as int].delete,
                        ..old(self)@.pass[index as int]
                    }),
                ),
                ..old(self)@
            }),
    {
        let mut rec = self.pass.remove(index);
        rec.delete = !rec.delete;
        self.pass.insert(index, rec);
        proof {
            assert(self@ =~= (PasswordsView {
                pass: old(self)@.pass.update(
                    index as int,
                    (PasswordView {
                        delete: !old(self)@.pass[index as int].delete,
                        ..old(self)@.pass[index as int]
                    }),
                ),
                ..old(self)@
            }));
        }
    }

    /// Flip the tombstone flag of the TOTP record at `index`.
    pub fn toggle_totp_delete(&mut self, index: usize)
        requires
            index < old(self)@.totp.len(),
        ensures
            final(self)@ == (PasswordsView {
                totp: old(self)@.totp.update(
                    index as int,
                    (TotpCodeView {
                        delete: !old(self)@.totp[index as int].delete,
                        ..old(self)@.totp[index as int]
                    }),
                ),
                ..old(self)@
            }),
    {
        let mut rec = self.totp.remove(index);
        rec.delete = !rec.delete;
        self.totp.insert(index, rec);
        proof {
            assert(self@ =~= (PasswordsView {
                totp: old(self)@.totp.update(
                    index as int,
                    (TotpCodeView {
                        delete: !old(self)@.totp[index as int].delete,
                        ..old(self)@.totp[index as int]
                    }),
                ),
                ..old(self)@
            }));
        }
    }

    /// Commit an edit: replace the password record at `index` with the
    /// dialog's temporary copy.
    pub fn replace_pass(&mut self, index: usize, record: Password)
        requires
            index < old(self)@.pass.len(),
        ensures
            final(self)@ == (PasswordsView {
                pass: old(self)@.pass.update(index as int, record@),
                ..old(self)@
            }),
    {
        self.pass.set(index, record);
        proof {
            assert(self@ =~= (PasswordsView {
                pass: old(self)@.pass.update(index as int, self.pass@[index as int]@),
                ..old(self)@
            }));
        }
    }

    /// Commit an edit: replace the TOTP record at `index` with the
    /// dialog's temporary copy.
    pub fn replace_totp(&mut self, index: usize, record: TotpCode)
        requires
            index < old(self)@.totp.len(),
        ensures
            final(self)@ == (PasswordsView {
                totp: old(self)@.totp.update(index as int, record@),
                ..old(self)@
            }),
    {
        self.totp.set(index, record);
        proof {
            assert(self@ =~= (PasswordsView {
                totp: old(self)@.totp.update(index as int, self.totp@[index as int]@),
                ..old(self)@
            }));
        }
    }

    /// Drop every tombstoned record, keeping the survivors' order: the
    /// save-time mark-and-sweep pass.
    pub fn compact(&mut self)
        ensures
            final(self)@.pass == compacted_pass(old(self)@.pass),
            final(self)@.totp == compacted_totp(old(self)@.totp),
            final(self)@.ui_colour == old(self)@.ui_colour,
    {
        let ghost pass0 = self@.pass;
        let ghost totp0 = self@.totp;
        let mut kept_pass: Vec<Password> = Vec::new();
        let mut i: usize = 0;
        while i < self.pass.len()
            invariant
                i <= self.pass@.len(),
                self@ == old(self)@,
                pass0 == self@.pass,
                Seq::new(kept_pass@.len(), |k: int| kept_pass@[k]@) == compacted_pass(
                    pass0.subrange(0, i as int),
                ),
            decreases self.pass@.len() - i,
        {
            proof {
                lemma_compact_pass_step(pass0, i as int);
                assert(pass0[i as int] == self.pass@[i as int]@);
            }
            if !self.pass[i].delete {
                kept_pass.push(self.pass[i].duplicate());
            }
            proof {
                assert(Seq::new(kept_pass@.len(), |k: int| kept_pass@[k]@) =~= compacted_pass(
                    pass0.subrange(0, i + 1),
                ));
            }
            i += 1;
        }
        proof {
            assert(pass0.subrange(0, pass0.len() as int) =~= pass0);
        }
        let mut kept_totp: Vec<TotpCode> = Vec::new();
        let mut j: usize = 0;
        while j < self.totp.len()
            invariant
                j <= self.totp@.len(),
                self@ == old(self)@,
                totp0 == self@.totp,
                Seq::new(kept_totp@.len(), |k: int| kept_totp@[k]@) == compacted_totp(
                    totp0.subrange(0, j as int),
                ),
            decreases self.totp@.len() - j,
        {
            proof {
                lemma_compact_totp_step(totp0, j as int);
                assert(totp0[j as int] == self.totp@[j as int]@);
            }
            if !self.totp[j].delete {
                kept_totp.push(self.totp[j].duplicate());
            }
            proof {
                assert(Seq::new(kept_totp@.len(), |k: int| kept_totp@[k]@) =~= compacted_totp(
                    totp0.subrange(0, j + 1),
                ));
            }
            j += 1;
        }
        proof {
            assert(totp0.subrange(0, totp0.len() as int) =~= totp0);
        }
        self.pass = kept_pass;
        self.totp = kept_totp;
        proof {
            assert(self@.pass =~= compacted_pass(old(self)@.pass));
            assert(self@.totp =~= compacted_totp(old(self)@.totp));
        }
    }
}

/// One step of compaction over a growing prefix: taking one more record
/// keeps the compacted prefix and appends the record exactly when it is
/// not tombstoned.
proof fn lemma_compact_pass_step(s: Seq<PasswordView>, k: int)
    requires
        0 <= k < s.len(),
    ensures
        compacted_pass(s.subrange(0, k + 1)) == if !s[k].delete {
            compacted_pass(s.subrange(0, k)).push(s[k])
        } else {
            compacted_pass(s.subrange(0, k))
        },
{
    let t = s.subrange(0, k + 1);
    assert(t.drop_last() =~= s.subrange(0, k));
    assert(t.last() == s[k]);
    reveal_with_fuel(Seq::filter, 2);
}

proof fn lemma_compact_totp_step(s: Seq<TotpCodeView>, k: int)
    requires
        0 <= k < s.len(),
    ensures
        compacted_totp(s.subrange(0, k + 1)) == if !s[k].delete {
            compacted_totp(s.subrange(0, k)).push(s[k])
        } else {
            compacted_totp(s.subrange(0, k))
        },
{
    let t = s.subrange(0, k + 1);
    assert(t.drop_last() =~= s.subrange(0, k));
    assert(t.last() == s[k]);
    reveal_with_fuel(Seq::filter, 2);
}

} // verus!
