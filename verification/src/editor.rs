//! The editing state machine: a cursor and a mode over a line buffer.
//!
//! `App` consumes one key event at a time and mutates the buffer and the
//! cursor according to the active mode's rules. Its ghost model `AppV`
//! and the spec transition functions (`spec_step` and the per-mode steps)
//! state exactly what every key does; `AppV::wf` is the cursor invariant
//! that every step preserves: the row stays inside the buffer and the
//! column stays inside the current row's bounds, which in normal and
//! command mode means on a character (or 0 on an empty row) and in insert
//! mode means at most one past the last character.

use crate::buffer::Buffer;
use vstd::prelude::*;
use vstd::string::StringExecFns;

verus! {

/// Which input-handling ruleset is active.
#[derive(PartialEq, Eq, Structural, Clone, Copy, Debug)]
pub enum EditMode {
    NORMAL,
    INSERT,
    COMMAND,
}

/// One discrete key-press event, already stripped of everything the
/// state machine does not act on (repeats, releases, modifiers).
#[derive(PartialEq, Eq, Structural, Clone, Copy, Debug)]
pub enum Key {
    Char(char),
    Enter,
    Backspace,
    Esc,
    Other,
}

/// What the session driver must do after a step: nothing, or write the
/// serialized buffer to the target path and report back the outcome.
#[derive(PartialEq, Eq, Structural, Clone, Copy, Debug)]
pub enum Action {
    Nothing,
    Save,
}

/// The mathematical model of the editor state.
#[verifier::ext_equal]
pub ghost struct AppV {
    pub running: bool,
    pub file_name: Seq<char>,
    pub lines: Seq<Seq<char>>,
    /// Cursor column: a character position in the current row.
    pub col: nat,
    /// Cursor row: a position in the line sequence.
    pub row: nat,
    pub mode: EditMode,
}

/// A column clamped to rest on a character of a row of length `len`
/// (position 0 on an empty row).
pub open spec fn clamp_on_row(col: nat, len: nat) -> nat {
    if len == 0 {
        0
    } else if col >= len {
        (len - 1) as nat
    } else {
        col
    }
}

impl AppV {
    /// The length of row `r`, and 0 beyond the last row (in particular,
    /// 0 everywhere in an empty buffer).
    pub open spec fn row_len(self, r: nat) -> nat {
        if r < self.lines.len() {
            self.lines[r as int].len()
        } else {
            0
        }
    }

    /// The length of the row under the cursor.
    pub open spec fn cur_row_len(self) -> nat {
        self.row_len(self.row)
    }

    /// The cursor row is a valid row position: inside the buffer, or 0
    /// when the buffer has no rows.
    pub open spec fn row_ok(self) -> bool {
        if self.lines.len() == 0 {
            self.row == 0
        } else {
            self.row < self.lines.len()
        }
    }

    /// In normal and command mode the cursor rests on a character:
    /// the column is below the row's length (0 on an empty row).
    pub open spec fn col_ok_on(self) -> bool {
        if self.cur_row_len() == 0 {
            self.col == 0
        } else {
            self.col < self.cur_row_len()
        }
    }

    /// In insert mode the cursor rests between characters: the column
    /// may also equal the row's length.
    pub open spec fn col_ok_between(self) -> bool {
        self.col <= self.cur_row_len()
    }

    /// The cursor invariant. It holds after construction and every step
    /// preserves it (`lemma_step_preserves_wf`).
    pub open spec fn wf(self) -> bool {
        &&& self.row_ok()
        &&& if self.mode == EditMode::INSERT {
            self.col_ok_between()
        } else {
            self.col_ok_on()
        }
    }
}

/// What one key does in normal mode: `h`/`l` move within the row,
/// `j`/`k` move across rows and re-clamp the column onto the destination
/// row, `^`/`$` jump to the row's ends (`$` a no-op on an empty row),
/// `i`/`a` enter insert mode (`a` advances the column only when it is not
/// at the last row-count boundary, and never past the row's end), `:`
/// enters command mode and `q` stops the session.
pub open spec fn spec_normal_step(s: AppV, key: Key) -> AppV {
    match key {
        Key::Char(c) => if c == 'h' {
            AppV { col: if s.col > 0 { (s.col - 1) as nat } else { 0 }, ..s }
        } else if c == 'l' {
            AppV { col: if s.col + 1 < s.cur_row_len() { s.col + 1 } else { s.col }, ..s }
        } else if c == 'j' {
            if s.lines.len() > 0 && s.row + 1 < s.lines.len() {
                AppV {
                    row: s.row + 1,
                    col: clamp_on_row(s.col, s.row_len(s.row + 1)),
                    ..s
                }
            } else {
                s
            }
        } else if c == 'k' {
            if s.row > 0 {
                AppV {
                    row: (s.row - 1) as nat,
                    col: clamp_on_row(s.col, s.row_len((s.row - 1) as nat)),
                    ..s
                }
            } else {
                s
            }
        } else if c == '^' {
            AppV { col: 0, ..s }
        } else if c == '$' {
            AppV {
                col: if s.cur_row_len() > 0 {
                    (s.cur_row_len() - 1) as nat
                } else {
                    s.col
                },
                ..s
            }
        } else if c == 'i' {
            AppV { mode: EditMode::INSERT, ..s }
        } else if c == 'a' {
            let cand = if s.col + 1 < s.lines.len() {
                s.col + 1
            } else {
                s.col
            };
            AppV {
                col: if cand <= s.cur_row_len() {
                    cand
                } else {
                    s.cur_row_len()
                },
                mode: EditMode::INSERT,
                ..s
            }
        } else if c == ':' {
            AppV { mode: EditMode::COMMAND, ..s }
        } else if c == 'q' {
            AppV { running: false, ..s }
        } else {
            s
        },
        _ => s,
    }
}

/// What one key does in insert mode: a character is inserted at the
/// cursor, Enter opens a new empty row after the current one and moves
/// the cursor there (it does not split the current row), Backspace
/// removes the character before the cursor (a no-op at column 0, never a
/// fault), and Esc returns to normal mode, re-clamping the column onto a
/// character.
pub open spec fn spec_insert_step(s: AppV, key: Key) -> AppV {
    match key {
        Key::Esc => AppV {
            mode: EditMode::NORMAL,
            col: clamp_on_row(s.col, s.cur_row_len()),
            ..s
        },
        Key::Enter => if s.lines.len() == 0 {
            AppV { lines: seq![Seq::<char>::empty()], row: 0, col: 0, ..s }
        } else {
            AppV {
                lines: s.lines.insert(s.row as int + 1, Seq::<char>::empty()),
                row: s.row + 1,
                col: 0,
                ..s
            }
        },
        Key::Char(c) => if s.row < s.lines.len() {
            AppV {
                lines: s.lines.update(
                    s.row as int,
                    s.lines[s.row as int].insert(s.col as int, c),
                ),
                col: s.col + 1,
                ..s
            }
        } else {
            s
        },
        Key::Backspace => if s.row < s.lines.len() && s.col > 0 {
            AppV {
                lines: s.lines.update(
                    s.row as int,
                    s.lines[s.row as int].remove(s.col as int - 1),
                ),
                col: (s.col - 1) as nat,
                ..s
            }
        } else {
            s
        },
        _ => s,
    }
}

/// What one key does in command mode: `q` stops the session, Esc returns
/// to normal mode. `w` changes no state here: it asks the driver to save
/// (`spec_step_action`), and the outcome comes back through
/// `App::save_finished`.
pub open spec fn spec_command_step(s: AppV, key: Key) -> AppV {
    match key {
        Key::Char(c) => if c == 'q' {
            AppV { running: false, ..s }
        } else {
            s
        },
        Key::Esc => AppV { mode: EditMode::NORMAL, ..s },
        _ => s,
    }
}

/// One step of the state machine: the active mode's rules applied to one
/// key.
pub open spec fn spec_step(s: AppV, key: Key) -> AppV {
    match s.mode {
        EditMode::NORMAL => spec_normal_step(s, key),
        EditMode::INSERT => spec_insert_step(s, key),
        EditMode::COMMAND => spec_command_step(s, key),
    }
}

/// The action a step asks of the session driver: a save for `w` in
/// command mode, nothing otherwise.
pub open spec fn spec_step_action(s: AppV, key: Key) -> Action {
    if s.mode == EditMode::COMMAND && key == Key::Char('w') {
        Action::Save
    } else {
        Action::Nothing
    }
}

/// How a reported save outcome changes the state: success returns
/// command mode to normal mode; failure leaves the mode alone, so the
/// session survives it.
pub open spec fn spec_save_finished(s: AppV, ok: bool) -> AppV {
    if ok && s.mode == EditMode::COMMAND {
        AppV { mode: EditMode::NORMAL, ..s }
    } else {
        s
    }
}

/// The editor: a buffer, a cursor, a mode, and the session bookkeeping
/// the driver reads (whether to keep running, the target file name, and
/// the vertical screen offsets the renderer last used).
pub struct App {
    pub running: bool,
    pub file_name: String,
    pub buffer: Buffer,
    /// `(column, row)`, both zero-based character/row positions.
    pub cursor_position: (usize, usize),
    pub mode: EditMode,
    pub margin_top: u16,
    pub bottom_bar: u16,
}

impl View for App {
    type V = AppV;

    open spec fn view(&self) -> AppV {
        AppV {
            running: self.running,
            file_name: self.file_name@,
            lines: self.buffer@,
            col: self.cursor_position.0 as nat,
            row: self.cursor_position.1 as nat,
            mode: self.mode,
        }
    }
}

impl App {
    /// A fresh editor over a loaded buffer: running, in normal mode,
    /// cursor at the origin.
    pub fn new(buffer: Buffer, file_name: String) -> (app: App)
        ensures
            app@ == (AppV {
                running: true,
                file_name: file_name@,
                lines: buffer@,
                col: 0,
                row: 0,
                mode: EditMode::NORMAL,
            }),
            app@.wf(),
            app.margin_top == 0,
            app.bottom_bar == 0,
    {
        App {
            running: true,
            file_name,
            buffer,
            cursor_position: (0, 0),
            mode: EditMode::NORMAL,
            margin_top: 0,
            bottom_bar: 0,
        }
    }

    /// Dispatches one key to the active mode's handler and reports the
    /// action the driver must perform.
    pub fn handle_events(&mut self, key: Key) -> (a: Action)
        requires
            old(self)@.wf(),
        ensures
            final(self)@ == spec_step(old(self)@, key),
            final(self)@.wf(),
            final(self).margin_top == old(self).margin_top,
            final(self).bottom_bar == old(self).bottom_bar,
            a == spec_step_action(old(self)@, key),
    {
        if self.mode == EditMode::NORMAL {
            self.handle_events_normal(key);
            Action::Nothing
        } else if self.mode == EditMode::INSERT {
            self.handle_events_insert(key);
            Action::Nothing
        } else {
            self.handle_events_command(key)
        }
    }

    /// Normal mode: cursor motion and mode changes.
    pub fn handle_events_normal(&mut self, key: Key)
        requires
            old(self)@.wf(),
            old(self)@.mode == EditMode::NORMAL,
        ensures
            final(self)@ == spec_normal_step(old(self)@, key),
            final(self)@.wf(),
            final(self).margin_top == old(self).margin_top,
            final(self).bottom_bar == old(self).bottom_bar,
    {
        proof {
            lemma_normal_step_preserves_wf(old(self)@, key);
        }
        let col = self.cursor_position.0;
        let row = self.cursor_position.1;
        let nrows = self.buffer.len();
        match key {
            Key::Char(c) => {
                if c == 'h' {
                    if col > 0 {
                        self.cursor_position = (col - 1, row);
                    }
                } else if c == 'l' {
                    if nrows > 0 {
                        let ll = self.buffer.row_len(row);
                        if col + 1 < ll {
                            self.cursor_position = (col + 1, row);
                        }
                    }
                } else if c == 'j' {
                    if nrows > 0 && row + 1 < nrows {
                        let r2 = row + 1;
                        let ll = self.buffer.row_len(r2);
                        let c2 = if ll == 0 {
                            0
                        } else if col >= ll {
                            ll - 1
                        } else {
                            col
                        };
                        self.cursor_position = (c2, r2);
                    }
                } else if c == 'k' {
                    if row > 0 {
                        let r2 = row - 1;
                        let ll = self.buffer.row_len(r2);
                        let c2 = if ll == 0 {
                            0
                        } else if col >= ll {
                            ll - 1
                        } else {
                            col
                        };
                        self.cursor_position = (c2, r2);
                    }
                } else if c == '^' {
                    self.cursor_position = (0, row);
                } else if c == '$' {
                    if nrows > 0 {
                        let ll = self.buffer.row_len(row);
                        if ll > 0 {
                            self.cursor_position = (ll - 1, row);
                        }
                    }
                } else if c == 'i' {
                    self.mode = EditMode::INSERT;
                } else if c == 'a' {
                    let cand = if nrows > 0 && col < nrows - 1 {
                        col + 1
                    } else {
                        col
                    };
                    let ll = if nrows > 0 {
                        self.buffer.row_len(row)
                    } else {
                        0
                    };
                    let c2 = if cand <= ll {
                        cand
                    } else {
                        ll
                    };
                    self.cursor_position = (c2, row);
                    self.mode = EditMode::INSERT;
                } else if c == ':' {
                    self.mode = EditMode::COMMAND;
                } else if c == 'q' {
                    self.running = false;
                }
            },
            _ => {},
        }
        proof {
            assert(self@ =~= spec_normal_step(old(self)@, key));
        }
    }

    /// Insert mode: text entry into the buffer.
    pub fn handle_events_insert(&mut self, key: Key)
        requires
            old(self)@.wf(),
            old(self)@.mode == EditMode::INSERT,
        ensures
            final(self)@ == spec_insert_step(old(self)@, key),
            final(self)@.wf(),
            final(self).margin_top == old(self).margin_top,
            final(self).bottom_bar == old(self).bottom_bar,
    {
        proof {
            lemma_insert_step_preserves_wf(old(self)@, key);
        }
        let col = self.cursor_position.0;
        let row = self.cursor_position.1;
        match key {
            Key::Esc => {
                self.mode = EditMode::NORMAL;
                if self.buffer.len() > 0 {
                    let ll = self.buffer.row_len(row);
                    let c2 = if ll == 0 {
                        0
                    } else if col >= ll {
                        ll - 1
                    } else {
                        col
                    };
                    self.cursor_position = (c2, row);
                }
            },
            Key::Enter => {
                if self.buffer.len() == 0 {
                    self.buffer.insert_row(0, String::new());
                    self.cursor_position = (0, 0);
                } else {
                    self.buffer.insert_row(row + 1, String::new());
                    self.cursor_position = (0, row + 1);
                }
            },
            Key::Char(c) => {
                if row < self.buffer.len() {
                    self.buffer.insert_char(row, col, c);
                    // the grown row holds at least col + 1 characters and its
                    // length is a machine word, so the advanced column fits one
                    let _grown = self.buffer.row_len(row);
                    self.cursor_position = (col + 1, row);
                }
            },
            Key::Backspace => {
                if row < self.buffer.len() && col > 0 {
                    self.buffer.remove_char(row, col - 1);
                    self.cursor_position = (col - 1, row);
                }
            },
            _ => {},
        }
        proof {
            assert(self@ =~= spec_insert_step(old(self)@, key));
        }
    }

    /// Command mode: single-character command dispatch.
    pub fn handle_events_command(&mut self, key: Key) -> (a: Action)
        requires
            old(self)@.wf(),
            old(self)@.mode == EditMode::COMMAND,
        ensures
            final(self)@ == spec_command_step(old(self)@, key),
            final(self)@.wf(),
            final(self).margin_top == old(self).margin_top,
            final(self).bottom_bar == old(self).bottom_bar,
            a == spec_step_action(old(self)@, key),
    {
        match key {
            Key::Char(c) => {
                if c == 'q' {
                    self.running = false;
                    Action::Nothing
                } else if c == 'w' {
                    Action::Save
                } else {
                    Action::Nothing
                }
            },
            Key::Esc => {
                self.mode = EditMode::NORMAL;
                Action::Nothing
            },
            _ => Action::Nothing,
        }
    }

    /// Takes the driver's report of a save's outcome: success returns to
    /// normal mode, failure leaves the editor in command mode (the driver
    /// surfaces the message; the session goes on).
    pub fn save_finished(&mut self, ok: bool)
        requires
            old(self)@.wf(),
        ensures
            final(self)@ == spec_save_finished(old(self)@, ok),
            final(self)@.wf(),
            final(self).margin_top == old(self).margin_top,
            final(self).bottom_bar == old(self).bottom_bar,
    {
        if ok && self.mode == EditMode::COMMAND {
            self.mode = EditMode::NORMAL;
        }
    }

    /// The status-line indicator of the active mode.
    pub fn mode_label(&self) -> (s: String)
        ensures
            self.mode == EditMode::NORMAL ==> s@ == "Normal"@,
            self.mode == EditMode::INSERT ==> s@ == "Insert"@,
            self.mode == EditMode::COMMAND ==> s@ == "Command"@,
    {
        match self.mode {
            EditMode::NORMAL => String::from_str("Normal"),
            EditMode::INSERT => String::from_str("Insert"),
            EditMode::COMMAND => String::from_str("Command"),
        }
    }
}

/// A normal-mode step keeps the cursor invariant.
pub proof fn lemma_normal_step_preserves_wf(s: AppV, key: Key)
    requires
        s.wf(),
        s.mode == EditMode::NORMAL,
    ensures
        spec_normal_step(s, key).wf(),
{
}

/// An insert-mode step keeps the cursor invariant.
pub proof fn lemma_insert_step_preserves_wf(s: AppV, key: Key)
    requires
        s.wf(),
        s.mode == EditMode::INSERT,
    ensures
        spec_insert_step(s, key).wf(),
{
    let t = spec_insert_step(s, key);
    match key {
        Key::Enter => {
            if s.lines.len() > 0 {
                assert(t.lines.len() == s.lines.len() + 1);
                assert(t.lines[t.row as int] =~= Seq::<char>::empty());
            }
        },
        Key::Char(c) => {
            if s.row < s.lines.len() {
                assert(t.lines[s.row as int].len() == s.lines[s.row as int].len() + 1);
            }
        },
        Key::Backspace => {
            if s.row < s.lines.len() && s.col > 0 {
                assert(t.lines[s.row as int].len() == s.lines[s.row as int].len() - 1);
            }
        },
        _ => {},
    }
}

/// A command-mode step keeps the cursor invariant.
pub proof fn lemma_command_step_preserves_wf(s: AppV, key: Key)
    requires
        s.wf(),
        s.mode == EditMode::COMMAND,
    ensures
        spec_command_step(s, key).wf(),
{
}

/// Every step of the state machine keeps the cursor invariant, whatever
/// the mode and whatever the key; and the mode after a step is again one
/// of the three modes, so the transition graph is closed over them.
pub proof fn lemma_step_preserves_wf(s: AppV, key: Key)
    requires
        s.wf(),
    ensures
        spec_step(s, key).wf(),
        spec_step(s, key).mode == EditMode::NORMAL || spec_step(s, key).mode == EditMode::INSERT
            || spec_step(s, key).mode == EditMode::COMMAND,
{
    match s.mode {
        EditMode::NORMAL => lemma_normal_step_preserves_wf(s, key),
        EditMode::INSERT => lemma_insert_step_preserves_wf(s, key),
        EditMode::COMMAND => lemma_command_step_preserves_wf(s, key),
    }
}

/// From every state, one Esc lands back in normal mode, with the
/// invariant intact: every mode has a one-step way back to a defined
/// state.
pub proof fn lemma_esc_reaches_normal_in_one_step(s: AppV)
    requires
        s.wf(),
    ensures
        spec_step(s, Key::Esc).wf(),
        spec_step(s, Key::Esc).mode == EditMode::NORMAL,
{
    lemma_step_preserves_wf(s, Key::Esc);
}

/// From normal and command mode, a `q` stops the session in one step.
pub proof fn lemma_quit_in_one_step(s: AppV)
    requires
        s.wf(),
        s.mode == EditMode::NORMAL || s.mode == EditMode::COMMAND,
    ensures
        !spec_step(s, Key::Char('q')).running,
{
}

/// The state after a whole sequence of keys, applied left to right.
pub open spec fn spec_run_keys(s: AppV, keys: Seq<Key>) -> AppV
    decreases keys.len(),
{
    if keys.len() == 0 {
        s
    } else {
        spec_run_keys(spec_step(s, keys[0]), keys.drop_first())
    }
}

/// Any sequence of `h` and `l` in normal mode leaves the buffer, the row
/// and the mode alone, and the column never leaves the current row: it
/// stays below the row's length, or at 0 on an empty row.
pub proof fn lemma_hl_keeps_column_in_row(s: AppV, keys: Seq<Key>)
    requires
        s.wf(),
        s.mode == EditMode::NORMAL,
        forall|i: int|
            0 <= i < keys.len() ==> keys[i] == Key::Char('h') || keys[i] == Key::Char('l'),
    ensures
        ({
            let t = spec_run_keys(s, keys);
            &&& t.lines == s.lines
            &&& t.row == s.row
            &&& t.mode == EditMode::NORMAL
            &&& if s.cur_row_len() == 0 {
                t.col == 0
            } else {
                t.col < s.cur_row_len()
            }
        }),
    decreases keys.len(),
{
    if keys.len() > 0 {
        let s1 = spec_step(s, keys[0]);
        lemma_normal_step_preserves_wf(s, keys[0]);
        assert(s1.lines == s.lines && s1.row == s.row && s1.mode == EditMode::NORMAL);
        lemma_hl_keeps_column_in_row(s1, keys.drop_first());
    }
}

/// Any sequence of `j` and `k` in normal mode leaves the buffer and the
/// mode alone, keeps the row inside the buffer (at 0 when the buffer is
/// empty), and re-clamps the column onto the destination row's bounds.
pub proof fn lemma_jk_keeps_row_in_buffer(s: AppV, keys: Seq<Key>)
    requires
        s.wf(),
        s.mode == EditMode::NORMAL,
        forall|i: int|
            0 <= i < keys.len() ==> keys[i] == Key::Char('j') || keys[i] == Key::Char('k'),
    ensures
        ({
            let t = spec_run_keys(s, keys);
            &&& t.lines == s.lines
            &&& t.mode == EditMode::NORMAL
            &&& if s.lines.len() == 0 {
                t.row == 0
            } else {
                t.row < s.lines.len()
            }
            &&& if t.cur_row_len() == 0 {
                t.col == 0
            } else {
                t.col < t.cur_row_len()
            }
        }),
    decreases keys.len(),
{
    if keys.len() > 0 {
        let s1 = spec_step(s, keys[0]);
        lemma_normal_step_preserves_wf(s, keys[0]);
        assert(s1.lines == s.lines && s1.mode == EditMode::NORMAL);
        lemma_jk_keeps_row_in_buffer(s1, keys.drop_first());
    }
}

} // verus!
