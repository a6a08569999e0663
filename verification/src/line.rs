//! Keys, and the line that is edited with them.
//!
//! Line editing is tui-input's: its `Input` holds the text, the cursor and
//! what was cut last. The items of this module that call it are believed, not
//! proved.
use vstd::prelude::*;

use crate::text::code_point;
use tui_input::backend::crossterm::EventHandler;

verus! {

/// A key, as far as the program tells keys apart.
#[derive(Clone, Copy, Debug, PartialEq, Eq, Structural)]
pub enum KeyCode {
    Char(char),
    Enter,
    Esc,
    Backspace,
    Delete,
    Left,
    Right,
    Up,
    Down,
    Home,
    End,
    PageUp,
    PageDown,
    Tab,
    BackTab,
    Other,
}

/// A key press. The modifiers are the bits that terminals report: one for
/// Shift, two for Control, four for Alt.
#[derive(Clone, Copy, Debug, PartialEq, Eq, Structural)]
pub struct Key {
    pub code: KeyCode,
    pub modifiers: u8,
}

impl Key {
    pub open spec fn shift_spec(self) -> bool {
        self.modifiers & 1 != 0
    }

    pub open spec fn control_spec(self) -> bool {
        self.modifiers & 2 != 0
    }

    pub fn shift(&self) -> (r: bool)
        ensures
            r == self.shift_spec(),
    {
        self.modifiers & 1 != 0
    }

    pub fn control(&self) -> (r: bool)
        ensures
            r == self.control_spec(),
    {
        self.modifiers & 2 != 0
    }

    /// What the key means to a line, if it means anything to it.
    pub open spec fn edit_spec(self) -> Option<EditKey> {
        match self.code {
            KeyCode::Char(c) => Some(
                EditKey { code: EditCode::Char(c), modifiers: self.modifiers },
            ),
            KeyCode::Backspace => Some(
                EditKey { code: EditCode::Backspace, modifiers: self.modifiers },
            ),
            KeyCode::Delete => Some(EditKey { code: EditCode::Delete, modifiers: self.modifiers }),
            KeyCode::Left => Some(EditKey { code: EditCode::Left, modifiers: self.modifiers }),
            KeyCode::Right => Some(EditKey { code: EditCode::Right, modifiers: self.modifiers }),
            KeyCode::Home => Some(EditKey { code: EditCode::Home, modifiers: self.modifiers }),
            KeyCode::End => Some(EditKey { code: EditCode::End, modifiers: self.modifiers }),
            _ => None,
        }
    }

    /// What the key means to a line, if it means anything to it.
    pub fn edit(&self) -> (r: Option<EditKey>)
        ensures
            r == self.edit_spec(),
    {
        let modifiers: u8 = self.modifiers;
        match self.code {
            KeyCode::Char(c) => Some(EditKey { code: EditCode::Char(c), modifiers }),
            KeyCode::Backspace => Some(EditKey { code: EditCode::Backspace, modifiers }),
            KeyCode::Delete => Some(EditKey { code: EditCode::Delete, modifiers }),
            KeyCode::Left => Some(EditKey { code: EditCode::Left, modifiers }),
            KeyCode::Right => Some(EditKey { code: EditCode::Right, modifiers }),
            KeyCode::Home => Some(EditKey { code: EditCode::Home, modifiers }),
            KeyCode::End => Some(EditKey { code: EditCode::End, modifiers }),
            _ => None,
        }
    }
}

/// A key that edits a line.
#[derive(Clone, Copy, Debug, PartialEq, Eq, Structural)]
pub enum EditCode {
    Char(char),
    Backspace,
    Delete,
    Left,
    Right,
    Home,
    End,
}

/// A press of a key that edits a line, with its modifiers.
#[derive(Clone, Copy, Debug, PartialEq, Eq, Structural)]
pub struct EditKey {
    pub code: EditCode,
    pub modifiers: u8,
}

impl EditKey {
    /// The character that the key puts into a line: one that is pressed
    /// alone, with Shift, or with Control and Alt together.
    pub open spec fn inserts(self) -> Option<char> {
        match self.code {
            EditCode::Char(c) => if self.modifiers == 0 || self.modifiers == 1 || self.modifiers
                == 6 {
                Some(c)
            } else {
                None
            },
            _ => None,
        }
    }

    /// Whether the key puts back what was cut last: Control and `y`.
    pub open spec fn yanks(self) -> bool {
        self.code == EditCode::Char('y') && self.modifiers == 2
    }

    /// Whether the key cuts all of the text: Control and `u`.
    pub open spec fn cuts_all(self) -> bool {
        self.code == EditCode::Char('u') && self.modifiers == 2
    }

    /// Whether the key cuts what is behind the cursor: Control and `k`.
    pub open spec fn cuts_rest(self) -> bool {
        self.code == EditCode::Char('k') && self.modifiers == 2
    }

    /// Whether the key moves the cursor alone.
    pub open spec fn moves(self) -> bool {
        self.code == EditCode::Left || self.code == EditCode::Right || self.code == EditCode::Home
            || self.code == EditCode::End
    }
}

/// tui-input's line editor.
#[verifier::external_type_specification]
#[verifier::external_body]
pub struct ExInput(tui_input::Input);

/// The text of a line.
pub uninterp spec fn line_text(line: tui_input::Input) -> Seq<char>;

/// How many characters of a line stand before its cursor.
pub uninterp spec fn line_cursor(line: tui_input::Input) -> nat;

/// What was cut from a line last.
pub uninterp spec fn line_cut(line: tui_input::Input) -> Seq<char>;

/// Whether the last key cut from a line, so that the next cut adds to what was
/// cut.
pub uninterp spec fn line_cutting(line: tui_input::Input) -> bool;

/// The text of a line, its cursor, what was cut and whether the last key cut,
/// after a key: tui-input's key map, and its steps by grapheme and by word.
pub uninterp spec fn line_edit(
    text: Seq<char>,
    cursor: nat,
    cut: Seq<char>,
    cutting: bool,
    key: EditKey,
) -> (Seq<char>, nat, Seq<char>, bool);

/// A line: its text, how many characters stand before the cursor, what was cut
/// last, and whether the last key cut.
#[verifier::ext_equal]
pub struct LineView {
    pub text: Seq<char>,
    pub cursor: nat,
    pub cut: Seq<char>,
    pub cutting: bool,
}

impl LineView {
    /// A line with this text, the cursor at its end and nothing cut.
    pub open spec fn fresh(text: Seq<char>) -> LineView {
        LineView { text, cursor: text.len(), cut: Seq::empty(), cutting: false }
    }

    /// The line after a key.
    pub open spec fn edited(self, key: EditKey) -> LineView {
        let e = line_edit(self.text, self.cursor, self.cut, self.cutting, key);
        LineView { text: e.0, cursor: e.1, cut: e.2, cutting: e.3 }
    }
}

/// What a line holds.
pub open spec fn line_view(line: tui_input::Input) -> LineView {
    LineView {
        text: line_text(line),
        cursor: line_cursor(line),
        cut: line_cut(line),
        cutting: line_cutting(line),
    }
}

/// `tui_input::Input::new`: a line with this text, the cursor at its end and
/// nothing cut.
#[verifier::external_body]
pub(crate) fn new_line(text: String) -> (r: tui_input::Input)
    ensures
        line_text(r) == text@,
        line_cursor(r) == text@.len(),
        line_cut(r) == Seq::<char>::empty(),
        !line_cutting(r),
{
    tui_input::Input::new(text)
}

/// `tui_input::Input::value`: the text of the line.
#[verifier::external_body]
pub(crate) fn line_value(line: &tui_input::Input) -> (r: String)
    ensures
        r@ == line_text(*line),
{
    line.value().to_owned()
}

/// What holds of every edit of a line whose cursor stands within its text.
/// - The cursor stays within the text.
/// - A plain character is inserted at the cursor.
/// - Backspace and Delete alone remove at least one character before or behind
///   the cursor, where there is one.
/// - The arrows, Home and End leave the text alone, and each of them alone
///   moves the cursor its way.
/// - Control and `u` cuts all of the text, Control and `k` what is behind the
///   cursor. Right after another cut this adds to what was cut: in front of
///   it where all was cut from the end of the text, else behind it.
/// - Control and `y` puts what was cut back at the cursor.
pub open spec fn sound_edit(line: LineView, key: EditKey, new: LineView) -> bool {
    let text = line.text;
    let at = line.cursor as int;
    let n = text.len() as int;
    at <= n ==> {
        &&& new.cursor <= new.text.len()
        &&& key.inserts() matches Some(c) ==> new == (LineView {
            text: text.insert(at, c),
            cursor: (at + 1) as nat,
            cut: line.cut,
            cutting: false,
        })
        &&& key.code == EditCode::Backspace && key.modifiers == 0 && at > 0 ==> exists|k: int|
            #![trigger text.subrange(0, k)]
            0 <= k < at && new == (LineView {
                text: text.subrange(0, k) + text.subrange(at, n),
                cursor: k as nat,
                cut: line.cut,
                cutting: false,
            })
        &&& key.code == EditCode::Backspace && key.modifiers == 0 && at == 0 ==> new == line
        &&& key.code == EditCode::Delete && key.modifiers == 0 && at < n ==> exists|k: int|
            #![trigger text.subrange(k, n)]
            at < k <= n && new == (LineView {
                text: text.subrange(0, at) + text.subrange(k, n),
                cursor: line.cursor,
                cut: line.cut,
                cutting: false,
            })
        &&& key.code == EditCode::Delete && key.modifiers == 0 && at == n ==> new == line
        &&& key.moves() ==> new.text == text && new.cut == line.cut
        &&& key.code == EditCode::Left && key.modifiers == 0 ==> if at > 0 {
            new.cursor < at && !new.cutting
        } else {
            new == line
        }
        &&& key.code == EditCode::Right && key.modifiers == 0 ==> if at < n {
            new.cursor > at && !new.cutting
        } else {
            new == line
        }
        &&& key.code == EditCode::Home && key.modifiers == 0 ==> new.cursor == 0 && !new.cutting
        &&& key.code == EditCode::End && key.modifiers == 0 ==> new.cursor == n && !new.cutting
        &&& key.cuts_all() ==> new == (LineView {
            text: Seq::empty(),
            cursor: 0,
            cut: if n == 0 {
                line.cut
            } else if !line.cutting {
                text
            } else if at == n {
                text + line.cut
            } else {
                line.cut + text
            },
            cutting: true,
        })
        &&& key.cuts_rest() ==> new == (LineView {
            text: text.subrange(0, at),
            cursor: line.cursor,
            cut: if line.cutting {
                line.cut + text.subrange(at, n)
            } else {
                text.subrange(at, n)
            },
            cutting: true,
        })
        &&& key.yanks() ==> new == (LineView {
            text: text.subrange(0, at) + line.cut + text.subrange(at, n),
            cursor: line.cursor + line.cut.len(),
            cut: line.cut,
            cutting: false,
        })
    }
}

/// `tui_input::Input::handle_event`, for a key press: what the line holds
/// then, by name, and what holds of every edit. Backspace, Delete and the
/// arrows step by whole graphemes, and how long those are is not said.
#[verifier::external_body]
pub(crate) fn edit_line(line: &mut tui_input::Input, key: EditKey)
    ensures
        (
            line_text(*final(line)),
            line_cursor(*final(line)),
            line_cut(*final(line)),
            line_cutting(*final(line)),
        ) == line_edit(
            line_text(*old(line)),
            line_cursor(*old(line)),
            line_cut(*old(line)),
            line_cutting(*old(line)),
            key,
        ),
        sound_edit(line_view(*old(line)), key, line_view(*final(line))),
{
    let code = match key.code {
        EditCode::Char(c) => crossterm::event::KeyCode::Char(c),
        EditCode::Backspace => crossterm::event::KeyCode::Backspace,
        EditCode::Delete => crossterm::event::KeyCode::Delete,
        EditCode::Left => crossterm::event::KeyCode::Left,
        EditCode::Right => crossterm::event::KeyCode::Right,
        EditCode::Home => crossterm::event::KeyCode::Home,
        EditCode::End => crossterm::event::KeyCode::End,
    };
    let modifiers = crossterm::event::KeyModifiers::from_bits_truncate(key.modifiers);
    let press = crossterm::event::KeyEvent::new(code, modifiers);
    line.handle_event(&crossterm::event::Event::Key(press));
}

/// How many bytes a character takes in UTF-8.
pub open spec fn utf8_width(c: char) -> int {
    if (c as int) < 0x80 {
        1
    } else if (c as int) < 0x800 {
        2
    } else if (c as int) < 0x10000 {
        3
    } else {
        4
    }
}

/// How many bytes the first `n` characters of a text take.
pub open spec fn bytes_upto(s: Seq<char>, n: int) -> int
    decreases n,
{
    if n <= 0 {
        0
    } else {
        bytes_upto(s, n - 1) + utf8_width(s[n - 1])
    }
}

/// The byte at which the character at position `char_idx` starts, or the
/// length in bytes where the text is not that long.
pub open spec fn byte_offset(s: Seq<char>, char_idx: int) -> int {
    bytes_upto(
        s,
        if char_idx < s.len() {
            char_idx
        } else {
            s.len() as int
        },
    )
}

fn char_width(c: char) -> (r: usize)
    ensures
        r == utf8_width(c),
{
    let n = code_point(c);
    if n < 0x80 {
        1
    } else if n < 0x800 {
        2
    } else if n < 0x10000 {
        3
    } else {
        4
    }
}

/// The byte at which the character at position `char_idx` starts, or the
/// length in bytes where the text is not that long.
pub fn char_byte_offset(s: &str, char_idx: usize) -> (r: usize)
    ensures
        r == (if byte_offset(s@, char_idx as int) > usize::MAX {
            usize::MAX as int
        } else {
            byte_offset(s@, char_idx as int)
        }),
{
    let v = crate::text::chars_of(s);
    let mut bytes: usize = 0;
    let mut i: usize = 0;
    while i < v.len() && i < char_idx
        invariant
            i <= v@.len(),
            i <= char_idx,
            v@ == s@,
            bytes == (if bytes_upto(v@, i as int) > usize::MAX {
                usize::MAX as int
            } else {
                bytes_upto(v@, i as int)
            }),
        decreases v@.len() - i,
    {
        bytes = bytes.saturating_add(char_width(v[i]));
        i += 1;
    }
    bytes
}

} // verus!
