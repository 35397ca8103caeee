//! Keys while a window is up. An open window owns the keyboard whatever mode
//! opened it: the track info, the pending changes, the play history and the
//! help. Each scrolls in its own way and closes on `q`.

use vstd::prelude::*;

use crate::keys::Key;

verus! {

/// Which windows are up, and how far each one is scrolled.
#[derive(Clone, Copy, PartialEq, Eq, Structural, Debug)]
pub struct Windows {
    pub info: bool,
    pub changes: bool,
    pub history: bool,
    pub help: bool,
    /// How far the changes window is panned to the right, in columns.
    pub changes_pan: usize,
    /// The first row of the changes window that shows.
    pub changes_top: usize,
    /// The first row of the history window that shows.
    pub history_top: usize,
    /// The first row of the help window that shows.
    pub help_scroll: usize,
}

/// What a key in a window asks of the program besides the new state.
#[derive(Clone, Copy, PartialEq, Eq, Structural, Debug)]
pub enum WindowAct {
    Nothing,
    /// Put the path of the track under the cursor on the clipboard.
    CopyPath,
    /// Put the whole list of pending changes on the clipboard.
    CopyChanges,
}

pub open spec fn is_char(key: Key, c: char) -> bool {
    key == Key::Char(c)
}

/// `q`, `Q`, Esc or Enter: the keys that close the changes and history windows.
pub open spec fn closes(key: Key) -> bool {
    is_char(key, 'q') || is_char(key, 'Q') || key == Key::Esc || key == Key::Enter
}

pub open spec fn down(key: Key) -> bool {
    is_char(key, 'j') || key == Key::Down
}

pub open spec fn up(key: Key) -> bool {
    is_char(key, 'k') || key == Key::Up
}

pub open spec fn to_top(key: Key) -> bool {
    is_char(key, 'g') || key == Key::Home
}

pub open spec fn to_end(key: Key) -> bool {
    is_char(key, 'G') || key == Key::End
}

/// `x - d`, stopping at zero.
pub open spec fn less(x: usize, d: int) -> usize {
    if x >= d {
        (x - d) as usize
    } else {
        0
    }
}

/// `x + d` kept between zero and `last`.
pub open spec fn within(x: usize, d: int, last: usize) -> usize {
    if x + d < 0 {
        0
    } else if x + d > last {
        last
    } else {
        (x + d) as usize
    }
}

/// What a key does to the help window, whose last row is `help_len - 1`.
pub open spec fn spec_help_key(w: Windows, key: Key, ctrl: bool, help_len: usize) -> Windows {
    let last: usize = less(help_len, 1);
    if is_char(key, 'q') || is_char(key, 'Q') || key == Key::Esc || key == Key::F(1) {
        Windows { help: false, help_scroll: 0, ..w }
    } else if down(key) {
        Windows { help_scroll: within(w.help_scroll, 1, last), ..w }
    } else if up(key) {
        Windows { help_scroll: within(w.help_scroll, -1, last), ..w }
    } else if is_char(key, 'd') && ctrl {
        Windows { help_scroll: within(w.help_scroll, 10, last), ..w }
    } else if is_char(key, 'u') && ctrl {
        Windows { help_scroll: within(w.help_scroll, -10, last), ..w }
    } else if is_char(key, 'g') {
        Windows { help_scroll: 0, ..w }
    } else if is_char(key, 'G') {
        Windows { help_scroll: last, ..w }
    } else {
        w
    }
}

/// The count a window key uses: the one typed, else one.
pub open spec fn count_or_one(count: Option<usize>) -> int {
    match count {
        Some(c) => c as int,
        None => 1,
    }
}

/// What a key does to the changes window, with `c` the count it took. It
/// pans four columns a step and scrolls a row a step.
pub open spec fn spec_changes_key(w: Windows, key: Key, ctrl: bool, c: int) -> (Windows, WindowAct) {
    let step: int = c * 4;
    if is_char(key, 'l') || key == Key::Right {
        (Windows { changes_pan: (w.changes_pan + step) as usize, ..w }, WindowAct::Nothing)
    } else if is_char(key, 'h') || key == Key::Left {
        (Windows { changes_pan: less(w.changes_pan, step), ..w }, WindowAct::Nothing)
    } else if is_char(key, '0') {
        (Windows { changes_pan: 0, ..w }, WindowAct::Nothing)
    } else if is_char(key, '$') {
        (Windows { changes_pan: usize::MAX, ..w }, WindowAct::Nothing)
    } else if is_char(key, 'y') {
        (Windows { changes: false, ..w }, WindowAct::CopyChanges)
    } else if down(key) {
        (Windows { changes_top: (w.changes_top + c) as usize, ..w }, WindowAct::Nothing)
    } else if up(key) {
        (Windows { changes_top: less(w.changes_top, c), ..w }, WindowAct::Nothing)
    } else if to_top(key) {
        (Windows { changes_top: 0, ..w }, WindowAct::Nothing)
    } else if to_end(key) {
        (Windows { changes_top: usize::MAX, ..w }, WindowAct::Nothing)
    } else if is_char(key, 'd') && ctrl {
        (Windows { changes_top: (w.changes_top + 10) as usize, ..w }, WindowAct::Nothing)
    } else if is_char(key, 'u') && ctrl {
        (Windows { changes_top: less(w.changes_top, 10), ..w }, WindowAct::Nothing)
    } else if closes(key) {
        (Windows { changes: false, changes_pan: 0, changes_top: 0, ..w }, WindowAct::Nothing)
    } else {
        (w, WindowAct::Nothing)
    }
}

/// What a key does to the history window, with `c` the count it took.
pub open spec fn spec_history_key(w: Windows, key: Key, c: int) -> Windows {
    if down(key) {
        Windows { history_top: (w.history_top + c) as usize, ..w }
    } else if up(key) {
        Windows { history_top: less(w.history_top, c), ..w }
    } else if to_top(key) {
        Windows { history_top: 0, ..w }
    } else if to_end(key) {
        Windows { history_top: usize::MAX, ..w }
    } else if closes(key) {
        Windows { history: false, ..w }
    } else {
        w
    }
}

/// What a key does with the windows `w` up and the count `count` pending:
/// the windows after it, the count after it, and what the program is to do.
/// The info window comes first, then the changes, the history and the help.
pub open spec fn spec_window_key(w: Windows, key: Key, ctrl: bool, count: Option<usize>, help_len: usize)
    -> (Windows, Option<usize>, WindowAct)
{
    if w.info {
        if is_char(key, 'y') {
            (Windows { info: false, ..w }, count, WindowAct::CopyPath)
        } else if closes(key) || is_char(key, 'K') {
            (Windows { info: false, ..w }, count, WindowAct::Nothing)
        } else {
            (w, count, WindowAct::Nothing)
        }
    } else if w.changes {
        let (v, act) = spec_changes_key(w, key, ctrl, count_or_one(count));
        (v, None, act)
    } else if w.history {
        (spec_history_key(w, key, count_or_one(count)), None, WindowAct::Nothing)
    } else if w.help {
        (spec_help_key(w, key, ctrl, help_len), count, WindowAct::Nothing)
    } else {
        (w, count, WindowAct::Nothing)
    }
}

/// Whether the key's arithmetic stays within a `usize`: a pan, a scroll or
/// the count times four that would not fit is out of range.
pub open spec fn spec_key_fits(w: Windows, key: Key, ctrl: bool, count: Option<usize>) -> bool {
    let c = count_or_one(count);
    if w.info {
        true
    } else if w.changes {
        &&& c * 4 <= usize::MAX
        &&& (is_char(key, 'l') || key == Key::Right) ==> w.changes_pan + c * 4 <= usize::MAX
        &&& down(key) ==> w.changes_top + c <= usize::MAX
        &&& (is_char(key, 'd') && ctrl) ==> w.changes_top + 10 <= usize::MAX
    } else if w.history {
        down(key) ==> w.history_top + c <= usize::MAX
    } else {
        true
    }
}

impl Windows {
    /// No window up, nothing scrolled.
    pub fn new() -> (w: Windows)
        ensures
            !w.info && !w.changes && !w.history && !w.help,
            w.changes_pan == 0 && w.changes_top == 0 && w.history_top == 0 && w.help_scroll == 0,
    {
        Windows {
            info: false,
            changes: false,
            history: false,
            help: false,
            changes_pan: 0,
            changes_top: 0,
            history_top: 0,
            help_scroll: 0,
        }
    }

    /// Whether a window is up, and so owns the keyboard.
    pub fn any_open(&self) -> (b: bool)
        ensures
            b == (self.info || self.changes || self.help || self.history),
    {
        self.info || self.changes || self.help || self.history
    }

    /// Whether `window_key` can take this key without its arithmetic
    /// running out of a `usize`.
    pub fn key_fits(&self, key: Key, ctrl: bool, count: Option<usize>) -> (b: bool)
        ensures
            b == spec_key_fits(*self, key, ctrl, count),
    {
        let c: usize = match count {
            Some(c) => c,
            None => 1,
        };
        if self.info {
            true
        } else if self.changes {
            if c > usize::MAX / 4 {
                return false;
            }
            let step = c * 4;
            if (key == Key::Char('l') || key == Key::Right) && self.changes_pan > usize::MAX - step {
                return false;
            }
            if (key == Key::Char('j') || key == Key::Down) && self.changes_top > usize::MAX - c {
                return false;
            }
            if key == Key::Char('d') && ctrl && self.changes_top > usize::MAX - 10 {
                return false;
            }
            true
        } else if self.history {
            !((key == Key::Char('j') || key == Key::Down) && self.history_top > usize::MAX - c)
        } else {
            true
        }
    }
}

/// Keys while the help window is up: it scrolls within its `help_len` rows,
/// and then it closes.
pub fn help_key(w: &mut Windows, key: Key, ctrl: bool, help_len: usize)
    ensures
        *final(w) == spec_help_key(*old(w), key, ctrl, help_len),
{
    let last: usize = if help_len >= 1 {
        help_len - 1
    } else {
        0
    };
    let s = w.help_scroll;
    if key == Key::Char('q') || key == Key::Char('Q') || key == Key::Esc || key == Key::F(1) {
        w.help = false;
        w.help_scroll = 0;
    } else if key == Key::Char('j') || key == Key::Down {
        w.help_scroll = forward(s, 1, last);
    } else if key == Key::Char('k') || key == Key::Up {
        w.help_scroll = back(s, 1, last);
    } else if key == Key::Char('d') && ctrl {
        w.help_scroll = forward(s, 10, last);
    } else if key == Key::Char('u') && ctrl {
        w.help_scroll = back(s, 10, last);
    } else if key == Key::Char('g') {
        w.help_scroll = 0;
    } else if key == Key::Char('G') {
        w.help_scroll = last;
    }
}

/// `s + d`, no further than `last`.
fn forward(s: usize, d: usize, last: usize) -> (r: usize)
    ensures
        r == within(s, d as int, last),
{
    if s >= last || last - s <= d {
        last
    } else {
        s + d
    }
}

/// `s - d`, no lower than zero and no further than `last`.
fn back(s: usize, d: usize, last: usize) -> (r: usize)
    ensures
        r == within(s, -(d as int), last),
{
    let r: usize = if s >= d {
        s - d
    } else {
        0
    };
    if r > last {
        last
    } else {
        r
    }
}

/// Keys for whichever window is up: the info window takes them first, then
/// the changes, the history and the help. The changes and history windows
/// use up the count; a key that none of them knows does nothing.
pub fn window_key(w: &mut Windows, key: Key, ctrl: bool, count: &mut Option<usize>, help_len: usize) -> (act: WindowAct)
    requires
        spec_key_fits(*old(w), key, ctrl, *old(count)),
    ensures
        (*final(w), *final(count), act) == spec_window_key(*old(w), key, ctrl, *old(count), help_len),
{
    if w.info {
        if key == Key::Char('y') {
            w.info = false;
            return WindowAct::CopyPath;
        }
        if key == Key::Char('q') || key == Key::Char('Q') || key == Key::Char('K') || key == Key::Esc
            || key == Key::Enter {
            w.info = false;
        }
        return WindowAct::Nothing;
    }
    if w.changes {
        let c: usize = match *count {
            Some(c) => c,
            None => 1,
        };
        *count = None;
        let step = c * 4;
        if key == Key::Char('l') || key == Key::Right {
            w.changes_pan = w.changes_pan + step;
        } else if key == Key::Char('h') || key == Key::Left {
            w.changes_pan = if w.changes_pan >= step {
                w.changes_pan - step
            } else {
                0
            };
        } else if key == Key::Char('0') {
            w.changes_pan = 0;
        } else if key == Key::Char('$') {
            w.changes_pan = usize::MAX;
        } else if key == Key::Char('y') {
            w.changes = false;
            return WindowAct::CopyChanges;
        } else if key == Key::Char('j') || key == Key::Down {
            w.changes_top = w.changes_top + c;
        } else if key == Key::Char('k') || key == Key::Up {
            w.changes_top = if w.changes_top >= c {
                w.changes_top - c
            } else {
                0
            };
        } else if key == Key::Char('g') || key == Key::Home {
            w.changes_top = 0;
        } else if key == Key::Char('G') || key == Key::End {
            w.changes_top = usize::MAX;
        } else if key == Key::Char('d') && ctrl {
            w.changes_top = w.changes_top + 10;
        } else if key == Key::Char('u') && ctrl {
            w.changes_top = if w.changes_top >= 10 {
                w.changes_top - 10
            } else {
                0
            };
        } else if key == Key::Char('q') || key == Key::Char('Q') || key == Key::Esc || key == Key::Enter {
            w.changes = false;
            w.changes_pan = 0;
            w.changes_top = 0;
        }
        return WindowAct::Nothing;
    }
    if w.history {
        let c: usize = match *count {
            Some(c) => c,
            None => 1,
        };
        *count = None;
        if key == Key::Char('j') || key == Key::Down {
            w.history_top = w.history_top + c;
        } else if key == Key::Char('k') || key == Key::Up {
            w.history_top = if w.history_top >= c {
                w.history_top - c
            } else {
                0
            };
        } else if key == Key::Char('g') || key == Key::Home {
            w.history_top = 0;
        } else if key == Key::Char('G') || key == Key::End {
            w.history_top = usize::MAX;
        } else if key == Key::Char('q') || key == Key::Char('Q') || key == Key::Esc || key == Key::Enter {
            w.history = false;
        }
        return WindowAct::Nothing;
    }
    if w.help {
        help_key(w, key, ctrl, help_len);
    }
    WindowAct::Nothing
}

/// The help window never scrolls past its last row: whatever key comes,
/// a scroll within the rows stays within them.
pub proof fn law_help_stays_on_its_rows(w: Windows, key: Key, ctrl: bool, help_len: usize)
    requires
        w.help_scroll <= less(help_len, 1),
    ensures
        spec_help_key(w, key, ctrl, help_len).help_scroll <= less(help_len, 1),
{
}

} // verus!
