//! Normal mode's keymap: motions, counts, playback and the two key
//! sequences (`g`, `z`, `d`, `y`, `Z`, ctrl-w) that a pending prefix
//! collects. This decides what a key asks for; the program carries it out.

use vstd::prelude::*;

use crate::app::{Pane, Tab};
use crate::text::{spec_word_start, string_of, word_start};

verus! {

/// A key, as far as the keymap tells keys apart.
#[derive(Clone, Copy, PartialEq, Eq, Structural, Debug)]
pub enum Key {
    Char(char),
    Esc,
    Enter,
    Tab,
    Up,
    Down,
    Left,
    Right,
    PageUp,
    PageDown,
    F(u8),
    Backspace,
    Delete,
    Home,
    End,
    Other,
}

/// Ctrl-w, kept as the pending prefix it starts.
pub open spec fn ctrl_w() -> char {
    '\u{17}'
}

/// What normal mode looks at besides the key.
#[derive(Clone, Copy, PartialEq, Eq, Structural, Debug)]
pub struct NormalState {
    /// The count typed so far.
    pub count: Option<usize>,
    /// The first key of a two key sequence, waiting for the second.
    pub pending: Option<char>,
    pub focus: Pane,
    pub tab: Tab,
    /// Linewise visual is on.
    pub visual: bool,
    pub show_help: bool,
    /// Rows in the track window.
    pub track_h: usize,
}

/// What a key in normal mode asks for.
#[derive(Clone, Copy, PartialEq, Eq, Structural, Debug)]
pub enum Act {
    /// Nothing: a key normal mode does not use, a digit of a count, or the
    /// first key of a sequence.
    Nothing,
    /// `:`, the command line.
    CommandLine,
    /// `/`, or `?` to search backwards.
    SearchLine(bool),
    /// Esc: out of visual, the message and the help window gone.
    Escape,
    EnterVisual,
    ExitVisual,
    /// Ctrl-c, which does not quit: say how to.
    QuitHint,
    ToggleHelp,
    CloseHelp,
    /// `K` on a track.
    TrackInfo,
    TogglePane,
    FocusFolders,
    FocusTracks,
    /// Move the track cursor, the folder cursor or the playlist cursor.
    MoveTracks(isize),
    MoveFolders(isize),
    MovePlaylists(isize),
    /// A row of the track list, counted from zero; past the end means the
    /// last one.
    GotoRow(usize),
    CursorToScreen(char),
    ScrollView(isize),
    ScrollCursorTo(char),
    /// `*` and `#`: search for the artist under the cursor, backwards for
    /// `#`.
    SearchArtist(bool),
    /// `n` and `N`: the last search again, the other way for `N`.
    SearchAgain(bool),
    OpenPlaylist,
    OpenFolder,
    OpenInNewTab,
    PlayCursor,
    PlayPause,
    /// Seek by this many seconds.
    Seek(i64),
    /// Shift the lyrics by this many milliseconds.
    ShiftLyrics(i64),
    Advance(isize),
    Volume(i32),
    Mute,
    Undo,
    Redo,
    CycleRepeat,
    ToggleShuffle,
    /// `o`: a new playlist (`true`) or folder, named on the command line.
    NewByName(bool),
    YankSelection,
    DeleteSelection,
    DeletePlaylist,
    CutFolder,
    Put,
    BeginEdit,
    BeginSidebarEdit,
    GoPlaying,
    /// `gt`, `gT` in the side pane: the other side pane tab.
    SwitchSideTab,
    /// `gt`, `gT` over the tracks: the next tab, or the previous one.
    CycleTab(isize),
    Quit,
}

/// What a key asks for, and the count and pending prefix it leaves.
pub struct Outcome {
    pub act: Act,
    pub count: Option<usize>,
    pub pending: Option<char>,
}

/// A move of `delta` rows in whichever list has the keyboard.
pub open spec fn spec_step(st: NormalState, delta: isize) -> Act {
    match (st.focus, st.tab) {
        (Pane::Tracks, _) => Act::MoveTracks(delta),
        (Pane::Folders, Tab::Folders) => Act::MoveFolders(delta),
        (Pane::Folders, Tab::Playlists) => Act::MovePlaylists(delta),
    }
}

fn step(st: NormalState, delta: isize) -> (a: Act)
    ensures
        a == spec_step(st, delta),
{
    match (st.focus, st.tab) {
        (Pane::Tracks, _) => Act::MoveTracks(delta),
        (Pane::Folders, Tab::Folders) => Act::MoveFolders(delta),
        (Pane::Folders, Tab::Playlists) => Act::MovePlaylists(delta),
    }
}

/// The second key of a two key sequence.
pub open spec fn spec_pending(st: NormalState, prefix: char, key: Key, count: usize, has_count: bool) -> Act {
    match key {
        Key::Char(c) => if prefix == 'g' && c == 'g' {
            if st.focus == Pane::Tracks {
                Act::GotoRow(
                    if has_count {
                        (count - 1) as usize
                    } else {
                        0
                    },
                )
            } else {
                Act::MoveFolders((isize::MIN / 2) as isize)
            }
        } else if prefix == 'g' && c == 'p' {
            Act::GoPlaying
        } else if prefix == 'g' && (c == 't' || c == 'T') {
            if st.focus == Pane::Folders {
                Act::SwitchSideTab
            } else {
                Act::CycleTab(
                    if c == 't' {
                        1isize
                    } else {
                        -1isize
                    },
                )
            }
        } else if prefix == 'z' && (c == 'z' || c == 't' || c == 'b') {
            Act::ScrollCursorTo(c)
        } else if prefix == 'y' && c == 'y' {
            Act::YankSelection
        } else if prefix == 'd' && c == 'd' {
            match (st.focus, st.tab) {
                (Pane::Folders, Tab::Playlists) => Act::DeletePlaylist,
                (Pane::Folders, Tab::Folders) => Act::CutFolder,
                (Pane::Tracks, _) => Act::DeleteSelection,
            }
        } else if prefix == 'Z' && (c == 'Z' || c == 'Q') {
            Act::Quit
        } else if prefix == ctrl_w() && (c == 'h' || c == 'k') {
            Act::FocusFolders
        } else if prefix == ctrl_w() && (c == 'l' || c == 'j') {
            Act::FocusTracks
        } else if prefix == ctrl_w() && c == 'w' {
            Act::TogglePane
        } else {
            Act::Nothing
        },
        _ => Act::Nothing,
    }
}

/// What a key does in normal mode when no prefix is pending and it is not a
/// digit of a count: the act, and whether the count is used up by it. A
/// key normal mode does not know keeps the count for the next.
pub open spec fn spec_plain(st: NormalState, key: Key, ctrl: bool, count: usize, has_count: bool) -> (Act, bool, Option<char>) {
    let h = st.track_h;
    let n: int = if has_count {
        count as int
    } else {
        5
    };
    match key {
        Key::Char(c) => if c == ':' {
            (Act::CommandLine, true, None)
        } else if c == '/' || c == '?' {
            (Act::SearchLine(c == '?'), true, None)
        } else if c == 'v' || c == 'V' {
            (if st.visual {
                Act::ExitVisual
            } else {
                Act::EnterVisual
            }, true, None)
        } else if c == 'c' && ctrl {
            (Act::QuitHint, true, None)
        } else if c == 'K' && st.focus == Pane::Tracks {
            (Act::TrackInfo, true, None)
        } else if c == 'q' && st.show_help {
            (Act::CloseHelp, true, None)
        } else if c == 'w' && ctrl {
            (Act::Nothing, true, Some(ctrl_w()))
        } else if c == 'j' {
            (spec_step(st, count as isize), true, None)
        } else if c == 'k' {
            (spec_step(st, (-(count as int)) as isize), true, None)
        } else if c == 'g' {
            (Act::Nothing, true, Some('g'))
        } else if c == 'G' {
            (if st.focus == Pane::Tracks {
                Act::GotoRow(
                    if has_count {
                        (count - 1) as usize
                    } else {
                        usize::MAX
                    },
                )
            } else {
                Act::MoveFolders((isize::MAX / 2) as isize)
            }, true, None)
        } else if c == 'z' {
            (Act::Nothing, true, Some('z'))
        } else if (c == 'H' || c == 'M' || c == 'L') && st.focus == Pane::Tracks {
            (Act::CursorToScreen(c), true, None)
        } else if c == 'd' && ctrl {
            (spec_step(st, (h / 2) as isize), true, None)
        } else if c == 'u' && ctrl {
            (spec_step(st, (-((h / 2) as int)) as isize), true, None)
        } else if c == 'f' && ctrl {
            (spec_step(st, h as isize), true, None)
        } else if c == 'b' && ctrl {
            (spec_step(st, (-(h as int)) as isize), true, None)
        } else if c == 'e' && ctrl {
            (Act::ScrollView(count as isize), true, None)
        } else if c == 'y' && ctrl {
            (Act::ScrollView((-(count as int)) as isize), true, None)
        } else if (c == '*' || c == '#') && st.focus == Pane::Tracks {
            (Act::SearchArtist(c == '#'), true, None)
        } else if c == 'n' || c == 'N' {
            (Act::SearchAgain(c == 'N'), true, None)
        } else if c == ' ' {
            (Act::PlayPause, true, None)
        } else if c == 'h' {
            (Act::Seek((-n) as i64), true, None)
        } else if c == 'l' {
            (Act::Seek(n as i64), true, None)
        } else if c == '[' {
            (Act::ShiftLyrics((-(100 * count)) as i64), true, None)
        } else if c == ']' {
            (Act::ShiftLyrics((100 * count) as i64), true, None)
        } else if c == '>' {
            (Act::Advance(count as isize), true, None)
        } else if c == '<' {
            (Act::Advance((-(count as int)) as isize), true, None)
        } else if c == '+' || c == '=' {
            (Act::Volume(if has_count { count as i32 } else { 5 }), true, None)
        } else if c == '-' || c == '_' {
            (Act::Volume((-(if has_count { (count as i32) as int } else { 5 })) as i32), true, None)
        } else if c == 'm' {
            (Act::Mute, true, None)
        } else if c == 'r' && ctrl {
            (Act::Redo, true, None)
        } else if c == 'r' {
            (Act::CycleRepeat, true, None)
        } else if c == 's' {
            (Act::ToggleShuffle, true, None)
        } else if c == 't' && st.focus == Pane::Folders {
            (Act::OpenInNewTab, true, None)
        } else if (c == 'o' || c == 'O') && st.focus == Pane::Folders {
            (Act::NewByName(st.tab == Tab::Playlists), true, None)
        } else if c == 'y' {
            if st.visual {
                (Act::YankSelection, true, None)
            } else {
                (Act::Nothing, true, Some('y'))
            }
        } else if c == 'd' {
            if st.visual {
                (Act::DeleteSelection, true, None)
            } else {
                (Act::Nothing, true, Some('d'))
            }
        } else if c == 'x' && st.focus == Pane::Tracks {
            (Act::DeleteSelection, true, None)
        } else if c == 'p' {
            (Act::Put, true, None)
        } else if c == 'u' {
            (Act::Undo, true, None)
        } else if c == 'c' && st.focus == Pane::Tracks {
            (Act::BeginEdit, true, None)
        } else if c == 'c' && st.focus == Pane::Folders {
            (Act::BeginSidebarEdit, true, None)
        } else if c == 'Z' {
            (Act::Nothing, true, Some('Z'))
        } else {
            (Act::Nothing, false, None)
        },
        Key::Esc => (Act::Escape, true, None),
        Key::F(k) => if k == 1 {
            (Act::ToggleHelp, true, None)
        } else {
            (Act::Nothing, false, None)
        },
        Key::Tab => (Act::TogglePane, true, None),
        Key::Down => (spec_step(st, count as isize), true, None),
        Key::Up => (spec_step(st, (-(count as int)) as isize), true, None),
        Key::PageDown => (spec_step(st, h as isize), true, None),
        Key::PageUp => (spec_step(st, (-(h as int)) as isize), true, None),
        Key::Enter => (if st.focus == Pane::Folders {
            match st.tab {
                Tab::Playlists => Act::OpenPlaylist,
                Tab::Folders => Act::OpenFolder,
            }
        } else {
            Act::PlayCursor
        }, true, None),
        Key::Left => (Act::Seek((-n) as i64), true, None),
        Key::Right => (Act::Seek(n as i64), true, None),
        _ => (Act::Nothing, false, None),
    }
}

/// What a key does in normal mode: a pending prefix swallows it; a digit
/// extends the count (`0` only once a count is under way); anything else
/// acts, and uses up the count unless normal mode does not know it.
pub open spec fn spec_normal(st: NormalState, key: Key, ctrl: bool) -> (Act, Option<usize>, Option<char>) {
    let count: usize = match st.count {
        Some(c) => c,
        None => 1,
    };
    let has_count = st.count is Some;
    match st.pending {
        Some(prefix) => (spec_pending(st, prefix, key, count, has_count), None, None),
        None => match key {
            Key::Char(c) => if '0' <= c <= '9' && !ctrl && (c != '0' || has_count) {
                let before: int = match st.count {
                    Some(x) => x as int,
                    None => 0,
                };
                (Act::Nothing, Some((before * 10 + (c as u32 - 48)) as usize), None)
            } else {
                let (a, clear, p) = spec_plain(st, key, ctrl, count, has_count);
                (a, if clear {
                    None
                } else {
                    st.count
                }, p)
            },
            _ => {
                let (a, clear, p) = spec_plain(st, key, ctrl, count, has_count);
                (a, if clear {
                    None
                } else {
                    st.count
                }, p)
            },
        },
    }
}

/// A count the key can grow or act on without overflow: at least one (a
/// count never starts with `0`), with room for another digit, and, for `[`
/// or `]`, room for the hundredfold shift into milliseconds.
pub open spec fn sane_count(st: NormalState, key: Key, ctrl: bool) -> bool {
    match st.count {
        Some(c) => {
            &&& c >= 1
            &&& c * 10 + 9 <= usize::MAX
            &&& st.pending is None && (key == Key::Char('[') || key == Key::Char(']')) ==> c * 100 <= i64::MAX
        },
        None => true,
    }
}

/// Whether `normal_key` can take this key with this count: `sane_count`.
pub fn count_fits(st: &NormalState, key: Key, ctrl: bool) -> (b: bool)
    ensures
        b == sane_count(*st, key, ctrl),
{
    match st.count {
        None => true,
        Some(c) => {
            if c < 1 || c > (usize::MAX - 9) / 10 {
                return false;
            }
            if st.pending.is_none() && (key == Key::Char('[') || key == Key::Char(']')) {
                return (c as u64) <= 92233720368547758u64;
            }
            true
        },
    }
}

fn pending_act(st: NormalState, prefix: char, key: Key, count: usize, has_count: bool) -> (a: Act)
    requires
        has_count ==> count >= 1,
    ensures
        a == spec_pending(st, prefix, key, count, has_count),
{
    match key {
        Key::Char(c) => if prefix == 'g' && c == 'g' {
            if st.focus == Pane::Tracks {
                Act::GotoRow(
                    if has_count {
                        count - 1
                    } else {
                        0
                    },
                )
            } else {
                Act::MoveFolders(isize::MIN / 2)
            }
        } else if prefix == 'g' && c == 'p' {
            Act::GoPlaying
        } else if prefix == 'g' && (c == 't' || c == 'T') {
            if st.focus == Pane::Folders {
                Act::SwitchSideTab
            } else {
                Act::CycleTab(
                    if c == 't' {
                        1
                    } else {
                        -1
                    },
                )
            }
        } else if prefix == 'z' && (c == 'z' || c == 't' || c == 'b') {
            Act::ScrollCursorTo(c)
        } else if prefix == 'y' && c == 'y' {
            Act::YankSelection
        } else if prefix == 'd' && c == 'd' {
            match (st.focus, st.tab) {
                (Pane::Folders, Tab::Playlists) => Act::DeletePlaylist,
                (Pane::Folders, Tab::Folders) => Act::CutFolder,
                (Pane::Tracks, _) => Act::DeleteSelection,
            }
        } else if prefix == 'Z' && (c == 'Z' || c == 'Q') {
            Act::Quit
        } else if prefix == '\u{17}' && (c == 'h' || c == 'k') {
            Act::FocusFolders
        } else if prefix == '\u{17}' && (c == 'l' || c == 'j') {
            Act::FocusTracks
        } else if prefix == '\u{17}' && c == 'w' {
            Act::TogglePane
        } else {
            Act::Nothing
        },
        _ => Act::Nothing,
    }
}

fn plain_act(st: NormalState, key: Key, ctrl: bool, count: usize, has_count: bool) -> (r: (Act, bool, Option<char>))
    requires
        count >= 1,
        count * 10 + 9 <= usize::MAX,
        key == Key::Char('[') || key == Key::Char(']') ==> count * 100 <= i64::MAX,
        st.track_h <= isize::MAX,
        has_count ==> count >= 1,
    ensures
        r == spec_plain(st, key, ctrl, count, has_count),
{
    let h = st.track_h;
    let n: i64 = if has_count {
        count as i64
    } else {
        5
    };
    let ci = count as isize;
    let hi = h as isize;
    let half = (h / 2) as isize;
    match key {
        Key::Char(c) => if c == ':' {
            (Act::CommandLine, true, None)
        } else if c == '/' || c == '?' {
            (Act::SearchLine(c == '?'), true, None)
        } else if c == 'v' || c == 'V' {
            (if st.visual {
                Act::ExitVisual
            } else {
                Act::EnterVisual
            }, true, None)
        } else if c == 'c' && ctrl {
            (Act::QuitHint, true, None)
        } else if c == 'K' && st.focus == Pane::Tracks {
            (Act::TrackInfo, true, None)
        } else if c == 'q' && st.show_help {
            (Act::CloseHelp, true, None)
        } else if c == 'w' && ctrl {
            (Act::Nothing, true, Some('\u{17}'))
        } else if c == 'j' {
            (step(st, ci), true, None)
        } else if c == 'k' {
            (step(st, -ci), true, None)
        } else if c == 'g' {
            (Act::Nothing, true, Some('g'))
        } else if c == 'G' {
            (if st.focus == Pane::Tracks {
                Act::GotoRow(
                    if has_count {
                        count - 1
                    } else {
                        usize::MAX
                    },
                )
            } else {
                Act::MoveFolders(isize::MAX / 2)
            }, true, None)
        } else if c == 'z' {
            (Act::Nothing, true, Some('z'))
        } else if (c == 'H' || c == 'M' || c == 'L') && st.focus == Pane::Tracks {
            (Act::CursorToScreen(c), true, None)
        } else if c == 'd' && ctrl {
            (step(st, half), true, None)
        } else if c == 'u' && ctrl {
            (step(st, -half), true, None)
        } else if c == 'f' && ctrl {
            (step(st, hi), true, None)
        } else if c == 'b' && ctrl {
            (step(st, -hi), true, None)
        } else if c == 'e' && ctrl {
            (Act::ScrollView(ci), true, None)
        } else if c == 'y' && ctrl {
            (Act::ScrollView(-ci), true, None)
        } else if (c == '*' || c == '#') && st.focus == Pane::Tracks {
            (Act::SearchArtist(c == '#'), true, None)
        } else if c == 'n' || c == 'N' {
            (Act::SearchAgain(c == 'N'), true, None)
        } else if c == ' ' {
            (Act::PlayPause, true, None)
        } else if c == 'h' {
            (Act::Seek(-n), true, None)
        } else if c == 'l' {
            (Act::Seek(n), true, None)
        } else if c == '[' {
            (Act::ShiftLyrics(-(100 * (count as i64))), true, None)
        } else if c == ']' {
            (Act::ShiftLyrics(100 * (count as i64)), true, None)
        } else if c == '>' {
            (Act::Advance(ci), true, None)
        } else if c == '<' {
            (Act::Advance(-ci), true, None)
        } else if c == '+' || c == '=' {
            (Act::Volume(if has_count { count as i32 } else { 5 }), true, None)
        } else if c == '-' || c == '_' {
            let v: i32 = if has_count {
                count as i32
            } else {
                5
            };
            let neg: i64 = -(v as i64);
            (Act::Volume(neg as i32), true, None)
        } else if c == 'm' {
            (Act::Mute, true, None)
        } else if c == 'r' && ctrl {
            (Act::Redo, true, None)
        } else if c == 'r' {
            (Act::CycleRepeat, true, None)
        } else if c == 's' {
            (Act::ToggleShuffle, true, None)
        } else if c == 't' && st.focus == Pane::Folders {
            (Act::OpenInNewTab, true, None)
        } else if (c == 'o' || c == 'O') && st.focus == Pane::Folders {
            (Act::NewByName(st.tab == Tab::Playlists), true, None)
        } else if c == 'y' {
            if st.visual {
                (Act::YankSelection, true, None)
            } else {
                (Act::Nothing, true, Some('y'))
            }
        } else if c == 'd' {
            if st.visual {
                (Act::DeleteSelection, true, None)
            } else {
                (Act::Nothing, true, Some('d'))
            }
        } else if c == 'x' && st.focus == Pane::Tracks {
            (Act::DeleteSelection, true, None)
        } else if c == 'p' {
            (Act::Put, true, None)
        } else if c == 'u' {
            (Act::Undo, true, None)
        } else if c == 'c' && st.focus == Pane::Tracks {
            (Act::BeginEdit, true, None)
        } else if c == 'c' && st.focus == Pane::Folders {
            (Act::BeginSidebarEdit, true, None)
        } else if c == 'Z' {
            (Act::Nothing, true, Some('Z'))
        } else {
            (Act::Nothing, false, None)
        },
        Key::Esc => (Act::Escape, true, None),
        Key::F(k) => if k == 1 {
            (Act::ToggleHelp, true, None)
        } else {
            (Act::Nothing, false, None)
        },
        Key::Tab => (Act::TogglePane, true, None),
        Key::Down => (step(st, ci), true, None),
        Key::Up => (step(st, -ci), true, None),
        Key::PageDown => (step(st, hi), true, None),
        Key::PageUp => (step(st, -hi), true, None),
        Key::Enter => (if st.focus == Pane::Folders {
            match st.tab {
                Tab::Playlists => Act::OpenPlaylist,
                Tab::Folders => Act::OpenFolder,
            }
        } else {
            Act::PlayCursor
        }, true, None),
        Key::Left => (Act::Seek(-n), true, None),
        Key::Right => (Act::Seek(n), true, None),
        _ => (Act::Nothing, false, None),
    }
}

/// What a key does in normal mode, and the count and pending prefix it
/// leaves behind.
pub fn normal_key(st: NormalState, key: Key, ctrl: bool) -> (o: Outcome)
    requires
        sane_count(st, key, ctrl),
        st.track_h <= isize::MAX,
    ensures
        (o.act, o.count, o.pending) == spec_normal(st, key, ctrl),
{
    let count: usize = match st.count {
        Some(c) => c,
        None => 1,
    };
    let has_count = st.count.is_some();
    if let Some(prefix) = st.pending {
        return Outcome { act: pending_act(st, prefix, key, count, has_count), count: None, pending: None };
    }
    if let Key::Char(c) = key {
        if '0' <= c && c <= '9' && !ctrl && (c != '0' || has_count) {
            let before: usize = match st.count {
                Some(x) => x,
                None => 0,
            };
            let digit: usize = (c as u32 - 48) as usize;
            return Outcome { act: Act::Nothing, count: Some(before * 10 + digit), pending: None };
        }
    }
    let (a, clear, p) = plain_act(st, key, ctrl, count, has_count);
    Outcome {
        act: a,
        count: if clear {
            None
        } else {
            st.count
        },
        pending: p,
    }
}

// ---- the `:` and `/` lines ------------------------------------------------

/// A line being typed after `:` or `/`, and the cursor in it.
pub struct LineEdit {
    pub text: Vec<char>,
    pub cur: usize,
}

/// What a key on the line asks for beyond editing it.
#[derive(Debug)]
pub enum LineOutcome {
    /// Keep typing.
    Stay,
    /// The line is given up: back to the mode before it.
    Leave,
    /// Enter: run the line.
    Submit(String),
}

/// A key on the line: the text and cursor after it, whether it leaves the
/// line, and the line it submits, if it does.
pub open spec fn spec_line_key(text: Seq<char>, cur: int, key: Key, ctrl: bool) -> (Seq<char>, int, bool, Option<Seq<char>>) {
    match key {
        Key::Esc => (seq![], 0, true, None),
        Key::Char(c) => if c == 'c' && ctrl {
            (seq![], 0, true, None)
        } else if c == 'u' && ctrl {
            (seq![], 0, false, None)
        } else if c == 'w' && ctrl {
            let start = spec_word_start(text, cur);
            (text.subrange(0, start) + text.subrange(cur, text.len() as int), start, false, None)
        } else {
            let at = if cur < text.len() {
                cur
            } else {
                text.len() as int
            };
            (text.subrange(0, at).push(c) + text.subrange(at, text.len() as int), cur + 1, false, None)
        },
        Key::Backspace => if text.len() == 0 {
            (seq![], 0, true, None)
        } else if cur > 0 {
            (text.remove(cur - 1), cur - 1, false, None)
        } else {
            (text, cur, false, None)
        },
        Key::Delete => if cur < text.len() {
            (text.remove(cur), cur, false, None)
        } else {
            (text, cur, false, None)
        },
        Key::Left => (text, if cur > 0 {
            cur - 1
        } else {
            0
        }, false, None),
        Key::Right => (text, if cur + 1 < text.len() {
            cur + 1
        } else {
            text.len() as int
        }, false, None),
        Key::Home => (text, 0, false, None),
        Key::End => (text, text.len() as int, false, None),
        Key::Enter => (seq![], 0, false, Some(text)),
        _ => (text, cur, false, None),
    }
}

impl LineEdit {
    pub fn new() -> (l: LineEdit)
        ensures
            l.text@.len() == 0,
            l.cur == 0,
    {
        LineEdit { text: Vec::new(), cur: 0 }
    }

    /// The line as it stands.
    pub fn line(&self) -> (s: String)
        ensures
            s@ == self.text@,
    {
        string_of(self.text.as_slice())
    }

    /// A key on the line: always insert, like vim's command line, with the
    /// cursor keys and the usual readline keys. Backspace off the start of an
    /// empty line leaves it, as in vim.
    pub fn key(&mut self, key: Key, ctrl: bool) -> (o: LineOutcome)
        requires
            old(self).cur <= old(self).text@.len(),
        ensures
            final(self).cur <= final(self).text@.len(),
            ({
                let (t, c, leave, submit) = spec_line_key(old(self).text@, old(self).cur as int, key, ctrl);
                &&& final(self).text@ == t
                &&& final(self).cur == c
                &&& match submit {
                    Some(line) => o matches LineOutcome::Submit(x) && x@ == line,
                    None => if leave {
                        o is Leave
                    } else {
                        o is Stay
                    },
                }
            }),
    {
        match key {
            Key::Esc => {
                self.text = Vec::new();
                self.cur = 0;
                LineOutcome::Leave
            },
            Key::Char(c) => {
                if c == 'c' && ctrl {
                    self.text = Vec::new();
                    self.cur = 0;
                    LineOutcome::Leave
                } else if c == 'u' && ctrl {
                    self.text = Vec::new();
                    self.cur = 0;
                    LineOutcome::Stay
                } else if c == 'w' && ctrl {
                    let start = word_start(self.text.as_slice(), self.cur);
                    let mut kept: Vec<char> = Vec::new();
                    let mut i: usize = 0;
                    while i < start
                        invariant
                            i <= start <= self.cur <= self.text@.len(),
                            kept@ =~= self.text@.subrange(0, i as int),
                        decreases start - i,
                    {
                        kept.push(self.text[i]);
                        i = i + 1;
                    }
                    let mut j: usize = self.cur;
                    while j < self.text.len()
                        invariant
                            start <= self.cur <= j <= self.text@.len(),
                            kept@ =~= self.text@.subrange(0, start as int) + self.text@.subrange(self.cur as int, j as int),
                        decreases self.text@.len() - j,
                    {
                        kept.push(self.text[j]);
                        j = j + 1;
                    }
                    self.text = kept;
                    self.cur = start;
                    LineOutcome::Stay
                } else {
                    let at = if self.cur < self.text.len() {
                        self.cur
                    } else {
                        self.text.len()
                    };
                    self.text.insert(at, c);
                    assert(self.text@ =~= old(self).text@.subrange(0, at as int).push(c) + old(self).text@.subrange(at as int, old(self).text@.len() as int));
                    let n = self.text.len();
                    assert(self.cur < n);
                    self.cur = self.cur + 1;
                    LineOutcome::Stay
                }
            },
            Key::Backspace => {
                if self.text.len() == 0 {
                    self.text = Vec::new();
                    self.cur = 0;
                    LineOutcome::Leave
                } else {
                    if self.cur > 0 {
                        self.text.remove(self.cur - 1);
                        self.cur = self.cur - 1;
                    }
                    LineOutcome::Stay
                }
            },
            Key::Delete => {
                if self.cur < self.text.len() {
                    self.text.remove(self.cur);
                }
                LineOutcome::Stay
            },
            Key::Left => {
                if self.cur > 0 {
                    self.cur = self.cur - 1;
                }
                LineOutcome::Stay
            },
            Key::Right => {
                if self.cur < self.text.len() && self.cur + 1 < self.text.len() {
                    self.cur = self.cur + 1;
                } else {
                    self.cur = self.text.len();
                }
                LineOutcome::Stay
            },
            Key::Home => {
                self.cur = 0;
                LineOutcome::Stay
            },
            Key::End => {
                self.cur = self.text.len();
                LineOutcome::Stay
            },
            Key::Enter => {
                let line = string_of(self.text.as_slice());
                self.text = Vec::new();
                self.cur = 0;
                LineOutcome::Submit(line)
            },
            _ => LineOutcome::Stay,
        }
    }
}

/// A character typed and then backspaced leaves the line and its cursor as
/// they were.
pub proof fn law_typing_then_backspace_is_nothing(text: Seq<char>, cur: int, c: char)
    requires
        0 <= cur <= text.len(),
    ensures
        ({
            let (t1, c1, l1, s1) = spec_line_key(text, cur, Key::Char(c), false);
            let (t2, c2, l2, s2) = spec_line_key(t1, c1, Key::Backspace, false);
            t2 == text && c2 == cur && !l2 && s2 is None
        }),
{
    let (t1, c1, l1, s1) = spec_line_key(text, cur, Key::Char(c), false);
    assert(t1 =~= text.subrange(0, cur).push(c) + text.subrange(cur, text.len() as int));
    assert(t1.remove(cur) =~= text);
}

/// `l` and the right arrow seek forward, `h` and the left arrow back, all
/// by the same amount: the count typed, or five seconds without one.
pub proof fn law_l_seeks_forward_h_seeks_back(st: NormalState)
    requires
        st.pending is None,
        sane_count(st, Key::Char('l'), false),
    ensures
        ({
            let m: int = match st.count {
                Some(c) => c as int,
                None => 5,
            };
            &&& 0 < m <= i64::MAX
            &&& spec_normal(st, Key::Char('l'), false).0 == Act::Seek(m as i64)
            &&& spec_normal(st, Key::Right, false).0 == Act::Seek(m as i64)
            &&& spec_normal(st, Key::Char('h'), false).0 == Act::Seek((-m) as i64)
            &&& spec_normal(st, Key::Left, false).0 == Act::Seek((-m) as i64)
        }),
{
}

} // verus!
