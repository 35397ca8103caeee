//! The statusline under the panes: the mode, which pane has the keyboard,
//! the modified marker, what is playing, the volume, and the sort, repeat,
//! shuffle and row count. Only the now-playing segment stretches or shrinks.

use vstd::prelude::*;

use crate::app::{Mode, Pane, Repeat, Tab};
use crate::library::{spec_sort_name, SortKey, Track};
use crate::text::{chars_of, decimal, decimal_wide, push_chars, push_str, spec_decimal, string_of};
use crate::ui::{spec_truncate, truncate};

verus! {

/// The statusline in its segments, left to right, each drawn in its own style.
pub struct StatusLine {
    /// The mode, reversed.
    pub left: String,
    /// Which pane has the keyboard, when it is not the track list.
    pub place: String,
    /// vim's modified marker: something is typed but not written.
    pub dirty: String,
    /// What is playing, cut or padded to the room the rest leaves.
    pub middle: String,
    pub vol: String,
    pub right: String,
}

pub open spec fn spec_mode_label(m: Mode) -> Seq<char> {
    match m {
        Mode::Normal => "NORMAL"@,
        Mode::Command => "COMMAND"@,
        Mode::Search => "SEARCH"@,
        Mode::Visual => "VISUAL"@,
        Mode::Edit => "EDIT"@,
        Mode::EditInsert => "INSERT"@,
    }
}

/// The mode, or VISUAL while part of a name is selected: that is still the
/// rename buffer, but saying EDIT then would lie about what the next key does.
pub open spec fn spec_left(mode: Mode, name_selecting: bool) -> Seq<char> {
    if name_selecting {
        " VISUAL "@
    } else {
        " "@ + spec_mode_label(mode) + " "@
    }
}

pub open spec fn spec_place(focus: Pane, tab: Tab) -> Seq<char> {
    match (focus, tab) {
        (Pane::Folders, Tab::Playlists) => " PLAYLISTS "@,
        (Pane::Folders, Tab::Folders) => " FOLDERS "@,
        (Pane::Tracks, _) => ""@,
    }
}

pub open spec fn spec_dirty(unsaved: bool) -> Seq<char> {
    if unsaved {
        " [+] "@
    } else {
        ""@
    }
}

/// `artist - title`, or the title alone for a track with no artist, or `-`
/// when nothing plays.
pub open spec fn spec_now(artist: Option<Seq<char>>, title: Seq<char>) -> Seq<char> {
    match artist {
        None => "-"@,
        Some(a) => if a.len() == 0 {
            title
        } else {
            a + " - "@ + title
        },
    }
}

/// The volume in percent, `mute`, or `no audio` without a sound card.
pub open spec fn spec_vol(audio: Option<(bool, u8)>) -> Seq<char> {
    " vol "@ + match audio {
        None => "no audio"@,
        Some((muted, volume)) => if muted {
            "mute"@
        } else {
            spec_decimal(volume as nat) + "%"@
        },
    } + " "@
}

pub open spec fn spec_repeat_label(r: Repeat) -> Seq<char> {
    match r {
        Repeat::Off => "rep:-"@,
        Repeat::All => "rep:all"@,
        Repeat::One => "rep:one"@,
    }
}

/// The sort key, repeat, shuffle, and the cursor's row out of how many.
pub open spec fn spec_right(sort: SortKey, repeat: Repeat, shuffle: bool, cur: usize, rows: usize) -> Seq<
    char,
> {
    " "@ + spec_sort_name(sort) + " "@ + spec_repeat_label(repeat) + " "@ + (if shuffle {
        "shf"@
    } else {
        "   "@
    }) + "  "@ + spec_decimal(
        if rows == 0 {
            0
        } else {
            (cur + 1) as nat
        },
    ) + "/"@ + spec_decimal(rows as nat) + " "@
}

/// The now-playing segment: the rest has to fit whole, or a five digit track
/// count would lose its last digit, so this one takes what room is left.
pub open spec fn spec_middle(now: Seq<char>, fixed: int, width: usize) -> Seq<char> {
    spec_truncate(
        " "@ + now + " "@,
        if width >= fixed {
            (width - fixed) as usize
        } else {
            0
        },
    )
}

pub open spec fn playing_artist(playing: Option<&Track>) -> Option<Seq<char>> {
    match playing {
        Some(t) => Some(t.artist@),
        None => None,
    }
}

pub open spec fn playing_title(playing: Option<&Track>) -> Seq<char> {
    match playing {
        Some(t) => t.title@,
        None => Seq::empty(),
    }
}

fn owned(s: &str) -> (r: String)
    ensures
        r@ == s@,
{
    let v = chars_of(s);
    string_of(v.as_slice())
}

/// The statusline `width` cells wide: the mode (or VISUAL while part of a
/// name is selected), the pane with the keyboard, the modified marker, the
/// track playing, the volume (`muted`, percent) when there is a sound card,
/// and the sort, repeat, shuffle and the cursor's row `cur` of `rows`.
pub fn status_line(
    mode: Mode,
    name_selecting: bool,
    focus: Pane,
    tab: Tab,
    unsaved: bool,
    playing: Option<&Track>,
    audio: Option<(bool, u8)>,
    sort: SortKey,
    repeat: Repeat,
    shuffle: bool,
    cur: usize,
    rows: usize,
    width: usize,
) -> (s: StatusLine)
    ensures
        s.left@ == spec_left(mode, name_selecting),
        s.place@ == spec_place(focus, tab),
        s.dirty@ == spec_dirty(unsaved),
        s.vol@ == spec_vol(audio),
        s.right@ == spec_right(sort, repeat, shuffle, cur, rows),
        s.middle@ == spec_middle(
            spec_now(playing_artist(playing), playing_title(playing)),
            (s.left@.len() + s.place@.len() + s.dirty@.len() + s.vol@.len() + s.right@.len()) as int,
            width,
        ),
{
    let left = if name_selecting {
        owned(" VISUAL ")
    } else {
        let mut v: Vec<char> = Vec::new();
        push_str(&mut v, " ");
        push_str(&mut v, mode.label());
        push_str(&mut v, " ");
        string_of(v.as_slice())
    };
    let place = match (focus, tab) {
        (Pane::Folders, Tab::Playlists) => owned(" PLAYLISTS "),
        (Pane::Folders, Tab::Folders) => owned(" FOLDERS "),
        (Pane::Tracks, _) => owned(""),
    };
    let dirty = if unsaved {
        owned(" [+] ")
    } else {
        owned("")
    };

    let mut now: Vec<char> = Vec::new();
    push_str(&mut now, " ");
    match playing {
        None => push_str(&mut now, "-"),
        Some(t) => {
            let artist = chars_of(t.artist.as_str());
            let title = chars_of(t.title.as_str());
            if artist.len() > 0 {
                push_chars(&mut now, artist.as_slice());
                push_str(&mut now, " - ");
            }
            push_chars(&mut now, title.as_slice());
        },
    }
    push_str(&mut now, " ");
    assert(now@ =~= " "@ + spec_now(playing_artist(playing), playing_title(playing)) + " "@);

    let mut vol: Vec<char> = Vec::new();
    push_str(&mut vol, " vol ");
    match audio {
        None => push_str(&mut vol, "no audio"),
        Some((muted, volume)) => {
            if muted {
                push_str(&mut vol, "mute");
            } else {
                let d = decimal(volume as u64);
                push_chars(&mut vol, d.as_slice());
                push_str(&mut vol, "%");
            }
        },
    }
    push_str(&mut vol, " ");

    let mut right: Vec<char> = Vec::new();
    push_str(&mut right, " ");
    push_str(&mut right, sort.name());
    push_str(&mut right, " ");
    push_str(
        &mut right,
        match repeat {
            Repeat::Off => "rep:-",
            Repeat::All => "rep:all",
            Repeat::One => "rep:one",
        },
    );
    push_str(&mut right, " ");
    push_str(
        &mut right,
        if shuffle {
            "shf"
        } else {
            "   "
        },
    );
    push_str(&mut right, "  ");
    let pos: u128 = if rows == 0 {
        0
    } else {
        cur as u128 + 1
    };
    let p = decimal_wide(pos);
    push_chars(&mut right, p.as_slice());
    push_str(&mut right, "/");
    let n = decimal_wide(rows as u128);
    push_chars(&mut right, n.as_slice());
    push_str(&mut right, " ");

    let fixed: u128 = left.as_str().unicode_len() as u128 + place.as_str().unicode_len() as u128 + dirty.as_str().unicode_len() as u128
        + vol.len() as u128 + right.len() as u128;
    let room: usize = if (width as u128) >= fixed {
        (width as u128 - fixed) as usize
    } else {
        0
    };
    let now_s = string_of(now.as_slice());
    let middle = truncate(now_s.as_str(), room);
    StatusLine { left, place, dirty, middle, vol: string_of(vol.as_slice()), right: string_of(right.as_slice()) }
}

/// What sits at the bottom right while a command is half typed, as vim
/// shows it: the count so far and the pending key, ctrl-w as `^W`.
pub open spec fn spec_pending_label(count: Option<usize>, pending: Option<char>) -> Seq<char> {
    (match count {
        Some(c) => spec_decimal(c as nat),
        None => Seq::empty(),
    }) + match pending {
        Some(c) => if c == '\u{17}' {
            "^W"@
        } else {
            seq![c]
        },
        None => Seq::empty(),
    }
}

/// The count and pending key of a half typed command.
pub fn pending_label(count: Option<usize>, pending: Option<char>) -> (s: String)
    ensures
        s@ == spec_pending_label(count, pending),
{
    let mut v: Vec<char> = Vec::new();
    if let Some(c) = count {
        let d = decimal_wide(c as u128);
        push_chars(&mut v, d.as_slice());
    }
    match pending {
        Some(c) => {
            if c == '\u{17}' {
                push_str(&mut v, "^W");
            } else {
                v.push(c);
            }
        },
        None => {},
    }
    proof {
        assert(v@ =~= spec_pending_label(count, pending));
    }
    string_of(v.as_slice())
}

/// The command line split at its cursor: what is before it, the character
/// under it (a blank past the end), and what is after it.
pub open spec fn spec_cursor_split(text: Seq<char>, cur: usize) -> (Seq<char>, char, Seq<char>) {
    let at: int = if cur <= text.len() {
        cur as int
    } else {
        text.len() as int
    };
    (
        text.take(at),
        if at < text.len() {
            text[at]
        } else {
            ' '
        },
        if at < text.len() {
            text.skip(at + 1)
        } else {
            Seq::empty()
        },
    )
}

/// The line being edited split where its cursor block is drawn.
pub fn cursor_split(text: &[char], cur: usize) -> (r: (Vec<char>, char, Vec<char>))
    ensures
        (r.0@, r.1, r.2@) == spec_cursor_split(text@, cur),
{
    let at: usize = if cur <= text.len() {
        cur
    } else {
        text.len()
    };
    let mut before: Vec<char> = Vec::new();
    let mut i: usize = 0;
    while i < at
        invariant
            at <= text@.len(),
            i <= at,
            before@ == text@.take(i as int),
        decreases at - i,
    {
        before.push(text[i]);
        i = i + 1;
        assert(before@ =~= text@.take(i as int));
    }
    let under = if at < text.len() {
        text[at]
    } else {
        ' '
    };
    let mut after: Vec<char> = Vec::new();
    if at < text.len() {
        let mut k: usize = at + 1;
        while k < text.len()
            invariant
                at < text@.len(),
                at + 1 <= k <= text@.len(),
                after@ == text@.subrange(at + 1, k as int),
            decreases text@.len() - k,
        {
            after.push(text[k]);
            k = k + 1;
            assert(after@ =~= text@.subrange(at + 1, k as int));
        }
        assert(after@ =~= text@.skip(at + 1));
    }
    (before, under, after)
}

} // verus!
