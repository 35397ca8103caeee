//! The player's state and the rules it changes by: modes, the options, the
//! write planner, the cursor, the queue and the undo stack.

use vstd::prelude::*;

use crate::text::same_str;

pub mod applied;
pub mod forget;
pub mod history;
pub mod pending;
pub mod plan;
pub mod rows;
pub mod snapshot;
pub mod tabs;
pub mod queue;
pub mod view;
pub mod write;

verus! {

/// Rows kept between the cursor and the edge of the track pane.
pub const SCROLLOFF: usize = 3;

#[derive(Clone, Copy, PartialEq, Eq, Structural, Debug)]
pub enum Mode {
    Normal,
    /// The `:` line has focus.
    Command,
    /// The `/` or `?` line has focus.
    Search,
    /// Linewise visual, the only visual there is when rows are tracks.
    Visual,
    /// The track list is a buffer of filenames being edited in place.
    Edit,
    /// Typing inside that buffer.
    EditInsert,
}

impl Mode {
    pub fn label(self) -> (s: &'static str)
        ensures
            s@ == match self {
                Mode::Normal => "NORMAL"@,
                Mode::Command => "COMMAND"@,
                Mode::Search => "SEARCH"@,
                Mode::Visual => "VISUAL"@,
                Mode::Edit => "EDIT"@,
                Mode::EditInsert => "INSERT"@,
            },
    {
        match self {
            Mode::Normal => "NORMAL",
            Mode::Command => "COMMAND",
            Mode::Search => "SEARCH",
            Mode::Visual => "VISUAL",
            Mode::Edit => "EDIT",
            Mode::EditInsert => "INSERT",
        }
    }
}

/// What the left pane is showing.
#[derive(Clone, Copy, PartialEq, Eq, Structural, Debug)]
pub enum Tab {
    Folders,
    Playlists,
}

#[derive(Clone, Copy, PartialEq, Eq, Structural, Debug)]
pub enum Pane {
    Folders,
    Tracks,
}

#[derive(Clone, Copy, PartialEq, Eq, Structural, Debug)]
pub enum Repeat {
    Off,
    All,
    One,
}

impl Default for Repeat {
    fn default() -> (r: Repeat)
        ensures
            r == Repeat::Off,
    {
        Repeat::Off
    }
}

impl Repeat {
    pub open spec fn spec_next(self) -> Repeat {
        match self {
            Repeat::Off => Repeat::All,
            Repeat::All => Repeat::One,
            Repeat::One => Repeat::Off,
        }
    }

    pub fn next(self) -> (r: Repeat)
        ensures
            r == self.spec_next(),
    {
        match self {
            Repeat::Off => Repeat::All,
            Repeat::All => Repeat::One,
            Repeat::One => Repeat::Off,
        }
    }

    pub fn name(self) -> (s: &'static str)
        ensures
            s@ == match self {
                Repeat::Off => "off"@,
                Repeat::All => "all"@,
                Repeat::One => "one"@,
            },
    {
        match self {
            Repeat::Off => "off",
            Repeat::All => "all",
            Repeat::One => "one",
        }
    }
}

/// Three presses of the repeat key come back to where they started.
pub proof fn law_repeat_cycles_in_three(r: Repeat)
    ensures
        r.spec_next().spec_next().spec_next() == r,
        r.spec_next() != r,
{
}

/// Which tag columns the track list shows, toggled with `:set`.
#[derive(Clone, Copy, PartialEq, Eq, Structural, Debug)]
pub struct Columns {
    pub file: bool,
    pub title: bool,
    pub artist: bool,
    pub album: bool,
}

impl Default for Columns {
    /// The title repeats the filename on a tagged library, so it stays off.
    fn default() -> (c: Columns)
        ensures
            c == (Columns { file: true, title: false, artist: true, album: true }),
    {
        Columns { file: true, title: false, artist: true, album: true }
    }
}

/// The value of the column option called `name`, if there is one.
pub open spec fn spec_column(c: Columns, name: Seq<char>) -> Option<bool> {
    if name == "file"@ {
        Some(c.file)
    } else if name == "title"@ {
        Some(c.title)
    } else if name == "artist"@ {
        Some(c.artist)
    } else if name == "album"@ {
        Some(c.album)
    } else {
        None
    }
}

/// The columns with the one called `name` switched to `on`.
pub open spec fn spec_set_column(c: Columns, name: Seq<char>, on: bool) -> Columns {
    if name == "file"@ {
        Columns { file: on, ..c }
    } else if name == "title"@ {
        Columns { title: on, ..c }
    } else if name == "artist"@ {
        Columns { artist: on, ..c }
    } else if name == "album"@ {
        Columns { album: on, ..c }
    } else {
        c
    }
}

/// The visible columns, in order, with the share of the width each one gets.
pub open spec fn spec_shown(c: Columns) -> Seq<(Seq<char>, usize)> {
    (if c.file {
        seq![("file"@, 40usize)]
    } else {
        seq![]
    }) + (if c.title {
        seq![("title"@, 34usize)]
    } else {
        seq![]
    }) + (if c.artist {
        seq![("artist"@, 26usize)]
    } else {
        seq![]
    }) + (if c.album {
        seq![("album"@, 26usize)]
    } else {
        seq![]
    })
}

impl Columns {
    pub fn get(&self, name: &str) -> (r: Option<bool>)
        ensures
            r == spec_column(*self, name@),
    {
        if same_str(name, "file") {
            Some(self.file)
        } else if same_str(name, "title") {
            Some(self.title)
        } else if same_str(name, "artist") {
            Some(self.artist)
        } else if same_str(name, "album") {
            Some(self.album)
        } else {
            None
        }
    }

    /// False when the name is not an option, so the caller can complain.
    pub fn set(&mut self, name: &str, on: bool) -> (known: bool)
        ensures
            known == (spec_column(*old(self), name@) is Some),
            *final(self) == spec_set_column(*old(self), name@, on),
    {
        if same_str(name, "file") {
            self.file = on;
        } else if same_str(name, "title") {
            self.title = on;
        } else if same_str(name, "artist") {
            self.artist = on;
        } else if same_str(name, "album") {
            self.album = on;
        } else {
            return false;
        }
        true
    }

    /// Visible columns with the share of the width each one gets.
    pub fn shown(self) -> (v: Vec<(&'static str, usize)>)
        ensures
            v@.len() == spec_shown(self).len(),
            forall|i: int|
                0 <= i < v@.len() ==> v@[i].0@ == spec_shown(self)[i].0 && v@[i].1
                    == spec_shown(self)[i].1,
    {
        let mut v: Vec<(&'static str, usize)> = Vec::new();
        let ghost mut want: Seq<(Seq<char>, usize)> = seq![];
        if self.file {
            v.push(("file", 40));
            proof { want = want + seq![("file"@, 40usize)]; }
        } else {
            proof { want = want + seq![]; }
        }
        if self.title {
            v.push(("title", 34));
            proof { want = want + seq![("title"@, 34usize)]; }
        } else {
            proof { want = want + seq![]; }
        }
        if self.artist {
            v.push(("artist", 26));
            proof { want = want + seq![("artist"@, 26usize)]; }
        } else {
            proof { want = want + seq![]; }
        }
        if self.album {
            v.push(("album", 26));
            proof { want = want + seq![("album"@, 26usize)]; }
        } else {
            proof { want = want + seq![]; }
        }
        assert(want =~= spec_shown(self));
        v
    }
}

/// Setting a column and reading it back gives what was set, and leaves every
/// other column as it was.
pub proof fn law_set_then_get(c: Columns, name: Seq<char>, other: Seq<char>, on: bool)
    requires
        spec_column(c, name) is Some,
        other != name,
    ensures
        spec_column(spec_set_column(c, name, on), name) == Some(on),
        spec_column(spec_set_column(c, name, on), other) == spec_column(c, other),
{
}

/// The plural ending for a count: nothing for one, `s` otherwise.
pub fn plural(n: usize) -> (s: &'static str)
    ensures
        s@ == if n == 1 {
            ""@
        } else {
            "s"@
        },
{
    if n == 1 {
        ""
    } else {
        "s"
    }
}

} // verus!
