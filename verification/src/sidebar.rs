//! The sidebar's rows: the folder tree under its `* everything` row, and the
//! saved playlists. Each row shows the name a rename gives it, and says
//! whether it has the cursor, is being renamed, or is marked for deletion.

use vstd::prelude::*;

use crate::app::pending::{
    edit_view, shown_name, spec_shown_name, NameEdit, Renames, Renaming, Target,
};
use crate::app::rows::{holds, strings_view};
use crate::app::Mode;
use crate::library::Track;
use crate::paths::{is_under, path_under};
use crate::text::{chars_of, decimal_wide, push_chars, push_str, spec_decimal, string_of};

verus! {

/// One row of the sidebar, before it is cut to the pane.
pub struct SideRow {
    pub text: String,
    pub cursor: bool,
    /// The name being typed sits on this row.
    pub editing: bool,
    /// `dd` marked it; `:w` deletes it.
    pub doomed: bool,
}

pub open spec fn row_view(r: SideRow) -> (Seq<char>, bool, bool, bool) {
    (r.text@, r.cursor, r.editing, r.doomed)
}

pub open spec fn pairs_view(v: Seq<(String, String)>) -> Seq<(Seq<char>, Seq<char>)> {
    Seq::new(v.len(), |i: int| (v[i].0@, v[i].1@))
}

/// A name is being typed in the sidebar, for a folder (`folder`) or for a
/// playlist.
pub open spec fn sidebar_editing(mode: Mode, edit: Option<(Target, Seq<char>)>, folder: bool) -> bool {
    &&& (mode == Mode::Edit || mode == Mode::EditInsert)
    &&& match edit {
        Some((Target::Folder(_), _)) => folder,
        Some((Target::Playlist(_), _)) => !folder,
        _ => false,
    }
}

/// The first row: the whole library, and how many tracks it has.
pub open spec fn everything_label(n: usize) -> Seq<char> {
    "* everything ("@ + spec_decimal(n as nat) + ")"@
}

/// Inside a folder `dd` marked, or that folder itself.
pub open spec fn under_doomed(dirs: Seq<Seq<char>>, p: Seq<char>) -> bool {
    exists|i: int| 0 <= i < dirs.len() && path_under(p, dirs[i])
}

/// Row `r` of the folder tree: row 0 is the whole library, row `r` the
/// folder `r - 1`, under the name a rename gives it.
pub open spec fn spec_folder_row(
    folders: Seq<(Seq<char>, Seq<char>)>,
    library_len: usize,
    renames: Seq<(Target, Seq<char>)>,
    edit: Option<(Target, Seq<char>)>,
    dirs: Seq<Seq<char>>,
    mode: Mode,
    cur: usize,
    r: int,
) -> (Seq<char>, bool, bool, bool) {
    let label = if r == 0 {
        everything_label(library_len)
    } else {
        folders[r - 1].0
    };
    let renamed = if r == 0 {
        None
    } else {
        spec_shown_name(renames, edit, Target::Folder(folders[r - 1].1))
    };
    (
        match renamed {
            Some(n) => n,
            None => label,
        },
        r == cur,
        r == cur && sidebar_editing(mode, edit, true),
        r > 0 && under_doomed(dirs, folders[r - 1].1),
    )
}

/// How many rows of `len` there are from `top` on, `height` at most.
pub open spec fn rows_from(len: int, top: int, height: int) -> int {
    if top >= len {
        0
    } else if height <= len - top {
        height
    } else {
        len - top
    }
}

/// Row `r` of the playlist list, under the name a rename gives it.
pub open spec fn spec_playlist_row(
    playlists: Seq<(Seq<char>, Seq<char>)>,
    renames: Seq<(Target, Seq<char>)>,
    edit: Option<(Target, Seq<char>)>,
    doomed: Seq<Seq<char>>,
    mode: Mode,
    cur: usize,
    r: int,
) -> (Seq<char>, bool, bool, bool) {
    (
        match spec_shown_name(renames, edit, Target::Playlist(playlists[r].0)) {
            Some(n) => n,
            None => playlists[r].0,
        },
        r == cur,
        r == cur && sidebar_editing(mode, edit, false),
        doomed.contains(playlists[r].1),
    )
}

/// Where the list starts so the cursor is on screen: moved no further than
/// it takes.
pub open spec fn spec_keep_in_view(top: usize, cur: usize, height: usize) -> usize {
    let h: int = if height >= 1 {
        height as int
    } else {
        1
    };
    if cur < top {
        cur
    } else if cur >= top + h {
        (cur + 1 - h) as usize
    } else {
        top
    }
}

/// The first row shown of a list `height` rows tall, after the cursor moved
/// to `cur`.
pub fn keep_in_view(top: usize, cur: usize, height: usize) -> (t: usize)
    ensures
        t == spec_keep_in_view(top, cur, height),
{
    let h: usize = if height >= 1 {
        height
    } else {
        1
    };
    if cur < top {
        cur
    } else if cur - top >= h {
        cur - h + 1
    } else {
        top
    }
}

fn editing_here(mode: Mode, edit: &Option<NameEdit>, folder: bool) -> (b: bool)
    ensures
        b == sidebar_editing(mode, edit_view(*edit), folder),
{
    if mode != Mode::Edit && mode != Mode::EditInsert {
        return false;
    }
    match edit {
        Some(e) => match &e.what {
            Renaming::Folder(_) => folder,
            Renaming::Playlist(_) => !folder,
            Renaming::Track(_) => false,
        },
        None => false,
    }
}

fn copy_string(s: &String) -> (r: String)
    ensures
        r@ == s@,
{
    let v = chars_of(s.as_str());
    string_of(v.as_slice())
}

/// The folder tree's rows from `top` on, `height` at most: `* everything`
/// with the library's `library_len` tracks, then each folder under the name
/// a rename gives it, with the cursor at `cur`.
pub fn folder_rows(
    folders: &Vec<(String, String)>,
    library_len: usize,
    renames: &Renames,
    edit: &Option<NameEdit>,
    doomed_dirs: &Vec<String>,
    mode: Mode,
    cur: usize,
    top: usize,
    height: usize,
) -> (v: Vec<SideRow>)
    ensures
        v@.len() == rows_from(folders@.len() + 1int, top as int, height as int),
        forall|i: int|
            0 <= i < v@.len() ==> #[trigger] row_view(v@[i]) == spec_folder_row(
                pairs_view(folders@),
                library_len,
                renames@,
                edit_view(*edit),
                strings_view(doomed_dirs@),
                mode,
                cur,
                top + i,
            ),
{
    let ghost fv = pairs_view(folders@);
    let ghost dirs = strings_view(doomed_dirs@);
    let n: usize = if top > folders.len() {
        0
    } else if height <= folders.len() - top {
        height
    } else {
        folders.len() - top + 1
    };
    let editing_folder = editing_here(mode, edit, true);
    let mut v: Vec<SideRow> = Vec::new();
    let mut i: usize = 0;
    while i < n
        invariant
            i <= n,
            n == rows_from(folders@.len() + 1int, top as int, height as int),
            n == 0 || top + n <= folders@.len() + 1,
            folders@.len() == folders.len(),
            fv == pairs_view(folders@),
            dirs == strings_view(doomed_dirs@),
            editing_folder == sidebar_editing(mode, edit_view(*edit), true),
            v@.len() == i,
            forall|k: int|
                0 <= k < i ==> #[trigger] row_view(v@[k]) == spec_folder_row(
                    fv,
                    library_len,
                    renames@,
                    edit_view(*edit),
                    dirs,
                    mode,
                    cur,
                    top + k,
                ),
        decreases n - i,
    {
        let r = top + i;
        let row = if r == 0 {
            let mut t: Vec<char> = Vec::new();
            push_str(&mut t, "* everything (");
            let d = decimal_wide(library_len as u128);
            push_chars(&mut t, d.as_slice());
            push_str(&mut t, ")");
            assert(t@ =~= everything_label(library_len));
            SideRow { text: string_of(t.as_slice()), cursor: r == cur, editing: r == cur && editing_folder, doomed: false }
        } else {
            let (label, path) = (&folders[r - 1].0, &folders[r - 1].1);
            let what = Renaming::Folder(copy_string(path));
            let text = match shown_name(renames, edit, &what) {
                Some(n) => n,
                None => copy_string(label),
            };
            let doomed = is_doomed_dir_of(doomed_dirs, path.as_str());
            SideRow { text, cursor: r == cur, editing: r == cur && editing_folder, doomed }
        };
        v.push(row);
        i = i + 1;
    }
    v
}

fn is_doomed_dir_of(dirs: &Vec<String>, path: &str) -> (b: bool)
    ensures
        b == under_doomed(strings_view(dirs@), path@),
{
    let ghost d = strings_view(dirs@);
    let pc = chars_of(path);
    let mut i: usize = 0;
    while i < dirs.len()
        invariant
            i <= dirs@.len(),
            d == strings_view(dirs@),
            pc@ == path@,
            forall|k: int| 0 <= k < i ==> !path_under(path@, d[k]),
        decreases dirs@.len() - i,
    {
        let dc = chars_of(dirs[i].as_str());
        if is_under(pc.as_slice(), dc.as_slice()) {
            assert(d[i as int] == dirs@[i as int]@);
            return true;
        }
        i = i + 1;
    }
    false
}

/// The saved playlists' rows from `top` on, `height` at most, each under
/// the name a rename gives it, with the cursor at `cur`.
pub fn playlist_rows(
    playlists: &Vec<(String, String)>,
    renames: &Renames,
    edit: &Option<NameEdit>,
    doomed: &Vec<String>,
    mode: Mode,
    cur: usize,
    top: usize,
    height: usize,
) -> (v: Vec<SideRow>)
    ensures
        v@.len() == rows_from(playlists@.len() as int, top as int, height as int),
        forall|i: int|
            0 <= i < v@.len() ==> #[trigger] row_view(v@[i]) == spec_playlist_row(
                pairs_view(playlists@),
                renames@,
                edit_view(*edit),
                strings_view(doomed@),
                mode,
                cur,
                top + i,
            ),
{
    let ghost pv = pairs_view(playlists@);
    let n: usize = if top >= playlists.len() {
        0
    } else if height <= playlists.len() - top {
        height
    } else {
        playlists.len() - top
    };
    let editing_list = editing_here(mode, edit, false);
    let mut v: Vec<SideRow> = Vec::new();
    let mut i: usize = 0;
    while i < n
        invariant
            i <= n,
            n == rows_from(playlists@.len() as int, top as int, height as int),
            n == 0 || top + n <= playlists@.len(),
            playlists@.len() == playlists.len(),
            pv == pairs_view(playlists@),
            editing_list == sidebar_editing(mode, edit_view(*edit), false),
            v@.len() == i,
            forall|k: int|
                0 <= k < i ==> #[trigger] row_view(v@[k]) == spec_playlist_row(
                    pv,
                    renames@,
                    edit_view(*edit),
                    strings_view(doomed@),
                    mode,
                    cur,
                    top + k,
                ),
        decreases n - i,
    {
        let r = top + i;
        let (name, path) = (&playlists[r].0, &playlists[r].1);
        let what = Renaming::Playlist(copy_string(name));
        let text = match shown_name(renames, edit, &what) {
            Some(n) => n,
            None => copy_string(name),
        };
        let gone = holds(doomed, path.as_str());
        v.push(SideRow { text, cursor: r == cur, editing: r == cur && editing_list, doomed: gone });
        i = i + 1;
    }
    v
}

/// How many tracks are the library's own, not named by a playlist from
/// outside it.
pub open spec fn in_library_count(tracks: Seq<Track>) -> nat
    decreases tracks.len(),
{
    if tracks.len() == 0 {
        0
    } else {
        in_library_count(tracks.drop_last()) + if tracks.last().in_library {
            1nat
        } else {
            0
        }
    }
}

/// The number the `* everything` row shows.
pub fn library_len(tracks: &[Track]) -> (n: usize)
    ensures
        n == in_library_count(tracks@),
{
    let mut n: usize = 0;
    let mut i: usize = 0;
    while i < tracks.len()
        invariant
            i <= tracks@.len(),
            n == in_library_count(tracks@.take(i as int)),
            n <= i,
        decreases tracks@.len() - i,
    {
        assert(tracks@.take(i + 1).drop_last() =~= tracks@.take(i as int));
        if tracks[i].in_library {
            n = n + 1;
        }
        i = i + 1;
    }
    assert(tracks@.take(i as int) =~= tracks@);
    n
}

/// After the sidebar follows its cursor, the cursor is one of the rows on
/// screen.
pub proof fn law_the_sidebar_cursor_stays_in_view(top: usize, cur: usize, height: usize)
    ensures
        spec_keep_in_view(top, cur, height) <= cur,
        cur < spec_keep_in_view(top, cur, height) + if height >= 1 {
            height as int
        } else {
            1
        },
{
}

} // verus!
