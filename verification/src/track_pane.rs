//! The track pane's text: the sticky header and each row under it, the
//! cursor and selection inside a name being edited, and what an empty view
//! says. The header and the rows are laid out from the same columns, so the
//! header cannot drift off its data.

use vstd::prelude::*;

use crate::library::{fmt_duration, spec_fmt_duration, Track};
use crate::text::{chars_of, decimal_wide, push_chars, push_str, same_str, spec_decimal, string_of};
use crate::ui::{push_spaces, spaces, spec_truncate, truncate};

verus! {

/// `s` after enough spaces to make it `w` characters, as `{:>w$}` writes it.
pub open spec fn pad_left(s: Seq<char>, w: int) -> Seq<char> {
    spaces(w - s.len()) + s
}

/// `s` and enough spaces after it to make it `w` characters, as `{:<w$}`.
pub open spec fn pad_right(s: Seq<char>, w: int) -> Seq<char> {
    s + spaces(w - s.len())
}

pub open spec fn cols_view(cols: Seq<(&'static str, usize)>) -> Seq<(Seq<char>, usize)> {
    Seq::new(cols.len(), |i: int| (cols[i].0@, cols[i].1))
}

/// Each column's name cut or padded to its width, and a space after each.
pub open spec fn header_cells(cols: Seq<(Seq<char>, usize)>) -> Seq<char>
    decreases cols.len(),
{
    if cols.len() == 0 {
        Seq::empty()
    } else {
        header_cells(cols.drop_last()) + spec_truncate(cols.last().0, cols.last().1) + " "@
    }
}

/// The header: blank over the gutter, the column names, and `time` over the
/// durations.
pub open spec fn spec_header(cols: Seq<(Seq<char>, usize)>, pad: usize, dur_w: usize) -> Seq<char> {
    spaces(pad as int) + header_cells(cols) + pad_left("time"@, dur_w as int)
}

/// What a column shows of a track, `file` being the name as shown.
pub open spec fn column_value(name: Seq<char>, file: Seq<char>, t: Track) -> Seq<char> {
    if name == "file"@ {
        file
    } else if name == "title"@ {
        t.title@
    } else if name == "artist"@ {
        t.artist@
    } else {
        t.album@
    }
}

pub open spec fn row_cells(cols: Seq<(Seq<char>, usize)>, file: Seq<char>, t: Track) -> Seq<char>
    decreases cols.len(),
{
    if cols.len() == 0 {
        Seq::empty()
    } else {
        row_cells(cols.drop_last(), file, t) + spec_truncate(column_value(cols.last().0, file, t), cols.last().1)
            + " "@
    }
}

/// The mark in front of a row: `~` for a name that a rename changes, else
/// `>` for the track playing (`|` while paused), else blank.
pub open spec fn spec_sign(playing: bool, paused: bool, changed: bool) -> char {
    if changed {
        '~'
    } else if playing {
        if paused {
            '|'
        } else {
            '>'
        }
    } else {
        ' '
    }
}

/// Relative numbers, so `8j` lands where you counted: the cursor's row shows
/// its own number, every other row how far it is from the cursor.
pub open spec fn spec_number(row: usize, cur: usize, num_w: usize) -> Seq<char> {
    if row == cur {
        pad_right(spec_decimal((row + 1) as nat), num_w as int)
    } else {
        pad_left(
            spec_decimal(
                if cur >= row {
                    (cur - row) as nat
                } else {
                    (row - cur) as nat
                },
            ),
            num_w as int,
        )
    }
}

/// The name the file column shows: the one a rename gives it, else its own;
/// on the row being edited, from the buffer's own scroll offset, so a long
/// name slides under the cursor instead of ending in an ellipsis.
pub open spec fn shown_file(file: Seq<char>, edited: Option<Seq<char>>, scroll: Option<usize>) -> Seq<char> {
    let named = match edited {
        Some(n) => n,
        None => file,
    };
    match scroll {
        Some(s) => if s <= named.len() {
            named.skip(s as int)
        } else {
            Seq::empty()
        },
        None => named,
    }
}

pub open spec fn edited_view(e: Option<String>) -> Option<Seq<char>> {
    match e {
        Some(n) => Some(n@),
        None => None,
    }
}

/// One row of the pane, cut or padded to `width`: the sign, the number, each
/// column, and the duration.
pub open spec fn spec_track_row(
    t: Track,
    row: usize,
    cur: usize,
    playing: bool,
    paused: bool,
    edited: Option<Seq<char>>,
    scroll: Option<usize>,
    cols: Seq<(Seq<char>, usize)>,
    num_w: usize,
    dur_w: usize,
    width: usize,
) -> Seq<char> {
    let changed = match edited {
        Some(n) => n != t.file@,
        None => false,
    };
    spec_truncate(
        seq![spec_sign(playing, paused, changed), ' '] + spec_number(row, cur, num_w) + " "@ + row_cells(
            cols,
            shown_file(t.file@, edited, scroll),
            t,
        ) + pad_left(spec_fmt_duration(t.duration_ms / 1000), dur_w as int),
        width,
    )
}

/// How a row is drawn, first match wins.
#[derive(Clone, Copy, PartialEq, Eq, Structural, Debug)]
pub enum RowLook {
    /// Inside the visual selection.
    Selected,
    /// The name being renamed.
    Editing,
    Cursor,
    /// Deleted or cut, waiting for `:w`.
    Doomed,
    Playing,
    Plain,
}

pub open spec fn spec_row_look(selected: bool, editing: bool, cursor: bool, doomed: bool, playing: bool) -> RowLook {
    if selected {
        RowLook::Selected
    } else if editing {
        RowLook::Editing
    } else if cursor {
        RowLook::Cursor
    } else if doomed {
        RowLook::Doomed
    } else if playing {
        RowLook::Playing
    } else {
        RowLook::Plain
    }
}

/// How a row is drawn: a visual selection over a rename over the cursor over
/// a doomed file over the track playing.
pub fn row_look(selected: bool, editing: bool, cursor: bool, doomed: bool, playing: bool) -> (l: RowLook)
    ensures
        l == spec_row_look(selected, editing, cursor, doomed, playing),
{
    if selected {
        RowLook::Selected
    } else if editing {
        RowLook::Editing
    } else if cursor {
        RowLook::Cursor
    } else if doomed {
        RowLook::Doomed
    } else if playing {
        RowLook::Playing
    } else {
        RowLook::Plain
    }
}

fn push_pad_left(out: &mut Vec<char>, s: &[char], w: usize)
    ensures
        final(out)@ == old(out)@ + pad_left(s@, w as int),
{
    if s.len() < w {
        push_spaces(out, w - s.len());
    } else {
        assert(spaces(w - s@.len()) =~= Seq::<char>::empty());
    }
    let ghost mid = out@;
    push_chars(out, s);
    assert(final(out)@ =~= old(out)@ + pad_left(s@, w as int));
}

fn push_pad_right(out: &mut Vec<char>, s: &[char], w: usize)
    ensures
        final(out)@ == old(out)@ + pad_right(s@, w as int),
{
    push_chars(out, s);
    if s.len() < w {
        push_spaces(out, w - s.len());
    } else {
        assert(spaces(w - s@.len()) =~= Seq::<char>::empty());
    }
    assert(final(out)@ =~= old(out)@ + pad_right(s@, w as int));
}

/// The sticky header over the rows: blank over the `pad` cells of gutter,
/// each column's name at its width, and `time` over the durations.
pub fn header(cols: &[(&'static str, usize)], pad: usize, dur_w: usize) -> (h: String)
    ensures
        h@ == spec_header(cols_view(cols@), pad, dur_w),
{
    let mut out: Vec<char> = Vec::new();
    push_spaces(&mut out, pad);
    let ghost cv = cols_view(cols@);
    let mut i: usize = 0;
    while i < cols.len()
        invariant
            i <= cols@.len(),
            cv == cols_view(cols@),
            out@ == spaces(pad as int) + header_cells(cv.take(i as int)),
        decreases cols@.len() - i,
    {
        assert(cv.take(i + 1).drop_last() =~= cv.take(i as int));
        let cell = truncate(cols[i].0, cols[i].1);
        let cc = chars_of(cell.as_str());
        push_chars(&mut out, cc.as_slice());
        push_str(&mut out, " ");
        i = i + 1;
        assert(out@ =~= spaces(pad as int) + header_cells(cv.take(i as int)));
    }
    assert(cv.take(i as int) =~= cv);
    let time = chars_of("time");
    push_pad_left(&mut out, time.as_slice(), dur_w);
    string_of(out.as_slice())
}

/// One row of the track pane, `width` cells wide: `>` (or `|` while paused)
/// for the track `playing`, `~` when the name it is `edited` to differs from
/// its own; its number, relative to the cursor `cur` except on the cursor's
/// row; each column at its width, the file column from `scroll` on while it
/// is being edited; and the duration.
pub fn track_row(
    t: &Track,
    row: usize,
    cur: usize,
    playing: bool,
    paused: bool,
    edited: &Option<String>,
    scroll: Option<usize>,
    cols: &[(&'static str, usize)],
    num_w: usize,
    dur_w: usize,
    width: usize,
) -> (r: String)
    ensures
        r@ == spec_track_row(
            *t,
            row,
            cur,
            playing,
            paused,
            edited_view(*edited),
            scroll,
            cols_view(cols@),
            num_w,
            dur_w,
            width,
        ),
{
    let changed = match edited {
        Some(n) => !same_str(n.as_str(), t.file.as_str()),
        None => false,
    };
    let sign = if changed {
        '~'
    } else if playing {
        if paused {
            '|'
        } else {
            '>'
        }
    } else {
        ' '
    };
    let mut out: Vec<char> = Vec::new();
    out.push(sign);
    out.push(' ');
    if row == cur {
        let n = decimal_wide(row as u128 + 1);
        push_pad_right(&mut out, n.as_slice(), num_w);
    } else {
        let d: usize = if cur >= row {
            cur - row
        } else {
            row - cur
        };
        let n = decimal_wide(d as u128);
        push_pad_left(&mut out, n.as_slice(), num_w);
    }
    push_str(&mut out, " ");
    let ghost changed_s = match edited_view(*edited) {
        Some(n) => n != t.file@,
        None => false,
    };
    assert(changed == changed_s);
    assert(out@ =~= seq![spec_sign(playing, paused, changed_s), ' '] + spec_number(row, cur, num_w) + " "@);

    let named: Vec<char> = match edited {
        Some(n) => chars_of(n.as_str()),
        None => chars_of(t.file.as_str()),
    };
    let file: Vec<char> = match scroll {
        Some(s) => {
            let mut v: Vec<char> = Vec::new();
            let mut k: usize = s;
            while k < named.len()
                invariant
                    s <= k <= named@.len() || (k == s && s > named@.len()),
                    s <= named@.len() ==> v@ == named@.subrange(s as int, k as int),
                    s > named@.len() ==> v@.len() == 0,
                decreases named@.len() - k,
            {
                v.push(named[k]);
                k = k + 1;
                assert(v@ =~= named@.subrange(s as int, k as int));
            }
            v
        },
        None => named,
    };
    proof {
        let e = edited_view(*edited);
        let nm = match e {
            Some(n) => n,
            None => t.file@,
        };
        assert(named@ == nm);
        if let Some(s) = scroll {
            if s <= nm.len() {
                assert(file@ =~= nm.skip(s as int));
            } else {
                assert(file@ =~= Seq::<char>::empty());
            }
        }
        assert(file@ == shown_file(t.file@, e, scroll));
    }

    let ghost cv = cols_view(cols@);
    let ghost start = out@;
    let mut i: usize = 0;
    while i < cols.len()
        invariant
            i <= cols@.len(),
            cv == cols_view(cols@),
            out@ == start + row_cells(cv.take(i as int), file@, *t),
        decreases cols@.len() - i,
    {
        assert(cv.take(i + 1).drop_last() =~= cv.take(i as int));
        let name = cols[i].0;
        let w = cols[i].1;
        let cell = if same_str(name, "file") {
            let fs = string_of(file.as_slice());
            truncate(fs.as_str(), w)
        } else if same_str(name, "title") {
            truncate(t.title.as_str(), w)
        } else if same_str(name, "artist") {
            truncate(t.artist.as_str(), w)
        } else {
            truncate(t.album.as_str(), w)
        };
        assert(cell@ == spec_truncate(column_value(name@, file@, *t), w));
        let cc = chars_of(cell.as_str());
        push_chars(&mut out, cc.as_slice());
        push_str(&mut out, " ");
        i = i + 1;
        assert(out@ =~= start + row_cells(cv.take(i as int), file@, *t));
    }
    assert(cv.take(i as int) =~= cv);
    let dur = fmt_duration(t.duration_ms / 1000);
    let dc = chars_of(dur.as_str());
    push_pad_left(&mut out, dc.as_slice(), dur_w);
    assert(out@ =~= seq![spec_sign(playing, paused, changed_s), ' '] + spec_number(row, cur, num_w) + " "@
        + row_cells(cv, shown_file(t.file@, edited_view(*edited), scroll), *t) + pad_left(
        spec_fmt_duration(t.duration_ms / 1000),
        dur_w as int,
    ));
    let body = string_of(out.as_slice());
    truncate(body.as_str(), width)
}

/// The name's selection, `lo..=hi`, in the coordinates of the row it is
/// drawn in: shifted right by the `offset` in front of the name and left by
/// how far the name has scrolled; none when it has scrolled out of sight.
pub open spec fn spec_selection_at(sel: Option<(usize, usize)>, offset: usize, scroll: usize) -> Option<
    (int, int),
> {
    match sel {
        None => None,
        Some((lo, hi)) => if hi < scroll {
            None
        } else {
            Some(
                (
                    offset + if lo >= scroll {
                        lo - scroll
                    } else {
                        0
                    },
                    offset + hi - scroll,
                ),
            )
        },
    }
}

/// The name's selection moved into the row's coordinates.
pub fn selection_at(sel: Option<(usize, usize)>, offset: usize, scroll: usize) -> (r: Option<(usize, usize)>)
    requires
        sel matches Some((lo, hi)) ==> (hi >= scroll ==> offset + (hi - scroll) <= usize::MAX && (lo
            >= scroll ==> offset + (lo - scroll) <= usize::MAX)),
    ensures
        match r {
            Some((a, b)) => spec_selection_at(sel, offset, scroll) == Some((a as int, b as int)),
            None => spec_selection_at(sel, offset, scroll) is None,
        },
{
    match sel {
        None => None,
        Some((lo, hi)) => {
            if hi < scroll {
                None
            } else {
                let a: usize = if lo >= scroll {
                    lo - scroll
                } else {
                    0
                };
                Some((offset + a, offset + (hi - scroll)))
            }
        },
    }
}

/// What each cell of a row with a cursor in it is: the cursor, part of the
/// selection, or the row's own look.
#[derive(Clone, Copy, PartialEq, Eq, Structural, Debug)]
pub enum Cell {
    Plain,
    Cursor,
    Picked,
}

/// The cell at `i` of a row `len` long with the cursor at `at` (held to the
/// last cell) and the selection `lo..=hi`.
pub open spec fn spec_cell(i: int, len: usize, at: usize, sel: Option<(usize, usize)>) -> Cell {
    let last: int = if len >= 1 {
        len - 1
    } else {
        0
    };
    let a: int = if at <= last {
        at as int
    } else {
        last
    };
    if i == a {
        Cell::Cursor
    } else if sel matches Some((lo, hi)) && lo <= i <= hi {
        Cell::Picked
    } else {
        Cell::Plain
    }
}

/// The cells of a row `len` characters long with the cursor at `at` and the
/// selection `sel` in it.
pub fn cells(len: usize, at: usize, sel: Option<(usize, usize)>) -> (v: Vec<Cell>)
    ensures
        v@.len() == len,
        forall|i: int| 0 <= i < len ==> #[trigger] v@[i] == spec_cell(i, len, at, sel),
{
    let last: usize = if len >= 1 {
        len - 1
    } else {
        0
    };
    let a: usize = if at <= last {
        at
    } else {
        last
    };
    let mut v: Vec<Cell> = Vec::new();
    let mut i: usize = 0;
    while i < len
        invariant
            i <= len,
            v@.len() == i,
            a == (if at <= last { at } else { last }),
            last == (if len >= 1 { len - 1 } else { 0 }),
            forall|j: int| 0 <= j < i ==> #[trigger] v@[j] == spec_cell(j, len, at, sel),
        decreases len - i,
    {
        let c = if i == a {
            Cell::Cursor
        } else {
            match sel {
                Some((lo, hi)) => if lo <= i && i <= hi {
                    Cell::Picked
                } else {
                    Cell::Plain
                },
                None => Cell::Plain,
            }
        };
        v.push(c);
        i = i + 1;
    }
    v
}

} // verus!
