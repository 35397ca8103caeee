//! What the lyrics pane shows: every lyric wrapped to the pane, the line
//! being sung picked out, and a word of why when there is nothing to show.
//! Which of the rows are on screen is left to the caller (`follow_top`).

use vstd::prelude::*;

use crate::lyrics::{Lyrics, LyricsView};
use crate::text::{chars_of, push_chars, push_str, string_of};
use crate::ui::{spec_wrap_lyric, wrap_lyric};

verus! {

/// How a row of the pane is drawn.
#[derive(Clone, Copy, PartialEq, Eq, Structural, Debug)]
pub enum RowStyle {
    /// A note, or a timed line that is not being sung.
    Dim,
    /// Words with no timings.
    Plain,
    /// The line being sung.
    Current,
}

pub open spec fn rows_view(v: Seq<(String, RowStyle)>) -> Seq<(Seq<char>, RowStyle)> {
    Seq::new(v.len(), |i: int| (v[i].0@, v[i].1))
}

/// The line being sung `now` milliseconds in: the last one whose timestamp,
/// shifted by `offset`, has passed.
pub open spec fn spec_current_line(lines: Seq<(u64, Seq<char>)>, offset: i64, now: i64) -> Option<int>
    decreases lines.len(),
{
    if lines.len() == 0 {
        None
    } else if lines.last().0 + offset <= now {
        Some(lines.len() - 1)
    } else {
        spec_current_line(lines.drop_last(), offset, now)
    }
}

/// The same rows, all in one style.
pub open spec fn styled(rows: Seq<Seq<char>>, style: RowStyle) -> Seq<(Seq<char>, RowStyle)> {
    Seq::new(rows.len(), |i: int| (rows[i], style))
}

/// Untimed lines, each wrapped to the pane.
pub open spec fn plain_rows(lines: Seq<Seq<char>>, width: usize) -> Seq<(Seq<char>, RowStyle)>
    decreases lines.len(),
{
    if lines.len() == 0 {
        Seq::empty()
    } else {
        plain_rows(lines.drop_last(), width) + styled(spec_wrap_lyric(lines.last(), width), RowStyle::Plain)
    }
}

/// Timed lines, each wrapped to the pane, the rows of line `current` picked
/// out and the others dimmed.
pub open spec fn synced_rows(lines: Seq<(u64, Seq<char>)>, current: Option<int>, width: usize) -> Seq<
    (Seq<char>, RowStyle),
>
    decreases lines.len(),
{
    if lines.len() == 0 {
        Seq::empty()
    } else {
        let style = if current == Some(lines.len() - 1) {
            RowStyle::Current
        } else {
            RowStyle::Dim
        };
        synced_rows(lines.drop_last(), current, width) + styled(spec_wrap_lyric(lines.last().1, width), style)
    }
}

/// One dimmed note.
pub open spec fn note(text: Seq<char>) -> (Seq<(Seq<char>, RowStyle)>, Option<int>) {
    (seq![(text, RowStyle::Dim)], None)
}

/// The pane's rows, and the row the line being sung starts on: for no track,
/// for words not here yet (being fetched, or not), for words that could not be
/// had, for untimed words, and for timed ones `now` milliseconds in with the
/// track's correction `offset`.
pub open spec fn spec_lyric_rows(
    playing: bool,
    found: Option<LyricsView>,
    loading: bool,
    offset: i64,
    now: i64,
    width: usize,
) -> (Seq<(Seq<char>, RowStyle)>, Option<int>) {
    if !playing {
        note("  nothing playing"@)
    } else {
        match found {
            None => note(
                if loading {
                    "  looking on lrclib..."@
                } else {
                    "  ..."@
                },
            ),
            Some(LyricsView::Missing(why)) => note("  "@ + why),
            Some(LyricsView::Plain(lines)) => (plain_rows(lines, width), None),
            Some(LyricsView::Synced(lines)) => {
                let current = spec_current_line(lines, offset, now);
                (
                    synced_rows(lines, current, width),
                    match current {
                        Some(c) => Some(synced_rows(lines.take(c), current, width).len() as int),
                        None => None,
                    },
                )
            },
        }
    }
}

pub open spec fn timed_view(v: Seq<(u64, String)>) -> Seq<(u64, Seq<char>)> {
    Seq::new(v.len(), |i: int| (v[i].0, v[i].1@))
}

/// The line being sung `now` milliseconds in, with the track's correction.
pub fn current_line(lines: &[(u64, String)], offset: i64, now: i64) -> (r: Option<usize>)
    ensures
        match r {
            Some(i) => i < lines@.len() && spec_current_line(timed_view(lines@), offset, now) == Some(
                i as int,
            ),
            None => spec_current_line(timed_view(lines@), offset, now) is None,
        },
{
    let mut i: usize = lines.len();
    assert(timed_view(lines@).take(i as int) =~= timed_view(lines@));
    while i > 0
        invariant
            i <= lines@.len(),
            spec_current_line(timed_view(lines@), offset, now) == spec_current_line(
                timed_view(lines@).take(i as int),
                offset,
                now,
            ),
        decreases i,
    {
        let ghost t = timed_view(lines@).take(i as int);
        assert(t.drop_last() =~= timed_view(lines@).take(i - 1));
        if (lines[i - 1].0 as i128) + (offset as i128) <= now as i128 {
            return Some(i - 1);
        }
        i = i - 1;
    }
    assert(timed_view(lines@).take(0) =~= Seq::<(u64, Seq<char>)>::empty());
    None
}

/// Appends the rows of one lyric, wrapped to the pane, in one style.
fn push_wrapped(out: &mut Vec<(String, RowStyle)>, text: &str, width: usize, style: RowStyle)
    ensures
        rows_view(final(out)@) == rows_view(old(out)@) + styled(spec_wrap_lyric(text@, width), style),
{
    let parts = wrap_lyric(text, width);
    let ghost start = rows_view(out@);
    let ghost want = styled(spec_wrap_lyric(text@, width), style);
    let mut k: usize = 0;
    let ghost all = parts@;
    while k < parts.len()
        invariant
            k <= parts@.len(),
            parts@ == all,
            want == styled(spec_wrap_lyric(text@, width), style),
            all.len() == spec_wrap_lyric(text@, width).len(),
            forall|j: int| 0 <= j < all.len() ==> #[trigger] all[j]@ == spec_wrap_lyric(text@, width)[j],
            rows_view(out@) == start + want.take(k as int),
        decreases parts@.len() - k,
    {
        let row = copy_string(&parts[k]);
        let ghost prev = rows_view(out@);
        out.push((row, style));
        assert(rows_view(out@) =~= prev.push((all[k as int]@, style)));
        assert(want.take(k + 1) =~= want.take(k as int).push(want[k as int]));
        k = k + 1;
    }
    assert(want.take(k as int) =~= want);
}

fn copy_string(s: &String) -> (r: String)
    ensures
        r@ == s@,
{
    let v = chars_of(s.as_str());
    string_of(v.as_slice())
}

fn note_row(text: &str) -> (r: Vec<(String, RowStyle)>)
    ensures
        rows_view(r@) == seq![(text@, RowStyle::Dim)],
{
    let v = chars_of(text);
    let mut r: Vec<(String, RowStyle)> = Vec::new();
    r.push((string_of(v.as_slice()), RowStyle::Dim));
    assert(rows_view(r@) =~= seq![(text@, RowStyle::Dim)]);
    r
}

/// Every row of the lyrics pane, wrapped to `width`, and the row the line
/// being sung starts on when there is one. `playing` says whether a track
/// plays, `found` what is known of its words, `loading` whether they are
/// being fetched, `offset` its timing correction and `now` how far in it is,
/// both in milliseconds.
pub fn lyric_rows(
    playing: bool,
    found: Option<&Lyrics>,
    loading: bool,
    offset: i64,
    now: i64,
    width: usize,
) -> (r: (Vec<(String, RowStyle)>, Option<usize>))
    ensures
        ({
            let want = spec_lyric_rows(
                playing,
                match found {
                    Some(l) => Some(l@),
                    None => None,
                },
                loading,
                offset,
                now,
                width,
            );
            &&& rows_view(r.0@) == want.0
            &&& match r.1 {
                Some(k) => want.1 == Some(k as int),
                None => want.1 is None,
            }
        }),
{
    if !playing {
        return (note_row("  nothing playing"), None);
    }
    match found {
        None => {
            let r = if loading {
                note_row("  looking on lrclib...")
            } else {
                note_row("  ...")
            };
            (r, None)
        },
        Some(Lyrics::Missing(why)) => {
            let mut v: Vec<char> = Vec::new();
            push_str(&mut v, "  ");
            let w = chars_of(why.as_str());
            push_chars(&mut v, w.as_slice());
            let mut r: Vec<(String, RowStyle)> = Vec::new();
            r.push((string_of(v.as_slice()), RowStyle::Dim));
            assert(rows_view(r@) =~= seq![(v@, RowStyle::Dim)]);
            assert(v@ =~= "  "@ + why@);
            (r, None)
        },
        Some(Lyrics::Plain(lines)) => {
            let ghost ls = Seq::new(lines@.len(), |i: int| lines@[i]@);
            let mut out: Vec<(String, RowStyle)> = Vec::new();
            let mut i: usize = 0;
            while i < lines.len()
                invariant
                    i <= lines@.len(),
                    ls == Seq::new(lines@.len(), |i: int| lines@[i]@),
                    rows_view(out@) == plain_rows(ls.take(i as int), width),
                decreases lines@.len() - i,
            {
                assert(ls.take(i + 1).drop_last() =~= ls.take(i as int));
                push_wrapped(&mut out, lines[i].as_str(), width, RowStyle::Plain);
                i = i + 1;
            }
            assert(ls.take(i as int) =~= ls);
            assert(ls =~= Seq::new(lines@.len(), |i: int| lines@[i]@));
            (out, None)
        },
        Some(Lyrics::Synced(lines)) => {
            let ghost ls = timed_view(lines@);
            let cur = current_line(lines.as_slice(), offset, now);
            let ghost gcur = spec_current_line(ls, offset, now);
            let mut out: Vec<(String, RowStyle)> = Vec::new();
            let mut at: Option<usize> = None;
            let mut i: usize = 0;
            while i < lines.len()
                invariant
                    i <= lines@.len(),
                    ls == timed_view(lines@),
                    gcur == spec_current_line(ls, offset, now),
                    match cur {
                        Some(c) => gcur == Some(c as int),
                        None => gcur is None,
                    },
                    rows_view(out@) == synced_rows(ls.take(i as int), gcur, width),
                    match cur {
                        Some(c) => if c < i {
                            at matches Some(a) && a as int == synced_rows(ls.take(c as int), gcur, width).len()
                        } else {
                            at is None
                        },
                        None => at is None,
                    },
                decreases lines@.len() - i,
            {
                assert(ls.take(i + 1).drop_last() =~= ls.take(i as int));
                let is_cur = match cur {
                    Some(c) => c == i,
                    None => false,
                };
                if is_cur {
                    at = Some(out.len());
                }
                let style = if is_cur {
                    RowStyle::Current
                } else {
                    RowStyle::Dim
                };
                push_wrapped(&mut out, lines[i].1.as_str(), width, style);
                i = i + 1;
            }
            assert(ls.take(i as int) =~= ls);
            assert(ls =~= Seq::new(lines@.len(), |i: int| (lines@[i].0, lines@[i].1@)));
            (out, at)
        },
    }
}

/// Every lyric takes at least one row, a blank one if need be.
pub proof fn lemma_a_lyric_has_a_row(text: Seq<char>, width: usize)
    ensures
        spec_wrap_lyric(text, width).len() >= 1,
{
}

/// The line being sung is one of the lines.
pub proof fn lemma_current_is_a_line(lines: Seq<(u64, Seq<char>)>, offset: i64, now: i64)
    ensures
        spec_current_line(lines, offset, now) matches Some(c) ==> 0 <= c < lines.len(),
    decreases lines.len(),
{
    if lines.len() > 0 {
        lemma_current_is_a_line(lines.drop_last(), offset, now);
    }
}

/// The rows of the first `k` lines come first, as they are.
pub proof fn lemma_rows_of_a_prefix(lines: Seq<(u64, Seq<char>)>, current: Option<int>, width: usize, k: int)
    requires
        0 <= k <= lines.len(),
    ensures
        synced_rows(lines.take(k), current, width).len() <= synced_rows(lines, current, width).len(),
        forall|i: int|
            0 <= i < synced_rows(lines.take(k), current, width).len() ==> #[trigger] synced_rows(
                lines,
                current,
                width,
            )[i] == synced_rows(lines.take(k), current, width)[i],
    decreases lines.len(),
{
    if k == lines.len() {
        assert(lines.take(k) =~= lines);
    } else {
        let rest = lines.drop_last();
        assert(lines.take(k) =~= rest.take(k));
        lemma_rows_of_a_prefix(rest, current, width, k);
        assert(rest =~= lines.drop_last());
    }
}

/// The row the pane follows is the first row of the line being sung, and
/// that row is picked out: following the song never lands on a dimmed line.
pub proof fn law_the_followed_row_is_the_line_sung(
    lines: Seq<(u64, Seq<char>)>,
    loading: bool,
    offset: i64,
    now: i64,
    width: usize,
)
    ensures
        ({
            let (rows, current) = spec_lyric_rows(true, Some(LyricsView::Synced(lines)), loading, offset, now, width);
            current matches Some(r) ==> 0 <= r < rows.len() && rows[r].1 == RowStyle::Current
        }),
{
    let cur = spec_current_line(lines, offset, now);
    lemma_current_is_a_line(lines, offset, now);
    if let Some(c) = cur {
        let upto = lines.take(c + 1);
        let before = lines.take(c);
        assert(upto.drop_last() =~= before);
        lemma_a_lyric_has_a_row(upto.last().1, width);
        lemma_rows_of_a_prefix(lines, cur, width, c + 1);
        let r = synced_rows(before, cur, width).len() as int;
        assert(synced_rows(upto, cur, width)[r].1 == RowStyle::Current);
    }
}

} // verus!
