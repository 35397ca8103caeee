//! The track list's bookkeeping: which library rows a view shows, the rows a
//! selection covers, searching them, and moving rows without losing what
//! points at them.

use vstd::prelude::*;

use crate::library::{lower, spec_lower, spec_parent, Track};
use crate::text::{chars_of, same_str};
use crate::ui::{find_from, find_pattern};

verus! {

// ---- what the list shows ------------------------------------------------------

/// The rows a selection covers, both ends included: from the anchor to the
/// cursor in visual mode, else just the cursor's row.
pub open spec fn spec_selection_range(anchor: Option<usize>, visual: bool, cur: usize) -> (usize, usize) {
    match anchor {
        Some(a) if visual => (if a < cur {
            a
        } else {
            cur
        }, if a < cur {
            cur
        } else {
            a
        }),
        _ => (cur, cur),
    }
}

pub fn selection_range(anchor: Option<usize>, visual: bool, cur: usize) -> (r: (usize, usize))
    ensures
        r == spec_selection_range(anchor, visual, cur),
{
    match anchor {
        Some(a) => if visual {
            if a < cur {
                (a, cur)
            } else {
                (cur, a)
            }
        } else {
            (cur, cur)
        },
        None => (cur, cur),
    }
}

/// The folder a track sits in, as `Track::dir` gives it.
pub open spec fn dir_of(t: Track) -> Seq<char> {
    match spec_parent(t.path@) {
        Some(d) => d,
        None => Seq::empty(),
    }
}

/// Whether library row `t` is shown: in the library (the whole library) or
/// in the folder `dir`, and not marked for deletion, since the list is a
/// buffer and should look as if the edit already happened.
pub open spec fn shows(tracks: Seq<Track>, dir: Option<Seq<char>>, doomed: Seq<Seq<char>>, t: int) -> bool {
    &&& match dir {
        None => tracks[t].in_library,
        Some(d) => dir_of(tracks[t]) == d,
    }
    &&& !doomed.contains(tracks[t].path@)
}

/// The rows shown, in library order, of the first `n`.
pub open spec fn spec_view_of(tracks: Seq<Track>, dir: Option<Seq<char>>, doomed: Seq<Seq<char>>, n: int) -> Seq<usize>
    decreases n,
{
    if n <= 0 {
        Seq::empty()
    } else {
        let r = spec_view_of(tracks, dir, doomed, n - 1);
        if shows(tracks, dir, doomed, n - 1) {
            r.push((n - 1) as usize)
        } else {
            r
        }
    }
}

pub open spec fn strings_view(v: Seq<String>) -> Seq<Seq<char>> {
    v.map_values(|e: String| e@)
}

pub(crate) fn holds(v: &Vec<String>, x: &str) -> (b: bool)
    ensures
        b == strings_view(v@).contains(x@),
{
    let ghost s = strings_view(v@);
    let mut i: usize = 0;
    while i < v.len()
        invariant
            i <= v@.len(),
            s == strings_view(v@),
            forall|k: int| 0 <= k < i ==> s[k] != x@,
        decreases v@.len() - i,
    {
        assert(s[i as int] == v@[i as int]@);
        if same_str(v[i].as_str(), x) {
            assert(s.contains(x@));
            return true;
        }
        i = i + 1;
    }
    false
}

/// The list for the whole library (`dir` is `None`) or for one folder.
pub fn view_of(tracks: &Vec<Track>, dir: &Option<String>, doomed: &Vec<String>) -> (v: Vec<usize>)
    ensures
        v@ == spec_view_of(tracks@, match dir {
            Some(d) => Some(d@),
            None => None,
        }, strings_view(doomed@), tracks@.len() as int),
{
    let ghost dv = match dir {
        Some(d) => Some(d@),
        None => None,
    };
    let mut v: Vec<usize> = Vec::new();
    let mut t: usize = 0;
    while t < tracks.len()
        invariant
            t <= tracks@.len(),
            dv == (match dir {
                Some(d) => Some(d@),
                None => None,
            }),
            v@ == spec_view_of(tracks@, dv, strings_view(doomed@), t as int),
        decreases tracks@.len() - t,
    {
        let here = match dir {
            None => tracks[t].in_library,
            Some(d) => {
                let folder = tracks[t].dir();
                same_str(folder.as_str(), d.as_str())
            },
        };
        if here && !holds(doomed, tracks[t].path.as_str()) {
            v.push(t);
        }
        t = t + 1;
    }
    v
}

// ---- searching ------------------------------------------------------------

/// Whether `c` is an upper case letter, as Unicode says.
pub uninterp spec fn spec_is_uppercase(c: char) -> bool;

/// `char::is_uppercase` from std. Its contract claims that the answer is a
/// function of the character, named `spec_is_uppercase`, and that on ASCII it
/// is true just for `A` to `Z`, the ASCII characters with Unicode's
/// `Uppercase` property it documents.
#[verifier::external_body]
fn is_uppercase(c: char) -> (b: bool)
    ensures
        b == spec_is_uppercase(c),
        (c as u32) < 128 ==> (b <==> ('A' <= c && c <= 'Z')),
{
    c.is_uppercase()
}

/// Vim's smartcase: a pattern with an upper case letter in it is taken
/// literally, any other matches whatever the case.
pub open spec fn smart(pattern: Seq<char>) -> bool {
    exists|i: int| 0 <= i < pattern.len() && spec_is_uppercase(pattern[i])
}

/// What a search looks through for a track: its columns, never its folder.
pub open spec fn hay_of(t: Track) -> Seq<char> {
    t.file@ + " "@ + t.title@ + " "@ + t.artist@ + " "@ + t.album@ + " "@ + t.album_artist@
}

/// Whether the row for library row `t` matches `pattern`.
pub open spec fn matches_row(tracks: Seq<Track>, t: usize, pattern: Seq<char>) -> bool {
    let hay = hay_of(tracks[t as int]);
    if smart(pattern) {
        find_from(hay, pattern, 0) is Some
    } else {
        find_from(spec_lower(hay), spec_lower(pattern), 0) is Some
    }
}

/// The row `step` rows on from `from`, around the end of an `n` row list,
/// backwards when `backward`.
pub open spec fn row_at(from: usize, n: usize, step: int, backward: bool) -> int {
    if backward {
        (from + n - (step % (n as int))) % (n as int)
    } else {
        (from + step) % (n as int)
    }
}

/// The first step from 1 on that lands on a matching row.
pub open spec fn first_step(tracks: Seq<Track>, view: Seq<usize>, pattern: Seq<char>, backward: bool, from: usize, step: int) -> Option<int>
    decreases view.len() + 1 - step,
{
    if step < 1 || step > view.len() {
        None
    } else if matches_row(tracks, view[row_at(from, view.len() as usize, step, backward)], pattern) {
        Some(row_at(from, view.len() as usize, step, backward))
    } else {
        first_step(tracks, view, pattern, backward, from, step + 1)
    }
}

/// `/` and `?`: the first row after `from` (before it, for `?`) whose
/// columns hold `pattern`, wrapping around the end of the list; `from` is
/// tried last. Nothing for an empty pattern or list.
pub fn search_row(tracks: &Vec<Track>, view: &Vec<usize>, pattern: &str, backward: bool, from: usize) -> (r: Option<usize>)
    requires
        from < view@.len() || view@.len() == 0,
        forall|k: int| 0 <= k < view@.len() ==> view@[k] < tracks@.len(),
    ensures
        pattern@.len() == 0 || view@.len() == 0 ==> r is None,
        pattern@.len() > 0 && view@.len() > 0 ==> match first_step(tracks@, view@, pattern@, backward, from, 1) {
            Some(k) => r == Some(k as usize),
            None => r is None,
        },
{
    let pc = chars_of(pattern);
    if pc.len() == 0 || view.len() == 0 {
        return None;
    }
    let mut is_smart = false;
    let mut i: usize = 0;
    while i < pc.len()
        invariant
            i <= pc@.len(),
            pc@ == pattern@,
            is_smart == (exists|k: int| 0 <= k < i && spec_is_uppercase(pc@[k])),
        decreases pc@.len() - i,
    {
        if is_uppercase(pc[i]) {
            is_smart = true;
        }
        i = i + 1;
    }
    let needle = if is_smart {
        pc
    } else {
        let l = lower(pattern);
        chars_of(l.as_str())
    };
    let n = view.len();
    let mut k: usize = 0;
    while k < n
        invariant
            k <= n,
            pattern@.len() > 0,
            n == view@.len(),
            n > 0,
            from < n,
            pc@ == pattern@,
            is_smart == smart(pattern@),
            is_smart ==> needle@ == pattern@,
            !is_smart ==> needle@ == spec_lower(pattern@),
            forall|q: int| 0 <= q < view@.len() ==> view@[q] < tracks@.len(),
            first_step(tracks@, view@, pattern@, backward, from, 1) == first_step(
                tracks@,
                view@,
                pattern@,
                backward,
                from,
                k + 1,
            ),
        decreases n - k,
    {
        let step = k + 1;
        let wide: u128 = if backward {
            ((from as u128) + (n as u128) - ((step % n) as u128)) % (n as u128)
        } else {
            ((from as u128) + (step as u128)) % (n as u128)
        };
        let row = wide as usize;
        assert(row == row_at(from, n, step as int, backward));
        let hay = tracks[view[row]].haystack();
        let text = if is_smart {
            chars_of(hay.as_str())
        } else {
            let l = lower(hay.as_str());
            chars_of(l.as_str())
        };
        if needle.len() == 0 {
            assert(find_from(text@, needle@, 0) == Some(0int)) by {
                assert(text@.subrange(0, 0) =~= needle@);
            }
            return Some(row);
        }
        match find_pattern(text.as_slice(), needle.as_slice()) {
            Some(_) => {
                return Some(row);
            },
            None => {},
        }
        k = k + 1;
    }
    None
}

// ---- moving rows about ------------------------------------------------------

/// Rows put back into a playlist: `new` goes in after the cursor's row, or
/// at the end when the cursor is past it. The place they start at comes
/// back too, for the cursor.
pub fn put_rows(rows: &Vec<usize>, cur: usize, new: &Vec<usize>) -> (r: (Vec<usize>, usize))
    requires
        cur < usize::MAX,
    ensures
        r.1 == (if cur + 1 < rows@.len() {
            cur + 1
        } else {
            rows@.len() as int
        }),
        r.0@ == rows@.subrange(0, r.1 as int) + new@ + rows@.subrange(r.1 as int, rows@.len() as int),
{
    let at = if cur + 1 < rows.len() {
        cur + 1
    } else {
        rows.len()
    };
    let mut out: Vec<usize> = Vec::new();
    let mut i: usize = 0;
    while i < at
        invariant
            i <= at <= rows@.len(),
            out@ == rows@.subrange(0, i as int),
        decreases at - i,
    {
        out.push(rows[i]);
        i = i + 1;
    }
    let mut j: usize = 0;
    while j < new.len()
        invariant
            j <= new@.len(),
            at <= rows@.len(),
            out@ == rows@.subrange(0, at as int) + new@.subrange(0, j as int),
        decreases new@.len() - j,
    {
        out.push(new[j]);
        j = j + 1;
    }
    assert(new@.subrange(0, new@.len() as int) =~= new@);
    let mut k: usize = at;
    while k < rows.len()
        invariant
            at <= k <= rows@.len(),
            out@ == rows@.subrange(0, at as int) + new@ + rows@.subrange(at as int, k as int),
        decreases rows@.len() - k,
    {
        out.push(rows[k]);
        k = k + 1;
    }
    (out, at)
}

/// `dd` in a playlist: the rows from `a` to `b` taken out (`b` held to the
/// last row), and the rows taken, in order.
pub fn cut_rows(rows: &Vec<usize>, a: usize, b: usize) -> (r: (Vec<usize>, Vec<usize>))
    requires
        rows@.len() > 0,
        a <= b,
        a < rows@.len(),
    ensures
        ({
            let e = if b < rows@.len() {
                b as int
            } else {
                rows@.len() - 1
            };
            &&& r.0@ == rows@.subrange(0, a as int) + rows@.subrange(e + 1, rows@.len() as int)
            &&& r.1@ == rows@.subrange(a as int, e + 1)
        }),
{
    let e = if b < rows.len() {
        b
    } else {
        rows.len() - 1
    };
    let mut kept: Vec<usize> = Vec::new();
    let mut taken: Vec<usize> = Vec::new();
    let mut i: usize = 0;
    while i < rows.len()
        invariant
            i <= rows@.len(),
            a <= e < rows@.len(),
            kept@ == rows@.subrange(0, if i < a { i as int } else { a as int }) + if i > e + 1 {
                rows@.subrange(e + 1, i as int)
            } else {
                Seq::empty()
            },
            taken@ == if i <= a {
                Seq::empty()
            } else if i <= e + 1 {
                rows@.subrange(a as int, i as int)
            } else {
                rows@.subrange(a as int, e + 1)
            },
        decreases rows@.len() - i,
    {
        if i < a || i > e {
            kept.push(rows[i]);
        } else {
            taken.push(rows[i]);
        }
        i = i + 1;
        assert(kept@ =~= rows@.subrange(0, if i < a { i as int } else { a as int }) + if i > e + 1 {
            rows@.subrange(e + 1, i as int)
        } else {
            Seq::empty()
        });
    }
    (kept, taken)
}

/// Where the first track at `path` is in the library.
pub open spec fn first_with(tracks: Seq<Track>, path: Seq<char>, i: int) -> Option<usize>
    decreases tracks.len() - i,
{
    if i < 0 || i >= tracks.len() {
        None
    } else if tracks[i].path@ == path {
        Some(i as usize)
    } else {
        first_with(tracks, path, i + 1)
    }
}

fn position_of(tracks: &Vec<Track>, path: &str) -> (r: Option<usize>)
    ensures
        r == first_with(tracks@, path@, 0),
{
    let mut i: usize = 0;
    while i < tracks.len()
        invariant
            i <= tracks@.len(),
            first_with(tracks@, path@, 0) == first_with(tracks@, path@, i as int),
        decreases tracks@.len() - i,
    {
        if same_str(tracks[i].path.as_str(), path) {
            return Some(i);
        }
        i = i + 1;
    }
    None
}

/// The library rows of the tracks at `paths`, in order, a path the library
/// does not have skipped.
pub open spec fn spec_rows_of(tracks: Seq<Track>, paths: Seq<Seq<char>>) -> Seq<usize>
    decreases paths.len(),
{
    if paths.len() == 0 {
        Seq::empty()
    } else {
        let r = spec_rows_of(tracks, paths.drop_last());
        match first_with(tracks, paths.last(), 0) {
            Some(i) => r.push(i),
            None => r,
        }
    }
}

pub fn rows_of(tracks: &Vec<Track>, paths: &Vec<String>) -> (r: Vec<usize>)
    ensures
        r@ == spec_rows_of(tracks@, strings_view(paths@)),
{
    let ghost pv = strings_view(paths@);
    let mut r: Vec<usize> = Vec::new();
    let mut i: usize = 0;
    while i < paths.len()
        invariant
            i <= paths@.len(),
            pv == strings_view(paths@),
            r@ == spec_rows_of(tracks@, pv.take(i as int)),
        decreases paths@.len() - i,
    {
        assert(pv.take(i + 1).drop_last() =~= pv.take(i as int));
        assert(pv.take(i + 1).last() == paths@[i as int]@);
        match position_of(tracks, paths[i].as_str()) {
            Some(k) => r.push(k),
            None => {},
        }
        i = i + 1;
    }
    assert(pv.take(paths@.len() as int) =~= pv);
    r
}

/// Where each track went after the library was sorted again, found by its
/// path; nothing when a path is missing afterwards, and the indices are
/// better left alone than guessed.
pub open spec fn spec_remap_by_path(before: Seq<Seq<char>>, after: Seq<Track>) -> Option<Seq<usize>>
    decreases before.len(),
{
    if before.len() == 0 {
        Some(Seq::empty())
    } else {
        match (spec_remap_by_path(before.drop_last(), after), first_with(after, before.last(), 0)) {
            (Some(r), Some(i)) => Some(r.push(i)),
            _ => None,
        }
    }
}

pub fn remap_by_path(before: &Vec<String>, after: &Vec<Track>) -> (r: Option<Vec<usize>>)
    ensures
        match (r, spec_remap_by_path(strings_view(before@), after@)) {
            (Some(a), Some(b)) => a@ == b,
            (None, None) => true,
            _ => false,
        },
{
    let ghost bv = strings_view(before@);
    let mut r: Vec<usize> = Vec::new();
    let mut i: usize = 0;
    while i < before.len()
        invariant
            i <= before@.len(),
            bv == strings_view(before@),
            spec_remap_by_path(bv.take(i as int), after@) == Some(r@),
        decreases before@.len() - i,
    {
        assert(bv.take(i + 1).drop_last() =~= bv.take(i as int));
        assert(bv.take(i + 1).last() == before@[i as int]@);
        match position_of(after, before[i].as_str()) {
            Some(k) => r.push(k),
            None => {
                proof {
                    lemma_remap_none_stays(bv, after@, i as int + 1);
                }
                return None;
            },
        }
        i = i + 1;
    }
    assert(bv.take(before@.len() as int) =~= bv);
    Some(r)
}

proof fn lemma_remap_none_stays(b: Seq<Seq<char>>, after: Seq<Track>, i: int)
    requires
        0 <= i <= b.len(),
        spec_remap_by_path(b.take(i), after) is None,
    ensures
        spec_remap_by_path(b, after) is None,
    decreases b.len() - i,
{
    if i < b.len() {
        assert(b.take(i + 1).drop_last() =~= b.take(i));
        lemma_remap_none_stays(b, after, i + 1);
    } else {
        assert(b.take(i) =~= b);
    }
}

/// Every index in `rows` through `remap`.
pub fn map_rows(rows: &Vec<usize>, remap: &Vec<usize>) -> (r: Vec<usize>)
    requires
        forall|k: int| 0 <= k < rows@.len() ==> rows@[k] < remap@.len(),
    ensures
        r@.len() == rows@.len(),
        forall|k: int| 0 <= k < rows@.len() ==> r@[k] == remap@[rows@[k] as int],
{
    let mut r: Vec<usize> = Vec::new();
    let mut i: usize = 0;
    while i < rows.len()
        invariant
            i <= rows@.len(),
            forall|k: int| 0 <= k < rows@.len() ==> rows@[k] < remap@.len(),
            r@.len() == i,
            forall|k: int| 0 <= k < i ==> r@[k] == remap@[rows@[k] as int],
        decreases rows@.len() - i,
    {
        r.push(remap[rows[i]]);
        i = i + 1;
    }
    r
}


// ---- putting moved rows back where they were dropped --------------------------

/// The rows in `[lo, hi)` that did not move, in order.
pub open spec fn stay_rows(m: Seq<bool>, lo: int, hi: int) -> Seq<usize>
    decreases hi - lo,
{
    if hi <= lo {
        Seq::empty()
    } else {
        let r = stay_rows(m, lo, hi - 1);
        if !m[hi - 1] {
            r.push((hi - 1) as usize)
        } else {
            r
        }
    }
}

/// The rows in `[0, hi)` that moved, in order.
pub open spec fn moved_rows(m: Seq<bool>, hi: int) -> Seq<usize>
    decreases hi,
{
    if hi <= 0 {
        Seq::empty()
    } else {
        let r = moved_rows(m, hi - 1);
        if m[hi - 1] {
            r.push((hi - 1) as usize)
        } else {
            r
        }
    }
}

/// The order that puts the rows just moved (`m`) together in front of row
/// `anchor`, where the cursor is, or at the end when there is no such row;
/// every other row keeps its place relative to the rest.
pub open spec fn spec_gather_order(m: Seq<bool>, anchor: Option<usize>) -> Seq<usize> {
    let n = m.len() as int;
    match anchor {
        Some(a) if a < n => stay_rows(m, 0, a as int) + moved_rows(m, n) + stay_rows(m, a as int, n),
        _ => stay_rows(m, 0, n) + moved_rows(m, n),
    }
}

pub fn gather_order(m: &Vec<bool>, anchor: Option<usize>) -> (order: Vec<usize>)
    ensures
        order@ == spec_gather_order(m@, anchor),
{
    let n = m.len();
    let mut moved: Vec<usize> = Vec::new();
    let mut i: usize = 0;
    while i < n
        invariant
            i <= n,
            n == m@.len(),
            moved@ == moved_rows(m@, i as int),
        decreases n - i,
    {
        if m[i] {
            moved.push(i);
        }
        i = i + 1;
    }
    let mut order: Vec<usize> = Vec::new();
    let mut placed = false;
    let mut i: usize = 0;
    while i < n
        invariant
            i <= n,
            n == m@.len(),
            moved@ == moved_rows(m@, n as int),
            placed == (anchor matches Some(a) && a < i),
            order@ == match anchor {
                Some(a) if a < i => stay_rows(m@, 0, a as int) + moved@ + stay_rows(m@, a as int, i as int),
                _ => stay_rows(m@, 0, i as int),
            },
        decreases n - i,
    {
        if anchor == Some(i) && !placed {
            let mut j: usize = 0;
            let ghost before = order@;
            while j < moved.len()
                invariant
                    j <= moved@.len(),
                    order@ == before + moved@.subrange(0, j as int),
                decreases moved@.len() - j,
            {
                order.push(moved[j]);
                j = j + 1;
            }
            assert(moved@.subrange(0, moved@.len() as int) =~= moved@);
            placed = true;
            assert(stay_rows(m@, i as int, i as int) =~= Seq::<usize>::empty());
        }
        if !m[i] {
            order.push(i);
        }
        i = i + 1;
    }
    if !placed {
        let mut j: usize = 0;
        let ghost before = order@;
        while j < moved.len()
            invariant
                j <= moved@.len(),
                order@ == before + moved@.subrange(0, j as int),
            decreases moved@.len() - j,
        {
            order.push(moved[j]);
            j = j + 1;
        }
        assert(moved@.subrange(0, moved@.len() as int) =~= moved@);
    }
    order
}

/// `order` lists every row below `n` exactly once.
pub open spec fn is_perm(order: Seq<usize>, n: nat) -> bool {
    &&& order.len() == n
    &&& forall|k: int| 0 <= k < order.len() ==> order[k] < n
    &&& forall|j: int, k: int| 0 <= j < k < order.len() ==> order[j] != order[k]
    &&& forall|i: int| 0 <= i < n ==> #[trigger] appears(order, i)
}

/// Row `i` has a place in `order`.
pub open spec fn appears(order: Seq<usize>, i: int) -> bool {
    exists|k: int| 0 <= k < order.len() && order[k] == i
}

proof fn lemma_stay(m: Seq<bool>, lo: int, hi: int)
    requires
        0 <= lo <= hi <= m.len(),
        m.len() <= usize::MAX,
    ensures
        forall|k: int| 0 <= k < stay_rows(m, lo, hi).len() ==> lo <= #[trigger] stay_rows(m, lo, hi)[k] < hi
            && !m[stay_rows(m, lo, hi)[k] as int],
        forall|j: int, k: int| 0 <= j < k < stay_rows(m, lo, hi).len() ==> stay_rows(m, lo, hi)[j] < stay_rows(m, lo, hi)[k],
        forall|i: int| lo <= i < hi && !m[i] ==> #[trigger] appears(stay_rows(m, lo, hi), i),
    decreases hi - lo,
{
    if hi > lo {
        lemma_stay(m, lo, hi - 1);
        let r = stay_rows(m, lo, hi - 1);
        let t = stay_rows(m, lo, hi);
        assert forall|i: int| lo <= i < hi && !m[i] implies appears(t, i) by {
            if i == hi - 1 {
                assert(t == r.push((hi - 1) as usize));
                assert(t[r.len() as int] == i);
            } else {
                assert(appears(r, i));
                let k = choose|k: int| 0 <= k < r.len() && r[k] == i;
                assert(t[k] == i);
            }
        }
    }
}

proof fn lemma_moved(m: Seq<bool>, hi: int)
    requires
        0 <= hi <= m.len(),
        m.len() <= usize::MAX,
    ensures
        forall|k: int| 0 <= k < moved_rows(m, hi).len() ==> 0 <= #[trigger] moved_rows(m, hi)[k] < hi
            && m[moved_rows(m, hi)[k] as int],
        forall|j: int, k: int| 0 <= j < k < moved_rows(m, hi).len() ==> moved_rows(m, hi)[j] < moved_rows(m, hi)[k],
        forall|i: int| 0 <= i < hi && m[i] ==> #[trigger] appears(moved_rows(m, hi), i),
        stay_rows(m, 0, hi).len() + moved_rows(m, hi).len() == hi,
    decreases hi,
{
    if hi > 0 {
        lemma_moved(m, hi - 1);
        let r = moved_rows(m, hi - 1);
        let t = moved_rows(m, hi);
        assert forall|i: int| 0 <= i < hi && m[i] implies appears(t, i) by {
            if i == hi - 1 {
                assert(t == r.push((hi - 1) as usize));
                assert(t[r.len() as int] == i);
            } else {
                assert(appears(r, i));
                let k = choose|k: int| 0 <= k < r.len() && r[k] == i;
                assert(t[k] == i);
            }
        }
    }
}

proof fn lemma_stay_split(m: Seq<bool>, a: int, hi: int)
    requires
        0 <= a <= hi <= m.len(),
    ensures
        stay_rows(m, 0, a).len() + stay_rows(m, a, hi).len() == stay_rows(m, 0, hi).len(),
    decreases hi - a,
{
    if hi > a {
        lemma_stay_split(m, a, hi - 1);
    }
}

/// The order that gathers moved rows at the cursor moves every row exactly
/// once, so reordering by it loses no track and doubles none.
pub proof fn law_gathering_moves_every_row_once(m: Seq<bool>, anchor: Option<usize>)
    requires
        m.len() <= usize::MAX,
    ensures
        is_perm(spec_gather_order(m, anchor), m.len()),
{
    let n = m.len() as int;
    let o = spec_gather_order(m, anchor);
    lemma_moved(m, n);
    lemma_stay(m, 0, n);
    match anchor {
        Some(a) if a < n => {
            let a = a as int;
            let s1 = stay_rows(m, 0, a);
            let mv = moved_rows(m, n);
            let s2 = stay_rows(m, a, n);
            lemma_stay(m, 0, a);
            lemma_stay(m, a, n);
            lemma_stay_split(m, a, n);
            assert(o == s1 + mv + s2);
            assert forall|k: int| 0 <= k < o.len() implies o[k] < n by {
                if k < s1.len() {
                    assert(o[k] == s1[k]);
                } else if k < s1.len() + mv.len() {
                    assert(o[k] == mv[k - s1.len()]);
                } else {
                    assert(o[k] == s2[k - s1.len() - mv.len()]);
                }
            }
            assert forall|j: int, k: int| 0 <= j < k < o.len() implies o[j] != o[k] by {
                let l1 = s1.len() as int;
                let l2 = l1 + mv.len();
                if k < l1 {
                    assert(o[j] == s1[j] && o[k] == s1[k]);
                } else if k < l2 {
                    assert(o[k] == mv[k - l1]);
                    if j < l1 {
                        assert(o[j] == s1[j]);
                    } else {
                        assert(o[j] == mv[j - l1]);
                    }
                } else {
                    assert(o[k] == s2[k - l2]);
                    if j < l1 {
                        assert(o[j] == s1[j]);
                    } else if j < l2 {
                        assert(o[j] == mv[j - l1]);
                    } else {
                        assert(o[j] == s2[j - l2]);
                    }
                }
            }
            assert forall|i: int| 0 <= i < n implies appears(o, i) by {
                if m[i] {
                    assert(appears(mv, i));
                    let k = choose|k: int| 0 <= k < mv.len() && mv[k] == i;
                    assert(o[s1.len() + k] == i);
                } else if i < a {
                    assert(appears(s1, i));
                    let k = choose|k: int| 0 <= k < s1.len() && s1[k] == i;
                    assert(o[k] == i);
                } else {
                    assert(appears(s2, i));
                    let k = choose|k: int| 0 <= k < s2.len() && s2[k] == i;
                    assert(o[s1.len() + mv.len() + k] == i);
                }
            }
        },
        _ => {
            let s = stay_rows(m, 0, n);
            let mv = moved_rows(m, n);
            assert(o == s + mv);
            assert forall|k: int| 0 <= k < o.len() implies o[k] < n by {
                if k < s.len() {
                    assert(o[k] == s[k]);
                } else {
                    assert(o[k] == mv[k - s.len()]);
                }
            }
            assert forall|j: int, k: int| 0 <= j < k < o.len() implies o[j] != o[k] by {
                let l = s.len() as int;
                if k < l {
                    assert(o[j] == s[j] && o[k] == s[k]);
                } else if j < l {
                    assert(o[j] == s[j] && o[k] == mv[k - l]);
                } else {
                    assert(o[j] == mv[j - l] && o[k] == mv[k - l]);
                }
            }
            assert forall|i: int| 0 <= i < n implies appears(o, i) by {
                if m[i] {
                    assert(appears(mv, i));
                    let k = choose|k: int| 0 <= k < mv.len() && mv[k] == i;
                    assert(o[s.len() + k] == i);
                } else {
                    assert(appears(s, i));
                    let k = choose|k: int| 0 <= k < s.len() && s[k] == i;
                    assert(o[k] == i);
                }
            }
        },
    }
}

/// Where each row goes under `order`: `order[to]` is where the row that
/// ends up at `to` is now.
pub fn inverse(order: &Vec<usize>) -> (remap: Vec<usize>)
    requires
        is_perm(order@, order@.len()),
    ensures
        remap@.len() == order@.len(),
        forall|to: int| 0 <= to < order@.len() ==> remap@[order@[to] as int] == to,
{
    let n = order.len();
    let mut remap: Vec<usize> = Vec::new();
    let mut i: usize = 0;
    while i < n
        invariant
            i <= n,
            remap@.len() == i,
            forall|k: int| 0 <= k < i ==> remap@[k] == 0,
        decreases n - i,
    {
        remap.push(0);
        i = i + 1;
    }
    let mut to: usize = 0;
    while to < n
        invariant
            to <= n,
            n == order@.len(),
            is_perm(order@, n as nat),
            remap@.len() == n,
            forall|k: int| 0 <= k < to ==> remap@[order@[k] as int] == k,
        decreases n - to,
    {
        let from = order[to];
        remap.set(from, to);
        assert forall|k: int| 0 <= k < to + 1 implies remap@[order@[k] as int] == k by {
            if k < to {
                assert(order@[k] != order@[to as int]);
            }
        }
        to = to + 1;
    }
    remap
}

/// The items rearranged into `order`: the one at `order[i]` comes to `i`.
pub fn apply_order<A>(v: Vec<A>, order: &Vec<usize>) -> (r: Vec<A>)
    requires
        is_perm(order@, v@.len()),
    ensures
        r@.len() == v@.len(),
        forall|i: int| 0 <= i < r@.len() ==> r@[i] == v@[order@[i] as int],
{
    let ghost s = v@;
    let n = v.len();
    let mut slots: Vec<Option<A>> = Vec::new();
    let mut v = v;
    let mut k: usize = 0;
    while v.len() > 0
        invariant
            k <= n,
            n == s.len(),
            v@ == s.subrange(k as int, n as int),
            slots@.len() == k,
            forall|q: int| 0 <= q < k ==> slots@[q] == Some(s[q]),
        decreases v@.len(),
    {
        let x = v.remove(0);
        slots.push(Some(x));
        assert(v@ =~= s.subrange(k + 1, n as int));
        k = k + 1;
    }
    let mut r: Vec<A> = Vec::new();
    let mut i: usize = 0;
    while i < n
        invariant
            i <= n,
            n == s.len(),
            is_perm(order@, n as nat),
            slots@.len() == n,
            r@.len() == i,
            forall|q: int| 0 <= q < i ==> r@[q] == s[order@[q] as int],
            forall|q: int| 0 <= q < n && (forall|j: int| 0 <= j < i ==> order@[j] != q) ==> slots@[q] == Some(s[q]),
        decreases n - i,
    {
        let from = order[i];
        assert(forall|j: int| 0 <= j < i ==> order@[j] != order@[i as int]);
        let slot = slots.remove(from);
        slots.insert(from, None);
        match slot {
            Some(x) => {
                r.push(x);
            },
            None => {
                assert(false);
            },
        }
        i = i + 1;
    }
    r
}

/// Rearranging by a full order and then following the inverse: every index
/// that pointed at a track still points at that track.
pub proof fn law_a_reorder_keeps_every_index_on_its_track<A>(v: Seq<A>, order: Seq<usize>, remap: Seq<usize>, i: int)
    requires
        is_perm(order, v.len()),
        remap.len() == order.len(),
        forall|to: int| 0 <= to < order.len() ==> remap[order[to] as int] == to,
        0 <= i < v.len(),
    ensures
        0 <= remap[i] < v.len(),
        Seq::new(v.len(), |t: int| v[order[t] as int])[remap[i] as int] == v[i],
{
    assert(appears(order, i));
    let k = choose|k: int| 0 <= k < order.len() && order[k] == i;
    assert(remap[i] == k);
}


/// Which library rows are at one of `moved`.
pub fn moved_flags(tracks: &Vec<Track>, moved: &Vec<String>) -> (m: Vec<bool>)
    ensures
        m@.len() == tracks@.len(),
        forall|i: int| 0 <= i < m@.len() ==> m@[i] == strings_view(moved@).contains(tracks@[i].path@),
{
    let mut m: Vec<bool> = Vec::new();
    let mut i: usize = 0;
    while i < tracks.len()
        invariant
            i <= tracks@.len(),
            m@.len() == i,
            forall|q: int| 0 <= q < i ==> m@[q] == strings_view(moved@).contains(tracks@[q].path@),
        decreases tracks@.len() - i,
    {
        m.push(holds(moved, tracks[i].path.as_str()));
        i = i + 1;
    }
    m
}

/// Puts the tracks just moved (`moved`) back together in front of library
/// row `anchor`, where the cursor is, so a move does not send them off to
/// wherever their new paths sort. Hands back the library rearranged, and
/// where each old row went, for every index that points into it.
pub fn gather_at_cursor(tracks: Vec<Track>, moved: &Vec<String>, anchor: Option<usize>) -> (r: (Vec<Track>, Vec<usize>))
    ensures
        ({
            let m = Seq::new(tracks@.len(), |i: int| strings_view(moved@).contains(tracks@[i].path@));
            let order = spec_gather_order(m, anchor);
            &&& r.0@ == Seq::new(tracks@.len(), |i: int| tracks@[order[i] as int])
            &&& r.1@.len() == tracks@.len()
            &&& forall|to: int| 0 <= to < order.len() ==> r.1@[order[to] as int] == to
        }),
{
    let ghost t = tracks@;
    let n = tracks.len();
    let flags = moved_flags(&tracks, moved);
    assert(flags@.len() == n);
    let ghost m = Seq::new(t.len(), |i: int| strings_view(moved@).contains(t[i].path@));
    assert(flags@ =~= m);
    let order = gather_order(&flags, anchor);
    proof {
        law_gathering_moves_every_row_once(flags@, anchor);
    }
    let remap = inverse(&order);
    let out = apply_order(tracks, &order);
    assert(out@ =~= Seq::new(t.len(), |i: int| t[order@[i] as int]));
    (out, remap)
}

} // verus!
