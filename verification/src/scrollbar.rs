//! A scrollbar along a popup's border, for a list longer or wider than the
//! popup: without one, a list that scrolls looks like a list that is cut off.

use vstd::prelude::*;

verus! {

/// How many of the `track` cells the thumb covers: the share of the `total`
/// that is in `view`, at least one cell and at most all of them.
pub open spec fn spec_thumb(track: int, total: int, view: int) -> int {
    let t = track * view / total;
    if t < 1 {
        1
    } else if t > track {
        track
    } else {
        t
    }
}

/// The first cell of the thumb, for a view scrolled to `pos`: as far along
/// the free cells as the view is along what it can scroll.
pub open spec fn spec_thumb_at(track: int, total: int, pos: int, view: int) -> int {
    if total > view {
        (track - spec_thumb(track, total, view)) * pos / (total - view)
    } else {
        0
    }
}

/// Whether cell `c` of the bar is part of the thumb.
pub open spec fn spec_on_thumb(c: int, track: int, total: int, pos: int, view: int) -> bool {
    let at = spec_thumb_at(track, total, pos, view);
    at <= c < at + spec_thumb(track, total, view)
}

/// The `track` cells of a scrollbar for a list `total` long, of which `view`
/// show from `pos` on: true for a cell of the thumb. No bar at all for an
/// empty list or no room.
pub fn scrollbar(track: usize, total: usize, pos: usize, view: usize) -> (cells: Vec<bool>)
    ensures
        cells@.len() == (if track == 0 || total == 0 {
            0
        } else {
            track as int
        }),
        forall|c: int|
            0 <= c < cells@.len() ==> #[trigger] cells@[c] == spec_on_thumb(
                c,
                track as int,
                total as int,
                pos as int,
                view as int,
            ),
{
    let mut cells: Vec<bool> = Vec::new();
    if track == 0 || total == 0 {
        return cells;
    }
    let tr = track as u128;
    assert(tr * (view as u128) <= u64::MAX as int * u64::MAX as int) by (nonlinear_arith)
        requires
            tr <= u64::MAX,
            view <= u64::MAX,
    ;
    let share: u128 = tr * (view as u128) / (total as u128);
    let thumb: u128 = if share < 1 {
        1
    } else if share > tr {
        tr
    } else {
        share
    };
    let at: u128 = if total > view {
        assert((tr - thumb) * (pos as u128) <= u64::MAX as int * u64::MAX as int) by (nonlinear_arith)
            requires
                tr - thumb <= u64::MAX,
                pos <= u64::MAX,
        ;
        (tr - thumb) * (pos as u128) / ((total - view) as u128)
    } else {
        0
    };
    assert(thumb == spec_thumb(track as int, total as int, view as int));
    assert(at == spec_thumb_at(track as int, total as int, pos as int, view as int));
    let mut c: usize = 0;
    while c < track
        invariant
            c <= track,
            track > 0 && total > 0,
            cells@.len() == c,
            thumb == spec_thumb(track as int, total as int, view as int),
            at == spec_thumb_at(track as int, total as int, pos as int, view as int),
            thumb <= track,
            forall|k: int|
                0 <= k < c ==> #[trigger] cells@[k] == spec_on_thumb(
                    k,
                    track as int,
                    total as int,
                    pos as int,
                    view as int,
                ),
        decreases track - c,
    {
        let on = at <= c as u128 && (c as u128) < at + thumb;
        cells.push(on);
        c = c + 1;
    }
    cells
}

/// The thumb stays on the bar: at least one cell, and never past the last
/// one, for any scroll position the list can have.
pub proof fn law_the_thumb_stays_on_the_bar(track: usize, total: usize, pos: usize, view: usize)
    requires
        track > 0,
        total > 0,
        total > view ==> pos <= total - view,
    ensures
        1 <= spec_thumb(track as int, total as int, view as int) <= track,
        0 <= spec_thumb_at(track as int, total as int, pos as int, view as int),
        spec_thumb_at(track as int, total as int, pos as int, view as int) + spec_thumb(
            track as int,
            total as int,
            view as int,
        ) <= track,
{
    let t = spec_thumb(track as int, total as int, view as int);
    if total > view {
        let free = track - t;
        let span = total - view;
        assert(free * pos / span <= free) by (nonlinear_arith)
            requires
                free >= 0,
                0 <= pos <= span,
                span > 0,
        {
            assert(free * pos <= free * span);
        }
        assert(free * pos / span >= 0) by (nonlinear_arith)
            requires
                free >= 0,
                pos >= 0,
                span > 0,
        ;
    }
}

} // verus!
