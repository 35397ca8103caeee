//! Tracks leaving the library (deleted, or a copy undone): everything that
//! holds an index into the library is repointed at the same track, or drops
//! the index when its track went. No index may dangle.

use vstd::prelude::*;

use crate::app::pending::{
    follow_rows, has_entry, kept_before, lemma_kept_before_bound, lemma_slot_bounds, remap_of, remap_target,
    retain_kept, slot_from, spec_follow_rows, spec_kept, spec_put, spec_remap, spec_remapped, tracks_below,
    tracks_known, where_is, Renames, Target,
};
use crate::app::queue::Queue;
use crate::app::tabs::{rows_below, Tabs};
use crate::library::Track;

verus! {

/// Every index in `rows` is below `n`.
pub open spec fn all_below(rows: Seq<usize>, n: int) -> bool {
    forall|k: int| 0 <= k < rows.len() ==> #[trigger] rows[k] < n
}

/// What the queue holds after the remap `m`: its rows followed, its place
/// held inside them; a queue with a row the remap does not know stays.
pub open spec fn followed_queue_ok(old: Queue, new: Queue, m: Seq<Option<usize>>) -> bool {
    if all_below(old.tracks@, m.len() as int) {
        let rows = spec_follow_rows(old.tracks@, m);
        &&& new.tracks@ == rows
        &&& new.pos == (if old.pos < rows.len() {
            old.pos as int
        } else if rows.len() == 0 {
            0
        } else {
            rows.len() - 1
        })
        &&& new.history@ == old.history@
        &&& new.rng == old.rng
    } else {
        &&& new.tracks@ == old.tracks@
        &&& new.pos == old.pos
        &&& new.history@ == old.history@
        &&& new.rng == old.rng
    }
}

/// Where the track playing is after the remap `m`.
pub open spec fn followed_playing(p: Option<usize>, m: Seq<Option<usize>>) -> Option<usize> {
    match p {
        Some(i) => if i < m.len() {
            m[i as int]
        } else {
            None
        },
        None => None,
    }
}

/// Drops the tracks `gone` flags out of the library, and repoints the open
/// playlist's `rows`, the `queue`, the track `playing`, the `renames` and
/// the `tabs` at the tracks that stay, dropping what pointed at one that
/// went. A holder with an index the library does not have is left as it is.
pub fn forget(
    tracks: &mut Vec<Track>,
    gone: &Vec<bool>,
    rows: &mut Vec<usize>,
    queue: &mut Option<Queue>,
    playing: &mut Option<usize>,
    renames: &mut Renames,
    tabs: &mut Tabs,
)
    requires
        gone@.len() == old(tracks)@.len(),
    ensures
        final(tracks)@ == spec_kept(old(tracks)@, gone@),
        final(rows)@ == if all_below(old(rows)@, gone@.len() as int) {
            spec_follow_rows(old(rows)@, spec_remap(gone@))
        } else {
            old(rows)@
        },
        match (*old(queue), *final(queue)) {
            (None, None) => true,
            (Some(a), Some(b)) => followed_queue_ok(a, b, spec_remap(gone@)),
            _ => false,
        },
        *final(playing) == followed_playing(*old(playing), spec_remap(gone@)),
        final(renames)@ == if tracks_known(old(renames)@, gone@.len() as nat) {
            spec_remapped(old(renames)@, spec_remap(gone@))
        } else {
            old(renames)@
        },
        final(tabs)@.1 == old(tabs)@.1,
        final(tabs)@.0.len() == old(tabs)@.0.len(),
        forall|i: int|
            0 <= i < old(tabs)@.0.len() ==> #[trigger] final(tabs)@.0[i].rows == if rows_below(
                old(tabs)@.0,
                gone@.len() as int,
            ) {
                spec_follow_rows(old(tabs)@.0[i].rows, spec_remap(gone@))
            } else {
                old(tabs)@.0[i].rows
            },
{
    let remap = remap_of(gone);
    let mut all: Vec<Track> = Vec::new();
    std::mem::swap(&mut all, tracks);
    *tracks = retain_kept(all, gone);
    let mut fits = true;
    let mut k: usize = 0;
    while k < rows.len()
        invariant
            k <= rows@.len(),
            fits == forall|j: int| 0 <= j < k ==> #[trigger] rows@[j] < remap@.len(),
        decreases rows@.len() - k,
    {
        if rows[k] >= remap.len() {
            fits = false;
        }
        k = k + 1;
    }
    if fits {
        *rows = follow_rows(rows, &remap);
    }
    match queue.take() {
        None => {},
        Some(q) => {
            let mut q = q;
            let mut fits = true;
            let mut k: usize = 0;
            while k < q.tracks.len()
                invariant
                    k <= q.tracks@.len(),
                    fits == forall|j: int| 0 <= j < k ==> #[trigger] q.tracks@[j] < remap@.len(),
                decreases q.tracks@.len() - k,
            {
                if q.tracks[k] >= remap.len() {
                    fits = false;
                }
                k = k + 1;
            }
            if fits {
                q.tracks = follow_rows(&q.tracks, &remap);
                let n = q.tracks.len();
                if q.pos >= n {
                    q.pos = if n == 0 {
                        0
                    } else {
                        n - 1
                    };
                }
            }
            *queue = Some(q);
        },
    }
    *playing = match *playing {
        Some(i) => if i < remap.len() {
            remap[i]
        } else {
            None
        },
        None => None,
    };
    if tracks_below(renames, remap.len()) {
        *renames = renames.remap_tracks(&remap);
    }
    if tabs.rows_below(remap.len()) {
        tabs.follow(&remap);
    }
}

/// Where the remap sends a track that stays is a place among the tracks
/// that stay.
pub proof fn lemma_remap_lands_inside(gone: Seq<bool>, i: int)
    requires
        0 <= i < gone.len(),
    ensures
        spec_remap(gone)[i] matches Some(k) ==> k < kept_before(gone, gone.len() as int),
    decreases gone.len() - i,
{
    if !gone[i] {
        lemma_kept_before_grows(gone, i + 1, gone.len() as int);
        lemma_kept_before_bound(gone, i);
    }
}

proof fn lemma_kept_before_grows(gone: Seq<bool>, i: int, j: int)
    requires
        0 <= i <= j <= gone.len(),
    ensures
        kept_before(gone, i) <= kept_before(gone, j),
    decreases j - i,
{
    if i < j {
        lemma_kept_before_grows(gone, i, j - 1);
    }
}

/// Rows followed through the remap land inside the tracks that stay.
pub proof fn lemma_followed_rows_inside(rows: Seq<usize>, gone: Seq<bool>)
    requires
        all_below(rows, gone.len() as int),
    ensures
        all_below(spec_follow_rows(rows, spec_remap(gone)), kept_before(gone, gone.len() as int) as int),
    decreases rows.len(),
{
    if rows.len() > 0 {
        lemma_followed_rows_inside(rows.drop_last(), gone);
        lemma_remap_lands_inside(gone, rows.last() as int);
        let r = spec_follow_rows(rows.drop_last(), spec_remap(gone));
        match spec_remap(gone)[rows.last() as int] {
            Some(n) => {
                assert forall|k: int| 0 <= k < r.push(n).len() implies #[trigger] r.push(n)[k]
                    < kept_before(gone, gone.len() as int) by {
                    if k < r.len() {
                        assert(r.push(n)[k] == r[k]);
                    }
                }
            },
            None => {},
        }
    }
}

/// A rename queued for a track the library has still names one after
/// another is queued.
proof fn lemma_put_known(s: Seq<(Target, Seq<char>)>, k: Target, v: Seq<char>, n: nat)
    requires
        tracks_known(s, n),
        k matches Target::Track(t) ==> t < n,
    ensures
        tracks_known(spec_put(s, k, v), n),
{
    if has_entry(s, k) {
        let w = where_is(s, k);
        assert forall|i: int| 0 <= i < spec_put(s, k, v).len() implies match #[trigger] spec_put(
            s,
            k,
            v,
        )[i].0 {
            Target::Track(t) => t < n,
            _ => true,
        } by {
            if i != w {
                assert(spec_put(s, k, v)[i] == s[i]);
            }
        }
    } else {
        let at = slot_from(s, k, 0);
        lemma_slot_bounds(s, k, 0);
        assert forall|i: int| 0 <= i < spec_put(s, k, v).len() implies match #[trigger] spec_put(
            s,
            k,
            v,
        )[i].0 {
            Target::Track(t) => t < n,
            _ => true,
        } by {
            if i < at {
                assert(spec_put(s, k, v)[i] == s[i]);
            } else if i > at {
                assert(spec_put(s, k, v)[i] == s[i - 1]);
            }
        }
    }
}

/// Renames remapped name only tracks among those that stay.
pub proof fn lemma_remapped_inside(s: Seq<(Target, Seq<char>)>, gone: Seq<bool>)
    requires
        tracks_known(s, gone.len() as nat),
    ensures
        tracks_known(spec_remapped(s, spec_remap(gone)), kept_before(gone, gone.len() as int)),
    decreases s.len(),
{
    if s.len() > 0 {
        let t = s.drop_last();
        assert forall|i: int| 0 <= i < t.len() implies match #[trigger] t[i].0 {
            Target::Track(x) => x < gone.len(),
            _ => true,
        } by {
            assert(t[i] == s[i]);
        }
        lemma_remapped_inside(t, gone);
        let last = s.last();
        assert(match s[s.len() - 1].0 {
            Target::Track(x) => x < gone.len(),
            _ => true,
        });
        match remap_target(last.0, spec_remap(gone)) {
            Some(k) => {
                if let Target::Track(x) = last.0 {
                    lemma_remap_lands_inside(gone, x as int);
                }
                lemma_put_known(
                    spec_remapped(t, spec_remap(gone)),
                    k,
                    last.1,
                    kept_before(gone, gone.len() as int),
                );
            },
            None => {},
        }
    }
}

/// No index may dangle: when every holder pointed inside the library, after
/// tracks leave it every holder still points inside it, at the tracks that
/// stay, and the track playing is still one of them.
pub proof fn law_forgetting_leaves_no_index_dangling<A>(
    tracks: Seq<A>,
    gone: Seq<bool>,
    rows: Seq<usize>,
    playing: Option<usize>,
    renames: Seq<(Target, Seq<char>)>,
)
    requires
        gone.len() == tracks.len(),
        all_below(rows, tracks.len() as int),
        playing matches Some(i) ==> i < tracks.len(),
        tracks_known(renames, tracks.len() as nat),
    ensures
        all_below(spec_follow_rows(rows, spec_remap(gone)), spec_kept(tracks, gone).len() as int),
        followed_playing(playing, spec_remap(gone)) matches Some(i) ==> i < spec_kept(tracks, gone).len(),
        tracks_known(spec_remapped(renames, spec_remap(gone)), spec_kept(tracks, gone).len()),
{
    crate::app::pending::lemma_kept_len(tracks, gone);
    lemma_followed_rows_inside(rows, gone);
    if let Some(i) = playing {
        lemma_remap_lands_inside(gone, i as int);
    }
    lemma_remapped_inside(renames, gone);
}

} // verus!
