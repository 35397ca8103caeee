//! The library's side of a `:w` once the disk has done each part: the tracks
//! follow the files that were renamed, moved into another folder or carried
//! along by a folder's rename. The program performs every file operation and
//! hands each finished one in here.

use vstd::prelude::*;

use crate::app::pending::{pair_view, rebase, spec_rebase};
use crate::app::snapshot::{find_from, lemma_find_from, move_track, paths_of, same_but_path};
use crate::library::Track;
use crate::text::same_str;

verus! {

/// The first finished rename, from `i` on, whose source is `p`; the end
/// when there is none.
pub open spec fn first_source(done: Seq<(Seq<char>, Seq<char>)>, p: Seq<char>, i: int) -> int
    decreases done.len() - i,
{
    if i < 0 || i >= done.len() {
        done.len() as int
    } else if done[i].0 == p {
        i
    } else {
        first_source(done, p, i + 1)
    }
}

proof fn lemma_first_source(done: Seq<(Seq<char>, Seq<char>)>, p: Seq<char>, i: int)
    requires
        0 <= i <= done.len(),
    ensures
        i <= first_source(done, p, i) <= done.len(),
        first_source(done, p, i) < done.len() ==> done[first_source(done, p, i)].0 == p,
    decreases done.len() - i,
{
    if i < done.len() && done[i].0 != p {
        lemma_first_source(done, p, i + 1);
    }
}

/// A track whose rename went through: the track at `idx` now has its file
/// where the first finished rename from its old place put it, and shows the
/// name typed. A track no rename moved, or an `idx` past the end, is left
/// as it was, and so is every other track.
pub fn finish_track_rename(tracks: &mut Vec<Track>, idx: usize, done: &Vec<(String, String)>, name: &str)
    ensures
        final(tracks)@.len() == old(tracks)@.len(),
        forall|i: int| 0 <= i < old(tracks)@.len() && i != idx ==> #[trigger] final(tracks)@[i] == old(tracks)@[i],
        idx < old(tracks)@.len() ==> ({
            let k = first_source(pair_view(done@), old(tracks)@[idx as int].path@, 0);
            if k < done@.len() {
                &&& final(tracks)@[idx as int].path@ == done@[k].1@
                &&& final(tracks)@[idx as int].file@ == name@
                &&& final(tracks)@[idx as int].title@ == old(tracks)@[idx as int].title@
                &&& final(tracks)@[idx as int].artist@ == old(tracks)@[idx as int].artist@
                &&& final(tracks)@[idx as int].album@ == old(tracks)@[idx as int].album@
                &&& final(tracks)@[idx as int].album_artist@ == old(tracks)@[idx as int].album_artist@
                &&& final(tracks)@[idx as int].genre@ == old(tracks)@[idx as int].genre@
                &&& final(tracks)@[idx as int].in_library == old(tracks)@[idx as int].in_library
                &&& final(tracks)@[idx as int].track_no == old(tracks)@[idx as int].track_no
                &&& final(tracks)@[idx as int].disc_no == old(tracks)@[idx as int].disc_no
                &&& final(tracks)@[idx as int].year == old(tracks)@[idx as int].year
                &&& final(tracks)@[idx as int].duration_ms == old(tracks)@[idx as int].duration_ms
            } else {
                final(tracks)@[idx as int] == old(tracks)@[idx as int]
            }
        }),
{
    if idx >= tracks.len() {
        return;
    }
    let ghost dv = pair_view(done@);
    let ghost p = tracks@[idx as int].path@;
    proof {
        lemma_first_source(dv, p, 0);
    }
    let mut k: usize = 0;
    let mut found = false;
    while k < done.len() && !found
        invariant
            k <= done@.len(),
            idx < tracks@.len(),
            dv == pair_view(done@),
            p == tracks@[idx as int].path@,
            found ==> k < done@.len() && first_source(dv, p, 0) == k,
            !found ==> first_source(dv, p, 0) == first_source(dv, p, k as int),
        decreases done@.len() + 1 - k - (if found { 1int } else { 0int }),
    {
        assert(dv[k as int].0 == done@[k as int].0@);
        if same_str(done[k].0.as_str(), tracks[idx].path.as_str()) {
            found = true;
        } else {
            k = k + 1;
        }
    }
    if found {
        let mut t = tracks[idx].clone();
        t.path = done[k].1.clone();
        t.file = String::from_str(name);
        tracks.set(idx, t);
    }
}

/// The finished renames a folder's rename makes of the tracks' paths, in the
/// tracks' order: each path under `from`, and where it went under `to`.
pub open spec fn rebased_pairs(paths: Seq<Seq<char>>, from: Seq<char>, to: Seq<char>) -> Seq<(Seq<char>, Seq<char>)>
    decreases paths.len(),
{
    if paths.len() == 0 {
        Seq::empty()
    } else {
        let rest = rebased_pairs(paths.drop_last(), from, to);
        match spec_rebase(paths.last(), from, to) {
            Some(p) => rest.push((paths.last(), p)),
            None => rest,
        }
    }
}

/// A folder renamed on disk from `from` to `to`: every track under it now
/// has its file at the same place inside the new folder, and each such
/// change is added to `done`, in the tracks' order. Tracks outside the
/// folder are left as they were.
pub fn rebase_tracks(tracks: &mut Vec<Track>, from: &str, to: &str, done: &mut Vec<(String, String)>)
    ensures
        final(tracks)@.len() == old(tracks)@.len(),
        forall|i: int| 0 <= i < old(tracks)@.len() ==> match spec_rebase(old(tracks)@[i].path@, from@, to@) {
            Some(p) => (#[trigger] final(tracks)@[i]).path@ == p && same_but_path(final(tracks)@[i], old(tracks)@[i]),
            None => final(tracks)@[i] == old(tracks)@[i],
        },
        pair_view(final(done)@) == pair_view(old(done)@) + rebased_pairs(paths_of(old(tracks)@), from@, to@),
{
    let ghost before = tracks@;
    let ghost ps = paths_of(before);
    let ghost d0 = pair_view(done@);
    let mut i: usize = 0;
    while i < tracks.len()
        invariant
            i <= tracks@.len(),
            tracks@.len() == before.len(),
            ps == paths_of(before),
            forall|j: int| i <= j < before.len() ==> #[trigger] tracks@[j] == before[j],
            forall|j: int| 0 <= j < i ==> match spec_rebase(before[j].path@, from@, to@) {
                Some(p) => (#[trigger] tracks@[j]).path@ == p && same_but_path(tracks@[j], before[j]),
                None => tracks@[j] == before[j],
            },
            pair_view(done@) == d0 + rebased_pairs(ps.take(i as int), from@, to@),
        decreases tracks@.len() - i,
    {
        assert(ps.take(i + 1).drop_last() =~= ps.take(i as int));
        assert(ps.take(i + 1).last() == before[i as int].path@);
        match rebase(tracks[i].path.as_str(), from, to) {
            Some(p) => {
                let ghost prev = pair_view(done@);
                let pair = (tracks[i].path.clone(), p.clone());
                done.push(pair);
                assert(pair_view(done@) =~= prev.push((before[i as int].path@, p@)));
                let mut t = tracks[i].clone();
                t.path = p;
                tracks.set(i, t);
            },
            None => {},
        }
        i = i + 1;
    }
    assert(ps.take(i as int) =~= ps);
}

/// The paths after the moves, one by one: each moves the first track whose
/// file is at its source, as `move_track` does.
pub open spec fn moved_paths(paths: Seq<Seq<char>>, moves: Seq<(Seq<char>, Seq<char>)>) -> Seq<Seq<char>>
    decreases moves.len(),
{
    if moves.len() == 0 {
        paths
    } else {
        let before = moved_paths(paths, moves.drop_last());
        let k = find_from(before, moves.last().0, 0);
        if k < before.len() {
            before.update(k, moves.last().1)
        } else {
            before
        }
    }
}

/// The moves done on disk: the tracks' files are where the moves took them,
/// one move after another, and nothing else about a track changes.
pub fn follow_moves(tracks: &mut Vec<Track>, moves: &Vec<(String, String)>)
    ensures
        final(tracks)@.len() == old(tracks)@.len(),
        paths_of(final(tracks)@) == moved_paths(paths_of(old(tracks)@), pair_view(moves@)),
        forall|i: int| 0 <= i < old(tracks)@.len() ==> same_but_path(#[trigger] final(tracks)@[i], old(tracks)@[i]),
{
    let ghost before = tracks@;
    let ghost mv = pair_view(moves@);
    let mut m: usize = 0;
    while m < moves.len()
        invariant
            m <= moves@.len(),
            mv == pair_view(moves@),
            tracks@.len() == before.len(),
            paths_of(tracks@) == moved_paths(paths_of(before), mv.take(m as int)),
            forall|i: int| 0 <= i < before.len() ==> same_but_path(#[trigger] tracks@[i], before[i]),
        decreases moves@.len() - m,
    {
        assert(mv.take(m + 1).drop_last() =~= mv.take(m as int));
        assert(mv.take(m + 1).last() == (moves@[m as int].0@, moves@[m as int].1@));
        let ghost was = tracks@;
        move_track(tracks, moves[m].0.as_str(), moves[m].1.as_str());
        proof {
            lemma_find_from(paths_of(was), moves@[m as int].0@, 0);
            let k = find_from(paths_of(was), moves@[m as int].0@, 0);
            let now = moved_paths(paths_of(before), mv.take(m + 1));
            if k < was.len() {
                assert forall|i: int| 0 <= i < was.len() implies #[trigger] paths_of(tracks@)[i] == paths_of(was).update(k, moves@[m as int].1@)[i] by {
                    if i != k {
                        assert(tracks@[i] == was[i]);
                    }
                }
                assert(paths_of(tracks@) =~= paths_of(was).update(k, moves@[m as int].1@));
            } else {
                assert forall|i: int| 0 <= i < was.len() implies #[trigger] paths_of(tracks@)[i] == paths_of(was)[i] by {
                    assert(tracks@[i] == was[i]);
                }
                assert(paths_of(tracks@) =~= paths_of(was));
            }
            assert(paths_of(tracks@) == now);
            assert forall|i: int| 0 <= i < before.len() implies same_but_path(#[trigger] tracks@[i], before[i]) by {
                assert(same_but_path(was[i], before[i]));
            }
        }
        m = m + 1;
    }
    assert(mv.take(m as int) =~= mv);
}

} // verus!
