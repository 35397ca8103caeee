//! Stepping the library to another undo snapshot: a pending move is undone or
//! redone by moving the track's path, a pending copy by adding or dropping
//! the track it made. Nothing here touches the disk; only `:w` does.

use vstd::prelude::*;

use crate::app::pending::strings_view;
use crate::library::{spec_stem, stem, Track};
use crate::text::{chars_of, same_str, string_of};

verus! {

/// Where each track's file is.
pub open spec fn paths_of(t: Seq<Track>) -> Seq<Seq<char>> {
    t.map_values(|x: Track| x.path@)
}

/// The first place, from `i` on, whose path is `p`; the end when there is
/// none.
pub open spec fn find_from(paths: Seq<Seq<char>>, p: Seq<char>, i: int) -> int
    decreases paths.len() - i,
{
    if i < 0 || i >= paths.len() {
        paths.len() as int
    } else if paths[i] == p {
        i
    } else {
        find_from(paths, p, i + 1)
    }
}

/// Two tracks the same in everything but where the file is.
pub open spec fn same_but_path(a: Track, b: Track) -> bool {
    &&& a.in_library == b.in_library
    &&& a.file@ == b.file@
    &&& a.title@ == b.title@
    &&& a.artist@ == b.artist@
    &&& a.album@ == b.album@
    &&& a.album_artist@ == b.album_artist@
    &&& a.track_no == b.track_no
    &&& a.disc_no == b.disc_no
    &&& a.year == b.year
    &&& a.genre@ == b.genre@
    &&& a.duration_ms == b.duration_ms
}

pub proof fn lemma_find_from(paths: Seq<Seq<char>>, p: Seq<char>, i: int)
    requires
        0 <= i <= paths.len(),
    ensures
        i <= find_from(paths, p, i) <= paths.len(),
        find_from(paths, p, i) < paths.len() ==> paths[find_from(paths, p, i)] == p,
        forall|j: int| i <= j < find_from(paths, p, i) ==> paths[j] != p,
    decreases paths.len() - i,
{
    if i < paths.len() && paths[i] != p {
        lemma_find_from(paths, p, i + 1);
    }
}

fn first_at(tracks: &Vec<Track>, p: &str) -> (k: usize)
    ensures
        k == find_from(paths_of(tracks@), p@, 0),
{
    proof {
        lemma_find_from(paths_of(tracks@), p@, 0);
    }
    let ghost paths = paths_of(tracks@);
    let mut k: usize = 0;
    while k < tracks.len()
        invariant
            k <= tracks@.len(),
            paths == paths_of(tracks@),
            find_from(paths, p@, 0) == find_from(paths, p@, k as int),
        decreases tracks@.len() - k,
    {
        assert(paths[k as int] == tracks@[k as int].path@);
        if same_str(tracks[k].path.as_str(), p) {
            return k;
        }
        k = k + 1;
    }
    k
}

/// A pending move stepped over: the first track whose file is at `from`
/// is now at `to`, and nothing else changes.
pub fn move_track(tracks: &mut Vec<Track>, from: &str, to: &str)
    ensures
        final(tracks)@.len() == old(tracks)@.len(),
        ({
            let k = find_from(paths_of(old(tracks)@), from@, 0);
            &&& forall|i: int| 0 <= i < old(tracks)@.len() && i != k ==> #[trigger] final(tracks)@[i] == old(tracks)@[i]
            &&& k < old(tracks)@.len() ==> final(tracks)@[k].path@ == to@ && same_but_path(final(tracks)@[k], old(tracks)@[k])
        }),
{
    let k = first_at(tracks, from);
    if k < tracks.len() {
        let mut t = tracks[k].clone();
        let c = chars_of(to);
        t.path = string_of(c.as_slice());
        tracks.set(k, t);
    }
}

/// A pending copy stepped over: a track for the copy at `to` of the first
/// track whose file is at `from`, named after the copy's file; nothing when
/// no track is at `from`.
pub fn copy_track(tracks: &mut Vec<Track>, from: &str, to: &str)
    ensures
        ({
            let k = find_from(paths_of(old(tracks)@), from@, 0);
            if k < old(tracks)@.len() {
                &&& final(tracks)@.len() == old(tracks)@.len() + 1
                &&& final(tracks)@.subrange(0, old(tracks)@.len() as int) == old(tracks)@
                &&& final(tracks)@.last().path@ == to@
                &&& final(tracks)@.last().file@ == spec_stem(to@)
                &&& final(tracks)@.last().title@ == old(tracks)@[k].title@
                &&& final(tracks)@.last().artist@ == old(tracks)@[k].artist@
                &&& final(tracks)@.last().album@ == old(tracks)@[k].album@
                &&& final(tracks)@.last().album_artist@ == old(tracks)@[k].album_artist@
                &&& final(tracks)@.last().genre@ == old(tracks)@[k].genre@
                &&& final(tracks)@.last().in_library == old(tracks)@[k].in_library
                &&& final(tracks)@.last().track_no == old(tracks)@[k].track_no
                &&& final(tracks)@.last().disc_no == old(tracks)@[k].disc_no
                &&& final(tracks)@.last().year == old(tracks)@[k].year
                &&& final(tracks)@.last().duration_ms == old(tracks)@[k].duration_ms
            } else {
                final(tracks)@ == old(tracks)@
            }
        }),
{
    let k = first_at(tracks, from);
    if k < tracks.len() {
        let mut t = tracks[k].clone();
        t.file = stem(to);
        let c = chars_of(to);
        t.path = string_of(c.as_slice());
        let ghost before = tracks@;
        tracks.push(t);
        assert(tracks@.subrange(0, before.len() as int) =~= before);
    }
}

/// Which tracks have their file at one of `paths`.
pub fn flags_at(tracks: &Vec<Track>, paths: &Vec<String>) -> (f: Vec<bool>)
    ensures
        f@.len() == tracks@.len(),
        forall|i: int| 0 <= i < tracks@.len() ==> #[trigger] f@[i] == strings_view(paths@).contains(tracks@[i].path@),
{
    let ghost ps = strings_view(paths@);
    let mut f: Vec<bool> = Vec::new();
    let mut i: usize = 0;
    while i < tracks.len()
        invariant
            i <= tracks@.len(),
            ps == strings_view(paths@),
            f@.len() == i,
            forall|j: int| 0 <= j < i ==> #[trigger] f@[j] == ps.contains(tracks@[j].path@),
        decreases tracks@.len() - i,
    {
        let mut hit = false;
        let mut k: usize = 0;
        while k < paths.len()
            invariant
                k <= paths@.len(),
                i < tracks@.len(),
                ps == strings_view(paths@),
                hit == exists|m: int| 0 <= m < k && ps[m] == tracks@[i as int].path@,
            decreases paths@.len() - k,
        {
            assert(ps[k as int] == paths@[k as int]@);
            if same_str(paths[k].as_str(), tracks[i].path.as_str()) {
                hit = true;
            }
            k = k + 1;
        }
        proof {
            if hit {
                let m = choose|m: int| 0 <= m < k && ps[m] == tracks@[i as int].path@;
                assert(ps.contains(tracks@[i as int].path@));
            } else {
                assert(!ps.contains(tracks@[i as int].path@));
            }
        }
        f.push(hit);
        i = i + 1;
    }
    f
}

} // verus!
