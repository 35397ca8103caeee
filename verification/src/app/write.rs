//! The verdict on a `:w`, reached before a single file is touched: the
//! names typed, then the moves and copies, then the whole batch planned
//! against the disk. A refusal anywhere writes nothing at all.

use vstd::prelude::*;

use crate::app::pending::{
    clashes, deepest_first, deepest_in, first_problem, levels, move_problem, rename_problem, rename_target,
    spec_rename_target, spec_targets, strings_view, targets, Pending, Renames, Renaming, Target,
};
use crate::app::plan::{
    answers, pair_views, plan, spec_plan, steps_view, str_views, Refusal, Step, Wanted, WantedView,
};
use crate::library::Track;
use crate::text::{chars_of, spec_trim, string_of, trim};

verus! {

/// Checks a whole write before anything runs. `taken[i]` is whether the
/// `i`th rename's target is on disk and `exists[k]` whether the `k`th move
/// or copy target is; `on_disk` is asked about every name the batch `w`
/// claims. The first refusal, in that order, is the answer; otherwise the
/// steps that apply the batch, in an order that can run.
pub fn check_write<F: Fn(&str) -> bool>(
    q: &Renames,
    taken: &Vec<bool>,
    tracks: &Vec<Track>,
    p: &Pending,
    exists: &Vec<bool>,
    root: &str,
    w: &Wanted,
    on_disk: &F,
) -> (r: Result<Vec<Step>, String>)
    requires
        taken@.len() == q@.len(),
        exists@.len() == spec_targets(*p).len(),
        forall|s: &str| on_disk.requires((s,)),
    ensures
        first_problem(q@, clashes(q@, taken@, tracks@, *p), 0) matches Some(m) ==> r matches Err(e) && e@
            == m,
        first_problem(q@, clashes(q@, taken@, tracks@, *p), 0) is None ==> (
        crate::app::pending::first_clash(spec_targets(*p), exists@, root@, 0) matches Some(m) ==> r matches Err(
            e,
        ) && e@ == m),
        first_problem(q@, clashes(q@, taken@, tracks@, *p), 0) is None
            && crate::app::pending::first_clash(spec_targets(*p), exists@, root@, 0) is None ==> exists|
            asked: Seq<&str>,
            occupied: Seq<bool>,
        |
            answers(w@, *on_disk, asked, occupied) && match (r, spec_plan(w@, occupied)) {
                (Ok(steps), Ok(want)) => steps_view(steps@) == want,
                (Err(m), Err(why)) => m@ == why,
                _ => false,
            },
{
    if let Some(m) = rename_problem(q, taken, tracks, p) {
        return Err(m);
    }
    let t = targets(p);
    if let Some(m) = move_problem(&t, exists, root) {
        return Err(m);
    }
    match plan(w, on_disk) {
        Ok(steps) => Ok(steps),
        Err(Refusal(m)) => Err(m),
    }
}

/// The file renames the queued track renames make: from the track's file to
/// its target under the name typed (trimmed), in the order they are queued.
/// Folder and playlist renames are not file renames and wait until after.
pub open spec fn track_renames(q: Seq<(Target, Seq<char>)>, tracks: Seq<Track>) -> Seq<(Seq<char>, Seq<char>)>
    decreases q.len(),
{
    if q.len() == 0 {
        Seq::empty()
    } else {
        track_renames(q.drop_last(), tracks) + match q.last().0 {
            Target::Track(i) => if i < tracks.len() {
                match spec_rename_target(q.last().0, spec_trim(q.last().1), tracks, None) {
                    Some(to) => seq![(tracks[i as int].path@, to)],
                    None => Seq::empty(),
                }
            } else {
                Seq::empty()
            },
            _ => Seq::empty(),
        }
    }
}

/// The batch a `:w` asks for.
pub open spec fn spec_wanted(q: Seq<(Target, Seq<char>)>, tracks: Seq<Track>, p: Pending) -> WantedView {
    WantedView {
        renames: track_renames(q, tracks),
        moves: pair_views(p.moves@),
        copies: pair_views(p.copies@),
        deletes: str_views(p.doomed_files@),
        delete_dirs: levels(strings_view(p.doomed_dirs@), deepest_in(strings_view(p.doomed_dirs@)) as int),
    }
}

fn copy_strs(v: &Vec<String>) -> (r: Vec<String>)
    ensures
        str_views(r@) == str_views(v@),
{
    let mut r: Vec<String> = Vec::new();
    let mut i: usize = 0;
    while i < v.len()
        invariant
            i <= v@.len(),
            str_views(r@) == str_views(v@).take(i as int),
        decreases v@.len() - i,
    {
        let c = chars_of(v[i].as_str());
        let e = string_of(c.as_slice());
        proof {
            crate::app::plan::lemma_str_views_push(r@, e);
        }
        r.push(e);
        i = i + 1;
        assert(str_views(r@) =~= str_views(v@).take(i as int));
    }
    assert(str_views(v@).take(i as int) =~= str_views(v@));
    r
}

fn copy_pairs(v: &Vec<(String, String)>) -> (r: Vec<(String, String)>)
    ensures
        pair_views(r@) == pair_views(v@),
{
    let mut r: Vec<(String, String)> = Vec::new();
    let mut i: usize = 0;
    while i < v.len()
        invariant
            i <= v@.len(),
            pair_views(r@) == pair_views(v@).take(i as int),
        decreases v@.len() - i,
    {
        let a = chars_of(v[i].0.as_str());
        let b = chars_of(v[i].1.as_str());
        let e = (string_of(a.as_slice()), string_of(b.as_slice()));
        proof {
            crate::app::plan::lemma_pair_views_push(r@, e);
        }
        r.push(e);
        i = i + 1;
        assert(pair_views(r@) =~= pair_views(v@).take(i as int));
    }
    assert(pair_views(v@).take(i as int) =~= pair_views(v@));
    r
}

/// The batch a `:w` asks for: the track renames queued, and the moves,
/// copies, deletions and folders `p` holds, the folders deepest first.
pub fn wanted_of(q: &Renames, tracks: &Vec<Track>, p: &Pending) -> (w: Wanted)
    ensures
        w@ == spec_wanted(q@, tracks@, *p),
{
    let mut renames: Vec<(String, String)> = Vec::new();
    let mut i: usize = 0;
    while i < q.len()
        invariant
            i <= q@.len(),
            pair_views(renames@) == track_renames(q@.take(i as int), tracks@),
        decreases q@.len() - i,
    {
        assert(q@.take(i + 1).drop_last() =~= q@.take(i as int));
        let ghost before = pair_views(renames@);
        let (what, name) = q.entry(i);
        if let Renaming::Track(idx) = what {
            if idx < tracks.len() {
                let cs = chars_of(name.as_str());
                let n = string_of(trim(cs.as_slice()).as_slice());
                if let Some(to) = rename_target(&what, n.as_str(), tracks, &None) {
                    let from = chars_of(tracks[idx].path.as_str());
                    let e = (string_of(from.as_slice()), to);
                    proof {
                        crate::app::plan::lemma_pair_views_push(renames@, e);
                    }
                    renames.push(e);
                    assert(pair_views(renames@) =~= before + seq![(tracks@[idx as int].path@, e.1@)]);
                }
            }
        }
        i = i + 1;
        assert(pair_views(renames@) =~= track_renames(q@.take(i as int), tracks@));
    }
    assert(q@.take(i as int) =~= q@);
    let w = Wanted {
        renames,
        moves: copy_pairs(&p.moves),
        copies: copy_pairs(&p.copies),
        deletes: copy_strs(&p.doomed_files),
        delete_dirs: deepest_first(&p.doomed_dirs),
    };
    assert(str_views(w.delete_dirs@) =~= strings_view(w.delete_dirs@));
    w
}

} // verus!
