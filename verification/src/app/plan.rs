//! What a `:w` would do to the filesystem, checked as one thing.
//!
//! The model is a namespace rather than a list of checks:
//!
//! - **occupied** is what is on disk, asked of the filesystem and never of
//!   the track list, which holds only audio: a check made against it would
//!   happily overwrite `cover.jpg`.
//! - **vacated** is every path this batch empties: rename and move sources,
//!   deleted files, anything under a deleted folder.
//! - **claimed** is every path it fills: rename, move and copy targets.
//!
//! A claim is a clash when the path is occupied and not vacated, or when two
//! claims want the same path. The filesystem is the only thing that can say
//! "occupied", and the in-memory sets can only ever excuse a clash, never
//! invent one.

use vstd::prelude::*;

use crate::paths::{depth, is_under, name_of, path_under, spec_depth, spec_name_of};
use crate::text::{chars_of, push_chars, push_str, string_of};

verus! {

/// One thing to do, in the order the plan says to do it.
#[derive(Clone, Debug, PartialEq, Eq)]
pub enum Step {
    /// A file that goes, freeing its name for anything claiming it.
    Delete(String),
    /// A rename or a move: the same syscall, and the same hazard.
    Rename(String, String),
    Copy(String, String),
    /// A folder and everything under it.
    DeleteDir(String),
}

/// A step, as the contracts speak of it.
pub enum StepView {
    Delete(Seq<char>),
    Rename(Seq<char>, Seq<char>),
    Copy(Seq<char>, Seq<char>),
    DeleteDir(Seq<char>),
}

impl View for Step {
    type V = StepView;

    open spec fn view(&self) -> StepView {
        match self {
            Step::Delete(p) => StepView::Delete(p@),
            Step::Rename(a, b) => StepView::Rename(a@, b@),
            Step::Copy(a, b) => StepView::Copy(a@, b@),
            Step::DeleteDir(p) => StepView::DeleteDir(p@),
        }
    }
}

/// What a batch wants to do, before it is known to be possible.
#[derive(Debug)]
pub struct Wanted {
    pub renames: Vec<(String, String)>,
    pub moves: Vec<(String, String)>,
    pub copies: Vec<(String, String)>,
    pub deletes: Vec<String>,
    pub delete_dirs: Vec<String>,
}

impl Default for Wanted {
    fn default() -> (w: Wanted)
        ensures
            w@.renames.len() == 0,
            w@.moves.len() == 0,
            w@.copies.len() == 0,
            w@.deletes.len() == 0,
            w@.delete_dirs.len() == 0,
    {
        Wanted {
            renames: Vec::new(),
            moves: Vec::new(),
            copies: Vec::new(),
            deletes: Vec::new(),
            delete_dirs: Vec::new(),
        }
    }
}

/// A batch, as the contracts speak of it.
pub struct WantedView {
    pub renames: Seq<(Seq<char>, Seq<char>)>,
    pub moves: Seq<(Seq<char>, Seq<char>)>,
    pub copies: Seq<(Seq<char>, Seq<char>)>,
    pub deletes: Seq<Seq<char>>,
    pub delete_dirs: Seq<Seq<char>>,
}

pub open spec fn pair_views(s: Seq<(String, String)>) -> Seq<(Seq<char>, Seq<char>)> {
    s.map_values(|p: (String, String)| (p.0@, p.1@))
}

pub open spec fn str_views(s: Seq<String>) -> Seq<Seq<char>> {
    s.map_values(|p: String| p@)
}

impl View for Wanted {
    type V = WantedView;

    open spec fn view(&self) -> WantedView {
        WantedView {
            renames: pair_views(self.renames@),
            moves: pair_views(self.moves@),
            copies: pair_views(self.copies@),
            deletes: str_views(self.deletes@),
            delete_dirs: str_views(self.delete_dirs@),
        }
    }
}

/// Why a batch cannot run, phrased for the message row.
#[derive(Debug)]
pub struct Refusal(pub String);

pub open spec fn firsts(s: Seq<(Seq<char>, Seq<char>)>) -> Seq<Seq<char>> {
    s.map_values(|p: (Seq<char>, Seq<char>)| p.0)
}

pub open spec fn seconds(s: Seq<(Seq<char>, Seq<char>)>) -> Seq<Seq<char>> {
    s.map_values(|p: (Seq<char>, Seq<char>)| p.1)
}

/// Renames, then moves: everything that takes a file from one name to another.
pub open spec fn moving(w: WantedView) -> Seq<(Seq<char>, Seq<char>)> {
    w.renames + w.moves
}

/// Every name the batch fills, in the order they are checked.
pub open spec fn claims(w: WantedView) -> Seq<Seq<char>> {
    seconds(w.renames) + seconds(w.moves) + seconds(w.copies)
}

/// Inside a folder this batch deletes.
pub open spec fn under_doomed(w: WantedView, p: Seq<char>) -> bool {
    exists|i: int| 0 <= i < w.delete_dirs.len() && path_under(p, w.delete_dirs[i])
}

/// Emptied by this batch: a rename or move source, or a deleted file.
pub open spec fn vacated(w: WantedView, p: Seq<char>) -> bool {
    firsts(moving(w)).contains(p) || w.deletes.contains(p)
}

pub open spec fn msg_deleted_and_renamed(p: Seq<char>) -> Seq<char> {
    "`"@ + spec_name_of(p) + "` is marked for deletion and for renaming, nothing written"@
}

pub open spec fn msg_claimed_twice(p: Seq<char>) -> Seq<char> {
    "two files would both become `"@ + spec_name_of(p) + "`, nothing written"@
}

pub open spec fn msg_exists(p: Seq<char>) -> Seq<char> {
    "`"@ + spec_name_of(p) + "` already exists, nothing written"@
}

pub open spec fn msg_renamed_then_moved(p: Seq<char>) -> Seq<char> {
    "`"@ + spec_name_of(p) + "` is being renamed and moved onto in one write: do them one at a time"@
}

pub open spec fn msg_moved_then_renamed(p: Seq<char>) -> Seq<char> {
    "`"@ + spec_name_of(p) + "` is being moved and renamed onto in one write: do them one at a time"@
}

pub open spec fn msg_swap(a: Seq<char>, b: Seq<char>) -> Seq<char> {
    "`"@ + spec_name_of(a) + "` and `"@ + spec_name_of(b)
        + "` would swap names, which needs two writes: rename one aside first"@
}

/// The first rename or move, from `i` on, whose source is also being deleted.
pub open spec fn first_contradiction(w: WantedView, i: int) -> Option<Seq<char>>
    decreases moving(w).len() - i,
{
    if i < 0 || i >= moving(w).len() {
        None
    } else {
        let from = moving(w)[i].0;
        if w.deletes.contains(from) || under_doomed(w, from) {
            Some(msg_deleted_and_renamed(from))
        } else {
            first_contradiction(w, i + 1)
        }
    }
}

/// The first claim, from `i` on, that an earlier claim already made, or that
/// lands on something on disk this batch does not move out of the way.
/// `occupied[k]` is what the disk said about claim `k`; a claim it said
/// nothing about counts as free.
pub open spec fn first_clash(w: WantedView, occupied: Seq<bool>, i: int) -> Option<Seq<char>>
    decreases claims(w).len() - i,
{
    if i < 0 || i >= claims(w).len() {
        None
    } else {
        let to = claims(w)[i];
        if claims(w).subrange(0, i).contains(to) {
            Some(msg_claimed_twice(to))
        } else if i < occupied.len() && occupied[i] && !vacated(w, to) && !under_doomed(w, to) {
            Some(msg_exists(to))
        } else {
            first_clash(w, occupied, i + 1)
        }
    }
}

/// The first move, from `i` on, onto a name a rename is taking away.
pub open spec fn first_move_onto_rename(w: WantedView, i: int) -> Option<Seq<char>>
    decreases w.moves.len() - i,
{
    if i < 0 || i >= w.moves.len() {
        None
    } else if firsts(w.renames).contains(w.moves[i].1) {
        Some(msg_renamed_then_moved(w.moves[i].1))
    } else {
        first_move_onto_rename(w, i + 1)
    }
}

/// The first rename, from `i` on, onto a name a move is taking away.
pub open spec fn first_rename_onto_move(w: WantedView, i: int) -> Option<Seq<char>>
    decreases w.renames.len() - i,
{
    if i < 0 || i >= w.renames.len() {
        None
    } else if firsts(w.moves).contains(w.renames[i].1) {
        Some(msg_moved_then_renamed(w.renames[i].1))
    } else {
        first_rename_onto_move(w, i + 1)
    }
}

/// A rename can run now when nothing still waiting is moving out of its
/// target, or when it renames a thing onto itself.
pub open spec fn is_ready(p: (Seq<char>, Seq<char>), sources: Seq<Seq<char>>) -> bool {
    !sources.contains(p.1) || p.0 == p.1
}

/// The renames that can run now and the ones that wait, each in its own order.
pub open spec fn split_ready(p: Seq<(Seq<char>, Seq<char>)>, sources: Seq<Seq<char>>) -> (
    Seq<(Seq<char>, Seq<char>)>,
    Seq<(Seq<char>, Seq<char>)>,
)
    decreases p.len(),
{
    if p.len() == 0 {
        (seq![], seq![])
    } else {
        let (r, w) = split_ready(p.drop_last(), sources);
        if is_ready(p.last(), sources) {
            (r.push(p.last()), w)
        } else {
            (r, w.push(p.last()))
        }
    }
}

pub proof fn lemma_split_ready_len(p: Seq<(Seq<char>, Seq<char>)>, sources: Seq<Seq<char>>)
    ensures
        split_ready(p, sources).0.len() + split_ready(p, sources).1.len() == p.len(),
    decreases p.len(),
{
    if p.len() > 0 {
        lemma_split_ready_len(p.drop_last(), sources);
    }
}

/// The order renames run in: pass after pass, every rename whose target is
/// free by then, each pass latest first. A pass with nothing ready means the
/// rest wait on each other, and the first of them is what the refusal names.
pub open spec fn spec_passes(p: Seq<(Seq<char>, Seq<char>)>) -> Result<
    Seq<(Seq<char>, Seq<char>)>,
    (Seq<char>, Seq<char>),
>
    decreases p.len(),
{
    if p.len() == 0 {
        Ok(seq![])
    } else {
        let (r, w) = split_ready(p, firsts(p));
        if r.len() == 0 {
            Err(p[0])
        } else {
            proof {
                lemma_split_ready_len(p, firsts(p));
            }
            match spec_passes(w) {
                Ok(t) => Ok(r.reverse() + t),
                Err(e) => Err(e),
            }
        }
    }
}

/// Inserts `d` after every folder at least as deep as it.
pub open spec fn insert_by_depth(sorted: Seq<Seq<char>>, d: Seq<char>) -> Seq<Seq<char>>
    decreases sorted.len(),
{
    if sorted.len() == 0 {
        seq![d]
    } else if spec_depth(sorted.last()) >= spec_depth(d) {
        sorted.push(d)
    } else {
        insert_by_depth(sorted.drop_last(), d).push(sorted.last())
    }
}

/// Folders deepest first, keeping the order they were marked in among
/// folders equally deep.
pub open spec fn deepest_first(dirs: Seq<Seq<char>>) -> Seq<Seq<char>>
    decreases dirs.len(),
{
    if dirs.len() == 0 {
        seq![]
    } else {
        insert_by_depth(deepest_first(dirs.drop_last()), dirs.last())
    }
}

pub open spec fn rename_steps(p: Seq<(Seq<char>, Seq<char>)>) -> Seq<StepView> {
    p.map_values(|x: (Seq<char>, Seq<char>)| StepView::Rename(x.0, x.1))
}

pub open spec fn delete_steps(p: Seq<Seq<char>>) -> Seq<StepView> {
    p.map_values(|x: Seq<char>| StepView::Delete(x))
}

pub open spec fn copy_steps(p: Seq<(Seq<char>, Seq<char>)>) -> Seq<StepView> {
    p.map_values(|x: (Seq<char>, Seq<char>)| StepView::Copy(x.0, x.1))
}

pub open spec fn rmdir_steps(p: Seq<Seq<char>>) -> Seq<StepView> {
    p.map_values(|x: Seq<char>| StepView::DeleteDir(x))
}

/// Deletions, then renames and moves in an order that works, then copies,
/// then folders deepest first; or the refusal when the renames wait on each
/// other.
pub open spec fn spec_order(w: WantedView) -> Result<Seq<StepView>, Seq<char>> {
    match spec_passes(moving(w)) {
        Err(p) => Err(msg_swap(p.0, p.1)),
        Ok(ordered) => Ok(
            delete_steps(w.deletes) + rename_steps(ordered) + copy_steps(w.copies) + rmdir_steps(
                deepest_first(w.delete_dirs),
            ),
        ),
    }
}

/// The whole verdict on a batch: the first thing that refuses it, checked in
/// this order, or the steps that apply it.
pub open spec fn spec_plan(w: WantedView, occupied: Seq<bool>) -> Result<Seq<StepView>, Seq<char>> {
    match first_contradiction(w, 0) {
        Some(m) => Err(m),
        None => match first_clash(w, occupied, 0) {
            Some(m) => Err(m),
            None => match first_move_onto_rename(w, 0) {
                Some(m) => Err(m),
                None => match first_rename_onto_move(w, 0) {
                    Some(m) => Err(m),
                    None => spec_order(w),
                },
            },
        },
    }
}

pub open spec fn steps_view(s: Seq<Step>) -> Seq<StepView> {
    s.map_values(|x: Step| x@)
}

pub open spec fn prepend(
    e: Seq<(Seq<char>, Seq<char>)>,
    r: Result<Seq<(Seq<char>, Seq<char>)>, (Seq<char>, Seq<char>)>,
) -> Result<Seq<(Seq<char>, Seq<char>)>, (Seq<char>, Seq<char>)> {
    match r {
        Ok(t) => Ok(e + t),
        Err(x) => Err(x),
    }
}

/// A message naming a path: `pre`, the path's last component, `post`.
fn naming(pre: &str, p: &String, post: &str) -> (m: String)
    ensures
        m@ == pre@ + spec_name_of(p@) + post@,
{
    let mut v: Vec<char> = Vec::new();
    push_str(&mut v, pre);
    let path = chars_of(p.as_str());
    let name = name_of(path.as_slice());
    push_chars(&mut v, name.as_slice());
    push_str(&mut v, post);
    string_of(v.as_slice())
}

/// Whether any pair in `p` moves something out of `x`.
fn is_source(p: &Vec<(String, String)>, x: &String) -> (r: bool)
    ensures
        r == firsts(pair_views(p@)).contains(x@),
{
    let ghost f = firsts(pair_views(p@));
    let mut i: usize = 0;
    while i < p.len()
        invariant
            i <= p@.len(),
            f == firsts(pair_views(p@)),
            f.len() == p@.len(),
            forall|j: int| 0 <= j < i ==> f[j] != x@,
        decreases p@.len() - i,
    {
        assert(f[i as int] == p@[i as int].0@);
        if p[i].0 == *x {
            assert(f[i as int] == x@);
            return true;
        }
        i = i + 1;
    }
    false
}

/// Renames and moves in an order where nothing lands on a name that is still
/// taken, or the refusal when they wait on each other.
fn order_renames(pending0: Vec<(String, String)>, steps: &mut Vec<Step>) -> (r: Result<(), Refusal>)
    ensures
        match (r, spec_passes(pair_views(pending0@))) {
            (Ok(()), Ok(t)) => steps_view(final(steps)@) == steps_view(old(steps)@) + rename_steps(t),
            (Err(Refusal(m)), Err(p)) => m@ == msg_swap(p.0, p.1),
            _ => false,
        },
{
    let mut pending = pending0;
    let ghost start = steps_view(steps@);
    let ghost mut emitted: Seq<(Seq<char>, Seq<char>)> = seq![];
    while pending.len() > 0
        invariant
            spec_passes(pair_views(pending0@)) == prepend(
                emitted,
                spec_passes(pair_views(pending@)),
            ),
            steps_view(steps@) == start + rename_steps(emitted),
        decreases pending@.len(),
    {
        let ghost pv = pair_views(pending@);
        let ghost srcs = firsts(pv);
        let mut ready: Vec<(String, String)> = Vec::new();
        let mut waiting: Vec<(String, String)> = Vec::new();
        let mut i: usize = 0;
        while i < pending.len()
            invariant
                i <= pending@.len(),
                pv == pair_views(pending@),
                srcs == firsts(pv),
                (pair_views(ready@), pair_views(waiting@)) == split_ready(
                    pv.subrange(0, i as int),
                    srcs,
                ),
            decreases pending@.len() - i,
        {
            let from = pending[i].0.clone();
            let to = pending[i].1.clone();
            let ghost item = pv[i as int];
            assert(item == (from@, to@));
            assert(pv.subrange(0, i + 1).drop_last() =~= pv.subrange(0, i as int));
            assert(pv.subrange(0, i + 1).last() == item);
            let ready_now = !is_source(&pending, &to) || from == to;
            if ready_now {
                ready.push((from, to));
                assert(pair_views(ready@) =~= split_ready(pv.subrange(0, i as int), srcs).0.push(
                    item,
                ));
            } else {
                waiting.push((from, to));
                assert(pair_views(waiting@) =~= split_ready(pv.subrange(0, i as int), srcs).1.push(
                    item,
                ));
            }
            i = i + 1;
        }
        assert(pv.subrange(0, pending@.len() as int) =~= pv);
        proof { lemma_split_ready_len(pv, srcs); }
        if ready.len() == 0 {
            assert(pv[0] == (pending@[0].0@, pending@[0].1@));
            let mut v: Vec<char> = Vec::new();
            push_str(&mut v, "`");
            let a = chars_of(pending[0].0.as_str());
            push_chars(&mut v, name_of(a.as_slice()).as_slice());
            push_str(&mut v, "` and `");
            let b = chars_of(pending[0].1.as_str());
            push_chars(&mut v, name_of(b.as_slice()).as_slice());
            push_str(&mut v, "` would swap names, which needs two writes: rename one aside first");
            assert(v@ =~= msg_swap(pv[0].0, pv[0].1));
            return Err(Refusal(string_of(v.as_slice())));
        }
        let ghost rv = pair_views(ready@);
        let mut k: usize = ready.len();
        while k > 0
            invariant
                k <= ready@.len(),
                rv == pair_views(ready@),
                steps_view(steps@) == start + rename_steps(emitted) + rename_steps(
                    rv.reverse().subrange(0, (ready@.len() - k) as int),
                ),
            decreases k,
        {
            k = k - 1;
            let step = Step::Rename(ready[k].0.clone(), ready[k].1.clone());
            let ghost before = steps@;
            steps.push(step);
            assert(steps@ =~= before.push(step));
            assert(rv.reverse()[(ready@.len() - 1 - k) as int] == rv[k as int]);
            assert(rename_steps(rv.reverse().subrange(0, (ready@.len() - k) as int)) =~= rename_steps(
                rv.reverse().subrange(0, (ready@.len() - 1 - k) as int),
            ).push(StepView::Rename(rv[k as int].0, rv[k as int].1)));
            assert(steps_view(steps@) =~= steps_view(before).push(step@));
        }
        assert(rv.reverse().subrange(0, ready@.len() as int) =~= rv.reverse());
        let ghost wv = pair_views(waiting@);
        assert(spec_passes(pv) == prepend(rv.reverse(), spec_passes(wv)));
        proof {
            assert(rename_steps(emitted + rv.reverse()) =~= rename_steps(emitted) + rename_steps(
                rv.reverse(),
            ));
            match spec_passes(wv) {
                Ok(t) => {
                    assert(emitted + (rv.reverse() + t) =~= (emitted + rv.reverse()) + t);
                },
                Err(x) => {},
            }
            emitted = emitted + rv.reverse();
        }
        pending = waiting;
    }
    assert(pair_views(pending@) =~= seq![]);
    assert(emitted + seq![] =~= emitted);
    Ok(())
}

pub proof fn lemma_pair_views_push(s: Seq<(String, String)>, e: (String, String))
    ensures
        pair_views(s.push(e)) == pair_views(s).push((e.0@, e.1@)),
{
    assert(pair_views(s.push(e)) =~= pair_views(s).push((e.0@, e.1@)));
}

pub proof fn lemma_str_views_push(s: Seq<String>, e: String)
    ensures
        str_views(s.push(e)) == str_views(s).push(e@),
{
    assert(str_views(s.push(e)) =~= str_views(s).push(e@));
}

pub proof fn lemma_seconds_step(s: Seq<(Seq<char>, Seq<char>)>, i: int)
    requires
        0 <= i < s.len(),
    ensures
        seconds(s.subrange(0, i + 1)) == seconds(s.subrange(0, i)).push(s[i].1),
{
    assert(seconds(s.subrange(0, i + 1)) =~= seconds(s.subrange(0, i)).push(s[i].1));
}

fn depth_of(p: &String) -> (d: usize)
    ensures
        d == spec_depth(p@),
{
    let c = chars_of(p.as_str());
    depth(c.as_slice())
}

/// Puts `d` after every folder in `sorted` at least as deep as it.
fn insert_deep(sorted: &mut Vec<String>, d: String)
    ensures
        str_views(final(sorted)@) == insert_by_depth(str_views(old(sorted)@), d@),
{
    let ghost s = str_views(sorted@);
    let dd = depth_of(&d);
    let mut k: usize = sorted.len();
    assert(s.subrange(0, k as int) =~= s);
    assert(s.subrange(k as int, s.len() as int) =~= Seq::<Seq<char>>::empty());
    assert(s + Seq::<Seq<char>>::empty() =~= s);
    while k > 0
        invariant
            k <= sorted@.len(),
            s == str_views(sorted@),
            dd == spec_depth(d@),
            insert_by_depth(s, d@) == insert_by_depth(s.subrange(0, k as int), d@) + s.subrange(
                k as int,
                s.len() as int,
            ),
        ensures
            k == 0 || spec_depth(s[k - 1]) >= spec_depth(d@),
            k <= sorted@.len(),
            insert_by_depth(s, d@) == insert_by_depth(s.subrange(0, k as int), d@) + s.subrange(
                k as int,
                s.len() as int,
            ),
        decreases k,
    {
        let dk = depth_of(&sorted[k - 1]);
        assert(s[k - 1] == sorted@[k - 1]@);
        if dk >= dd {
            break;
        }
        let ghost t = s.subrange(0, k as int);
        assert(t.drop_last() =~= s.subrange(0, k - 1));
        assert(t.last() == s[k - 1]);
        assert(s.subrange(k - 1, s.len() as int) =~= seq![s[k - 1]] + s.subrange(
            k as int,
            s.len() as int,
        ));
        assert(insert_by_depth(t, d@) == insert_by_depth(s.subrange(0, k - 1), d@).push(s[k - 1]));
        assert(insert_by_depth(s.subrange(0, k - 1), d@).push(s[k - 1]) + s.subrange(
            k as int,
            s.len() as int,
        ) =~= insert_by_depth(s.subrange(0, k - 1), d@) + s.subrange(k - 1, s.len() as int));
        k = k - 1;
    }
    let ghost t = s.subrange(0, k as int);
    if k > 0 {
        assert(s[k - 1] == sorted@[k - 1]@);
        assert(t.last() == s[k - 1]);
        assert(insert_by_depth(t, d@) == t.push(d@));
    } else {
        assert(insert_by_depth(t, d@) == seq![d@]);
    }
    sorted.insert(k, d);
    assert(str_views(sorted@) =~= insert_by_depth(s, d@));
}

/// Everything after the renames: the copies, then the folders deepest first.
fn finish_steps(wanted: &Wanted, steps: &mut Vec<Step>)
    ensures
        steps_view(final(steps)@) == steps_view(old(steps)@) + copy_steps(wanted@.copies)
            + rmdir_steps(deepest_first(wanted@.delete_dirs)),
{
    let ghost start = steps_view(steps@);
    let mut i: usize = 0;
    while i < wanted.copies.len()
        invariant
            i <= wanted.copies@.len(),
            steps_view(steps@) == start + copy_steps(wanted@.copies.subrange(0, i as int)),
        decreases wanted.copies@.len() - i,
    {
        let step = Step::Copy(wanted.copies[i].0.clone(), wanted.copies[i].1.clone());
        let ghost before = steps@;
        steps.push(step);
        assert(steps_view(steps@) =~= steps_view(before).push(step@));
        assert(copy_steps(wanted@.copies.subrange(0, i + 1)) =~= copy_steps(
            wanted@.copies.subrange(0, i as int),
        ).push(step@));
        i = i + 1;
    }
    assert(wanted@.copies.subrange(0, wanted@.copies.len() as int) =~= wanted@.copies);
    let ghost mid = steps_view(steps@);
    let mut dirs: Vec<String> = Vec::new();
    let mut j: usize = 0;
    while j < wanted.delete_dirs.len()
        invariant
            j <= wanted.delete_dirs@.len(),
            str_views(dirs@) == deepest_first(wanted@.delete_dirs.subrange(0, j as int)),
        decreases wanted.delete_dirs@.len() - j,
    {
        let ghost t = wanted@.delete_dirs.subrange(0, j + 1);
        assert(t.drop_last() =~= wanted@.delete_dirs.subrange(0, j as int));
        insert_deep(&mut dirs, wanted.delete_dirs[j].clone());
        j = j + 1;
    }
    assert(wanted@.delete_dirs.subrange(0, wanted@.delete_dirs.len() as int)
        =~= wanted@.delete_dirs);
    let ghost sorted = str_views(dirs@);
    let mut k: usize = 0;
    while k < dirs.len()
        invariant
            k <= dirs@.len(),
            sorted == str_views(dirs@),
            steps_view(steps@) == mid + rmdir_steps(sorted.subrange(0, k as int)),
        decreases dirs@.len() - k,
    {
        let step = Step::DeleteDir(dirs[k].clone());
        let ghost before = steps@;
        steps.push(step);
        assert(steps_view(steps@) =~= steps_view(before).push(step@));
        assert(rmdir_steps(sorted.subrange(0, k + 1)) =~= rmdir_steps(
            sorted.subrange(0, k as int),
        ).push(step@));
        k = k + 1;
    }
    assert(sorted.subrange(0, sorted.len() as int) =~= sorted);
    assert(steps_view(steps@) =~= start + copy_steps(wanted@.copies) + rmdir_steps(
        deepest_first(wanted@.delete_dirs),
    ));
}

/// Puts the batch in an order where nothing lands on a name that is still
/// taken, and refuses a cycle rather than inventing a temporary name.
pub fn order(wanted: &Wanted) -> (r: Result<Vec<Step>, Refusal>)
    ensures
        match (r, spec_order(wanted@)) {
            (Ok(steps), Ok(want)) => steps_view(steps@) == want,
            (Err(Refusal(m)), Err(why)) => m@ == why,
            _ => false,
        },
{
    let mut steps: Vec<Step> = Vec::new();
    let mut i: usize = 0;
    while i < wanted.deletes.len()
        invariant
            i <= wanted.deletes@.len(),
            steps_view(steps@) == delete_steps(wanted@.deletes.subrange(0, i as int)),
        decreases wanted.deletes@.len() - i,
    {
        let step = Step::Delete(wanted.deletes[i].clone());
        let ghost before = steps@;
        steps.push(step);
        assert(steps_view(steps@) =~= steps_view(before).push(step@));
        assert(delete_steps(wanted@.deletes.subrange(0, i + 1)) =~= delete_steps(
            wanted@.deletes.subrange(0, i as int),
        ).push(step@));
        i = i + 1;
    }
    assert(wanted@.deletes.subrange(0, wanted@.deletes.len() as int) =~= wanted@.deletes);

    let mut pending: Vec<(String, String)> = Vec::new();
    let mut j: usize = 0;
    while j < wanted.renames.len()
        invariant
            j <= wanted.renames@.len(),
            pair_views(pending@) == wanted@.renames.subrange(0, j as int),
        decreases wanted.renames@.len() - j,
    {
        let ghost item = wanted.renames@[j as int];
        assert(wanted@.renames[j as int] == (item.0@, item.1@));
        let e = (wanted.renames[j].0.clone(), wanted.renames[j].1.clone());
        let ghost before = pending@;
        pending.push(e);
        proof { lemma_pair_views_push(before, e); }
        assert(pair_views(pending@) =~= wanted@.renames.subrange(0, j + 1));
        j = j + 1;
    }
    let mut k: usize = 0;
    while k < wanted.moves.len()
        invariant
            k <= wanted.moves@.len(),
            pair_views(pending@) == wanted@.renames + wanted@.moves.subrange(0, k as int),
        decreases wanted.moves@.len() - k,
    {
        let ghost item = wanted.moves@[k as int];
        assert(wanted@.moves[k as int] == (item.0@, item.1@));
        let e = (wanted.moves[k].0.clone(), wanted.moves[k].1.clone());
        let ghost before = pending@;
        pending.push(e);
        proof { lemma_pair_views_push(before, e); }
        assert(pair_views(pending@) =~= wanted@.renames + wanted@.moves.subrange(0, k + 1));
        k = k + 1;
    }
    assert(pair_views(pending@) =~= moving(wanted@));
    match order_renames(pending, &mut steps) {
        Err(why) => Err(why),
        Ok(()) => {
            finish_steps(wanted, &mut steps);
            Ok(steps)
        },
    }
}

fn contains_string(v: &Vec<String>, x: &String) -> (r: bool)
    ensures
        r == str_views(v@).contains(x@),
{
    let ghost f = str_views(v@);
    let mut i: usize = 0;
    while i < v.len()
        invariant
            i <= v@.len(),
            f == str_views(v@),
            forall|j: int| 0 <= j < i ==> f[j] != x@,
        decreases v@.len() - i,
    {
        assert(f[i as int] == v@[i as int]@);
        if v[i] == *x {
            return true;
        }
        i = i + 1;
    }
    false
}

fn under_any(dirs: &Vec<String>, p: &String) -> (r: bool)
    ensures
        r == exists|i: int| 0 <= i < dirs@.len() && path_under(p@, str_views(dirs@)[i]),
{
    let pc = chars_of(p.as_str());
    let mut i: usize = 0;
    while i < dirs.len()
        invariant
            i <= dirs@.len(),
            pc@ == p@,
            forall|j: int| 0 <= j < i ==> !path_under(p@, #[trigger] str_views(dirs@)[j]),
        decreases dirs@.len() - i,
    {
        let dc = chars_of(dirs[i].as_str());
        assert(str_views(dirs@)[i as int] == dirs@[i as int]@);
        if is_under(pc.as_slice(), dc.as_slice()) {
            return true;
        }
        i = i + 1;
    }
    false
}

/// Every name the batch fills, in the order they are checked.
fn claim_list(w: &Wanted) -> (r: Vec<String>)
    ensures
        str_views(r@) == claims(w@),
{
    let mut r: Vec<String> = Vec::new();
    let mut i: usize = 0;
    while i < w.renames.len()
        invariant
            i <= w.renames@.len(),
            str_views(r@) == seconds(w@.renames.subrange(0, i as int)),
        decreases w.renames@.len() - i,
    {
        assert(w@.renames[i as int].1 == w.renames@[i as int].1@);
        let e = w.renames[i].1.clone();
        let ghost before = r@;
        r.push(e);
        proof {
            lemma_str_views_push(before, e);
            lemma_seconds_step(w@.renames, i as int);
        }
        i = i + 1;
    }
    assert(w@.renames.subrange(0, w@.renames.len() as int) =~= w@.renames);
    let mut j: usize = 0;
    while j < w.moves.len()
        invariant
            j <= w.moves@.len(),
            str_views(r@) == seconds(w@.renames) + seconds(w@.moves.subrange(0, j as int)),
        decreases w.moves@.len() - j,
    {
        assert(w@.moves[j as int].1 == w.moves@[j as int].1@);
        let e = w.moves[j].1.clone();
        let ghost before = r@;
        r.push(e);
        proof {
            lemma_str_views_push(before, e);
            lemma_seconds_step(w@.moves, j as int);
        }
        assert(str_views(r@) =~= seconds(w@.renames) + seconds(w@.moves.subrange(0, j + 1)));
        j = j + 1;
    }
    assert(w@.moves.subrange(0, w@.moves.len() as int) =~= w@.moves);
    let mut k: usize = 0;
    while k < w.copies.len()
        invariant
            k <= w.copies@.len(),
            str_views(r@) == seconds(w@.renames) + seconds(w@.moves) + seconds(
                w@.copies.subrange(0, k as int),
            ),
        decreases w.copies@.len() - k,
    {
        assert(w@.copies[k as int].1 == w.copies@[k as int].1@);
        let e = w.copies[k].1.clone();
        let ghost before = r@;
        r.push(e);
        proof {
            lemma_str_views_push(before, e);
            lemma_seconds_step(w@.copies, k as int);
        }
        assert(str_views(r@) =~= seconds(w@.renames) + seconds(w@.moves) + seconds(
            w@.copies.subrange(0, k + 1),
        ));
        k = k + 1;
    }
    assert(w@.copies.subrange(0, w@.copies.len() as int) =~= w@.copies);
    r
}

/// Renames, then moves, as one list of pairs.
fn moving_list(w: &Wanted) -> (r: Vec<(String, String)>)
    ensures
        pair_views(r@) == moving(w@),
{
    let mut r: Vec<(String, String)> = Vec::new();
    let mut j: usize = 0;
    while j < w.renames.len()
        invariant
            j <= w.renames@.len(),
            pair_views(r@) == w@.renames.subrange(0, j as int),
        decreases w.renames@.len() - j,
    {
        let ghost item = w.renames@[j as int];
        assert(w@.renames[j as int] == (item.0@, item.1@));
        let e = (w.renames[j].0.clone(), w.renames[j].1.clone());
        let ghost before = r@;
        r.push(e);
        proof { lemma_pair_views_push(before, e); }
        assert(pair_views(r@) =~= w@.renames.subrange(0, j + 1));
        j = j + 1;
    }
    let mut k: usize = 0;
    while k < w.moves.len()
        invariant
            k <= w.moves@.len(),
            pair_views(r@) == w@.renames + w@.moves.subrange(0, k as int),
        decreases w.moves@.len() - k,
    {
        let ghost item = w.moves@[k as int];
        assert(w@.moves[k as int] == (item.0@, item.1@));
        let e = (w.moves[k].0.clone(), w.moves[k].1.clone());
        let ghost before = r@;
        r.push(e);
        proof { lemma_pair_views_push(before, e); }
        assert(pair_views(r@) =~= w@.renames + w@.moves.subrange(0, k + 1));
        k = k + 1;
    }
    assert(pair_views(r@) =~= moving(w@));
    r
}

/// Checks a whole batch, given what the disk said about each claim, and puts
/// it in an order that can actually run.
///
/// `occupied[k]` answers whether the `k`-th claimed name (rename targets,
/// then move targets, then copy targets) is on disk now.
pub fn plan_with(wanted: &Wanted, occupied: &Vec<bool>) -> (r: Result<Vec<Step>, Refusal>)
    ensures
        match (r, spec_plan(wanted@, occupied@)) {
            (Ok(steps), Ok(want)) => steps_view(steps@) == want,
            (Err(Refusal(m)), Err(why)) => m@ == why,
            _ => false,
        },
{
    let ghost w = wanted@;
    // A source that is being deleted as well as renamed is a contradiction,
    // not a free name: applying both in either order loses one of them.
    let mv = moving_list(wanted);
    let mut i: usize = 0;
    while i < mv.len()
        invariant
            i <= mv@.len(),
            pair_views(mv@) == moving(w),
            w == wanted@,
            first_contradiction(w, 0) == first_contradiction(w, i as int),
        decreases mv@.len() - i,
    {
        assert(moving(w)[i as int] == (mv@[i as int].0@, mv@[i as int].1@));
        let from = &mv[i].0;
        if contains_string(&wanted.deletes, from) || under_any(&wanted.delete_dirs, from) {
            return Err(Refusal(naming(
                "`",
                from,
                "` is marked for deletion and for renaming, nothing written",
            )));
        }
        i = i + 1;
    }

    // Every claim, checked against the disk and against the other claims.
    let cl = claim_list(wanted);
    let mut k: usize = 0;
    while k < cl.len()
        invariant
            k <= cl@.len(),
            str_views(cl@) == claims(w),
            pair_views(mv@) == moving(w),
            w == wanted@,
            first_contradiction(w, 0) is None,
            first_clash(w, occupied@, 0) == first_clash(w, occupied@, k as int),
        decreases cl@.len() - k,
    {
        let ghost c = claims(w);
        let to = &cl[k];
        assert(c[k as int] == to@);
        let mut earlier: usize = 0;
        while earlier < k
            invariant
                earlier <= k < cl@.len(),
                c == str_views(cl@),
                c == claims(w),
                w == wanted@,
                c[k as int] == to@,
                first_contradiction(w, 0) is None,
                first_clash(w, occupied@, 0) == first_clash(w, occupied@, k as int),
                forall|e: int| 0 <= e < earlier ==> c[e] != to@,
            decreases k - earlier,
        {
            assert(c[earlier as int] == cl@[earlier as int]@);
            if cl[earlier] == *to {
                assert(c.subrange(0, k as int)[earlier as int] == to@);
                return Err(
                    Refusal(naming("two files would both become `", to, "`, nothing written")),
                );
            }
            earlier = earlier + 1;
        }
        assert(!c.subrange(0, k as int).contains(to@)) by {
            if c.subrange(0, k as int).contains(to@) {
                let e = choose|e: int| 0 <= e < k && c.subrange(0, k as int)[e] == to@;
                assert(c[e] == to@);
            }
        }
        let on_disk = k < occupied.len() && occupied[k];
        // The filesystem decides whether something is in the way; the batch
        // only gets to say it is about to move out of the way.
        if on_disk && !is_source(&mv, to) && !contains_string(&wanted.deletes, to) && !under_any(
            &wanted.delete_dirs,
            to,
        ) {
            return Err(Refusal(naming("`", to, "` already exists, nothing written")));
        }
        k = k + 1;
    }

    // Renames run before moves, so a batch where one depends on the other
    // cannot be ordered by this pass. Refusing is honest where guessing an
    // order would silently pick the wrong one.
    let mut m: usize = 0;
    while m < wanted.moves.len()
        invariant
            m <= wanted.moves@.len(),
            w == wanted@,
            first_contradiction(w, 0) is None,
            first_clash(w, occupied@, 0) is None,
            first_move_onto_rename(w, 0) == first_move_onto_rename(w, m as int),
        decreases wanted.moves@.len() - m,
    {
        let to = &wanted.moves[m].1;
        assert(w.moves[m as int].1 == to@);
        if is_source(&wanted.renames, to) {
            return Err(Refusal(naming(
                "`",
                to,
                "` is being renamed and moved onto in one write: do them one at a time",
            )));
        }
        m = m + 1;
    }
    let mut n: usize = 0;
    while n < wanted.renames.len()
        invariant
            n <= wanted.renames@.len(),
            w == wanted@,
            first_contradiction(w, 0) is None,
            first_clash(w, occupied@, 0) is None,
            first_move_onto_rename(w, 0) is None,
            first_rename_onto_move(w, 0) == first_rename_onto_move(w, n as int),
        decreases wanted.renames@.len() - n,
    {
        let to = &wanted.renames[n].1;
        assert(w.renames[n as int].1 == to@);
        if is_source(&wanted.moves, to) {
            return Err(Refusal(naming(
                "`",
                to,
                "` is being moved and renamed onto in one write: do them one at a time",
            )));
        }
        n = n + 1;
    }
    order(wanted)
}

/// Whether `occupied` is a set of answers `on_disk` gave, when it was asked
/// about the claims of `w` one after the other: `asked[k]` names claim `k`,
/// and `occupied[k]` is what came back for it.
pub open spec fn answers<F: Fn(&str) -> bool>(
    w: WantedView,
    on_disk: F,
    asked: Seq<&str>,
    occupied: Seq<bool>,
) -> bool {
    &&& occupied.len() == claims(w).len()
    &&& asked.len() == claims(w).len()
    &&& forall|k: int|
        #![trigger occupied[k]]
        0 <= k < occupied.len() ==> on_disk.ensures((asked[k],), occupied[k]) && asked[k]@
            == claims(w)[k]
}

/// Checks a whole batch and puts it in an order that can actually run.
///
/// `on_disk` is the filesystem, taken as an argument so a test can hand over
/// a pretend disk without writing one. It is asked once about every claimed
/// name, and the verdict is the one `plan_with` gives on its answers.
pub fn plan<F: Fn(&str) -> bool>(wanted: &Wanted, on_disk: &F) -> (r: Result<Vec<Step>, Refusal>)
    requires
        forall|p: &str| on_disk.requires((p,)),
    ensures
        exists|asked: Seq<&str>, occupied: Seq<bool>|
            answers(wanted@, *on_disk, asked, occupied) && match (
                r,
                spec_plan(wanted@, occupied),
            ) {
                (Ok(steps), Ok(want)) => steps_view(steps@) == want,
                (Err(Refusal(m)), Err(why)) => m@ == why,
                _ => false,
            },
{
    let cl = claim_list(wanted);
    let mut occupied: Vec<bool> = Vec::new();
    let ghost mut asked: Seq<&str> = seq![];
    let mut k: usize = 0;
    while k < cl.len()
        invariant
            k <= cl@.len(),
            str_views(cl@) == claims(wanted@),
            occupied@.len() == k,
            asked.len() == k,
            forall|p: &str| on_disk.requires((p,)),
            forall|j: int|
                #![trigger occupied@[j]]
                0 <= j < k ==> on_disk.ensures((asked[j],), occupied@[j]) && asked[j]@ == claims(
                    wanted@,
                )[j],
        decreases cl@.len() - k,
    {
        let name: &str = cl[k].as_str();
        assert(name@ == claims(wanted@)[k as int]);
        let answer = on_disk(name);
        let ghost before = occupied@;
        occupied.push(answer);
        proof {
            asked = asked.push(name);
        }
        assert forall|j: int|
            #![trigger occupied@[j]]
            0 <= j < k + 1 implies on_disk.ensures((asked[j],), occupied@[j]) && asked[j]@
                == claims(wanted@)[j] by {
            if j < k {
                assert(occupied@[j] == before[j]);
            }
        }
        k = k + 1;
    }
    let r = plan_with(wanted, &occupied);
    assert(str_views(cl@).len() == cl@.len());
    assert(answers(wanted@, *on_disk, asked, occupied@));
    r
}

// ---- what a plan that goes through promises ------------------------------

proof fn lemma_no_contradiction(w: WantedView, i: int)
    requires
        0 <= i,
        first_contradiction(w, i) is None,
    ensures
        forall|j: int|
            i <= j < moving(w).len() ==> !w.deletes.contains(#[trigger] moving(w)[j].0)
                && !under_doomed(w, moving(w)[j].0),
    decreases moving(w).len() - i,
{
    if i < moving(w).len() {
        lemma_no_contradiction(w, i + 1);
    }
}

proof fn lemma_no_clash(w: WantedView, occupied: Seq<bool>, i: int)
    requires
        0 <= i,
        first_clash(w, occupied, i) is None,
    ensures
        forall|j: int|
            i <= j < claims(w).len() ==> !claims(w).subrange(0, j).contains(#[trigger] claims(w)[j])
                && (j < occupied.len() && occupied[j] ==> vacated(w, claims(w)[j]) || under_doomed(
                w,
                claims(w)[j],
            )),
    decreases claims(w).len() - i,
{
    if i < claims(w).len() {
        lemma_no_clash(w, occupied, i + 1);
    }
}

proof fn lemma_no_move_onto_rename(w: WantedView, i: int)
    requires
        0 <= i,
        first_move_onto_rename(w, i) is None,
    ensures
        forall|j: int| i <= j < w.moves.len() ==> !firsts(w.renames).contains(#[trigger] w.moves[j].1),
    decreases w.moves.len() - i,
{
    if i < w.moves.len() {
        lemma_no_move_onto_rename(w, i + 1);
    }
}

proof fn lemma_no_rename_onto_move(w: WantedView, i: int)
    requires
        0 <= i,
        first_rename_onto_move(w, i) is None,
    ensures
        forall|j: int| i <= j < w.renames.len() ==> !firsts(w.moves).contains(#[trigger] w.renames[j].1),
    decreases w.renames.len() - i,
{
    if i < w.renames.len() {
        lemma_no_rename_onto_move(w, i + 1);
    }
}

/// A write the plan lets through can lose nothing: no file is both renamed
/// and deleted, no two things claim one name, every claimed name that is on
/// disk is one the batch empties first, and no rename and move depend on
/// each other.
pub proof fn law_an_allowed_batch_overwrites_nothing(w: WantedView, occupied: Seq<bool>)
    requires
        spec_plan(w, occupied) is Ok,
    ensures
        forall|j: int|
            0 <= j < moving(w).len() ==> !w.deletes.contains(#[trigger] moving(w)[j].0)
                && !under_doomed(w, moving(w)[j].0),
        forall|j: int, k: int| 0 <= j < k < claims(w).len() ==> claims(w)[j] != claims(w)[k],
        forall|j: int|
            0 <= j < claims(w).len() && j < occupied.len() && occupied[j] ==> vacated(
                w,
                #[trigger] claims(w)[j],
            ) || under_doomed(w, claims(w)[j]),
        forall|j: int| 0 <= j < w.moves.len() ==> !firsts(w.renames).contains(#[trigger] w.moves[j].1),
        forall|j: int| 0 <= j < w.renames.len() ==> !firsts(w.moves).contains(#[trigger] w.renames[j].1),
{
    lemma_no_contradiction(w, 0);
    lemma_no_clash(w, occupied, 0);
    lemma_no_move_onto_rename(w, 0);
    lemma_no_rename_onto_move(w, 0);
    assert forall|j: int, k: int| 0 <= j < k < claims(w).len() implies claims(w)[j]
        != claims(w)[k] by {
        assert(!claims(w).subrange(0, k).contains(claims(w)[k]));
        assert(claims(w).subrange(0, k)[j] == claims(w)[j]);
    }
}

proof fn lemma_fewer_occupied_no_clash(w: WantedView, more: Seq<bool>, fewer: Seq<bool>, i: int)
    requires
        forall|k: int| 0 <= k < fewer.len() && fewer[k] ==> k < more.len() && more[k],
        first_clash(w, more, i) is None,
    ensures
        first_clash(w, fewer, i) is None,
    decreases claims(w).len() - i,
{
    if 0 <= i < claims(w).len() {
        lemma_fewer_occupied_no_clash(w, more, fewer, i + 1);
    }
}

/// Only the disk can make a name occupied, and the batch can only excuse a
/// clash: a disk with fewer files on it (every name `fewer` says is taken,
/// `more` says is taken too) never turns an accepted batch into a refusal,
/// nor changes its steps.
pub proof fn law_fewer_files_change_no_verdict(w: WantedView, more: Seq<bool>, fewer: Seq<bool>)
    requires
        forall|k: int| 0 <= k < fewer.len() && fewer[k] ==> k < more.len() && more[k],
        spec_plan(w, more) is Ok,
    ensures
        spec_plan(w, fewer) == spec_plan(w, more),
{
    lemma_fewer_occupied_no_clash(w, more, fewer, 0);
}

/// Whatever the disk says, a batch with a refusal in it writes nothing: the
/// verdict is a refusal or a list of steps, never both.
pub proof fn law_the_first_refusal_decides(w: WantedView, occupied: Seq<bool>)
    ensures
        first_contradiction(w, 0) is Some ==> spec_plan(w, occupied) is Err,
        first_contradiction(w, 0) is None && first_clash(w, occupied, 0) is Some ==> spec_plan(
            w,
            occupied,
        ) is Err,
{
}

proof fn lemma_split_ready_members(p: Seq<(Seq<char>, Seq<char>)>, sources: Seq<Seq<char>>)
    ensures
        forall|i: int|
            0 <= i < split_ready(p, sources).0.len() ==> p.contains(
                #[trigger] split_ready(p, sources).0[i],
            ) && is_ready(split_ready(p, sources).0[i], sources),
        forall|i: int|
            0 <= i < split_ready(p, sources).1.len() ==> p.contains(
                #[trigger] split_ready(p, sources).1[i],
            ),
    decreases p.len(),
{
    if p.len() > 0 {
        let q = p.drop_last();
        lemma_split_ready_members(q, sources);
        let (r, w) = split_ready(q, sources);
        assert forall|x: (Seq<char>, Seq<char>)| q.contains(x) implies p.contains(x) by {
            let k = choose|k: int| 0 <= k < q.len() && q[k] == x;
            assert(p[k] == x);
        }
        assert(p[p.len() - 1] == p.last());
        assert(p.contains(p.last()));
        if is_ready(p.last(), sources) {
            assert forall|i: int| 0 <= i < r.push(p.last()).len() implies p.contains(
                #[trigger] r.push(p.last())[i],
            ) && is_ready(r.push(p.last())[i], sources) by {
                if i < r.len() {
                    assert(r.push(p.last())[i] == r[i]);
                }
            }
        } else {
            assert forall|i: int| 0 <= i < w.push(p.last()).len() implies p.contains(
                #[trigger] w.push(p.last())[i],
            ) by {
                if i < w.len() {
                    assert(w.push(p.last())[i] == w[i]);
                }
            }
        }
    }
}

/// Runs in passes never put a rename onto a name that a later rename is
/// still to move out of, and every rename handed in runs.
pub proof fn lemma_passes(p: Seq<(Seq<char>, Seq<char>)>)
    ensures
        spec_passes(p) matches Ok(t) ==> {
            &&& t.len() == p.len()
            &&& forall|i: int| 0 <= i < t.len() ==> p.contains(#[trigger] t[i])
            &&& forall|i: int, j: int|
                0 <= i < j < t.len() ==> t[i].1 != t[j].0 || t[i].0 == t[i].1
        },
    decreases p.len(),
{
    if p.len() > 0 {
        let srcs = firsts(p);
        let (r, w) = split_ready(p, srcs);
        lemma_split_ready_len(p, srcs);
        lemma_split_ready_members(p, srcs);
        if r.len() > 0 {
            lemma_passes(w);
            if let Ok(t2) = spec_passes(w) {
                let rr = r.reverse();
                let t = rr + t2;
                assert(spec_passes(p) == Ok::<
                    Seq<(Seq<char>, Seq<char>)>,
                    (Seq<char>, Seq<char>),
                >(t));
                assert forall|i: int| 0 <= i < rr.len() implies #[trigger] rr[i] == r[r.len()
                    - 1 - i] by {}
                assert forall|i: int| 0 <= i < t.len() implies p.contains(#[trigger] t[i]) by {
                    if i < rr.len() {
                        assert(t[i] == r[r.len() - 1 - i]);
                    } else {
                        assert(t[i] == t2[i - rr.len()]);
                        let k = choose|k: int| 0 <= k < w.len() && w[k] == t2[i - rr.len()];
                        assert(w.contains(w[k]));
                    }
                }
                assert forall|i: int, j: int| 0 <= i < j < t.len() implies t[i].1 != t[j].0
                    || t[i].0 == t[i].1 by {
                    if i < rr.len() {
                        let x = t[i];
                        assert(x == r[r.len() - 1 - i]);
                        assert(is_ready(x, srcs));
                        let y = t[j];
                        assert(p.contains(y));
                        let k = choose|k: int| 0 <= k < p.len() && p[k] == y;
                        assert(srcs[k] == y.0);
                        assert(srcs.contains(y.0));
                    } else {
                        assert(t[i] == t2[i - rr.len()]);
                        assert(t[j] == t2[j - rr.len()]);
                    }
                }
            }
        }
    }
}

/// Renames and moves come out in an order where nothing lands on a name that
/// a later one is still to move out of, and every one of them is there.
pub proof fn law_renames_wait_for_the_name_they_take(w: WantedView)
    ensures
        spec_passes(moving(w)) matches Ok(t) ==> {
            &&& t.len() == moving(w).len()
            &&& forall|i: int, j: int|
                0 <= i < j < t.len() ==> t[i].1 != t[j].0 || t[i].0 == t[i].1
        },
{
    lemma_passes(moving(w));
}

pub open spec fn non_increasing_depth(s: Seq<Seq<char>>) -> bool {
    forall|i: int, j: int| 0 <= i < j < s.len() ==> spec_depth(s[i]) >= spec_depth(s[j])
}

proof fn lemma_insert_by_depth(sorted: Seq<Seq<char>>, d: Seq<char>)
    requires
        non_increasing_depth(sorted),
    ensures
        non_increasing_depth(insert_by_depth(sorted, d)),
        insert_by_depth(sorted, d).len() == sorted.len() + 1,
        forall|i: int|
            0 <= i < insert_by_depth(sorted, d).len() ==> #[trigger] insert_by_depth(sorted, d)[i]
                == d || sorted.contains(insert_by_depth(sorted, d)[i]),
        sorted.len() > 0 ==> spec_depth(insert_by_depth(sorted, d).last()) == spec_depth(
            sorted.last(),
        ) || insert_by_depth(sorted, d).last() == d,
    decreases sorted.len(),
{
    if sorted.len() > 0 && spec_depth(sorted.last()) < spec_depth(d) {
        let q = sorted.drop_last();
        assert(non_increasing_depth(q));
        lemma_insert_by_depth(q, d);
        let ins = insert_by_depth(q, d);
        let res = ins.push(sorted.last());
        assert forall|i: int| 0 <= i < ins.len() implies spec_depth(#[trigger] ins[i]) >= spec_depth(
            sorted.last(),
        ) by {
            if ins[i] != d {
                let k = choose|k: int| 0 <= k < q.len() && q[k] == ins[i];
                assert(sorted[k] == q[k]);
            }
        }
        assert forall|i: int| 0 <= i < res.len() implies #[trigger] res[i] == d || sorted.contains(
            res[i],
        ) by {
            if i < ins.len() {
                assert(res[i] == ins[i]);
                if ins[i] != d {
                    let k = choose|k: int| 0 <= k < q.len() && q[k] == ins[i];
                    assert(sorted[k] == q[k]);
                }
            } else {
                assert(sorted[sorted.len() - 1] == sorted.last());
            }
        }
        assert forall|i: int, j: int| 0 <= i < j < res.len() implies spec_depth(res[i])
            >= spec_depth(res[j]) by {
            if j < ins.len() {
                assert(res[i] == ins[i] && res[j] == ins[j]);
            } else {
                assert(res[i] == ins[i]);
            }
        }
    } else if sorted.len() > 0 {
        let res = sorted.push(d);
        assert forall|i: int, j: int| 0 <= i < j < res.len() implies spec_depth(res[i])
            >= spec_depth(res[j]) by {
            if j == sorted.len() {
                assert(spec_depth(sorted[i]) >= spec_depth(sorted[sorted.len() - 1]));
            }
        }
        assert forall|i: int| 0 <= i < res.len() implies #[trigger] res[i] == d || sorted.contains(
            res[i],
        ) by {
            if i < sorted.len() {
                assert(sorted.contains(sorted[i]));
            }
        }
    }
}

proof fn lemma_deepest_first(dirs: Seq<Seq<char>>)
    ensures
        non_increasing_depth(deepest_first(dirs)),
        deepest_first(dirs).len() == dirs.len(),
    decreases dirs.len(),
{
    if dirs.len() > 0 {
        lemma_deepest_first(dirs.drop_last());
        lemma_insert_by_depth(deepest_first(dirs.drop_last()), dirs.last());
    }
}

/// Folders are deleted deepest first, so a folder inside a marked folder is
/// already gone when its parent goes, and every marked folder is deleted.
pub proof fn law_folders_go_deepest_first(w: WantedView)
    ensures
        non_increasing_depth(deepest_first(w.delete_dirs)),
        deepest_first(w.delete_dirs).len() == w.delete_dirs.len(),
{
    lemma_deepest_first(w.delete_dirs);
}

} // verus!
