//! View tabs, each holding its own cursor, scroll, sort and playlist rows. A
//! view is only ever open once: two tabs of the same playlist would drift
//! apart and the later `:w` would quietly win.
//!
//! The tab being looked at lives in the program's own state while it is up;
//! the copy kept here is brought up to date whenever the tabs change hands.

use vstd::prelude::*;

use crate::app::pending::{follow_rows, spec_follow_rows};
use crate::app::rows::map_rows;
use crate::library::SortKey;
use crate::text::{chars_of, same_str, string_of};

verus! {

/// One view: a playlist, or a folder (0 is the whole library), and where it
/// was left.
pub struct ViewTab {
    pub playlist: Option<String>,
    pub folder: usize,
    pub cur: usize,
    pub top: usize,
    pub sort_key: SortKey,
    /// The open playlist's rows, as indices into the library.
    pub rows: Vec<usize>,
    /// The playlist has changes `:w` has not written.
    pub dirty: bool,
}

pub struct TabView {
    pub playlist: Option<Seq<char>>,
    pub folder: usize,
    pub cur: usize,
    pub top: usize,
    pub sort_key: SortKey,
    pub rows: Seq<usize>,
    pub dirty: bool,
}

impl View for ViewTab {
    type V = TabView;

    open spec fn view(&self) -> TabView {
        TabView {
            playlist: match self.playlist {
                Some(n) => Some(n@),
                None => None,
            },
            folder: self.folder,
            cur: self.cur,
            top: self.top,
            sort_key: self.sort_key,
            rows: self.rows@,
            dirty: self.dirty,
        }
    }
}

fn copy_string(s: &String) -> (r: String)
    ensures
        r@ == s@,
{
    let v = chars_of(s.as_str());
    string_of(v.as_slice())
}

fn copy_rows(v: &Vec<usize>) -> (r: Vec<usize>)
    ensures
        r@ == v@,
{
    let mut r: Vec<usize> = Vec::new();
    let mut i: usize = 0;
    while i < v.len()
        invariant
            i <= v@.len(),
            r@ == v@.take(i as int),
        decreases v@.len() - i,
    {
        r.push(v[i]);
        i = i + 1;
        assert(r@ =~= v@.take(i as int));
    }
    assert(v@.take(i as int) =~= v@);
    r
}

impl ViewTab {
    /// A copy of this view.
    pub fn copy(&self) -> (t: ViewTab)
        ensures
            t@ == self@,
    {
        ViewTab {
            playlist: match &self.playlist {
                Some(n) => Some(copy_string(n)),
                None => None,
            },
            folder: self.folder,
            cur: self.cur,
            top: self.top,
            sort_key: self.sort_key,
            rows: copy_rows(&self.rows),
            dirty: self.dirty,
        }
    }
}

/// The tab shows the playlist `playlist`, or with none the folder `folder`.
pub open spec fn shows(t: TabView, playlist: Option<Seq<char>>, folder: usize) -> bool {
    match (playlist, t.playlist) {
        (Some(name), Some(open)) => open == name,
        (None, None) => t.folder == folder,
        _ => false,
    }
}

/// Two tabs show the same view.
pub open spec fn same_view(a: TabView, b: TabView) -> bool {
    shows(a, b.playlist, b.folder)
}

/// No view is open in two tabs.
pub open spec fn views_distinct(tabs: Seq<TabView>) -> bool {
    forall|i: int, j: int| 0 <= i < j < tabs.len() ==> !same_view(#[trigger] tabs[i], #[trigger] tabs[j])
}

/// The first tab, from `from` on, that shows the view; the end when none does.
pub open spec fn first_showing(tabs: Seq<TabView>, playlist: Option<Seq<char>>, folder: usize) -> int {
    if exists|i: int| 0 <= i < tabs.len() && shows(tabs[i], playlist, folder) {
        choose|i: int|
            0 <= i < tabs.len() && shows(tabs[i], playlist, folder) && forall|j: int|
                0 <= j < i ==> !shows(#[trigger] tabs[j], playlist, folder)
    } else {
        tabs.len() as int
    }
}

/// What asking for a view found.
pub enum Jump {
    /// No tab shows it.
    NotOpen,
    /// The tab being looked at already shows it.
    Here,
    /// Another tab shows it, and it is now the one being looked at: this is
    /// what to bring back up.
    Switched(ViewTab),
}

/// The open views, in order, and which one is being looked at.
pub struct Tabs {
    tabs: Vec<ViewTab>,
    idx: usize,
}

impl View for Tabs {
    type V = (Seq<TabView>, int);

    closed spec fn view(&self) -> (Seq<TabView>, int) {
        (self.tabs@.map_values(|t: ViewTab| t@), self.idx as int)
    }
}

pub open spec fn within(t: (Seq<TabView>, int)) -> bool {
    0 <= t.1 < t.0.len()
}

/// The name a tab goes by: its playlist, its folder's label, or
/// `everything`.
pub open spec fn tab_name(t: TabView, folders: Seq<(Seq<char>, Seq<char>)>) -> Seq<char> {
    match t.playlist {
        Some(n) => n,
        None => if t.folder == 0 || t.folder - 1 >= folders.len() {
            "everything"@
        } else {
            folders[t.folder - 1].0
        },
    }
}

/// The playlists changed in tabs other than the one being looked at, with
/// their rows, among the first `n` tabs.
pub open spec fn dirty_upto(tabs: Seq<TabView>, idx: int, n: int) -> Seq<(Seq<char>, Seq<usize>)>
    decreases n,
{
    if n <= 0 {
        Seq::empty()
    } else {
        let t = tabs[n - 1];
        dirty_upto(tabs, idx, n - 1) + if n - 1 != idx && t.dirty && t.playlist is Some {
            seq![(t.playlist->0, t.rows)]
        } else {
            Seq::empty()
        }
    }
}

pub open spec fn pairs_view(v: Seq<(String, String)>) -> Seq<(Seq<char>, Seq<char>)> {
    Seq::new(v.len(), |i: int| (v[i].0@, v[i].1@))
}

pub open spec fn dirty_view(v: Seq<(String, Vec<usize>)>) -> Seq<(Seq<char>, Seq<usize>)> {
    Seq::new(v.len(), |i: int| (v[i].0@, v[i].1@))
}

/// `idx` moved `delta` places round a ring of `n`.
fn wrap_index(idx: usize, delta: isize, n: usize) -> (r: usize)
    requires
        n >= 1,
    ensures
        r == (idx + delta) % (n as int),
        r < n,
{
    let s: i128 = idx as i128 + delta as i128;
    let m: i128 = n as i128;
    if s >= 0 {
        (s % m) as usize
    } else {
        let back: i128 = (-s) % m;
        let r: i128 = if back == 0 {
            0
        } else {
            m - back
        };
        proof {
            let mi = m as int;
            let si = s as int;
            let ns = -si;
            assert(back as int == ns % mi);
            let q = ns / mi;
            let rr = ns % mi;
            vstd::arithmetic::div_mod::lemma_fundamental_div_mod(ns, mi);
            if rr == 0 {
                assert(si == (-q) * mi + 0) by (nonlinear_arith)
                    requires
                        ns == mi * q + rr,
                        rr == 0,
                        si == -ns,
                ;
                vstd::arithmetic::div_mod::lemma_fundamental_div_mod_converse(si, mi, -q, 0);
            } else {
                assert(si == (-q - 1) * mi + (mi - rr)) by (nonlinear_arith)
                    requires
                        ns == mi * q + rr,
                        si == -ns,
                ;
                vstd::arithmetic::div_mod::lemma_fundamental_div_mod_converse(si, mi, -q - 1, mi - rr);
            }
        }
        r as usize
    }
}

impl Tabs {
    #[verifier::type_invariant]
    spec fn wf(self) -> bool {
        self.idx < self.tabs.len()
    }

    /// One tab, showing `first`.
    pub fn new(first: ViewTab) -> (t: Tabs)
        ensures
            t@ == (seq![first@], 0int),
    {
        let mut v: Vec<ViewTab> = Vec::new();
        v.push(first);
        let t = Tabs { tabs: v, idx: 0 };
        assert(t@.0 =~= seq![first@]);
        t
    }

    pub fn len(&self) -> (n: usize)
        ensures
            n == self@.0.len(),
            n >= 1,
    {
        proof {
            use_type_invariant(self);
        }
        self.tabs.len()
    }

    /// Which tab is being looked at.
    pub fn current(&self) -> (i: usize)
        ensures
            i == self@.1,
            i < self@.0.len(),
    {
        proof {
            use_type_invariant(self);
        }
        self.idx
    }

    /// A copy of every tab.
    fn copies(&self) -> (v: Vec<ViewTab>)
        ensures
            v@.map_values(|t: ViewTab| t@) == self@.0,
            v@.len() == self@.0.len(),
    {
        let mut v: Vec<ViewTab> = Vec::new();
        let mut i: usize = 0;
        while i < self.tabs.len()
            invariant
                i <= self.tabs@.len(),
                v@.len() == i,
                forall|k: int| 0 <= k < i ==> #[trigger] v@[k]@ == self.tabs@[k]@,
            decreases self.tabs@.len() - i,
        {
            v.push(self.tabs[i].copy());
            i = i + 1;
        }
        assert(v@.map_values(|t: ViewTab| t@) =~= self@.0);
        v
    }

    /// The tabs with `now` kept in the one being looked at.
    fn stored(&self, now: ViewTab) -> (v: Vec<ViewTab>)
        ensures
            v@.map_values(|t: ViewTab| t@) == self@.0.update(self@.1, now@),
            v@.len() == self@.0.len(),
    {
        proof {
            use_type_invariant(self);
        }
        let mut v = self.copies();
        let ghost nv = now@;
        let ghost before = v@.map_values(|t: ViewTab| t@);
        v.set(self.idx, now);
        assert(v@.map_values(|t: ViewTab| t@) =~= before.update(self@.1, nv));
        v
    }

    /// `gt`, `gT`: keeps `now` in the tab being looked at and moves `delta`
    /// tabs along, round the end; hands back the tab to bring up. `None`,
    /// and nothing changed, with only one tab.
    pub fn cycle(&mut self, now: ViewTab, delta: isize) -> (r: Option<ViewTab>)
        ensures
            within(final(self)@),
            old(self)@.0.len() < 2 ==> r is None && final(self)@ == old(self)@,
            old(self)@.0.len() >= 2 ==> {
                &&& final(self)@.0 == old(self)@.0.update(old(self)@.1, now@)
                &&& final(self)@.1 == (old(self)@.1 + delta) % (old(self)@.0.len() as int)
                &&& r matches Some(t) && t@ == final(self)@.0[final(self)@.1]
            },
    {
        proof {
            use_type_invariant(&*self);
        }
        let n = self.tabs.len();
        if n < 2 {
            return None;
        }
        let ghost before = self@;
        let v = self.stored(now);
        let idx = wrap_index(self.idx, delta, n);
        let t = v[idx].copy();
        *self = Tabs { tabs: v, idx };
        Some(t)
    }

    /// Asks for the playlist `playlist`, or with none the folder `folder`:
    /// keeps `now` in the tab being looked at, and goes to the first tab
    /// that shows the view, if one does.
    pub fn jump_to(&mut self, now: ViewTab, playlist: Option<&str>, folder: usize) -> (r: Jump)
        ensures
            within(final(self)@),
            final(self)@.0 == old(self)@.0.update(old(self)@.1, now@),
            ({
                let s = final(self)@.0;
                let p = match playlist {
                    Some(n) => Some(n@),
                    None => None,
                };
                match r {
                    Jump::NotOpen => final(self)@.1 == old(self)@.1 && forall|j: int|
                        0 <= j < s.len() ==> !shows(#[trigger] s[j], p, folder),
                    Jump::Here => final(self)@.1 == old(self)@.1 && shows(s[old(self)@.1], p, folder)
                        && forall|j: int| 0 <= j < old(self)@.1 ==> !shows(#[trigger] s[j], p, folder),
                    Jump::Switched(t) => final(self)@.1 != old(self)@.1 && shows(s[final(self)@.1], p, folder)
                        && t@ == s[final(self)@.1] && forall|j: int|
                        0 <= j < final(self)@.1 ==> !shows(#[trigger] s[j], p, folder),
                }
            }),
    {
        proof {
            use_type_invariant(&*self);
        }
        let ghost before = self@;
        let ghost nowv = now@;
        let v = self.stored(now);
        let ghost s = v@.map_values(|t: ViewTab| t@);
        let ghost p = match playlist {
            Some(n) => Some(n@),
            None => None,
        };
        let mut i: usize = 0;
        let mut found = false;
        while i < v.len()
            invariant_except_break
                !found,
            invariant
                i <= v@.len(),
                s == v@.map_values(|t: ViewTab| t@),
                s == before.0.update(before.1, nowv),
                self@ == before,
                self.idx == before.1,
                0 <= before.1 < v@.len(),
                p == (match playlist {
                    Some(n) => Some(n@),
                    None => None,
                }),
                forall|j: int| 0 <= j < i ==> !shows(#[trigger] s[j], p, folder),
            ensures
                found ==> i < v@.len() && shows(s[i as int], p, folder),
                !found ==> i == v@.len(),
            decreases v@.len() - i,
        {
            let here = match (playlist, &v[i].playlist) {
                (Some(name), Some(open)) => same_str(open.as_str(), name),
                (None, None) => v[i].folder == folder,
                _ => false,
            };
            assert(here == shows(s[i as int], p, folder));
            if here {
                found = true;
                break;
            }
            i = i + 1;
        }
        let old_idx = self.idx;
        if !found {
            *self = Tabs { tabs: v, idx: old_idx };
            return Jump::NotOpen;
        }
        if i == old_idx {
            *self = Tabs { tabs: v, idx: old_idx };
            return Jump::Here;
        }
        let t = v[i].copy();
        *self = Tabs { tabs: v, idx: i };
        Jump::Switched(t)
    }

    /// `t` on a view no tab shows: keeps `now` in the tab being looked at
    /// and opens a tab after it, which becomes the one being looked at.
    pub fn open_after(&mut self, now: ViewTab)
        ensures
            within(final(self)@),
            final(self)@.0 == old(self)@.0.update(old(self)@.1, now@).insert(old(self)@.1 + 1, now@),
            final(self)@.1 == old(self)@.1 + 1,
    {
        proof {
            use_type_invariant(&*self);
        }
        let fresh = now.copy();
        let mut v = self.stored(now);
        let at = self.idx + 1;
        let ghost before = v@.map_values(|t: ViewTab| t@);
        v.insert(at, fresh);
        assert(v@.map_values(|t: ViewTab| t@) =~= before.insert(at as int, fresh@));
        *self = Tabs { tabs: v, idx: at };
    }

    /// `:q` closes the tab being looked at and hands back the one to bring
    /// up; `None`, and nothing changed, for the last tab, which closes vibox.
    pub fn close(&mut self) -> (r: Option<ViewTab>)
        ensures
            within(final(self)@),
            old(self)@.0.len() < 2 ==> r is None && final(self)@ == old(self)@,
            old(self)@.0.len() >= 2 ==> {
                &&& final(self)@.0 == old(self)@.0.remove(old(self)@.1)
                &&& final(self)@.1 == if old(self)@.1 < old(self)@.0.len() - 1 {
                    old(self)@.1
                } else {
                    old(self)@.0.len() - 2
                }
                &&& r matches Some(t) && t@ == final(self)@.0[final(self)@.1]
            },
    {
        proof {
            use_type_invariant(&*self);
        }
        if self.tabs.len() < 2 {
            return None;
        }
        let mut v = self.copies();
        let ghost all = v@.map_values(|t: ViewTab| t@);
        let _gone = v.remove(self.idx);
        assert(v@.map_values(|t: ViewTab| t@) =~= all.remove(self.idx as int));
        let last = v.len() - 1;
        let idx = if self.idx < last {
            self.idx
        } else {
            last
        };
        let t = v[idx].copy();
        *self = Tabs { tabs: v, idx };
        Some(t)
    }

    /// Each tab's name, and whether it has unwritten changes: the tab being
    /// looked at as `now` shows it.
    pub fn labels(&self, now: &ViewTab, folders: &Vec<(String, String)>) -> (r: Vec<(String, bool)>)
        ensures
            r@.len() == self@.0.len(),
            forall|i: int|
                0 <= i < r@.len() ==> {
                    let t = if i == self@.1 {
                        now@
                    } else {
                        self@.0[i]
                    };
                    &&& (#[trigger] r@[i]).0@ == tab_name(t, pairs_view(folders@))
                    &&& r@[i].1 == t.dirty
                },
    {
        proof {
            use_type_invariant(self);
        }
        let mut r: Vec<(String, bool)> = Vec::new();
        let mut i: usize = 0;
        while i < self.tabs.len()
            invariant
                i <= self.tabs@.len(),
                r@.len() == i,
                forall|k: int|
                    0 <= k < i ==> {
                        let t = if k == self@.1 {
                            now@
                        } else {
                            self@.0[k]
                        };
                        &&& (#[trigger] r@[k]).0@ == tab_name(t, pairs_view(folders@))
                        &&& r@[k].1 == t.dirty
                    },
            decreases self.tabs@.len() - i,
        {
            let t: &ViewTab = if i == self.idx {
                now
            } else {
                &self.tabs[i]
            };
            let name = match &t.playlist {
                Some(n) => copy_string(n),
                None => if t.folder == 0 || t.folder - 1 >= folders.len() {
                    let e = chars_of("everything");
                    string_of(e.as_slice())
                } else {
                    copy_string(&folders[t.folder - 1].0)
                },
            };
            r.push((name, t.dirty));
            i = i + 1;
        }
        r
    }

    /// Playlists changed in tabs other than the one being looked at, with
    /// their rows: `:w` writes everything, so `:changes` and the `[+]`
    /// marker have to see everything.
    pub fn dirty_others(&self) -> (r: Vec<(String, Vec<usize>)>)
        ensures
            dirty_view(r@) == dirty_upto(self@.0, self@.1, self@.0.len() as int),
    {
        let mut r: Vec<(String, Vec<usize>)> = Vec::new();
        let mut i: usize = 0;
        while i < self.tabs.len()
            invariant
                i <= self.tabs@.len(),
                dirty_view(r@) == dirty_upto(self@.0, self@.1, i as int),
            decreases self.tabs@.len() - i,
        {
            let ghost prev = dirty_view(r@);
            let t = &self.tabs[i];
            if i != self.idx && t.dirty {
                if let Some(n) = &t.playlist {
                    r.push((copy_string(n), copy_rows(&t.rows)));
                    assert(dirty_view(r@) =~= prev + seq![(n@, t.rows@)]);
                }
            }
            i = i + 1;
            assert(dirty_view(r@) =~= dirty_upto(self@.0, self@.1, i as int));
        }
        r
    }

    /// Every tab's rows index a library of `n` tracks.
    pub fn rows_below(&self, n: usize) -> (b: bool)
        ensures
            b == rows_below(self@.0, n as int),
    {
        let mut i: usize = 0;
        while i < self.tabs.len()
            invariant
                i <= self.tabs@.len(),
                forall|j: int, k: int|
                    0 <= j < i && 0 <= k < self@.0[j].rows.len() ==> #[trigger] self@.0[j].rows[k] < n,
            decreases self.tabs@.len() - i,
        {
            let rows = &self.tabs[i].rows;
            let mut k: usize = 0;
            while k < rows.len()
                invariant
                    i < self.tabs@.len(),
                    rows@ == self@.0[i as int].rows,
                    k <= rows@.len(),
                    forall|j: int, k2: int|
                        0 <= j < i && 0 <= k2 < self@.0[j].rows.len() ==> #[trigger] self@.0[j].rows[k2] < n,
                    forall|k2: int| 0 <= k2 < k ==> rows@[k2] < n,
                decreases rows@.len() - k,
            {
                if rows[k] >= n {
                    return false;
                }
                k = k + 1;
            }
            i = i + 1;
        }
        true
    }

    /// The library was reordered: row `k` of every tab becomes `remap[k]`.
    pub fn remap_rows(&mut self, remap: &Vec<usize>)
        requires
            rows_below(old(self)@.0, remap@.len() as int),
        ensures
            final(self)@.1 == old(self)@.1,
            within(final(self)@),
            final(self)@.0.len() == old(self)@.0.len(),
            forall|i: int|
                0 <= i < old(self)@.0.len() ==> #[trigger] final(self)@.0[i] == (TabView {
                    rows: Seq::new(old(self)@.0[i].rows.len(), |k: int| remap@[old(self)@.0[i].rows[k] as int]),
                    ..old(self)@.0[i]
                }),
    {
        proof {
            use_type_invariant(&*self);
        }
        let mut v: Vec<ViewTab> = Vec::new();
        let mut i: usize = 0;
        while i < self.tabs.len()
            invariant
                i <= self.tabs@.len(),
                rows_below(self@.0, remap@.len() as int),
                v@.len() == i,
                forall|j: int|
                    0 <= j < i ==> #[trigger] v@[j]@ == (TabView {
                        rows: Seq::new(self@.0[j].rows.len(), |k: int| remap@[self@.0[j].rows[k] as int]),
                        ..self@.0[j]
                    }),
            decreases self.tabs@.len() - i,
        {
            let t = &self.tabs[i];
            assert(t@ == self@.0[i as int]);
            assert forall|k: int| 0 <= k < t.rows@.len() implies t.rows@[k] < remap@.len() by {
                assert(self@.0[i as int].rows[k] < remap@.len());
            }
            let rows = map_rows(&t.rows, remap);
            let mut n = t.copy();
            n.rows = rows;
            assert(n@.rows =~= Seq::new(self@.0[i as int].rows.len(), |k: int| remap@[self@.0[i as int].rows[k] as int]));
            v.push(n);
            i = i + 1;
        }
        let idx = self.idx;
        *self = Tabs { tabs: v, idx };
    }

    /// Tracks left the library: row `k` of every tab becomes `remap[k]`, or
    /// goes when the track went.
    pub fn follow(&mut self, remap: &Vec<Option<usize>>)
        requires
            rows_below(old(self)@.0, remap@.len() as int),
        ensures
            final(self)@.1 == old(self)@.1,
            within(final(self)@),
            final(self)@.0.len() == old(self)@.0.len(),
            forall|i: int|
                0 <= i < old(self)@.0.len() ==> #[trigger] final(self)@.0[i] == (TabView {
                    rows: spec_follow_rows(old(self)@.0[i].rows, remap@),
                    ..old(self)@.0[i]
                }),
    {
        proof {
            use_type_invariant(&*self);
        }
        let mut v: Vec<ViewTab> = Vec::new();
        let mut i: usize = 0;
        while i < self.tabs.len()
            invariant
                i <= self.tabs@.len(),
                rows_below(self@.0, remap@.len() as int),
                v@.len() == i,
                forall|j: int|
                    0 <= j < i ==> #[trigger] v@[j]@ == (TabView {
                        rows: spec_follow_rows(self@.0[j].rows, remap@),
                        ..self@.0[j]
                    }),
            decreases self.tabs@.len() - i,
        {
            let t = &self.tabs[i];
            assert(t@ == self@.0[i as int]);
            assert forall|k: int| 0 <= k < t.rows@.len() implies t.rows@[k] < remap@.len() by {
                assert(self@.0[i as int].rows[k] < remap@.len());
            }
            let rows = follow_rows(&t.rows, remap);
            let mut n = t.copy();
            n.rows = rows;
            v.push(n);
            i = i + 1;
        }
        let idx = self.idx;
        *self = Tabs { tabs: v, idx };
    }

    /// The playlist `name` was deleted: a tab showing it shows the library,
    /// with nothing left to write.
    pub fn drop_playlist(&mut self, name: &str)
        ensures
            final(self)@.1 == old(self)@.1,
            within(final(self)@),
            final(self)@.0.len() == old(self)@.0.len(),
            forall|i: int|
                0 <= i < old(self)@.0.len() ==> #[trigger] final(self)@.0[i] == if old(self)@.0[i].playlist
                    == Some(name@) {
                    TabView { playlist: None, rows: Seq::empty(), dirty: false, ..old(self)@.0[i] }
                } else {
                    old(self)@.0[i]
                },
    {
        proof {
            use_type_invariant(&*self);
        }
        let mut v: Vec<ViewTab> = Vec::new();
        let mut i: usize = 0;
        while i < self.tabs.len()
            invariant
                i <= self.tabs@.len(),
                v@.len() == i,
                forall|j: int|
                    0 <= j < i ==> #[trigger] v@[j]@ == if self@.0[j].playlist == Some(name@) {
                        TabView { playlist: None, rows: Seq::empty(), dirty: false, ..self@.0[j] }
                    } else {
                        self@.0[j]
                    },
            decreases self.tabs@.len() - i,
        {
            let t = &self.tabs[i];
            assert(t@ == self@.0[i as int]);
            let mut n = t.copy();
            let hit = match &t.playlist {
                Some(open) => same_str(open.as_str(), name),
                None => false,
            };
            if hit {
                n.playlist = None;
                n.rows = Vec::new();
                n.dirty = false;
                assert(n@ == (TabView { playlist: None, rows: Seq::empty(), dirty: false, ..self@.0[i as int] }));
            }
            v.push(n);
            i = i + 1;
        }
        let idx = self.idx;
        *self = Tabs { tabs: v, idx };
    }

    /// The playlist `from` was renamed to `to`: a tab showing it keeps
    /// showing it, under the new name.
    pub fn rename_playlist(&mut self, from: &str, to: &str)
        ensures
            final(self)@.1 == old(self)@.1,
            within(final(self)@),
            final(self)@.0.len() == old(self)@.0.len(),
            forall|i: int|
                0 <= i < old(self)@.0.len() ==> #[trigger] final(self)@.0[i] == if old(self)@.0[i].playlist
                    == Some(from@) {
                    TabView { playlist: Some(to@), ..old(self)@.0[i] }
                } else {
                    old(self)@.0[i]
                },
    {
        proof {
            use_type_invariant(&*self);
        }
        let mut v: Vec<ViewTab> = Vec::new();
        let mut i: usize = 0;
        while i < self.tabs.len()
            invariant
                i <= self.tabs@.len(),
                v@.len() == i,
                forall|j: int|
                    0 <= j < i ==> #[trigger] v@[j]@ == if self@.0[j].playlist == Some(from@) {
                        TabView { playlist: Some(to@), ..self@.0[j] }
                    } else {
                        self@.0[j]
                    },
            decreases self.tabs@.len() - i,
        {
            let t = &self.tabs[i];
            assert(t@ == self@.0[i as int]);
            let mut n = t.copy();
            let hit = match &t.playlist {
                Some(open) => same_str(open.as_str(), from),
                None => false,
            };
            if hit {
                let c = chars_of(to);
                n.playlist = Some(string_of(c.as_slice()));
            }
            v.push(n);
            i = i + 1;
        }
        let idx = self.idx;
        *self = Tabs { tabs: v, idx };
    }

    /// After `:w`, or after the changes are thrown away: nothing in the tabs
    /// is left to write; with `others_only`, in the tabs other than the one
    /// being looked at.
    pub fn clean(&mut self, others_only: bool)
        ensures
            final(self)@.1 == old(self)@.1,
            within(final(self)@),
            final(self)@.0.len() == old(self)@.0.len(),
            forall|i: int|
                0 <= i < old(self)@.0.len() ==> #[trigger] final(self)@.0[i] == if others_only && i
                    == old(self)@.1 {
                    old(self)@.0[i]
                } else {
                    TabView { dirty: false, ..old(self)@.0[i] }
                },
    {
        proof {
            use_type_invariant(&*self);
        }
        let mut v: Vec<ViewTab> = Vec::new();
        let mut i: usize = 0;
        while i < self.tabs.len()
            invariant
                i <= self.tabs@.len(),
                v@.len() == i,
                forall|j: int|
                    0 <= j < i ==> #[trigger] v@[j]@ == if others_only && j == self@.1 {
                        self@.0[j]
                    } else {
                        TabView { dirty: false, ..self@.0[j] }
                    },
            decreases self.tabs@.len() - i,
        {
            let t = &self.tabs[i];
            assert(t@ == self@.0[i as int]);
            let mut n = t.copy();
            if !(others_only && i == self.idx) {
                n.dirty = false;
            }
            v.push(n);
            i = i + 1;
        }
        let idx = self.idx;
        *self = Tabs { tabs: v, idx };
    }
}

/// Every row of every tab is below `n`.
pub open spec fn rows_below(tabs: Seq<TabView>, n: int) -> bool {
    forall|j: int, k: int| 0 <= j < tabs.len() && 0 <= k < tabs[j].rows.len() ==> #[trigger] tabs[j].rows[k] < n
}

/// A view is only ever open in one tab. With the views open distinct, and
/// the view asked for (`playlist`, or with none `folder`) shown by no tab, the
/// tab `open_after` adds and the program fills with that view (`shown`) keeps
/// them distinct; and closing a tab leaves them distinct.
pub proof fn law_a_view_is_open_in_one_tab(
    tabs: Seq<TabView>,
    idx: int,
    now: TabView,
    playlist: Option<Seq<char>>,
    folder: usize,
    shown: TabView,
)
    requires
        0 <= idx < tabs.len(),
        views_distinct(tabs.update(idx, now)),
        shows(shown, playlist, folder),
    ensures
        (forall|j: int| 0 <= j < tabs.len() ==> !shows(#[trigger] tabs.update(idx, now)[j], playlist, folder))
            ==> views_distinct(tabs.update(idx, now).insert(idx + 1, now).update(idx + 1, shown)),
        views_distinct(tabs.update(idx, now).remove(idx)),
{
    let s = tabs.update(idx, now);
    let after = s.insert(idx + 1, now).update(idx + 1, shown);
    assert(after =~= s.insert(idx + 1, shown));
    if forall|j: int| 0 <= j < tabs.len() ==> !shows(#[trigger] s[j], playlist, folder) {
        assert forall|a: int, b: int| 0 <= a < b < after.len() implies !same_view(
            #[trigger] after[a],
            #[trigger] after[b],
        ) by {
            if a == idx + 1 {
                assert(after[b] == s[b - 1]);
                assert(!shows(s[b - 1], playlist, folder));
            } else if b == idx + 1 {
                assert(after[a] == s[a]);
                assert(!shows(s[a], playlist, folder));
            } else {
                let a0 = if a < idx + 1 {
                    a
                } else {
                    a - 1
                };
                let b0 = if b < idx + 1 {
                    b
                } else {
                    b - 1
                };
                assert(after[a] == s[a0]);
                assert(after[b] == s[b0]);
                assert(!same_view(s[a0], s[b0]));
            }
        }
    }
    let r = s.remove(idx);
    assert forall|a: int, b: int| 0 <= a < b < r.len() implies !same_view(#[trigger] r[a], #[trigger] r[b]) by {
        let a0 = if a < idx {
            a
        } else {
            a + 1
        };
        let b0 = if b < idx {
            b
        } else {
            b + 1
        };
        assert(r[a] == s[a0]);
        assert(r[b] == s[b0]);
        assert(!same_view(s[a0], s[b0]));
    }
}

} // verus!
