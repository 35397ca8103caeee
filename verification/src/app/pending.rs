//! Everything waiting for a `:w`: the renames typed so far, and the paths
//! they would produce. One `:w` applies the lot and `u` takes any of it back,
//! so nothing here touches the disk.

use vstd::prelude::*;

use crate::assoc::{keys_distinct, lemma_to_map_at, lemma_to_map_dom, lemma_to_map_remove, to_map};
use crate::library::{
    extension, last_dot, parent, path_lt, spec_extension, spec_parent, spec_path_lt, text_less, text_lt,
    Track,
};
use crate::name::NameBuffer;
use crate::app::rows::{cut_rows, put_rows, rows_of, spec_rows_of};
use crate::paths::{
    depth, file_name, is_under, path_under, spec_depth, spec_file_name, spec_strip_prefix, strip_prefix,
};
use crate::text::{
    chars_of, decimal, push_chars, push_str, same_str, spec_decimal, spec_trim, string_of, trim,
};

verus! {

// ---- paths ------------------------------------------------------------------

/// `Path::push` on text: a name that starts at the root replaces the path,
/// anything else goes after a `/`, which is added unless the path is empty
/// or already ends in one.
pub open spec fn spec_join(base: Seq<char>, name: Seq<char>) -> Seq<char> {
    if name.len() > 0 && name[0] == '/' {
        name
    } else if base.len() == 0 || base.last() == '/' {
        base + name
    } else {
        base + seq!['/'] + name
    }
}

pub fn join(base: &[char], name: &[char]) -> (r: Vec<char>)
    ensures
        r@ == spec_join(base@, name@),
{
    let mut v: Vec<char> = Vec::new();
    if name.len() > 0 && name[0] == '/' {
        push_chars(&mut v, name);
        return v;
    }
    push_chars(&mut v, base);
    if base.len() > 0 && base[base.len() - 1] != '/' {
        v.push('/');
    }
    push_chars(&mut v, name);
    v
}

/// `Path::with_file_name`: the last component replaced by `name`, or `name`
/// pushed when the path has no last component to replace.
pub open spec fn spec_with_file_name(p: Seq<char>, name: Seq<char>) -> Seq<char> {
    let base = match (spec_file_name(p), spec_parent(p)) {
        (Some(_), Some(d)) => d,
        _ => p,
    };
    spec_join(base, name)
}

pub fn with_file_name(p: &[char], name: &[char]) -> (r: Vec<char>)
    ensures
        r@ == spec_with_file_name(p@, name@),
{
    let has_name = match file_name(p) {
        Some(_) => true,
        None => false,
    };
    match parent(p) {
        Some(d) => if has_name {
            return join(d.as_slice(), name);
        },
        None => {},
    }
    join(p, name)
}


// ---- what a rename renames ------------------------------------------------

/// What a rename is renaming. Tracks come from the list, folders and
/// playlists from the sidebar, and all three wait in the same pending set.
pub enum Renaming {
    /// A track, by its index in the library.
    Track(usize),
    /// A folder, by its path.
    Folder(String),
    /// A playlist, by its name.
    Playlist(String),
}

/// A `Renaming` for the contracts.
pub enum Target {
    Track(usize),
    Folder(Seq<char>),
    Playlist(Seq<char>),
}

impl View for Renaming {
    type V = Target;

    open spec fn view(&self) -> Target {
        match self {
            Renaming::Track(i) => Target::Track(*i),
            Renaming::Folder(p) => Target::Folder(p@),
            Renaming::Playlist(n) => Target::Playlist(n@),
        }
    }
}

impl Clone for Renaming {
    fn clone(&self) -> (r: Renaming)
        ensures
            r@ == self@,
    {
        match self {
            Renaming::Track(i) => Renaming::Track(*i),
            Renaming::Folder(p) => Renaming::Folder(p.clone()),
            Renaming::Playlist(n) => Renaming::Playlist(n.clone()),
        }
    }
}

/// Two renamings of the same thing.
pub fn same_target(a: &Renaming, b: &Renaming) -> (r: bool)
    ensures
        r == (a@ == b@),
{
    match (a, b) {
        (Renaming::Track(x), Renaming::Track(y)) => *x == *y,
        (Renaming::Folder(x), Renaming::Folder(y)) => same_str(x.as_str(), y.as_str()),
        (Renaming::Playlist(x), Renaming::Playlist(y)) => same_str(x.as_str(), y.as_str()),
        _ => false,
    }
}

pub open spec fn rank(t: Target) -> int {
    match t {
        Target::Track(_) => 0,
        Target::Folder(_) => 1,
        Target::Playlist(_) => 2,
    }
}

/// The order the pending renames are kept and applied in: tracks by index,
/// then folders by path, then playlists by name.
pub open spec fn spec_before(a: Target, b: Target) -> bool {
    match (a, b) {
        (Target::Track(x), Target::Track(y)) => x < y,
        (Target::Folder(x), Target::Folder(y)) => spec_path_lt(x, y),
        (Target::Playlist(x), Target::Playlist(y)) => text_lt(x, y),
        _ => rank(a) < rank(b),
    }
}

pub fn before(a: &Renaming, b: &Renaming) -> (r: bool)
    ensures
        r == spec_before(a@, b@),
{
    match (a, b) {
        (Renaming::Track(x), Renaming::Track(y)) => *x < *y,
        (Renaming::Folder(x), Renaming::Folder(y)) => path_lt(x.as_str(), y.as_str()),
        (Renaming::Playlist(x), Renaming::Playlist(y)) => {
            let xs = crate::text::chars_of(x.as_str());
            let ys = crate::text::chars_of(y.as_str());
            text_less(xs.as_slice(), ys.as_slice())
        },
        (Renaming::Track(_), _) => true,
        (Renaming::Folder(_), Renaming::Playlist(_)) => true,
        _ => false,
    }
}

// ---- the pending renames ----------------------------------------------------

/// `k` has an entry.
pub open spec fn has_entry(s: Seq<(Target, Seq<char>)>, k: Target) -> bool {
    exists|i: int| 0 <= i < s.len() && s[i].0 == k
}

/// Where `k`'s entry is, when it has one.
pub open spec fn where_is(s: Seq<(Target, Seq<char>)>, k: Target) -> int {
    choose|i: int| 0 <= i < s.len() && s[i].0 == k
}

/// The name waiting for `k`, if any.
pub open spec fn value_of(s: Seq<(Target, Seq<char>)>, k: Target) -> Option<Seq<char>> {
    if has_entry(s, k) {
        Some(s[where_is(s, k)].1)
    } else {
        None
    }
}

/// The first entry `k` goes before, from `j` on; the end when there is none.
pub open spec fn slot_from(s: Seq<(Target, Seq<char>)>, k: Target, j: int) -> int
    decreases s.len() - j,
{
    if j >= s.len() {
        s.len() as int
    } else if spec_before(k, s[j].0) {
        j
    } else {
        slot_from(s, k, j + 1)
    }
}

/// A rename queued for `k`: a new name for something already waiting
/// replaces it where it stands; anything else goes in order.
pub open spec fn spec_put(s: Seq<(Target, Seq<char>)>, k: Target, v: Seq<char>) -> Seq<(Target, Seq<char>)> {
    if has_entry(s, k) {
        s.update(where_is(s, k), (k, v))
    } else {
        s.insert(slot_from(s, k, 0), (k, v))
    }
}

/// The rename for `k` dropped, if there was one.
pub open spec fn spec_drop(s: Seq<(Target, Seq<char>)>, k: Target) -> Seq<(Target, Seq<char>)> {
    if has_entry(s, k) {
        s.remove(where_is(s, k))
    } else {
        s
    }
}

pub proof fn lemma_slot_bounds(s: Seq<(Target, Seq<char>)>, k: Target, j: int)
    requires
        0 <= j <= s.len(),
    ensures
        j <= slot_from(s, k, j) <= s.len(),
    decreases s.len() - j,
{
    if j < s.len() && !spec_before(k, s[j].0) {
        lemma_slot_bounds(s, k, j + 1);
    }
}

/// The renames waiting for `:w`, in the order they are applied, nothing
/// renamed twice.
pub struct Renames {
    entries: Vec<(Renaming, String)>,
}

impl View for Renames {
    type V = Seq<(Target, Seq<char>)>;

    closed spec fn view(&self) -> Seq<(Target, Seq<char>)> {
        self.entries@.map_values(|e: (Renaming, String)| (e.0@, e.1@))
    }
}

impl Renames {
    #[verifier::type_invariant]
    spec fn inv(self) -> bool {
        keys_distinct(self@)
    }

    pub fn new() -> (r: Renames)
        ensures
            r@ == Seq::<(Target, Seq<char>)>::empty(),
    {
        let r = Renames { entries: Vec::new() };
        assert(r@ =~= Seq::<(Target, Seq<char>)>::empty());
        r
    }

    /// No target is renamed twice, whatever has been queued.
    pub fn distinct(&self)
        ensures
            keys_distinct(self@),
    {
        proof { use_type_invariant(self); }
    }

    pub fn len(&self) -> (n: usize)
        ensures
            n == self@.len(),
    {
        self.entries.len()
    }

    pub fn is_empty(&self) -> (b: bool)
        ensures
            b == (self@.len() == 0),
    {
        self.entries.len() == 0
    }

    /// The `i`th rename, in order: what, and its new name.
    pub fn entry(&self, i: usize) -> (r: (Renaming, String))
        requires
            i < self@.len(),
        ensures
            r.0@ == self@[i as int].0,
            r.1@ == self@[i as int].1,
    {
        let e = &self.entries[i];
        (e.0.clone(), e.1.clone())
    }

    fn find(&self, what: &Renaming) -> (r: Option<usize>)
        ensures
            match r {
                Some(i) => i < self@.len() && self@[i as int].0 == what@ && where_is(self@, what@) == i,
                None => !has_entry(self@, what@),
            },
    {
        proof { use_type_invariant(self); }
        let mut i: usize = 0;
        while i < self.entries.len()
            invariant
                i <= self.entries@.len(),
                self@.len() == self.entries@.len(),
                self@ == self.entries@.map_values(|e: (Renaming, String)| (e.0@, e.1@)),
                forall|j: int| 0 <= j < i ==> self@[j].0 != what@,
                keys_distinct(self@),
            decreases self.entries@.len() - i,
        {
            if same_target(&self.entries[i].0, what) {
                assert(self@[i as int].0 == what@);
                proof {
                    let w = where_is(self@, what@);
                    assert(keys_distinct(self@));
                    assert(w == i);
                }
                return Some(i);
            }
            i = i + 1;
        }
        None
    }

    /// The name waiting for `what`, if any.
    pub fn get(&self, what: &Renaming) -> (r: Option<String>)
        ensures
            match (r, value_of(self@, what@)) {
                (Some(n), Some(v)) => n@ == v,
                (None, None) => true,
                _ => false,
            },
    {
        match self.find(what) {
            Some(i) => Some(self.entries[i].1.clone()),
            None => None,
        }
    }

    /// Queues `name` for `what`, replacing a name already waiting for it.
    pub fn insert(&mut self, what: Renaming, name: String)
        ensures
            final(self)@ == spec_put(old(self)@, what@, name@),
    {
        proof { use_type_invariant(&*self); }
        match self.find(&what) {
            Some(i) => {
                let mut entries = Vec::new();
                std::mem::swap(&mut entries, &mut self.entries);
                entries.set(i, (what, name));
                let ghost before = old(self)@;
                let ghost after = entries@.map_values(|e: (Renaming, String)| (e.0@, e.1@));
                assert(after =~= before.update(i as int, (what@, name@)));
                proof {
                    assert forall|a: int, b: int| 0 <= a < b < after.len() implies after[a].0 != after[b].0 by {
                        assert(before[i as int].0 == what@);
                    }
                }
                self.entries = entries;
            },
            None => {
                let mut j: usize = 0;
                let ghost s = old(self)@;
                proof { lemma_slot_bounds(s, what@, 0); }
                while j < self.entries.len() && !before(&what, &self.entries[j].0)
                    invariant
                        j <= self.entries@.len(),
                        s == self.entries@.map_values(|e: (Renaming, String)| (e.0@, e.1@)),
                        slot_from(s, what@, j as int) == slot_from(s, what@, 0),
                    decreases self.entries@.len() - j,
                {
                    j = j + 1;
                }
                let mut entries = Vec::new();
                std::mem::swap(&mut entries, &mut self.entries);
                let ghost k = what@;
                let ghost v = name@;
                entries.insert(j, (what, name));
                let ghost after = entries@.map_values(|e: (Renaming, String)| (e.0@, e.1@));
                assert(after =~= s.insert(j as int, (k, v)));
                proof {
                    assert forall|a: int, b: int| 0 <= a < b < after.len() implies after[a].0 != after[b].0 by {
                        if a == j {
                            assert(after[b] == s[b - 1]);
                        } else if b == j {
                            assert(after[a] == s[a]);
                        } else {
                            let a0 = if a < j { a } else { a - 1 };
                            let b0 = if b < j { b } else { b - 1 };
                            assert(after[a] == s[a0]);
                            assert(after[b] == s[b0]);
                        }
                    }
                }
                self.entries = entries;
            },
        }
    }

    /// Drops whatever is waiting for `what`.
    pub fn remove(&mut self, what: &Renaming)
        ensures
            final(self)@ == spec_drop(old(self)@, what@),
    {
        proof { use_type_invariant(&*self); }
        match self.find(what) {
            Some(i) => {
                let mut entries = Vec::new();
                std::mem::swap(&mut entries, &mut self.entries);
                let ghost s = old(self)@;
                let _ = entries.remove(i);
                let ghost after = entries@.map_values(|e: (Renaming, String)| (e.0@, e.1@));
                assert(after =~= s.remove(i as int));
                proof {
                    assert forall|a: int, b: int| 0 <= a < b < after.len() implies after[a].0 != after[b].0 by {
                        let a0 = if a < i { a } else { a + 1 };
                        let b0 = if b < i { b } else { b + 1 };
                        assert(after[a] == s[a0]);
                        assert(after[b] == s[b0]);
                    }
                }
                self.entries = entries;
            },
            None => {},
        }
    }

    /// Everything dropped, as `:w` and `:e!` leave it.
    pub fn clear(&mut self)
        ensures
            final(self)@ == Seq::<(Target, Seq<char>)>::empty(),
    {
        self.entries = Vec::new();
        assert(self@ =~= Seq::<(Target, Seq<char>)>::empty());
    }
}

impl Clone for Renames {
    fn clone(&self) -> (r: Renames)
        ensures
            r@ == self@,
    {
        proof { use_type_invariant(self); }
        let mut entries: Vec<(Renaming, String)> = Vec::new();
        let mut i: usize = 0;
        while i < self.entries.len()
            invariant
                i <= self.entries@.len(),
                entries@.len() == i,
                forall|j: int| 0 <= j < i ==> (#[trigger] entries@[j]).0@ == self.entries@[j].0@ && entries@[j].1@ == self.entries@[j].1@,
            decreases self.entries@.len() - i,
        {
            let e = &self.entries[i];
            entries.push((e.0.clone(), e.1.clone()));
            i = i + 1;
        }
        assert(entries@.map_values(|e: (Renaming, String)| (e.0@, e.1@)) =~= self@);
        Renames { entries }
    }
}


/// A rename queued for `k` reads back as the name queued, and every other
/// waiting rename reads as it did.
pub proof fn law_a_queued_name_reads_back(s: Seq<(Target, Seq<char>)>, k: Target, v: Seq<char>, other: Target)
    requires
        keys_distinct(s),
        other != k,
    ensures
        keys_distinct(spec_put(s, k, v)),
        value_of(spec_put(s, k, v), k) == Some(v),
        value_of(spec_put(s, k, v), other) == value_of(s, other),
{
    let t = spec_put(s, k, v);
    if has_entry(s, k) {
        let i = where_is(s, k);
        assert(t[i].0 == k);
        assert forall|a: int, b: int| 0 <= a < b < t.len() implies t[a].0 != t[b].0 by {
            assert(s[i].0 == k);
        }
        assert(has_entry(t, k));
        let w = where_is(t, k);
        assert(w == i);
        if has_entry(s, other) {
            let j = where_is(s, other);
            assert(t[j].0 == other);
            assert(has_entry(t, other));
            assert(where_is(t, other) == j);
        } else {
            if has_entry(t, other) {
                let j = where_is(t, other);
                assert(s[j].0 == other);
            }
        }
    } else {
        let p = slot_from(s, k, 0);
        lemma_slot_bounds(s, k, 0);
        assert(t[p].0 == k);
        assert forall|a: int, b: int| 0 <= a < b < t.len() implies t[a].0 != t[b].0 by {
            if a == p {
                assert(t[b] == s[b - 1]);
            } else if b == p {
                assert(t[a] == s[a]);
            } else {
                let a0 = if a < p { a } else { a - 1 };
                let b0 = if b < p { b } else { b - 1 };
                assert(t[a] == s[a0]);
                assert(t[b] == s[b0]);
            }
        }
        assert(has_entry(t, k));
        assert(where_is(t, k) == p);
        if has_entry(s, other) {
            let j = where_is(s, other);
            let j2 = if j < p { j } else { j + 1 };
            assert(t[j2] == s[j]);
            assert(has_entry(t, other));
            assert(where_is(t, other) == j2);
        } else {
            if has_entry(t, other) {
                let j = where_is(t, other);
                assert(j != p);
                let j0 = if j < p { j } else { j - 1 };
                assert(t[j] == s[j0]);
            }
        }
    }
}

/// A dropped rename is gone, and every other waiting rename reads as it did.
pub proof fn law_a_dropped_name_is_gone(s: Seq<(Target, Seq<char>)>, k: Target, other: Target)
    requires
        keys_distinct(s),
        other != k,
    ensures
        keys_distinct(spec_drop(s, k)),
        value_of(spec_drop(s, k), k) is None,
        value_of(spec_drop(s, k), other) == value_of(s, other),
{
    let t = spec_drop(s, k);
    if has_entry(s, k) {
        let i = where_is(s, k);
        assert forall|a: int, b: int| 0 <= a < b < t.len() implies t[a].0 != t[b].0 by {
            let a0 = if a < i { a } else { a + 1 };
            let b0 = if b < i { b } else { b + 1 };
            assert(t[a] == s[a0]);
            assert(t[b] == s[b0]);
        }
        if has_entry(t, k) {
            let j = where_is(t, k);
            let j0 = if j < i { j } else { j + 1 };
            assert(t[j] == s[j0]);
        }
        if has_entry(s, other) {
            let j = where_is(s, other);
            assert(j != i);
            let j2 = if j < i { j } else { j - 1 };
            assert(t[j2] == s[j]);
            assert(has_entry(t, other));
            assert(where_is(t, other) == j2);
        } else {
            if has_entry(t, other) {
                let j = where_is(t, other);
                let j0 = if j < i { j } else { j + 1 };
                assert(t[j] == s[j0]);
            }
        }
    }
}

// ---- the name being typed ---------------------------------------------------

/// The name being typed right now, and what it will rename. Only one thing
/// is typed at a time, in whichever pane `c` opened.
pub struct NameEdit {
    pub buf: NameBuffer,
    pub what: Renaming,
}

/// The name a thing has on disk right now: a track's file name without its
/// extension, a folder's last component, a playlist's name; nothing for a
/// track index the library does not have.
pub open spec fn spec_name_of(t: Target, tracks: Seq<Track>) -> Seq<char> {
    match t {
        Target::Track(i) => if i < tracks.len() {
            tracks[i as int].file@
        } else {
            Seq::empty()
        },
        Target::Folder(p) => match spec_file_name(p) {
            Some(n) => n,
            None => Seq::empty(),
        },
        Target::Playlist(n) => n,
    }
}

pub fn name_of(what: &Renaming, tracks: &Vec<Track>) -> (n: String)
    ensures
        n@ == spec_name_of(what@, tracks@),
{
    match what {
        Renaming::Track(i) => if *i < tracks.len() {
            tracks[*i].file.clone()
        } else {
            String::new()
        },
        Renaming::Folder(p) => {
            let cs = chars_of(p.as_str());
            match file_name(cs.as_slice()) {
                Some(n) => string_of(n.as_slice()),
                None => String::new(),
            }
        },
        Renaming::Playlist(n) => n.clone(),
    }
}

/// What leaving a name does to the pending renames.
pub enum Commit {
    /// The name is back to what it is on disk: any rename waiting for it goes.
    Forget,
    /// A new name, trimmed, to queue (after an undo snapshot).
    Queue(String),
    /// A name typed away to nothing is not a rename: nothing changes.
    Keep,
}

pub open spec fn spec_commit(typed: Seq<char>, was: Seq<char>) -> Option<Option<Seq<char>>> {
    let name = spec_trim(typed);
    if name == was {
        Some(None)
    } else if name.len() > 0 {
        Some(Some(name))
    } else {
        None
    }
}

/// Leaving a name: nothing is written; a changed name joins the pending set
/// with everything else waiting for `:w`.
pub fn commit_decision(edit: &NameEdit, tracks: &Vec<Track>) -> (c: Commit)
    ensures
        match (c, spec_commit(edit.buf@.text, spec_name_of(edit.what@, tracks@))) {
            (Commit::Forget, Some(None)) => true,
            (Commit::Queue(n), Some(Some(v))) => n@ == v,
            (Commit::Keep, None) => true,
            _ => false,
        },
{
    let text = chars_of(edit.buf.text().as_str());
    let name = trim(text.as_slice());
    let was = name_of(&edit.what, tracks);
    let name_s = string_of(name.as_slice());
    if same_str(name_s.as_str(), was.as_str()) {
        Commit::Forget
    } else if name.len() > 0 {
        Commit::Queue(name_s)
    } else {
        Commit::Keep
    }
}

/// The name to show for something: the one being typed, then any rename
/// waiting for it.
/// The name a thing shows under: the one being typed for it, else the one
/// waiting for `:w`, else none and it shows its own.
pub open spec fn spec_shown_name(renames: Seq<(Target, Seq<char>)>, edit: Option<(Target, Seq<char>)>, what: Target) -> Option<Seq<char>> {
    match edit {
        Some((w, text)) if w == what => Some(text),
        _ => value_of(renames, what),
    }
}

pub fn shown_name(renames: &Renames, edit: &Option<NameEdit>, what: &Renaming) -> (r: Option<String>)
    ensures
        match r {
            Some(n) => spec_shown_name(renames@, edit_view(*edit), what@) == Some(n@),
            None => spec_shown_name(renames@, edit_view(*edit), what@) is None,
        },
        match edit {
            Some(e) if e.what@ == what@ => r matches Some(n) && n@ == e.buf@.text,
            _ => match (r, value_of(renames@, what@)) {
                (Some(n), Some(v)) => n@ == v,
                (None, None) => true,
                _ => false,
            },
        },
{
    if let Some(e) = edit {
        if same_target(&e.what, what) {
            return Some(e.buf.text());
        }
    }
    renames.get(what)
}

/// A name has been changed and not written: something waits, or the name
/// being typed differs from the one on disk.
pub fn edit_dirty(renames: &Renames, edit: &Option<NameEdit>, tracks: &Vec<Track>) -> (b: bool)
    ensures
        b == (renames@.len() > 0 || match edit {
            Some(e) => e.buf@.text != spec_name_of(e.what@, tracks@),
            None => false,
        }),
{
    if !renames.is_empty() {
        return true;
    }
    match edit {
        Some(e) => {
            let t = e.buf.text();
            let was = name_of(&e.what, tracks);
            !same_str(t.as_str(), was.as_str())
        },
        None => false,
    }
}

/// The renames `:w` would do now: those waiting, with the name being typed
/// in as it stands (or out, when it is blank or back to the name on disk).
pub open spec fn spec_queued(s: Seq<(Target, Seq<char>)>, edit: Option<(Target, Seq<char>)>, tracks: Seq<Track>) -> Seq<(Target, Seq<char>)> {
    match edit {
        Some((k, now)) => if spec_trim(now).len() == 0 || now == spec_name_of(k, tracks) {
            spec_drop(s, k)
        } else {
            spec_put(s, k, now)
        },
        None => s,
    }
}

pub open spec fn edit_view(edit: Option<NameEdit>) -> Option<(Target, Seq<char>)> {
    match edit {
        Some(e) => Some((e.what@, e.buf@.text)),
        None => None,
    }
}

pub fn queued(renames: &Renames, edit: &Option<NameEdit>, tracks: &Vec<Track>) -> (q: Renames)
    ensures
        q@ == spec_queued(renames@, edit_view(*edit), tracks@),
{
    let mut q = renames.clone();
    if let Some(e) = edit {
        let now = e.buf.text();
        let cs = chars_of(now.as_str());
        let trimmed = trim(cs.as_slice());
        let was = name_of(&e.what, tracks);
        if trimmed.len() == 0 || same_str(now.as_str(), was.as_str()) {
            q.remove(&e.what);
        } else {
            q.insert(e.what.clone(), now);
        }
    }
    q
}

// ---- where a rename puts things ---------------------------------------------

/// Where a rename would put something: a track keeps its extension (added
/// by hand, since a name like `Mr. Blue Sky` has dots of its own), a folder
/// is renamed in place, a playlist is `name.m3u` in the playlist folder.
/// Nothing for a track index the library does not have, or a playlist when
/// there is no playlist folder.
pub open spec fn spec_rename_target(t: Target, name: Seq<char>, tracks: Seq<Track>, lists: Option<Seq<char>>) -> Option<Seq<char>> {
    match t {
        Target::Track(i) => if i < tracks.len() {
            let path = tracks[i as int].path@;
            let file = match spec_extension(path) {
                Some(ext) => name + seq!['.'] + ext,
                None => name,
            };
            Some(spec_with_file_name(path, file))
        } else {
            None
        },
        Target::Folder(p) => Some(spec_with_file_name(p, name)),
        Target::Playlist(_) => match lists {
            Some(d) => Some(spec_join(d, name + ".m3u"@)),
            None => None,
        },
    }
}

pub fn rename_target(what: &Renaming, name: &str, tracks: &Vec<Track>, lists: &Option<String>) -> (r: Option<String>)
    ensures
        match (r, spec_rename_target(what@, name@, tracks@, match lists {
            Some(d) => Some(d@),
            None => None,
        })) {
            (Some(a), Some(b)) => a@ == b,
            (None, None) => true,
            _ => false,
        },
{
    match what {
        Renaming::Track(i) => {
            if *i >= tracks.len() {
                return None;
            }
            let path = chars_of(tracks[*i].path.as_str());
            let mut file = chars_of(name);
            match extension(path.as_slice()) {
                Some(ext) => {
                    file.push('.');
                    push_chars(&mut file, ext.as_slice());
                },
                None => {},
            }
            let to = with_file_name(path.as_slice(), file.as_slice());
            Some(string_of(to.as_slice()))
        },
        Renaming::Folder(p) => {
            let path = chars_of(p.as_str());
            let n = chars_of(name);
            Some(string_of(with_file_name(path.as_slice(), n.as_slice()).as_slice()))
        },
        Renaming::Playlist(_) => match lists {
            Some(d) => {
                let mut file = chars_of(name);
                push_str(&mut file, ".m3u");
                let dir = chars_of(d.as_str());
                Some(string_of(join(dir.as_slice(), file.as_slice()).as_slice()))
            },
            None => None,
        },
    }
}


/// Why a name cannot be written, checked before anything is renamed so a
/// bad name stops the whole write: empty, holding a `/` (a rename never
/// moves), or naming something that already exists (`taken`).
pub open spec fn spec_problem(name: Seq<char>, taken: bool) -> Option<Seq<char>> {
    if name.len() == 0 {
        Some("a name cannot be empty"@)
    } else if name.contains('/') {
        Some("a name cannot contain `/`, this renames but never moves"@)
    } else if taken {
        Some("`"@ + name + "` already exists here"@)
    } else {
        None
    }
}

/// The first problem among the renames from `i` on, names trimmed.
pub open spec fn first_problem(q: Seq<(Target, Seq<char>)>, taken: Seq<bool>, i: int) -> Option<Seq<char>>
    decreases q.len() - i,
{
    if i < 0 || i >= q.len() {
        None
    } else {
        match spec_problem(spec_trim(q[i].1), taken[i]) {
            Some(m) => Some(m),
            None => first_problem(q, taken, i + 1),
        }
    }
}

/// Another rename in the batch takes the file at `to` away: the `j`th rename
/// (`j` not `i`) renames the track whose file is at `to`.
pub open spec fn renamed_away(q: Seq<(Target, Seq<char>)>, i: int, tracks: Seq<Track>, to: Seq<char>, j: int) -> bool {
    &&& 0 <= j < q.len()
    &&& j != i
    &&& match q[j].0 {
        Target::Track(k) => k < tracks.len() && tracks[k as int].path@ == to,
        _ => false,
    }
}

/// The same write takes the file at `to` away before the `i`th rename lands
/// on it: `dd` marked it, another rename or a move takes it away, or it is
/// inside a folder `dd` marked.
pub open spec fn vacated(
    to: Seq<char>,
    i: int,
    q: Seq<(Target, Seq<char>)>,
    tracks: Seq<Track>,
    doomed_files: Seq<Seq<char>>,
    moves: Seq<(Seq<char>, Seq<char>)>,
    doomed_dirs: Seq<Seq<char>>,
) -> bool {
    ||| doomed_files.contains(to)
    ||| exists|j: int| renamed_away(q, i, tracks, to, j)
    ||| exists|k: int| 0 <= k < moves.len() && (#[trigger] moves[k]).0 == to
    ||| exists|d: int| 0 <= d < doomed_dirs.len() && path_under(to, #[trigger] doomed_dirs[d])
}

/// A track rename whose target the same write vacates: the clash is left to
/// the planner, which orders the steps so the name is free when it is taken.
/// Folder and playlist renames are never excused.
pub open spec fn freed(
    q: Seq<(Target, Seq<char>)>,
    i: int,
    tracks: Seq<Track>,
    doomed_files: Seq<Seq<char>>,
    moves: Seq<(Seq<char>, Seq<char>)>,
    doomed_dirs: Seq<Seq<char>>,
) -> bool {
    match q[i].0 {
        Target::Track(_) => match spec_rename_target(q[i].0, spec_trim(q[i].1), tracks, None) {
            Some(to) => vacated(to, i, q, tracks, doomed_files, moves, doomed_dirs),
            None => false,
        },
        _ => false,
    }
}

/// Which targets count as taken: on disk (`taken`), and not vacated by the
/// same write.
pub open spec fn clashes(q: Seq<(Target, Seq<char>)>, taken: Seq<bool>, tracks: Seq<Track>, p: Pending) -> Seq<bool> {
    Seq::new(
        q.len(),
        |i: int|
            taken[i] && !freed(
                q,
                i,
                tracks,
                strings_view(p.doomed_files@),
                pair_view(p.moves@),
                strings_view(p.doomed_dirs@),
            ),
    )
}

/// Whether the write that `p` and the renames `q` make takes the file at
/// `to` away before the `i`th rename lands on it.
fn vacated_by(to: &str, i: usize, q: &Renames, tracks: &Vec<Track>, p: &Pending) -> (b: bool)
    requires
        i < q@.len(),
    ensures
        b == vacated(
            to@,
            i as int,
            q@,
            tracks@,
            strings_view(p.doomed_files@),
            pair_view(p.moves@),
            strings_view(p.doomed_dirs@),
        ),
{
    let ghost files = strings_view(p.doomed_files@);
    let ghost moves = pair_view(p.moves@);
    let ghost dirs = strings_view(p.doomed_dirs@);
    let mut k: usize = 0;
    while k < p.doomed_files.len()
        invariant
            k <= p.doomed_files@.len(),
            files == strings_view(p.doomed_files@),
            forall|m: int| 0 <= m < k ==> files[m] != to@,
        decreases p.doomed_files@.len() - k,
    {
        if same_str(p.doomed_files[k].as_str(), to) {
            assert(files[k as int] == to@);
            return true;
        }
        k = k + 1;
    }
    assert(!files.contains(to@));
    let mut j: usize = 0;
    while j < q.len()
        invariant
            j <= q@.len(),
            i < q@.len(),
            forall|m: int| 0 <= m < j ==> !renamed_away(q@, i as int, tracks@, to@, m),
        decreases q@.len() - j,
    {
        if j != i {
            let (what, _) = q.entry(j);
            if let Renaming::Track(t) = what {
                if t < tracks.len() && same_str(tracks[t].path.as_str(), to) {
                    assert(renamed_away(q@, i as int, tracks@, to@, j as int));
                    return true;
                }
            }
        }
        j = j + 1;
    }
    let mut m: usize = 0;
    while m < p.moves.len()
        invariant
            m <= p.moves@.len(),
            moves == pair_view(p.moves@),
            forall|n: int| 0 <= n < m ==> moves[n].0 != to@,
        decreases p.moves@.len() - m,
    {
        if same_str(p.moves[m].0.as_str(), to) {
            assert(moves[m as int].0 == to@);
            return true;
        }
        m = m + 1;
    }
    let tc = chars_of(to);
    let mut d: usize = 0;
    while d < p.doomed_dirs.len()
        invariant
            d <= p.doomed_dirs@.len(),
            dirs == strings_view(p.doomed_dirs@),
            tc@ == to@,
            forall|n: int| 0 <= n < d ==> !path_under(to@, dirs[n]),
        decreases p.doomed_dirs@.len() - d,
    {
        let dc = chars_of(p.doomed_dirs[d].as_str());
        if is_under(tc.as_slice(), dc.as_slice()) {
            assert(path_under(to@, dirs[d as int]));
            return true;
        }
        d = d + 1;
    }
    false
}

/// Which renames clash with a file: its target is on disk (`taken`) and,
/// for a track, the same write does not take that file away first.
pub fn clashes_of(q: &Renames, taken: &Vec<bool>, tracks: &Vec<Track>, p: &Pending) -> (c: Vec<bool>)
    requires
        taken@.len() == q@.len(),
    ensures
        c@ == clashes(q@, taken@, tracks@, *p),
{
    let mut c: Vec<bool> = Vec::new();
    let mut i: usize = 0;
    while i < q.len()
        invariant
            i <= q@.len(),
            taken@.len() == q@.len(),
            c@ == clashes(q@, taken@, tracks@, *p).take(i as int),
        decreases q@.len() - i,
    {
        let (what, name) = q.entry(i);
        let excused = match what {
            Renaming::Track(_) => {
                let cs = chars_of(name.as_str());
                let n = string_of(trim(cs.as_slice()).as_slice());
                match rename_target(&what, n.as_str(), tracks, &None) {
                    Some(to) => vacated_by(to.as_str(), i, q, tracks, p),
                    None => false,
                }
            },
            _ => false,
        };
        c.push(taken[i] && !excused);
        i = i + 1;
        assert(c@ =~= clashes(q@, taken@, tracks@, *p).take(i as int));
    }
    assert(clashes(q@, taken@, tracks@, *p).take(i as int) =~= clashes(q@, taken@, tracks@, *p));
    c
}

/// The check `:w` makes before renaming anything: a name that is empty,
/// holds a `/`, or lands on a file. `taken[i]` is whether the `i`th rename's
/// target (from `rename_target`, its name trimmed) exists; a track's target
/// that the same write takes away first is no clash, and the planner orders
/// the steps.
pub fn rename_problem(q: &Renames, taken: &Vec<bool>, tracks: &Vec<Track>, p: &Pending) -> (r: Option<String>)
    requires
        taken@.len() == q@.len(),
    ensures
        match (r, first_problem(q@, clashes(q@, taken@, tracks@, *p), 0)) {
            (Some(a), Some(b)) => a@ == b,
            (None, None) => true,
            _ => false,
        },
{
    let clash = clashes_of(q, taken, tracks, p);
    first_clash_problem(q, &clash)
}

/// The first problem among the renames, with `taken[i]` whether the `i`th
/// target clashes.
fn first_clash_problem(q: &Renames, taken: &Vec<bool>) -> (r: Option<String>)
    requires
        taken@.len() == q@.len(),
    ensures
        match (r, first_problem(q@, taken@, 0)) {
            (Some(a), Some(b)) => a@ == b,
            (None, None) => true,
            _ => false,
        },
{
    let mut i: usize = 0;
    while i < q.len()
        invariant
            i <= q@.len(),
            taken@.len() == q@.len(),
            first_problem(q@, taken@, 0) == first_problem(q@, taken@, i as int),
        decreases q@.len() - i,
    {
        let (_, name) = q.entry(i);
        let cs = chars_of(name.as_str());
        let n = trim(cs.as_slice());
        if n.len() == 0 {
            return Some(String::from_str("a name cannot be empty"));
        }
        let mut j: usize = 0;
        while j < n.len()
            invariant
                j <= n@.len(),
                forall|k: int| 0 <= k < j ==> n@[k] != '/',
                i < q@.len(),
                taken@.len() == q@.len(),
                n@ == spec_trim(q@[i as int].1),
                n@.len() > 0,
                first_problem(q@, taken@, 0) == first_problem(q@, taken@, i as int),
            decreases n@.len() - j,
        {
            if n[j] == '/' {
                assert(n@.contains('/')) by { assert(n@[j as int] == '/'); }
                return Some(String::from_str("a name cannot contain `/`, this renames but never moves"));
            }
            j = j + 1;
        }
        assert(!n@.contains('/'));
        if taken[i] {
            let mut m: Vec<char> = Vec::new();
            push_str(&mut m, "`");
            push_chars(&mut m, n.as_slice());
            push_str(&mut m, "` already exists here");
            return Some(string_of(m.as_slice()));
        }
        i = i + 1;
    }
    None
}

/// Where a track at `p` ends up when the folder `from` is renamed to `to`:
/// the same place inside the new folder; nothing when it is not inside.
pub open spec fn spec_rebase(p: Seq<char>, from: Seq<char>, to: Seq<char>) -> Option<Seq<char>> {
    if path_under(p, from) {
        Some(spec_join(to, spec_strip_prefix(p, from)))
    } else {
        None
    }
}

pub fn rebase(p: &str, from: &str, to: &str) -> (r: Option<String>)
    ensures
        match (r, spec_rebase(p@, from@, to@)) {
            (Some(a), Some(b)) => a@ == b,
            (None, None) => true,
            _ => false,
        },
{
    let pc = chars_of(p);
    let fc = chars_of(from);
    match strip_prefix(pc.as_slice(), fc.as_slice()) {
        Some(r) => {
            let tc = chars_of(to);
            Some(string_of(join(tc.as_slice(), r.as_slice()).as_slice()))
        },
        None => None,
    }
}

/// A path after the renames: the new path of the first rename from it, or
/// itself when nothing renamed it.
pub open spec fn spec_follow(p: Seq<char>, renamed: Seq<(Seq<char>, Seq<char>)>) -> Seq<char>
    decreases renamed.len(),
{
    if renamed.len() == 0 {
        p
    } else if renamed[0].0 == p {
        renamed[0].1
    } else {
        spec_follow(p, renamed.drop_first())
    }
}

pub open spec fn names_a_renamed(paths: Seq<Seq<char>>, renamed: Seq<(Seq<char>, Seq<char>)>) -> bool {
    exists|i: int, j: int| 0 <= i < paths.len() && 0 <= j < renamed.len() && renamed[j].0 == paths[i]
}

pub open spec fn pair_view(v: Seq<(String, String)>) -> Seq<(Seq<char>, Seq<char>)> {
    v.map_values(|e: (String, String)| (e.0@, e.1@))
}

pub open spec fn strings_view(v: Seq<String>) -> Seq<Seq<char>> {
    v.map_values(|e: String| e@)
}

fn follow(p: &str, renamed: &Vec<(String, String)>) -> (r: String)
    ensures
        r@ == spec_follow(p@, pair_view(renamed@)),
        (exists|j: int| 0 <= j < renamed@.len() && renamed@[j].0@ == p@) || r@ == p@,
{
    let ghost all = pair_view(renamed@);
    assert(all.subrange(0, all.len() as int) =~= all);
    let mut i: usize = 0;
    while i < renamed.len()
        invariant
            i <= renamed@.len(),
            all == pair_view(renamed@),
            spec_follow(p@, all) == spec_follow(p@, all.subrange(i as int, all.len() as int)),
            forall|j: int| 0 <= j < i ==> renamed@[j].0@ != p@,
        decreases renamed@.len() - i,
    {
        let ghost rest = all.subrange(i as int, all.len() as int);
        assert(rest.drop_first() =~= all.subrange(i + 1, all.len() as int));
        if same_str(renamed[i].0.as_str(), p) {
            return renamed[i].1.clone();
        }
        i = i + 1;
    }
    String::from_str(p)
}

/// A playlist's paths after the renames, or nothing when it names none of
/// the renamed files and so needs no rewrite.
pub fn repaired(paths: &Vec<String>, renamed: &Vec<(String, String)>) -> (r: Option<Vec<String>>)
    ensures
        !names_a_renamed(strings_view(paths@), pair_view(renamed@)) ==> r is None,
        names_a_renamed(strings_view(paths@), pair_view(renamed@)) ==> (r matches Some(v) && strings_view(v@)
            == strings_view(paths@).map_values(|p: Seq<char>| spec_follow(p, pair_view(renamed@)))),
{
    let mut out: Vec<String> = Vec::new();
    let mut hit = false;
    let mut i: usize = 0;
    while i < paths.len()
        invariant
            i <= paths@.len(),
            out@.len() == i,
            forall|k: int| 0 <= k < i ==> (#[trigger] out@[k])@ == spec_follow(paths@[k]@, pair_view(renamed@)),
            hit == (exists|a: int, j: int| 0 <= a < i && 0 <= j < renamed@.len() && renamed@[j].0@ == paths@[a]@),
        decreases paths@.len() - i,
    {
        let f = follow(paths[i].as_str(), renamed);
        if !same_str(f.as_str(), paths[i].as_str()) {
            hit = true;
        } else {
            let mut j: usize = 0;
            while j < renamed.len()
                invariant
                    j <= renamed@.len(),
                    i < paths@.len(),
                    hit ==> (exists|a: int, b: int| 0 <= a <= i && 0 <= b < renamed@.len() && renamed@[b].0@ == paths@[a]@),
                    (exists|a: int, b: int| 0 <= a < i && 0 <= b < renamed@.len() && renamed@[b].0@ == paths@[a]@) ==> hit,
                    (exists|b: int| 0 <= b < j && renamed@[b].0@ == paths@[i as int]@) ==> hit,
                decreases renamed@.len() - j,
            {
                if same_str(renamed[j].0.as_str(), paths[i].as_str()) {
                    hit = true;
                }
                j = j + 1;
            }
        }
        out.push(f);
        i = i + 1;
    }
    proof {
        let pv = strings_view(paths@);
        let rv = pair_view(renamed@);
        assert(names_a_renamed(pv, rv) == hit) by {
            if hit {
                let (a, j) = choose|a: int, j: int| 0 <= a < paths@.len() && 0 <= j < renamed@.len() && renamed@[j].0@ == paths@[a]@;
                assert(pv[a] == paths@[a]@);
                assert(rv[j].0 == renamed@[j].0@);
            }
            if names_a_renamed(pv, rv) {
                let (a, j) = choose|a: int, j: int| 0 <= a < pv.len() && 0 <= j < rv.len() && rv[j].0 == pv[a];
                assert(pv[a] == paths@[a]@);
                assert(rv[j].0 == renamed@[j].0@);
            }
        }
        assert(strings_view(out@) =~= pv.map_values(|p: Seq<char>| spec_follow(p, rv)));
    }
    if hit {
        Some(out)
    } else {
        None
    }
}

/// A path as `root/...`, since every change is inside the library; quoted
/// when it has a space in it, so the arrow stays readable.
pub open spec fn spec_under_root(p: Seq<char>, root: Seq<char>) -> Seq<char> {
    let shown = if path_under(p, root) {
        "root/"@ + spec_strip_prefix(p, root)
    } else {
        p
    };
    if shown.contains(' ') {
        "'"@ + shown + "'"@
    } else {
        shown
    }
}

pub fn under_root(p: &str, root: &str) -> (r: String)
    ensures
        r@ == spec_under_root(p@, root@),
{
    let pc = chars_of(p);
    let rc = chars_of(root);
    let mut shown: Vec<char> = Vec::new();
    match strip_prefix(pc.as_slice(), rc.as_slice()) {
        Some(r) => {
            push_str(&mut shown, "root/");
            push_chars(&mut shown, r.as_slice());
        },
        None => {
            push_chars(&mut shown, pc.as_slice());
        },
    }
    let mut j: usize = 0;
    let mut space = false;
    while j < shown.len()
        invariant
            j <= shown@.len(),
            space == (exists|k: int| 0 <= k < j && shown@[k] == ' '),
        decreases shown@.len() - j,
    {
        if shown[j] == ' ' {
            space = true;
        }
        j = j + 1;
    }
    if space {
        let mut q: Vec<char> = Vec::new();
        push_str(&mut q, "'");
        push_chars(&mut q, shown.as_slice());
        push_str(&mut q, "'");
        string_of(q.as_slice())
    } else {
        string_of(shown.as_slice())
    }
}


// ---- everything waiting for `:w` --------------------------------------------

/// Everything waiting for a `:w`, kept in one place so undo is a snapshot of
/// it and `:w` is the only thing that touches the disk.
pub struct Pending {
    pub renames: Renames,
    pub playlist_rows: Vec<usize>,
    pub playlist_dirty: bool,
    /// Playlist files marked with `dd`.
    pub doomed: Vec<String>,
    /// Tracks marked for deletion, danger mode only.
    pub doomed_files: Vec<String>,
    /// Files cut with `dd`, waiting for a `p` to turn them into moves.
    pub cut: Vec<String>,
    pub moves: Vec<(String, String)>,
    pub copies: Vec<(String, String)>,
    /// Folders marked with `dd`, taken with everything inside them.
    pub doomed_dirs: Vec<String>,
    /// The name being typed in the sidebar, so `u` works there as well.
    pub sidebar_name: Option<String>,
}

impl Pending {
    pub fn new() -> (p: Pending)
        ensures
            p.renames@.len() == 0,
            p.playlist_rows@.len() == 0,
            !p.playlist_dirty,
            p.doomed@.len() == 0,
            p.doomed_files@.len() == 0,
            p.cut@.len() == 0,
            p.moves@.len() == 0,
            p.copies@.len() == 0,
            p.doomed_dirs@.len() == 0,
            p.sidebar_name is None,
    {
        Pending {
            renames: Renames::new(),
            playlist_rows: Vec::new(),
            playlist_dirty: false,
            doomed: Vec::new(),
            doomed_files: Vec::new(),
            cut: Vec::new(),
            moves: Vec::new(),
            copies: Vec::new(),
            doomed_dirs: Vec::new(),
            sidebar_name: None,
        }
    }

    /// Anything waiting to be written, for the `[+]` on the statusline: a
    /// changed name (`edit_dirty`), a playlist changed here or in another tab
    /// (`tabs_dirty`), a mark, a move or a copy.
    pub fn unsaved(&self, edit_dirty: bool, tabs_dirty: bool) -> (b: bool)
        ensures
            b == (edit_dirty || self.playlist_dirty || self.doomed@.len() > 0
                || self.doomed_files@.len() > 0 || self.moves@.len() > 0 || self.copies@.len() > 0
                || self.doomed_dirs@.len() > 0 || tabs_dirty),
    {
        edit_dirty || self.playlist_dirty || self.doomed.len() > 0 || self.doomed_files.len() > 0
            || self.moves.len() > 0 || self.copies.len() > 0 || self.doomed_dirs.len() > 0
            || tabs_dirty
    }
}

/// The name before the extension, as `Path::file_stem` gives it.
pub open spec fn spec_file_stem(p: Seq<char>) -> Seq<char> {
    match spec_file_name(p) {
        Some(n) => {
            let d = last_dot(n, n.len() as int);
            if d > 0 {
                n.subrange(0, d)
            } else {
                n
            }
        },
        None => Seq::empty(),
    }
}

fn file_stem(p: &str) -> (r: Vec<char>)
    ensures
        r@ == spec_file_stem(p@),
{
    let pc = chars_of(p);
    match file_name(pc.as_slice()) {
        Some(n) => {
            let mut i: usize = n.len();
            while i > 0 && n[i - 1] != '.'
                invariant
                    i <= n@.len(),
                    last_dot(n@, i as int) == last_dot(n@, n@.len() as int),
                decreases i,
            {
                i = i - 1;
            }
            if i > 1 {
                let mut v: Vec<char> = Vec::new();
                let mut k: usize = 0;
                while k < i - 1
                    invariant
                        k <= i - 1,
                        i <= n@.len(),
                        v@ == n@.subrange(0, k as int),
                    decreases i - 1 - k,
                {
                    v.push(n[k]);
                    k = k + 1;
                }
                v
            } else {
                n
            }
        },
        None => Vec::new(),
    }
}

/// Every track a rename names is in the library.
pub open spec fn tracks_known(s: Seq<(Target, Seq<char>)>, n: nat) -> bool {
    forall|i: int| 0 <= i < s.len() ==> match #[trigger] s[i].0 {
        Target::Track(t) => t < n,
        _ => true,
    }
}

/// `:changes` line for a rename; the arrow shows the name as typed.
pub open spec fn spec_rename_line(t: Target, name: Seq<char>, tracks: Seq<Track>, root: Seq<char>) -> Seq<char> {
    match t {
        Target::Track(i) => {
            let path = tracks[i as int].path@;
            "rename  "@ + spec_under_root(path, root) + "  ->  "@ + spec_under_root(
                spec_with_file_name(path, name),
                root,
            )
        },
        Target::Folder(path) => "rename  folder "@ + spec_under_root(path, root) + "  ->  "@
            + spec_under_root(spec_with_file_name(path, name), root),
        Target::Playlist(old) => "rename  playlist `"@ + old + "`  ->  `"@ + name + "`"@,
    }
}

pub open spec fn spec_save_line(name: Seq<char>, n: nat) -> Seq<char> {
    "save    playlist `"@ + name + "`, "@ + spec_decimal(n) + " tracks"@
}

pub open spec fn spec_arrow_line(verb: Seq<char>, from: Seq<char>, to: Seq<char>, root: Seq<char>) -> Seq<char> {
    verb + spec_under_root(from, root) + "  ->  "@ + spec_under_root(to, root)
}

/// What `:w` would do right now, one line each, for `:changes`: the renames,
/// the playlists to save (the one open, then those changed in other tabs),
/// the playlists marked, the moves, the copies, the files and the folders
/// to delete. Every line starts with its verb.
pub open spec fn spec_pending_changes(
    q: Seq<(Target, Seq<char>)>,
    tracks: Seq<Track>,
    root: Seq<char>,
    open_save: Option<(Seq<char>, nat)>,
    tabs: Seq<(Seq<char>, nat)>,
    doomed: Seq<Seq<char>>,
    moves: Seq<(Seq<char>, Seq<char>)>,
    copies: Seq<(Seq<char>, Seq<char>)>,
    doomed_files: Seq<Seq<char>>,
    doomed_dirs: Seq<Seq<char>>,
) -> Seq<Seq<char>> {
    q.map_values(|e: (Target, Seq<char>)| spec_rename_line(e.0, e.1, tracks, root)) + match open_save {
        Some((name, n)) => seq![spec_save_line(name, n)],
        None => Seq::empty(),
    } + tabs.map_values(|e: (Seq<char>, nat)| spec_save_line(e.0, e.1)) + doomed.map_values(
        |p: Seq<char>| "delete  playlist `"@ + spec_file_stem(p) + "`, its tracks stay"@,
    ) + moves.map_values(|e: (Seq<char>, Seq<char>)| spec_arrow_line("move    "@, e.0, e.1, root))
        + copies.map_values(|e: (Seq<char>, Seq<char>)| spec_arrow_line("copy    "@, e.0, e.1, root))
        + doomed_files.map_values(|p: Seq<char>| "DELETE  "@ + spec_under_root(p, root))
        + doomed_dirs.map_values(
        |p: Seq<char>| "DELETE  folder "@ + spec_under_root(p, root) + ", and anything else left in it"@,
    )
}

pub open spec fn tabs_view(v: Seq<(String, usize)>) -> Seq<(Seq<char>, nat)> {
    v.map_values(|e: (String, usize)| (e.0@, e.1 as nat))
}

fn rename_line(what: &Renaming, name: &str, tracks: &Vec<Track>, root: &str) -> (r: String)
    requires
        what@ matches Target::Track(i) ==> i < tracks@.len(),
    ensures
        r@ == spec_rename_line(what@, name@, tracks@, root@),
{
    let mut v: Vec<char> = Vec::new();
    let nc = chars_of(name);
    match what {
        Renaming::Track(i) => {
            let path = tracks[*i].path.as_str();
            let pc = chars_of(path);
            let to = string_of(with_file_name(pc.as_slice(), nc.as_slice()).as_slice());
            push_str(&mut v, "rename  ");
            push_str(&mut v, under_root(path, root).as_str());
            push_str(&mut v, "  ->  ");
            push_str(&mut v, under_root(to.as_str(), root).as_str());
        },
        Renaming::Folder(path) => {
            let pc = chars_of(path.as_str());
            let to = string_of(with_file_name(pc.as_slice(), nc.as_slice()).as_slice());
            push_str(&mut v, "rename  folder ");
            push_str(&mut v, under_root(path.as_str(), root).as_str());
            push_str(&mut v, "  ->  ");
            push_str(&mut v, under_root(to.as_str(), root).as_str());
        },
        Renaming::Playlist(old) => {
            push_str(&mut v, "rename  playlist `");
            push_str(&mut v, old.as_str());
            push_str(&mut v, "`  ->  `");
            push_str(&mut v, name);
            push_str(&mut v, "`");
        },
    }
    string_of(v.as_slice())
}

fn save_line(name: &str, n: usize) -> (r: String)
    ensures
        r@ == spec_save_line(name@, n as nat),
{
    let mut v: Vec<char> = Vec::new();
    push_str(&mut v, "save    playlist `");
    push_str(&mut v, name);
    push_str(&mut v, "`, ");
    let d = decimal(n as u64);
    push_chars(&mut v, d.as_slice());
    push_str(&mut v, " tracks");
    string_of(v.as_slice())
}

fn arrow_line(verb: &str, from: &str, to: &str, root: &str) -> (r: String)
    ensures
        r@ == spec_arrow_line(verb@, from@, to@, root@),
{
    let mut v: Vec<char> = Vec::new();
    push_str(&mut v, verb);
    push_str(&mut v, under_root(from, root).as_str());
    push_str(&mut v, "  ->  ");
    push_str(&mut v, under_root(to, root).as_str());
    string_of(v.as_slice())
}

fn framed(before: &str, middle: &str, after: &str) -> (r: String)
    ensures
        r@ == before@ + middle@ + after@,
{
    let mut v: Vec<char> = Vec::new();
    push_str(&mut v, before);
    push_str(&mut v, middle);
    push_str(&mut v, after);
    string_of(v.as_slice())
}

/// `:changes`: what `:w` would do right now. `q` is `queued`: the waiting
/// renames with the name being typed. `open_save` is the open playlist's
/// name and length when it has unsaved changes; `tabs`, the playlists
/// changed in other tabs and their lengths.
pub fn pending_changes(
    p: &Pending,
    q: &Renames,
    tracks: &Vec<Track>,
    root: &str,
    open_save: &Option<(String, usize)>,
    tabs: &Vec<(String, usize)>,
) -> (lines: Vec<String>)
    requires
        tracks_known(q@, tracks@.len()),
    ensures
        strings_view(lines@) == spec_pending_changes(
            q@,
            tracks@,
            root@,
            match open_save {
                Some((n, k)) => Some((n@, *k as nat)),
                None => None,
            },
            tabs_view(tabs@),
            strings_view(p.doomed@),
            pair_view(p.moves@),
            pair_view(p.copies@),
            strings_view(p.doomed_files@),
            strings_view(p.doomed_dirs@),
        ),
{
    let mut out: Vec<String> = Vec::new();
    let ghost part1 = q@.map_values(|e: (Target, Seq<char>)| spec_rename_line(e.0, e.1, tracks@, root@));
    let mut i: usize = 0;
    while i < q.len()
        invariant
            i <= q@.len(),
            tracks_known(q@, tracks@.len()),
            part1 == q@.map_values(|e: (Target, Seq<char>)| spec_rename_line(e.0, e.1, tracks@, root@)),
            strings_view(out@) == part1.take(i as int),
        decreases q@.len() - i,
    {
        let (what, name) = q.entry(i);
        assert(match q@[i as int].0 {
            Target::Track(t) => t < tracks@.len(),
            _ => true,
        });
        let ghost prev = strings_view(out@);
        let line = rename_line(&what, name.as_str(), tracks, root);
        let ghost lv = line@;
        out.push(line);
        assert(strings_view(out@) =~= prev.push(lv));
        assert(part1.take(i + 1) =~= part1.take(i as int).push(part1[i as int]));
        assert(strings_view(out@) =~= part1.take(i + 1));
        i = i + 1;
    }
    assert(part1.take(q@.len() as int) =~= part1);
    let ghost part2: Seq<Seq<char>> = match open_save {
        Some((n, k)) => seq![spec_save_line(n@, *k as nat)],
        None => Seq::empty(),
    };
    match open_save {
        Some((n, k)) => {
            out.push(save_line(n.as_str(), *k));
        },
        None => {},
    }
    assert(strings_view(out@) =~= part1 + part2);
    let ghost before = part1 + part2;
    let ghost part3 = tabs_view(tabs@).map_values(|e: (Seq<char>, nat)| spec_save_line(e.0, e.1));
    let mut i: usize = 0;
    while i < tabs.len()
        invariant
            i <= tabs@.len(),
            part3 == tabs_view(tabs@).map_values(|e: (Seq<char>, nat)| spec_save_line(e.0, e.1)),
            strings_view(out@) == before + part3.take(i as int),
        decreases tabs@.len() - i,
    {
        let ghost prev = strings_view(out@);
        let line = save_line(tabs[i].0.as_str(), tabs[i].1);
        let ghost lv = line@;
        out.push(line);
        assert(strings_view(out@) =~= prev.push(lv));
        assert(part3.take(i + 1) =~= part3.take(i as int).push(part3[i as int]));
        assert(strings_view(out@) =~= before + part3.take(i + 1));
        i = i + 1;
    }
    assert(part3.take(tabs@.len() as int) =~= part3);
    let ghost before = before + part3;
    let ghost part4 = strings_view(p.doomed@).map_values(
        |x: Seq<char>| "delete  playlist `"@ + spec_file_stem(x) + "`, its tracks stay"@,
    );
    let mut i: usize = 0;
    while i < p.doomed.len()
        invariant
            i <= p.doomed@.len(),
            part4 == strings_view(p.doomed@).map_values(
                |x: Seq<char>| "delete  playlist `"@ + spec_file_stem(x) + "`, its tracks stay"@,
            ),
            strings_view(out@) == before + part4.take(i as int),
        decreases p.doomed@.len() - i,
    {
        let stem = string_of(file_stem(p.doomed[i].as_str()).as_slice());
        let ghost prev = strings_view(out@);
        let line = framed("delete  playlist `", stem.as_str(), "`, its tracks stay");
        let ghost lv = line@;
        out.push(line);
        assert(strings_view(out@) =~= prev.push(lv));
        assert(part4.take(i + 1) =~= part4.take(i as int).push(part4[i as int]));
        assert(strings_view(out@) =~= before + part4.take(i + 1));
        i = i + 1;
    }
    assert(part4.take(p.doomed@.len() as int) =~= part4);
    let ghost before = before + part4;
    let ghost part5 = pair_view(p.moves@).map_values(
        |e: (Seq<char>, Seq<char>)| spec_arrow_line("move    "@, e.0, e.1, root@),
    );
    let mut i: usize = 0;
    while i < p.moves.len()
        invariant
            i <= p.moves@.len(),
            part5 == pair_view(p.moves@).map_values(
                |e: (Seq<char>, Seq<char>)| spec_arrow_line("move    "@, e.0, e.1, root@),
            ),
            strings_view(out@) == before + part5.take(i as int),
        decreases p.moves@.len() - i,
    {
        let ghost prev = strings_view(out@);
        let line = arrow_line("move    ", p.moves[i].0.as_str(), p.moves[i].1.as_str(), root);
        let ghost lv = line@;
        out.push(line);
        assert(strings_view(out@) =~= prev.push(lv));
        assert(part5.take(i + 1) =~= part5.take(i as int).push(part5[i as int]));
        assert(strings_view(out@) =~= before + part5.take(i + 1));
        i = i + 1;
    }
    assert(part5.take(p.moves@.len() as int) =~= part5);
    let ghost before = before + part5;
    let ghost part6 = pair_view(p.copies@).map_values(
        |e: (Seq<char>, Seq<char>)| spec_arrow_line("copy    "@, e.0, e.1, root@),
    );
    let mut i: usize = 0;
    while i < p.copies.len()
        invariant
            i <= p.copies@.len(),
            part6 == pair_view(p.copies@).map_values(
                |e: (Seq<char>, Seq<char>)| spec_arrow_line("copy    "@, e.0, e.1, root@),
            ),
            strings_view(out@) == before + part6.take(i as int),
        decreases p.copies@.len() - i,
    {
        let ghost prev = strings_view(out@);
        let line = arrow_line("copy    ", p.copies[i].0.as_str(), p.copies[i].1.as_str(), root);
        let ghost lv = line@;
        out.push(line);
        assert(strings_view(out@) =~= prev.push(lv));
        assert(part6.take(i + 1) =~= part6.take(i as int).push(part6[i as int]));
        assert(strings_view(out@) =~= before + part6.take(i + 1));
        i = i + 1;
    }
    assert(part6.take(p.copies@.len() as int) =~= part6);
    let ghost before = before + part6;
    let ghost part7 = strings_view(p.doomed_files@).map_values(
        |x: Seq<char>| "DELETE  "@ + spec_under_root(x, root@),
    );
    let mut i: usize = 0;
    while i < p.doomed_files.len()
        invariant
            i <= p.doomed_files@.len(),
            part7 == strings_view(p.doomed_files@).map_values(
                |x: Seq<char>| "DELETE  "@ + spec_under_root(x, root@),
            ),
            strings_view(out@) == before + part7.take(i as int),
        decreases p.doomed_files@.len() - i,
    {
        let shown = under_root(p.doomed_files[i].as_str(), root);
        let ghost prev = strings_view(out@);
        let line = framed("DELETE  ", shown.as_str(), "");
        let ghost lv = line@;
        out.push(line);
        assert(""@ =~= Seq::<char>::empty()) by { reveal_strlit(""); }
        assert(strings_view(out@) =~= prev.push(lv));
        assert(part7.take(i + 1) =~= part7.take(i as int).push(part7[i as int]));
        assert(strings_view(out@) =~= before + part7.take(i + 1));
        i = i + 1;
    }
    assert(part7.take(p.doomed_files@.len() as int) =~= part7);
    let ghost before = before + part7;
    let ghost part8 = strings_view(p.doomed_dirs@).map_values(
        |x: Seq<char>| "DELETE  folder "@ + spec_under_root(x, root@) + ", and anything else left in it"@,
    );
    let mut i: usize = 0;
    while i < p.doomed_dirs.len()
        invariant
            i <= p.doomed_dirs@.len(),
            part8 == strings_view(p.doomed_dirs@).map_values(
                |x: Seq<char>| "DELETE  folder "@ + spec_under_root(x, root@) + ", and anything else left in it"@,
            ),
            strings_view(out@) == before + part8.take(i as int),
        decreases p.doomed_dirs@.len() - i,
    {
        let shown = under_root(p.doomed_dirs[i].as_str(), root);
        let ghost prev = strings_view(out@);
        let line = framed("DELETE  folder ", shown.as_str(), ", and anything else left in it");
        let ghost lv = line@;
        out.push(line);
        assert(strings_view(out@) =~= prev.push(lv));
        assert(part8.take(i + 1) =~= part8.take(i as int).push(part8[i as int]));
        assert(strings_view(out@) =~= before + part8.take(i + 1));
        i = i + 1;
    }
    assert(part8.take(p.doomed_dirs@.len() as int) =~= part8);
    out
}


// ---- moving, copying and deleting, behind `:set danger` ----------------------

/// Where every pending move and copy lands, moves first.
pub open spec fn spec_targets(p: Pending) -> Seq<Seq<char>> {
    pair_view(p.moves@).map_values(|e: (Seq<char>, Seq<char>)| e.1) + pair_view(p.copies@).map_values(
        |e: (Seq<char>, Seq<char>)| e.1,
    )
}

pub fn targets(p: &Pending) -> (t: Vec<String>)
    ensures
        strings_view(t@) == spec_targets(*p),
{
    let mut t: Vec<String> = Vec::new();
    let ghost a = pair_view(p.moves@).map_values(|e: (Seq<char>, Seq<char>)| e.1);
    let ghost b = pair_view(p.copies@).map_values(|e: (Seq<char>, Seq<char>)| e.1);
    let mut i: usize = 0;
    while i < p.moves.len()
        invariant
            i <= p.moves@.len(),
            a == pair_view(p.moves@).map_values(|e: (Seq<char>, Seq<char>)| e.1),
            strings_view(t@) == a.take(i as int),
        decreases p.moves@.len() - i,
    {
        let ghost prev = strings_view(t@);
        let x = p.moves[i].1.clone();
        t.push(x);
        assert(strings_view(t@) =~= prev.push(a[i as int]));
        assert(a.take(i + 1) =~= a.take(i as int).push(a[i as int]));
        i = i + 1;
    }
    assert(a.take(p.moves@.len() as int) =~= a);
    let mut i: usize = 0;
    while i < p.copies.len()
        invariant
            i <= p.copies@.len(),
            a == pair_view(p.moves@).map_values(|e: (Seq<char>, Seq<char>)| e.1),
            b == pair_view(p.copies@).map_values(|e: (Seq<char>, Seq<char>)| e.1),
            strings_view(t@) == a + b.take(i as int),
        decreases p.copies@.len() - i,
    {
        let ghost prev = strings_view(t@);
        let x = p.copies[i].1.clone();
        t.push(x);
        assert(strings_view(t@) =~= prev.push(b[i as int]));
        assert(b.take(i + 1) =~= b.take(i as int).push(b[i as int]));
        i = i + 1;
    }
    assert(b.take(p.copies@.len() as int) =~= b);
    t
}

/// Why the moves and copies cannot run, checked before any of them does:
/// a batch is all or nothing. `exists[i]` is whether `targets[i]` exists.
pub open spec fn first_clash(t: Seq<Seq<char>>, exists: Seq<bool>, root: Seq<char>, i: int) -> Option<Seq<char>>
    decreases t.len() - i,
{
    if i < 0 || i >= t.len() {
        None
    } else if exists[i] {
        Some("`"@ + spec_under_root(t[i], root) + "` already exists, nothing written"@)
    } else if t.take(i).contains(t[i]) {
        Some("two files would both become `"@ + spec_under_root(t[i], root) + "`, nothing written"@)
    } else {
        first_clash(t, exists, root, i + 1)
    }
}

pub fn move_problem(t: &Vec<String>, exists: &Vec<bool>, root: &str) -> (r: Option<String>)
    requires
        exists@.len() == t@.len(),
    ensures
        match (r, first_clash(strings_view(t@), exists@, root@, 0)) {
            (Some(a), Some(b)) => a@ == b,
            (None, None) => true,
            _ => false,
        },
{
    let ghost tv = strings_view(t@);
    let mut i: usize = 0;
    while i < t.len()
        invariant
            i <= t@.len(),
            exists@.len() == t@.len(),
            tv == strings_view(t@),
            first_clash(tv, exists@, root@, 0) == first_clash(tv, exists@, root@, i as int),
        decreases t@.len() - i,
    {
        if exists[i] {
            let shown = under_root(t[i].as_str(), root);
            return Some(framed("`", shown.as_str(), "` already exists, nothing written"));
        }
        let mut j: usize = 0;
        let mut seen = false;
        while j < i
            invariant
                j <= i,
                i < t@.len(),
                tv == strings_view(t@),
                seen == (exists|k: int| 0 <= k < j && tv[k] == tv[i as int]),
            decreases i - j,
        {
            assert(tv[j as int] == t@[j as int]@ && tv[i as int] == t@[i as int]@);
            if same_str(t[j].as_str(), t[i].as_str()) {
                seen = true;
            }
            j = j + 1;
        }
        assert(seen == tv.take(i as int).contains(tv[i as int])) by {
            if seen {
                let k = choose|k: int| 0 <= k < i && tv[k] == tv[i as int];
                assert(tv.take(i as int)[k] == tv[i as int]);
            }
            if tv.take(i as int).contains(tv[i as int]) {
                let k = choose|k: int| 0 <= k < tv.take(i as int).len() && tv.take(i as int)[k] == tv[i as int];
                assert(tv[k] == tv[i as int]);
            }
        }
        if seen {
            let shown = under_root(t[i].as_str(), root);
            return Some(framed("two files would both become `", shown.as_str(), "`, nothing written"));
        }
        i = i + 1;
    }
    None
}

/// The moves a `p` in `dir` makes of the files cut with `dd`: each into
/// `dir` under its own name (a path with no name is skipped).
pub open spec fn spec_moves_into(cut: Seq<Seq<char>>, dir: Seq<char>) -> Seq<(Seq<char>, Seq<char>)>
    decreases cut.len(),
{
    if cut.len() == 0 {
        Seq::empty()
    } else {
        let rest = spec_moves_into(cut.drop_last(), dir);
        match spec_file_name(cut.last()) {
            Some(n) => rest.push((cut.last(), spec_join(dir, n))),
            None => rest,
        }
    }
}

pub fn moves_into(cut: &Vec<String>, dir: &str) -> (m: Vec<(String, String)>)
    ensures
        pair_view(m@) == spec_moves_into(strings_view(cut@), dir@),
{
    let mut m: Vec<(String, String)> = Vec::new();
    let ghost cv = strings_view(cut@);
    let dc = chars_of(dir);
    let mut i: usize = 0;
    while i < cut.len()
        invariant
            i <= cut@.len(),
            cv == strings_view(cut@),
            dc@ == dir@,
            pair_view(m@) == spec_moves_into(cv.take(i as int), dir@),
        decreases cut@.len() - i,
    {
        assert(cv.take(i + 1).drop_last() =~= cv.take(i as int));
        let from = chars_of(cut[i].as_str());
        match file_name(from.as_slice()) {
            Some(n) => {
                let to = string_of(join(dc.as_slice(), n.as_slice()).as_slice());
                let ghost prev = pair_view(m@);
                let pair = (cut[i].clone(), to);
                let ghost pv = (pair.0@, pair.1@);
                m.push(pair);
                assert(pair_view(m@) =~= prev.push(pv));
            },
            None => {},
        }
        i = i + 1;
    }
    assert(cv.take(cut@.len() as int) =~= cv);
    m
}

/// Not one of `cut`.
pub open spec fn outside(cut: Seq<Seq<char>>) -> spec_fn(Seq<char>) -> bool {
    |f: Seq<char>| !cut.contains(f)
}

/// The paths of `v` that `cut` does not hold, in order.
pub fn retain_not_in(v: &Vec<String>, cut: &Vec<String>) -> (kept: Vec<String>)
    ensures
        strings_view(kept@) == strings_view(v@).filter(outside(strings_view(cut@))),
{
    let ghost s = strings_view(v@);
    let ghost cv = strings_view(cut@);
    let mut kept: Vec<String> = Vec::new();
    let mut i: usize = 0;
    while i < v.len()
        invariant
            i <= v@.len(),
            s == strings_view(v@),
            cv == strings_view(cut@),
            strings_view(kept@) == s.take(i as int).filter(outside(cv)),
        decreases v@.len() - i,
    {
        assert(s.take(i + 1).drop_last() =~= s.take(i as int));
        let mut j: usize = 0;
        let mut found = false;
        while j < cut.len()
            invariant
                j <= cut@.len(),
                i < v@.len(),
                s == strings_view(v@),
                cv == strings_view(cut@),
                found == (exists|k: int| 0 <= k < j && cv[k] == s[i as int]),
            decreases cut@.len() - j,
        {
            assert(cv[j as int] == cut@[j as int]@ && s[i as int] == v@[i as int]@);
            if same_str(cut[j].as_str(), v[i].as_str()) {
                found = true;
            }
            j = j + 1;
        }
        assert(found == cv.contains(s[i as int]));
        assert(s.take(i + 1).last() == s[i as int]);
        let ghost prev = strings_view(kept@);
        if !found {
            let c = v[i].clone();
            kept.push(c);
            assert(strings_view(kept@) =~= prev.push(s[i as int]));
        }
        proof {
            reveal(Seq::filter);
            let t = s.take(i + 1);
            assert(t.filter(outside(cv)) == if outside(cv)(t.last()) {
                t.drop_last().filter(outside(cv)).push(t.last())
            } else {
                t.drop_last().filter(outside(cv))
            });
        }
        i = i + 1;
    }
    assert(s.take(v@.len() as int) =~= s);
    kept
}

/// `p` in a folder with files cut: the cuts become moves into `dir`, and the
/// files are no longer marked for deletion; the cut list empties. The number
/// of files cut comes back.
pub fn move_cut_here(p: &mut Pending, dir: &str) -> (n: usize)
    ensures
        n == old(p).cut@.len(),
        final(p).cut@.len() == 0,
        pair_view(final(p).moves@) == pair_view(old(p).moves@) + spec_moves_into(strings_view(old(p).cut@), dir@),
        strings_view(final(p).doomed_files@) == strings_view(old(p).doomed_files@).filter(
            outside(strings_view(old(p).cut@)),
        ),
        final(p).renames@ == old(p).renames@,
        final(p).copies@ == old(p).copies@,
        final(p).doomed@ == old(p).doomed@,
        final(p).doomed_dirs@ == old(p).doomed_dirs@,
        final(p).playlist_dirty == old(p).playlist_dirty,
{
    let mut cut: Vec<String> = Vec::new();
    std::mem::swap(&mut cut, &mut p.cut);
    let n = cut.len();
    p.doomed_files = retain_not_in(&p.doomed_files, &cut);
    let mut m = moves_into(&cut, dir);
    let ghost before = pair_view(p.moves@);
    let ghost added = pair_view(m@);
    p.moves.append(&mut m);
    assert(pair_view(p.moves@) =~= before + added);
    n
}


/// The copies a `p` in `dir` makes of the tracks yanked with `y`: each into
/// `dir` under its own name, skipping a path with no name and a file that
/// would be copied onto itself.
pub open spec fn spec_copies_into(yank: Seq<Seq<char>>, dir: Seq<char>) -> Seq<(Seq<char>, Seq<char>)>
    decreases yank.len(),
{
    if yank.len() == 0 {
        Seq::empty()
    } else {
        let rest = spec_copies_into(yank.drop_last(), dir);
        match spec_file_name(yank.last()) {
            Some(n) => if spec_join(dir, n) == yank.last() {
                rest
            } else {
                rest.push((yank.last(), spec_join(dir, n)))
            },
            None => rest,
        }
    }
}

pub fn copies_into(yank: &Vec<String>, dir: &str) -> (c: Vec<(String, String)>)
    ensures
        pair_view(c@) == spec_copies_into(strings_view(yank@), dir@),
{
    let mut c: Vec<(String, String)> = Vec::new();
    let ghost yv = strings_view(yank@);
    let dc = chars_of(dir);
    let mut i: usize = 0;
    while i < yank.len()
        invariant
            i <= yank@.len(),
            yv == strings_view(yank@),
            dc@ == dir@,
            pair_view(c@) == spec_copies_into(yv.take(i as int), dir@),
        decreases yank@.len() - i,
    {
        assert(yv.take(i + 1).drop_last() =~= yv.take(i as int));
        let from = chars_of(yank[i].as_str());
        match file_name(from.as_slice()) {
            Some(n) => {
                let to = string_of(join(dc.as_slice(), n.as_slice()).as_slice());
                if !same_str(to.as_str(), yank[i].as_str()) {
                    let ghost prev = pair_view(c@);
                    let pair = (yank[i].clone(), to);
                    let ghost pv = (pair.0@, pair.1@);
                    c.push(pair);
                    assert(pair_view(c@) =~= prev.push(pv));
                }
            },
            None => {},
        }
        i = i + 1;
    }
    assert(yv.take(yank@.len() as int) =~= yv);
    c
}

/// Not one of the pairs in `b`.
pub open spec fn pair_outside(b: Seq<(Seq<char>, Seq<char>)>) -> spec_fn((Seq<char>, Seq<char>)) -> bool {
    |x: (Seq<char>, Seq<char>)| !b.contains(x)
}

/// The moves (or copies) of `a` that `b` does not have: stepping from one
/// undo snapshot to another undoes those of the one and redoes those of the
/// other.
pub fn pairs_not_in(a: &Vec<(String, String)>, b: &Vec<(String, String)>) -> (r: Vec<(String, String)>)
    ensures
        pair_view(r@) == pair_view(a@).filter(pair_outside(pair_view(b@))),
{
    let ghost av = pair_view(a@);
    let ghost bv = pair_view(b@);
    let mut r: Vec<(String, String)> = Vec::new();
    let mut i: usize = 0;
    while i < a.len()
        invariant
            i <= a@.len(),
            av == pair_view(a@),
            bv == pair_view(b@),
            pair_view(r@) == av.take(i as int).filter(pair_outside(bv)),
        decreases a@.len() - i,
    {
        assert(av.take(i + 1).drop_last() =~= av.take(i as int));
        let mut j: usize = 0;
        let mut found = false;
        while j < b.len()
            invariant
                j <= b@.len(),
                i < a@.len(),
                av == pair_view(a@),
                bv == pair_view(b@),
                found == (exists|k: int| 0 <= k < j && bv[k] == av[i as int]),
            decreases b@.len() - j,
        {
            assert(bv[j as int] == (b@[j as int].0@, b@[j as int].1@));
            assert(av[i as int] == (a@[i as int].0@, a@[i as int].1@));
            if same_str(b[j].0.as_str(), a[i].0.as_str()) && same_str(b[j].1.as_str(), a[i].1.as_str()) {
                found = true;
            }
            j = j + 1;
        }
        assert(found == bv.contains(av[i as int]));
        assert(av.take(i + 1).last() == av[i as int]);
        let ghost prev = pair_view(r@);
        if !found {
            let pair = (a[i].0.clone(), a[i].1.clone());
            r.push(pair);
            assert(pair_view(r@) =~= prev.push(av[i as int]));
        }
        proof {
            reveal(Seq::filter);
            let t = av.take(i + 1);
            assert(t.filter(pair_outside(bv)) == if pair_outside(bv)(t.last()) {
                t.drop_last().filter(pair_outside(bv)).push(t.last())
            } else {
                t.drop_last().filter(pair_outside(bv))
            });
        }
        i = i + 1;
    }
    assert(av.take(a@.len() as int) =~= av);
    r
}

// ---- folders marked with `dd` -----------------------------------------------

/// Inside the folder `dir`.
pub open spec fn inside(dir: Seq<char>) -> spec_fn(Seq<char>) -> bool {
    |f: Seq<char>| path_under(f, dir)
}

/// Not inside the folder `dir`.
pub open spec fn not_inside(dir: Seq<char>) -> spec_fn(Seq<char>) -> bool {
    |f: Seq<char>| !path_under(f, dir)
}

pub open spec fn track_paths(tracks: Seq<Track>) -> Seq<Seq<char>> {
    tracks.map_values(|t: Track| t.path@)
}

/// Where `x` first occurs in `s`, from `i` on; the end when it does not.
pub open spec fn first_from(s: Seq<Seq<char>>, x: Seq<char>, i: int) -> int
    decreases s.len() - i,
{
    if i >= s.len() {
        s.len() as int
    } else if s[i] == x {
        i
    } else {
        first_from(s, x, i + 1)
    }
}

/// Keeps the paths of `v` that pass `keep`, in order.
fn keep_paths(v: &Vec<String>, dir: &str, want_inside: bool) -> (r: Vec<String>)
    ensures
        strings_view(r@) == strings_view(v@).filter(if want_inside {
            inside(dir@)
        } else {
            not_inside(dir@)
        }),
{
    let ghost s = strings_view(v@);
    let ghost pred = if want_inside {
        inside(dir@)
    } else {
        not_inside(dir@)
    };
    let dc = chars_of(dir);
    let mut r: Vec<String> = Vec::new();
    let mut i: usize = 0;
    while i < v.len()
        invariant
            i <= v@.len(),
            s == strings_view(v@),
            dc@ == dir@,
            pred == (if want_inside {
                inside(dir@)
            } else {
                not_inside(dir@)
            }),
            strings_view(r@) == s.take(i as int).filter(pred),
        decreases v@.len() - i,
    {
        assert(s.take(i + 1).drop_last() =~= s.take(i as int));
        assert(s.take(i + 1).last() == s[i as int]);
        let pc = chars_of(v[i].as_str());
        let under = is_under(pc.as_slice(), dc.as_slice());
        let ghost prev = strings_view(r@);
        if under == want_inside {
            let c = v[i].clone();
            r.push(c);
            assert(strings_view(r@) =~= prev.push(s[i as int]));
        }
        proof {
            reveal(Seq::filter);
            let t = s.take(i + 1);
            assert(t.filter(pred) == if pred(t.last()) {
                t.drop_last().filter(pred).push(t.last())
            } else {
                t.drop_last().filter(pred)
            });
        }
        i = i + 1;
    }
    assert(s.take(v@.len() as int) =~= s);
    r
}

/// Marks the folder and every track under it, subfolders included, so
/// `:changes` lists every file about to go; on a folder already marked,
/// takes the mark back, and the marks of the files under it. True when it
/// took a mark back; and how many tracks it marked.
pub fn toggle_folder_mark(p: &mut Pending, dir: &str, tracks: &Vec<Track>) -> (r: (bool, usize))
    ensures
        ({
            let dd = strings_view(old(p).doomed_dirs@);
            let files = strings_view(old(p).doomed_files@);
            if dd.contains(dir@) {
                &&& r == (true, 0usize)
                &&& strings_view(final(p).doomed_dirs@) == dd.remove(first_from(dd, dir@, 0))
                &&& strings_view(final(p).doomed_files@) == files.filter(not_inside(dir@))
            } else {
                let marked = track_paths(tracks@).filter(inside(dir@));
                &&& r == (false, marked.len() as usize)
                &&& strings_view(final(p).doomed_dirs@) == dd.push(dir@)
                &&& strings_view(final(p).doomed_files@) == files + marked
            }
        }),
        final(p).renames@ == old(p).renames@,
        final(p).moves@ == old(p).moves@,
        final(p).copies@ == old(p).copies@,
        final(p).cut@ == old(p).cut@,
        final(p).doomed@ == old(p).doomed@,
{
    let ghost dd = strings_view(p.doomed_dirs@);
    let mut i: usize = 0;
    while i < p.doomed_dirs.len()
        invariant
            i <= p.doomed_dirs@.len(),
            dd == strings_view(p.doomed_dirs@),
            first_from(dd, dir@, 0) == first_from(dd, dir@, i as int),
            forall|k: int| 0 <= k < i ==> dd[k] != dir@,
            dd == strings_view(old(p).doomed_dirs@),
            p.doomed_dirs@ == old(p).doomed_dirs@,
            p.doomed_files@ == old(p).doomed_files@,
            p.renames@ == old(p).renames@,
            p.moves@ == old(p).moves@,
            p.copies@ == old(p).copies@,
            p.cut@ == old(p).cut@,
            p.doomed@ == old(p).doomed@,
        decreases p.doomed_dirs@.len() - i,
    {
        assert(dd[i as int] == p.doomed_dirs@[i as int]@);
        if same_str(p.doomed_dirs[i].as_str(), dir) {
            assert(dd.contains(dir@));
            let ghost before = strings_view(p.doomed_dirs@);
            let _ = p.doomed_dirs.remove(i);
            assert(strings_view(p.doomed_dirs@) =~= before.remove(i as int));
            p.doomed_files = keep_paths(&p.doomed_files, dir, false);
            return (true, 0);
        }
        i = i + 1;
    }
    assert(!dd.contains(dir@));
    let mut paths: Vec<String> = Vec::new();
    let ghost tp = track_paths(tracks@);
    let mut k: usize = 0;
    while k < tracks.len()
        invariant
            k <= tracks@.len(),
            tp == track_paths(tracks@),
            strings_view(paths@) == tp.take(k as int),
            p.doomed_dirs@ == old(p).doomed_dirs@,
            p.doomed_files@ == old(p).doomed_files@,
            p.renames@ == old(p).renames@,
            p.moves@ == old(p).moves@,
            p.copies@ == old(p).copies@,
            p.cut@ == old(p).cut@,
            p.doomed@ == old(p).doomed@,
        decreases tracks@.len() - k,
    {
        let ghost prev = strings_view(paths@);
        let c = tracks[k].path.clone();
        paths.push(c);
        assert(strings_view(paths@) =~= prev.push(tp[k as int]));
        assert(tp.take(k + 1) =~= tp.take(k as int).push(tp[k as int]));
        k = k + 1;
    }
    assert(tp.take(tracks@.len() as int) =~= tp);
    let mut marked = keep_paths(&paths, dir, true);
    let n = marked.len();
    let ghost before = strings_view(p.doomed_files@);
    let ghost added = strings_view(marked@);
    p.doomed_files.append(&mut marked);
    assert(strings_view(p.doomed_files@) =~= before + added);
    let ghost dbefore = strings_view(p.doomed_dirs@);
    p.doomed_dirs.push(String::from_str(dir));
    assert(strings_view(p.doomed_dirs@) =~= dbefore.push(dir@));
    (false, n)
}

/// What `dd` on a track says with danger off.
pub open spec fn cut_needs_danger() -> Seq<char> {
    "`dd` here needs `:set danger`; it deletes files"@
}

/// What `dd` on a folder says with danger off.
pub open spec fn folder_needs_danger() -> Seq<char> {
    "`dd` on a folder needs `:set danger`; it deletes the folder and its tracks"@
}

/// What `dd` on the first folder row says: it stands for the whole library.
pub open spec fn not_a_folder() -> Seq<char> {
    "that is the whole library, not a folder"@
}

/// What `p` with tracks yanked says with danger off.
pub open spec fn copy_needs_danger() -> Seq<char> {
    "copying files here needs `:set danger`"@
}

/// What `p` with tracks yanked says when no folder is in view.
pub open spec fn no_folder_to_copy_into() -> Seq<char> {
    "no folder here to copy into"@
}

/// What `:mkdir` says with danger off.
pub open spec fn mkdir_needs_danger() -> Seq<char> {
    "`:mkdir` needs `:set danger`; it writes to your library"@
}

/// What `:mkdir` says without a name.
pub open spec fn mkdir_needs_a_name() -> Seq<char> {
    "`:mkdir` needs a name"@
}

/// What `:mkdir` says of a name already taken.
pub open spec fn already_exists(name: Seq<char>) -> Seq<char> {
    "`"@ + name + "` already exists"@
}

/// `dd` on a folder row. Only with danger on does it touch anything: it
/// marks the folder in view (`dir`, none on the row for the whole library)
/// with every track under it, or takes a mark back, as `toggle_folder_mark`
/// does. With danger off, or on the whole-library row, it says why and
/// leaves everything as it was.
pub fn cut_folder(p: &mut Pending, danger: bool, dir: Option<&str>, tracks: &Vec<Track>) -> (r: Result<(bool, usize), String>)
    ensures
        !danger ==> (r matches Err(m) && m@ == folder_needs_danger()) && *final(p) == *old(p),
        danger && dir is None ==> (r matches Err(m) && m@ == not_a_folder()) && *final(p) == *old(p),
        danger && dir is Some ==> r is Ok,
        match (danger, dir, r) {
            (true, Some(d), Ok(got)) => {
                let dd = strings_view(old(p).doomed_dirs@);
                let files = strings_view(old(p).doomed_files@);
                &&& if dd.contains(d@) {
                    &&& got == (true, 0usize)
                    &&& strings_view(final(p).doomed_dirs@) == dd.remove(first_from(dd, d@, 0))
                    &&& strings_view(final(p).doomed_files@) == files.filter(not_inside(d@))
                } else {
                    let marked = track_paths(tracks@).filter(inside(d@));
                    &&& got == (false, marked.len() as usize)
                    &&& strings_view(final(p).doomed_dirs@) == dd.push(d@)
                    &&& strings_view(final(p).doomed_files@) == files + marked
                }
                &&& final(p).renames@ == old(p).renames@
                &&& final(p).moves@ == old(p).moves@
                &&& final(p).copies@ == old(p).copies@
                &&& final(p).cut@ == old(p).cut@
                &&& final(p).doomed@ == old(p).doomed@
            },
            _ => true,
        },
{
    if !danger {
        return Err(String::from_str("`dd` on a folder needs `:set danger`; it deletes the folder and its tracks"));
    }
    match dir {
        Some(d) => Ok(toggle_folder_mark(p, d, tracks)),
        None => Err(String::from_str("that is the whole library, not a folder")),
    }
}

/// The paths of the rows `a` to `b` of the view, `b` cut back to the last
/// row; none when the view is empty or `a` lies past `b`.
pub open spec fn chosen_paths(view: Seq<usize>, tracks: Seq<Track>, a: int, b: int) -> Seq<Seq<char>> {
    let last = if b < view.len() {
        b
    } else {
        view.len() - 1
    };
    if view.len() == 0 || a > last {
        Seq::empty()
    } else {
        view.subrange(a, last + 1).map_values(|i: usize| tracks[i as int].path@)
    }
}

/// `dd` on tracks. Only with danger on does it touch anything: the tracks
/// of rows `a` to `b` of the view become the cut, waiting for a `p` to turn
/// them into moves, and are marked for deletion meanwhile. How many it
/// marked comes back; none leaves everything as it was.
pub fn cut_tracks(
    p: &mut Pending,
    danger: bool,
    view: &Vec<usize>,
    tracks: &Vec<Track>,
    a: usize,
    b: usize,
) -> (r: Result<usize, String>)
    requires
        forall|i: int| 0 <= i < view@.len() ==> view@[i] < tracks@.len(),
    ensures
        !danger ==> (r matches Err(m) && m@ == cut_needs_danger()) && *final(p) == *old(p),
        danger ==> r is Ok,
        match r {
            Ok(n) => {
                let chosen = chosen_paths(view@, tracks@, a as int, b as int);
                &&& n == chosen.len()
                &&& n == 0 ==> *final(p) == *old(p)
                &&& n > 0 ==> {
                    &&& strings_view(final(p).cut@) == chosen
                    &&& strings_view(final(p).doomed_files@) == strings_view(old(p).doomed_files@) + chosen
                    &&& final(p).renames@ == old(p).renames@
                    &&& final(p).moves@ == old(p).moves@
                    &&& final(p).copies@ == old(p).copies@
                    &&& final(p).doomed@ == old(p).doomed@
                    &&& final(p).doomed_dirs@ == old(p).doomed_dirs@
                }
            },
            Err(_) => !danger,
        },
{
    if !danger {
        return Err(String::from_str("`dd` here needs `:set danger`; it deletes files"));
    }
    let mut paths = chosen(view, tracks, a, b);
    let n = paths.len();
    if n == 0 {
        return Ok(0);
    }
    let ghost before = strings_view(p.doomed_files@);
    let ghost picked = strings_view(paths@);
    let mut marked = paths.clone();
    assert(strings_view(marked@) == picked);
    p.cut = paths;
    p.doomed_files.append(&mut marked);
    assert(strings_view(p.doomed_files@) =~= before + picked);
    Ok(n)
}

/// The paths of the rows `a` to `b` of the view, as `chosen_paths` picks
/// them.
fn chosen(view: &Vec<usize>, tracks: &Vec<Track>, a: usize, b: usize) -> (paths: Vec<String>)
    requires
        forall|i: int| 0 <= i < view@.len() ==> view@[i] < tracks@.len(),
    ensures
        strings_view(paths@) == chosen_paths(view@, tracks@, a as int, b as int),
{
    let mut paths: Vec<String> = Vec::new();
    if view.len() == 0 {
        return paths;
    }
    let last = if b < view.len() {
        b
    } else {
        view.len() - 1
    };
    if a > last {
        return paths;
    }
    let ghost picked = chosen_paths(view@, tracks@, a as int, b as int);
    let end = last + 1;
    let mut i: usize = a;
    while i < end
        invariant
            a <= i <= end,
            end == last + 1,
            last < view@.len(),
            forall|k: int| 0 <= k < view@.len() ==> view@[k] < tracks@.len(),
            picked == view@.subrange(a as int, last + 1).map_values(|j: usize| tracks@[j as int].path@),
            strings_view(paths@) == picked.take(i - a),
        decreases end - i,
    {
        let ghost prev = strings_view(paths@);
        let c = tracks[view[i]].path.clone();
        paths.push(c);
        assert(strings_view(paths@) =~= prev.push(picked[i - a]));
        assert(picked.take(i - a + 1) =~= picked.take(i - a).push(picked[i - a]));
        i = i + 1;
    }
    assert(picked.take(i - a) =~= picked);
    paths
}

/// What `yy` says on an empty view.
pub open spec fn nothing_to_yank() -> Seq<char> {
    "nothing here to yank"@
}

/// `yy`, or `y` over a visual selection: the paths of the rows `a` to `b`
/// of the view, which a later `p` puts or copies. Nothing is marked and
/// nothing waits for `:w`.
pub fn yank_rows(view: &Vec<usize>, tracks: &Vec<Track>, a: usize, b: usize) -> (r: Result<Vec<String>, String>)
    requires
        forall|i: int| 0 <= i < view@.len() ==> view@[i] < tracks@.len(),
    ensures
        view@.len() == 0 ==> (r matches Err(m) && m@ == nothing_to_yank()),
        view@.len() > 0 ==> (r matches Ok(y) && strings_view(y@) == chosen_paths(view@, tracks@, a as int, b as int)),
{
    if view.len() == 0 {
        return Err(String::from_str("nothing here to yank"));
    }
    Ok(chosen(view, tracks, a, b))
}

/// `dd` on a playlist row: its file is marked for deletion, or, marked
/// already, kept after all. True when it took a mark back.
pub fn toggle_playlist_mark(p: &mut Pending, path: &str) -> (kept: bool)
    ensures
        ({
            let d = strings_view(old(p).doomed@);
            if d.contains(path@) {
                &&& kept
                &&& strings_view(final(p).doomed@) == d.remove(first_from(d, path@, 0))
            } else {
                &&& !kept
                &&& strings_view(final(p).doomed@) == d.push(path@)
            }
        }),
        final(p).renames@ == old(p).renames@,
        final(p).moves@ == old(p).moves@,
        final(p).copies@ == old(p).copies@,
        final(p).cut@ == old(p).cut@,
        final(p).doomed_files@ == old(p).doomed_files@,
        final(p).doomed_dirs@ == old(p).doomed_dirs@,
        final(p).playlist_rows@ == old(p).playlist_rows@,
        final(p).playlist_dirty == old(p).playlist_dirty,
{
    let ghost d = strings_view(p.doomed@);
    let mut i: usize = 0;
    while i < p.doomed.len()
        invariant
            i <= p.doomed@.len(),
            d == strings_view(p.doomed@),
            first_from(d, path@, 0) == first_from(d, path@, i as int),
            forall|k: int| 0 <= k < i ==> d[k] != path@,
            p.doomed@ == old(p).doomed@,
            p.renames@ == old(p).renames@,
            p.moves@ == old(p).moves@,
            p.copies@ == old(p).copies@,
            p.cut@ == old(p).cut@,
            p.doomed_files@ == old(p).doomed_files@,
            p.doomed_dirs@ == old(p).doomed_dirs@,
            p.playlist_rows@ == old(p).playlist_rows@,
            p.playlist_dirty == old(p).playlist_dirty,
        decreases p.doomed@.len() - i,
    {
        assert(d[i as int] == p.doomed@[i as int]@);
        if same_str(p.doomed[i].as_str(), path) {
            assert(d.contains(path@));
            let ghost before = strings_view(p.doomed@);
            let _ = p.doomed.remove(i);
            assert(strings_view(p.doomed@) =~= before.remove(i as int));
            return true;
        }
        i = i + 1;
    }
    assert(!d.contains(path@));
    let ghost before = strings_view(p.doomed@);
    p.doomed.push(String::from_str(path));
    assert(strings_view(p.doomed@) =~= before.push(path@));
    false
}

/// What `c` says on an empty view.
pub open spec fn nothing_to_rename() -> Seq<char> {
    "nothing here to rename"@
}

/// What `c` says with the file column hidden.
pub open spec fn file_column_hidden() -> Seq<char> {
    "the file column is hidden: `:set file` to edit names"@
}

/// `c` on a track row: which track's name to open for editing, the one
/// under the cursor `cur`; none when the cursor is past the rows. It takes
/// a view with rows in it and the file column on screen.
pub fn begin_edit(view: &Vec<usize>, file_shown: bool, cur: usize) -> (r: Result<Option<Renaming>, String>)
    ensures
        view@.len() == 0 ==> (r matches Err(m) && m@ == nothing_to_rename()),
        view@.len() > 0 && !file_shown ==> (r matches Err(m) && m@ == file_column_hidden()),
        view@.len() > 0 && file_shown ==> (r matches Ok(w) && (if cur < view@.len() {
            w == Some(Renaming::Track(view@[cur as int]))
        } else {
            w is None
        })),
{
    if view.len() == 0 {
        return Err(String::from_str("nothing here to rename"));
    }
    if !file_shown {
        return Err(String::from_str("the file column is hidden: `:set file` to edit names"));
    }
    if cur < view.len() {
        Ok(Some(Renaming::Track(view[cur])))
    } else {
        Ok(None)
    }
}

/// `p` with tracks yanked, outside a playlist. Only with danger on does it
/// touch anything: each yanked file is to be copied into the folder in view
/// (`dir`, none when there is no folder to copy into), as `copies_into`
/// pairs them. How many copies were added comes back.
pub fn copy_yank_here(p: &mut Pending, danger: bool, yank: &Vec<String>, dir: Option<&str>) -> (r: Result<usize, String>)
    ensures
        !danger ==> (r matches Err(m) && m@ == copy_needs_danger()) && *final(p) == *old(p),
        danger && dir is None ==> (r matches Err(m) && m@ == no_folder_to_copy_into()) && *final(p) == *old(p),
        danger && dir is Some ==> r is Ok,
        match (dir, r) {
            (Some(d), Ok(n)) => {
                let added = spec_copies_into(strings_view(yank@), d@);
                &&& n == added.len()
                &&& pair_view(final(p).copies@) == pair_view(old(p).copies@) + added
                &&& final(p).renames@ == old(p).renames@
                &&& final(p).moves@ == old(p).moves@
                &&& final(p).cut@ == old(p).cut@
                &&& final(p).doomed@ == old(p).doomed@
                &&& final(p).doomed_files@ == old(p).doomed_files@
                &&& final(p).doomed_dirs@ == old(p).doomed_dirs@
            },
            _ => true,
        },
{
    if !danger {
        return Err(String::from_str("copying files here needs `:set danger`"));
    }
    match dir {
        Some(d) => {
            let mut copies = copies_into(yank, d);
            let n = copies.len();
            let ghost before = pair_view(p.copies@);
            let ghost added = pair_view(copies@);
            p.copies.append(&mut copies);
            assert(pair_view(p.copies@) =~= before + added);
            Ok(n)
        },
        None => {
            Err(String::from_str("no folder here to copy into"))
        },
    }
}

/// Whether `:mkdir name` may make its folder: only with danger on, only
/// with a name, and only where nothing is yet (`exists`, as the disk
/// answered for the folder it would make).
pub fn mkdir_decision(danger: bool, name: &str, exists: bool) -> (r: Result<(), String>)
    ensures
        !danger ==> (r matches Err(m) && m@ == mkdir_needs_danger()),
        danger && name@.len() == 0 ==> (r matches Err(m) && m@ == mkdir_needs_a_name()),
        danger && name@.len() > 0 && exists ==> (r matches Err(m) && m@ == already_exists(name@)),
        danger && name@.len() > 0 && !exists ==> r is Ok,
{
    if !danger {
        return Err(String::from_str("`:mkdir` needs `:set danger`; it writes to your library"));
    }
    let nc = chars_of(name);
    if nc.len() == 0 {
        return Err(String::from_str("`:mkdir` needs a name"));
    }
    if exists {
        let mut m: Vec<char> = Vec::new();
        push_str(&mut m, "`");
        push_str(&mut m, name);
        push_str(&mut m, "` already exists");
        return Err(string_of(m.as_slice()));
    }
    Ok(())
}

/// What `p` in a playlist says with nothing yanked.
pub open spec fn nothing_yanked() -> Seq<char> {
    "nothing yanked"@
}

/// `p` in a playlist: the yanked tracks that are in the library go in just
/// after the cursor row `cur` (at the end when that is the last row or
/// past it), and the playlist waits for `:w`. How many went in, and the row
/// the first of them landed on.
pub fn put_into_playlist(p: &mut Pending, tracks: &Vec<Track>, yank: &Vec<String>, cur: usize) -> (r: Result<(usize, usize), String>)
    requires
        cur < usize::MAX,
    ensures
        yank@.len() == 0 ==> (r matches Err(m) && m@ == nothing_yanked()) && *final(p) == *old(p),
        yank@.len() > 0 ==> (r matches Ok(got) && ({
            let new = spec_rows_of(tracks@, strings_view(yank@));
            let rows = old(p).playlist_rows@;
            let at = if cur + 1 < rows.len() {
                cur + 1
            } else {
                rows.len() as int
            };
            &&& got.0 == new.len()
            &&& got.1 == at
            &&& final(p).playlist_rows@ == rows.subrange(0, at) + new + rows.subrange(at, rows.len() as int)
            &&& final(p).playlist_dirty
            &&& final(p).renames@ == old(p).renames@
            &&& final(p).moves@ == old(p).moves@
            &&& final(p).copies@ == old(p).copies@
            &&& final(p).cut@ == old(p).cut@
            &&& final(p).doomed@ == old(p).doomed@
            &&& final(p).doomed_files@ == old(p).doomed_files@
            &&& final(p).doomed_dirs@ == old(p).doomed_dirs@
        })),
{
    if yank.len() == 0 {
        return Err(String::from_str("nothing yanked"));
    }
    let new = rows_of(tracks, yank);
    let n = new.len();
    let (all, at) = put_rows(&p.playlist_rows, cur, &new);
    p.playlist_rows = all;
    p.playlist_dirty = true;
    Ok((n, at))
}

/// The paths of the tracks at `rows`, in order, a row past the library
/// giving none.
pub open spec fn paths_of_rows(rows: Seq<usize>, tracks: Seq<Track>) -> Seq<Seq<char>>
    decreases rows.len(),
{
    if rows.len() == 0 {
        Seq::empty()
    } else {
        let rest = paths_of_rows(rows.drop_last(), tracks);
        if rows.last() < tracks.len() {
            rest.push(tracks[rows.last() as int].path@)
        } else {
            rest
        }
    }
}

/// `dd` in a playlist: its rows `a` to `b` (`b` held to the last row) come
/// out, and the playlist waits for `:w`; the tracks taken come back as a
/// yank, so a `p` puts them back. Nothing happens, and nothing comes back,
/// when the playlist is empty, `a` lies past `b` or past the last row.
pub fn cut_from_playlist(p: &mut Pending, tracks: &Vec<Track>, a: usize, b: usize) -> (r: Option<Vec<String>>)
    ensures
        ({
            let rows = old(p).playlist_rows@;
            if rows.len() == 0 || a > b || a >= rows.len() {
                r is None && *final(p) == *old(p)
            } else {
                let e = if b < rows.len() {
                    b as int
                } else {
                    rows.len() - 1
                };
                &&& r matches Some(y) && strings_view(y@) == paths_of_rows(rows.subrange(a as int, e + 1), tracks@)
                &&& final(p).playlist_rows@ == rows.subrange(0, a as int) + rows.subrange(e + 1, rows.len() as int)
                &&& final(p).playlist_dirty
                &&& final(p).renames@ == old(p).renames@
                &&& final(p).moves@ == old(p).moves@
                &&& final(p).copies@ == old(p).copies@
                &&& final(p).cut@ == old(p).cut@
                &&& final(p).doomed@ == old(p).doomed@
                &&& final(p).doomed_files@ == old(p).doomed_files@
                &&& final(p).doomed_dirs@ == old(p).doomed_dirs@
            }
        }),
{
    if p.playlist_rows.len() == 0 || a > b || a >= p.playlist_rows.len() {
        return None;
    }
    let (kept, taken) = cut_rows(&p.playlist_rows, a, b);
    let mut y: Vec<String> = Vec::new();
    let mut i: usize = 0;
    while i < taken.len()
        invariant
            i <= taken@.len(),
            strings_view(y@) == paths_of_rows(taken@.take(i as int), tracks@),
        decreases taken@.len() - i,
    {
        assert(taken@.take(i + 1).drop_last() =~= taken@.take(i as int));
        assert(taken@.take(i + 1).last() == taken@[i as int]);
        if taken[i] < tracks.len() {
            let ghost prev = strings_view(y@);
            let c = tracks[taken[i]].path.clone();
            y.push(c);
            assert(strings_view(y@) =~= prev.push(tracks@[taken@[i as int] as int].path@));
        }
        i = i + 1;
    }
    assert(taken@.take(i as int) =~= taken@);
    p.playlist_rows = kept;
    p.playlist_dirty = true;
    Some(y)
}

/// Inside a folder marked with `dd`.
pub fn is_doomed_dir(p: &Pending, path: &str) -> (b: bool)
    ensures
        b == (exists|i: int| 0 <= i < p.doomed_dirs@.len() && path_under(path@, p.doomed_dirs@[i]@)),
{
    let pc = chars_of(path);
    let mut i: usize = 0;
    while i < p.doomed_dirs.len()
        invariant
            i <= p.doomed_dirs@.len(),
            pc@ == path@,
            forall|k: int| 0 <= k < i ==> !path_under(path@, p.doomed_dirs@[k]@),
        decreases p.doomed_dirs@.len() - i,
    {
        let dc = chars_of(p.doomed_dirs[i].as_str());
        if is_under(pc.as_slice(), dc.as_slice()) {
            return true;
        }
        i = i + 1;
    }
    false
}

/// The folders with exactly `d` components, in their order.
pub open spec fn at_depth(d: nat) -> spec_fn(Seq<char>) -> bool {
    |p: Seq<char>| spec_depth(p) == d
}

/// The folders deepest first, those of one depth in the order given: a
/// stable sort by depth, descending, from depth `d` down.
pub open spec fn levels(s: Seq<Seq<char>>, d: int) -> Seq<Seq<char>>
    decreases d + 1,
{
    if d < 0 {
        Seq::empty()
    } else {
        s.filter(at_depth(d as nat)) + levels(s, d - 1)
    }
}

pub open spec fn deepest_in(s: Seq<Seq<char>>) -> nat
    decreases s.len(),
{
    if s.len() == 0 {
        0
    } else {
        let d = deepest_in(s.drop_last());
        if spec_depth(s.last()) > d {
            spec_depth(s.last())
        } else {
            d
        }
    }
}

fn of_depth(v: &Vec<String>, d: usize) -> (r: Vec<String>)
    ensures
        strings_view(r@) == strings_view(v@).filter(at_depth(d as nat)),
{
    let ghost s = strings_view(v@);
    let mut r: Vec<String> = Vec::new();
    let mut i: usize = 0;
    while i < v.len()
        invariant
            i <= v@.len(),
            s == strings_view(v@),
            strings_view(r@) == s.take(i as int).filter(at_depth(d as nat)),
        decreases v@.len() - i,
    {
        assert(s.take(i + 1).drop_last() =~= s.take(i as int));
        assert(s.take(i + 1).last() == s[i as int]);
        let pc = chars_of(v[i].as_str());
        let k = depth(pc.as_slice());
        let ghost prev = strings_view(r@);
        if k == d {
            let c = v[i].clone();
            r.push(c);
            assert(strings_view(r@) =~= prev.push(s[i as int]));
        }
        proof {
            reveal(Seq::filter);
            let t = s.take(i + 1);
            assert(t.filter(at_depth(d as nat)) == if at_depth(d as nat)(t.last()) {
                t.drop_last().filter(at_depth(d as nat)).push(t.last())
            } else {
                t.drop_last().filter(at_depth(d as nat))
            });
        }
        i = i + 1;
    }
    assert(s.take(v@.len() as int) =~= s);
    r
}

/// The marked folders in the order `:w` deletes them: deepest first, so a
/// folder inside a marked folder is already gone when its parent goes.
pub fn deepest_first(dirs: &Vec<String>) -> (r: Vec<String>)
    ensures
        strings_view(r@) == levels(strings_view(dirs@), deepest_in(strings_view(dirs@)) as int),
{
    let ghost s = strings_view(dirs@);
    let mut deepest: usize = 0;
    let mut i: usize = 0;
    while i < dirs.len()
        invariant
            i <= dirs@.len(),
            s == strings_view(dirs@),
            deepest == deepest_in(s.take(i as int)),
        decreases dirs@.len() - i,
    {
        assert(s.take(i + 1).drop_last() =~= s.take(i as int));
        let pc = chars_of(dirs[i].as_str());
        let k = depth(pc.as_slice());
        if k > deepest {
            deepest = k;
        }
        i = i + 1;
    }
    assert(s.take(dirs@.len() as int) =~= s);
    let mut out: Vec<String> = Vec::new();
    let mut d: usize = deepest;
    let ghost top = deepest as int;
    loop
        invariant_except_break
            strings_view(out@) + levels(s, d as int) == levels(s, top),
        invariant
            d <= top,
            top == deepest_in(s) as int,
            s == strings_view(dirs@),
        ensures
            strings_view(out@) == levels(s, top),
        decreases d,
    {
        let mut level = of_depth(dirs, d);
        let ghost before = strings_view(out@);
        let ghost added = strings_view(level@);
        out.append(&mut level);
        assert(strings_view(out@) =~= before + added);
        assert(levels(s, d as int) == added + levels(s, d - 1));
        assert(strings_view(out@) + levels(s, d - 1) =~= before + levels(s, d as int));
        if d == 0 {
            assert(levels(s, -1) =~= Seq::<Seq<char>>::empty());
            assert(strings_view(out@) =~= levels(s, top));
            break;
        }
        d = d - 1;
    }
    out
}


// ---- forgetting deleted tracks ------------------------------------------------

/// How many of the first `i` tracks stay.
pub open spec fn kept_before(gone: Seq<bool>, i: int) -> nat
    decreases i,
{
    if i <= 0 {
        0
    } else {
        kept_before(gone, i - 1) + if gone[i - 1] {
            0nat
        } else {
            1nat
        }
    }
}

pub proof fn lemma_kept_before_bound(gone: Seq<bool>, i: int)
    requires
        0 <= i,
    ensures
        kept_before(gone, i) <= i,
    decreases i,
{
    if i > 0 {
        lemma_kept_before_bound(gone, i - 1);
    }
}

/// Where each track lands once the deleted ones (`gone`) are taken out:
/// nowhere for a deleted one, else its place among those that stay.
pub open spec fn spec_remap(gone: Seq<bool>) -> Seq<Option<usize>> {
    Seq::new(
        gone.len(),
        |i: int| if gone[i] {
            None
        } else {
            Some(kept_before(gone, i) as usize)
        },
    )
}

pub fn remap_of(gone: &Vec<bool>) -> (r: Vec<Option<usize>>)
    ensures
        r@ == spec_remap(gone@),
{
    let mut r: Vec<Option<usize>> = Vec::new();
    let mut next: usize = 0;
    let mut i: usize = 0;
    while i < gone.len()
        invariant
            i <= gone@.len(),
            next == kept_before(gone@, i as int),
            next <= i,
            r@.len() == i,
            forall|k: int| 0 <= k < i ==> r@[k] == spec_remap(gone@)[k],
        decreases gone@.len() - i,
    {
        if gone[i] {
            r.push(None);
        } else {
            r.push(Some(next));
            next = next + 1;
        }
        i = i + 1;
    }
    assert(r@ =~= spec_remap(gone@));
    r
}

/// The items of `s` that stay, in order.
pub open spec fn spec_kept<A>(s: Seq<A>, gone: Seq<bool>) -> Seq<A>
    decreases s.len(),
{
    if s.len() == 0 {
        Seq::empty()
    } else {
        let r = spec_kept(s.drop_last(), gone);
        if gone[s.len() - 1] {
            r
        } else {
            r.push(s.last())
        }
    }
}

/// Takes the deleted items out of a list the deletion marks run beside.
pub fn retain_kept<A>(v: Vec<A>, gone: &Vec<bool>) -> (r: Vec<A>)
    requires
        gone@.len() == v@.len(),
    ensures
        r@ == spec_kept(v@, gone@),
{
    let ghost s = v@;
    let mut v = v;
    let total = v.len();
    let mut out: Vec<A> = Vec::new();
    let mut i: usize = 0;
    while v.len() > 0
        invariant
            i <= s.len(),
            s.len() == total,
            gone@.len() == s.len(),
            v@ == s.subrange(i as int, s.len() as int),
            out@ == spec_kept(s.take(i as int), gone@),
        decreases v@.len(),
    {
        assert(s.take(i + 1).drop_last() =~= s.take(i as int));
        let x = v.remove(0);
        if !gone[i] {
            out.push(x);
        }
        assert(v@ =~= s.subrange(i + 1, s.len() as int));
        i = i + 1;
    }
    assert(s.take(s.len() as int) =~= s);
    out
}

/// A track that stays is found, after the deletion, where the remap says:
/// every row, queue entry and tab that follows the remap still points at
/// the track it pointed at.
pub proof fn law_the_remap_follows_the_tracks<A>(s: Seq<A>, gone: Seq<bool>, i: int)
    requires
        gone.len() == s.len(),
        0 <= i < s.len(),
        !gone[i],
    ensures
        spec_remap(gone)[i] == Some(kept_before(gone, i) as usize),
        spec_kept(s, gone).len() == kept_before(gone, s.len() as int),
        spec_kept(s, gone)[kept_before(gone, i) as int] == s[i],
    decreases s.len(),
{
    lemma_kept_len(s, gone);
    lemma_kept_before_bound(gone, i);
    if i < s.len() - 1 {
        let t = s.drop_last();
        assert(gone.len() == s.len());
        law_the_remap_follows_the_tracks_prefix(t, gone, i);
    } else {
        lemma_kept_len(s.drop_last(), gone);
    }
}

pub proof fn lemma_kept_len<A>(s: Seq<A>, gone: Seq<bool>)
    requires
        gone.len() >= s.len(),
    ensures
        spec_kept(s, gone).len() == kept_before(gone, s.len() as int),
    decreases s.len(),
{
    if s.len() > 0 {
        lemma_kept_len(s.drop_last(), gone);
    }
}

proof fn law_the_remap_follows_the_tracks_prefix<A>(s: Seq<A>, gone: Seq<bool>, i: int)
    requires
        gone.len() >= s.len(),
        0 <= i < s.len(),
        !gone[i],
    ensures
        spec_kept(s, gone)[kept_before(gone, i) as int] == s[i],
        kept_before(gone, i) < spec_kept(s, gone).len(),
    decreases s.len(),
{
    lemma_kept_len(s, gone);
    lemma_kept_len(s.drop_last(), gone);
    if i < s.len() - 1 {
        law_the_remap_follows_the_tracks_prefix(s.drop_last(), gone, i);
    }
}

/// Row numbers after the deletion: each through the remap, the deleted
/// ones dropped.
pub open spec fn spec_follow_rows(rows: Seq<usize>, m: Seq<Option<usize>>) -> Seq<usize>
    decreases rows.len(),
{
    if rows.len() == 0 {
        Seq::empty()
    } else {
        let r = spec_follow_rows(rows.drop_last(), m);
        match m[rows.last() as int] {
            Some(n) => r.push(n),
            None => r,
        }
    }
}

pub fn follow_rows(rows: &Vec<usize>, m: &Vec<Option<usize>>) -> (r: Vec<usize>)
    requires
        forall|k: int| 0 <= k < rows@.len() ==> rows@[k] < m@.len(),
    ensures
        r@ == spec_follow_rows(rows@, m@),
{
    let mut r: Vec<usize> = Vec::new();
    let mut i: usize = 0;
    while i < rows.len()
        invariant
            i <= rows@.len(),
            forall|k: int| 0 <= k < rows@.len() ==> rows@[k] < m@.len(),
            r@ == spec_follow_rows(rows@.take(i as int), m@),
        decreases rows@.len() - i,
    {
        assert(rows@.take(i + 1).drop_last() =~= rows@.take(i as int));
        match m[rows[i]] {
            Some(n) => r.push(n),
            None => {},
        }
        i = i + 1;
    }
    assert(rows@.take(rows@.len() as int) =~= rows@);
    r
}

/// A rename's target after the deletion: a track through the remap (gone
/// when the track is), anything else as it was.
pub open spec fn remap_target(t: Target, m: Seq<Option<usize>>) -> Option<Target> {
    match t {
        Target::Track(i) => match m[i as int] {
            Some(n) => Some(Target::Track(n)),
            None => None,
        },
        _ => Some(t),
    }
}

/// The renames after the deletion, queued again in order.
pub open spec fn spec_remapped(s: Seq<(Target, Seq<char>)>, m: Seq<Option<usize>>) -> Seq<(Target, Seq<char>)>
    decreases s.len(),
{
    if s.len() == 0 {
        Seq::empty()
    } else {
        let r = spec_remapped(s.drop_last(), m);
        match remap_target(s.last().0, m) {
            Some(k) => spec_put(r, k, s.last().1),
            None => r,
        }
    }
}

impl Renames {
    /// The renames once deleted tracks are forgotten: a deleted track's
    /// rename goes, the others follow their track to its new index.
    pub fn remap_tracks(&self, m: &Vec<Option<usize>>) -> (r: Renames)
        requires
            tracks_known(self@, m@.len()),
        ensures
            r@ == spec_remapped(self@, m@),
    {
        let mut out = Renames::new();
        let mut i: usize = 0;
        while i < self.len()
            invariant
                i <= self@.len(),
                tracks_known(self@, m@.len()),
                out@ == spec_remapped(self@.take(i as int), m@),
            decreases self@.len() - i,
        {
            assert(self@.take(i + 1).drop_last() =~= self@.take(i as int));
            assert(self@.take(i + 1).last() == self@[i as int]);
            let (what, name) = self.entry(i);
            assert(match self@[i as int].0 {
                Target::Track(t) => t < m@.len(),
                _ => true,
            });
            match what {
                Renaming::Track(t) => match m[t] {
                    Some(n) => out.insert(Renaming::Track(n), name),
                    None => {},
                },
                other => out.insert(other, name),
            }
            i = i + 1;
        }
        assert(self@.take(self@.len() as int) =~= self@);
        out
    }
}


/// Whether every track a rename names is below `n`, the library's size.
pub fn tracks_below(r: &Renames, n: usize) -> (b: bool)
    ensures
        b == tracks_known(r@, n as nat),
{
    let mut i: usize = 0;
    while i < r.len()
        invariant
            i <= r@.len(),
            forall|k: int| 0 <= k < i ==> match #[trigger] r@[k].0 {
                Target::Track(t) => t < n,
                _ => true,
            },
        decreases r@.len() - i,
    {
        let (what, _) = r.entry(i);
        match what {
            Renaming::Track(t) => {
                if t >= n {
                    assert(!tracks_known(r@, n as nat)) by {
                        assert(match r@[i as int].0 {
                            Target::Track(t) => t >= n,
                            _ => false,
                        });
                    }
                    return false;
                }
            },
            _ => {},
        }
        i = i + 1;
    }
    true
}

} // verus!
