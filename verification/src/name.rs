//! One editable name: the text, the cursor, and the vi motions over it.
//!
//! Every pane that lets you rename something owns its own `NameBuffer`. They
//! share this code and nothing else: two buffers never see each other, so
//! editing a folder name cannot show up on a track row.

use vstd::prelude::*;

use crate::text::{
    chars_of, class, class_of, forward_over, lemma_back_over_bounds, lemma_forward_over_bounds,
    spec_word_start, string_of, walk_forward, word_start, Class,
};

verus! {

/// What a buffer is, for the contracts: its characters, the cursor, the first
/// character shown, and where `v` started if a selection is being made.
pub struct NameState {
    pub text: Seq<char>,
    pub col: int,
    pub scroll: int,
    pub anchor: Option<int>,
}

/// Last character position, which is as far right as normal mode goes.
pub open spec fn last_of(t: Seq<char>) -> int {
    if t.len() == 0 {
        0
    } else {
        t.len() - 1
    }
}

/// Start of the next word from `col`, or the end of the text when there is
/// none: over the rest of the run under the cursor, then over the blanks.
pub open spec fn spec_word_forward(t: Seq<char>, col: int) -> int {
    let i = if 0 <= col < t.len() && class_of(t[col]) != Class::Space {
        forward_over(t, col, class_of(t[col]))
    } else {
        col
    };
    forward_over(t, i, Class::Space)
}

/// Where `e` lands from `col`: past the blanks after the cursor, to the last
/// character of the run found there, never past the last character.
pub open spec fn spec_word_end(t: Seq<char>, col: int) -> int {
    let i = forward_over(t, col + 1, Class::Space);
    let j = if 0 <= i < t.len() {
        forward_over(t, i, class_of(t[i])) - 1
    } else {
        i
    };
    if j < last_of(t) {
        j
    } else {
        last_of(t)
    }
}

pub open spec fn min_int(a: int, b: int) -> int {
    if a < b {
        a
    } else {
        b
    }
}

pub open spec fn max_int(a: int, b: int) -> int {
    if a < b {
        b
    } else {
        a
    }
}

/// The span `v` has selected, both ends included.
pub open spec fn spec_selection(s: NameState) -> Option<(int, int)> {
    match s.anchor {
        Some(a) => Some((min_int(a, s.col), max_int(a, s.col))),
        None => None,
    }
}

/// What `y` in visual hands back: the selected characters, the end clipped to
/// the last character, or nothing when there is no selection or it starts past
/// the end of the text.
pub open spec fn spec_copied(s: NameState) -> Option<Seq<char>> {
    match spec_selection(s) {
        Some((lo, hi)) => if lo < s.text.len() {
            Some(s.text.subrange(lo, min_int(hi, last_of(s.text)) + 1))
        } else {
            None
        },
        None => None,
    }
}

/// What `d` in visual leaves behind, and what it takes.
pub open spec fn spec_cut(s: NameState) -> (NameState, Option<Seq<char>>) {
    match spec_selection(s) {
        Some((lo, hi)) => if lo < s.text.len() {
            let to = min_int(hi, last_of(s.text)) + 1;
            let after = without(s.text, lo, to);
            (
                NameState { text: after, col: min_int(lo, last_of(after)), anchor: None, ..s },
                Some(s.text.subrange(lo, to)),
            )
        } else {
            (NameState { anchor: None, ..s }, None)
        },
        None => (s, None),
    }
}

/// The text with `[from, to)` taken out.
pub open spec fn without(t: Seq<char>, from: int, to: int) -> Seq<char> {
    t.subrange(0, from) + t.subrange(to, t.len() as int)
}

/// The text with `piece` put in at `at`.
pub open spec fn with_inserted(t: Seq<char>, at: int, piece: Seq<char>) -> Seq<char> {
    t.subrange(0, at) + piece + t.subrange(at, t.len() as int)
}

/// Takes `[from, to)` out of `v` and hands it back, the way `drain` does.
fn take_span(v: &mut Vec<char>, from: usize, to: usize) -> (taken: Vec<char>)
    requires
        from <= to <= old(v)@.len(),
    ensures
        taken@ == old(v)@.subrange(from as int, to as int),
        final(v)@ == without(old(v)@, from as int, to as int),
{
    let mut tail = v.split_off(to);
    let taken = v.split_off(from);
    v.append(&mut tail);
    taken
}

#[derive(Debug)]
pub struct NameBuffer {
    text: Vec<char>,
    col: usize,
    /// First character shown, for a name wider than the column it sits in.
    scroll: usize,
    /// Where `v` started, when a selection is being made. The selection runs
    /// from here to the cursor with both ends included, the way vim's
    /// charwise visual does.
    anchor: Option<usize>,
}

impl View for NameBuffer {
    type V = NameState;

    closed spec fn view(&self) -> NameState {
        NameState {
            text: self.text@,
            col: self.col as int,
            scroll: self.scroll as int,
            anchor: match self.anchor {
                Some(a) => Some(a as int),
                None => None,
            },
        }
    }
}

impl Clone for NameBuffer {
    fn clone(&self) -> (b: NameBuffer)
        ensures
            b@ == self@,
    {
        proof { use_type_invariant(self); }
        let text = self.text.clone();
        assert(text@ =~= self.text@);
        NameBuffer { text, col: self.col, scroll: self.scroll, anchor: self.anchor }
    }
}

impl Default for NameBuffer {
    fn default() -> (b: NameBuffer)
        ensures
            b@.text == Seq::<char>::empty(),
            b@.col == 0,
            b@.scroll == 0,
            b@.anchor is None,
    {
        NameBuffer { text: Vec::new(), col: 0, scroll: 0, anchor: None }
    }
}

impl NameBuffer {
    /// The cursor never sits further right than one past the last character.
    #[verifier::type_invariant]
    spec fn inv(self) -> bool {
        self.col <= self.text@.len()
    }

    /// A copy of the characters, to edit and put back with `replace_text`.
    fn text_copy(&self) -> (t: Vec<char>)
        ensures
            t@ == self@.text,
    {
        let t = self.text.clone();
        assert(t@ =~= self.text@);
        t
    }

    /// Puts edited characters and a cursor back, keeping the scroll and the
    /// selection.
    fn replace_text(&mut self, text: Vec<char>, col: usize)
        requires
            col <= text@.len(),
        ensures
            final(self)@ == (NameState { text: text@, col: col as int, ..old(self)@ }),
    {
        *self = NameBuffer { text, col, scroll: self.scroll, anchor: self.anchor };
    }

    pub fn new(text: &str) -> (b: NameBuffer)
        ensures
            b@.text == text@,
            b@.col == 0,
            b@.scroll == 0,
            b@.anchor is None,
    {
        NameBuffer { text: chars_of(text), col: 0, scroll: 0, anchor: None }
    }

    pub fn text(&self) -> (s: String)
        ensures
            s@ == self@.text,
    {
        string_of(self.text.as_slice())
    }

    /// The cursor, which never sits further right than one past the last
    /// character.
    pub fn col(&self) -> (c: usize)
        ensures
            c == self@.col,
            c <= self@.text.len(),
    {
        proof { use_type_invariant(self); }
        self.col
    }

    pub fn scroll(&self) -> (s: usize)
        ensures
            s == self@.scroll,
    {
        self.scroll
    }

    /// Last character position, which is as far right as normal mode goes.
    fn last(&self) -> (l: usize)
        ensures
            l == last_of(self@.text),
    {
        if self.text.len() == 0 {
            0
        } else {
            self.text.len() - 1
        }
    }

    // ---- motions ----------------------------------------------------------
    pub fn left(&mut self)
        ensures
            final(self)@.col == if old(self)@.col > 0 {
                old(self)@.col - 1
            } else {
                0
            },
            final(self)@.text == old(self)@.text,
            final(self)@.scroll == old(self)@.scroll,
            final(self)@.anchor == old(self)@.anchor,
    {
        proof { use_type_invariant(&*self); }
        if self.col > 0 {
            self.col = self.col - 1;
        }
    }

    pub fn right(&mut self)
        ensures
            final(self)@.col == min_int(old(self)@.col + 1, last_of(old(self)@.text)),
            final(self)@.text == old(self)@.text,
            final(self)@.scroll == old(self)@.scroll,
            final(self)@.anchor == old(self)@.anchor,
    {
        proof { use_type_invariant(&*self); }
        let last = self.last();
        self.col = if self.col < last { self.col + 1 } else { last };
    }

    pub fn jump_start(&mut self)
        ensures
            final(self)@ == (NameState { col: 0, ..old(self)@ }),
    {
        self.col = 0;
    }

    pub fn jump_end(&mut self)
        ensures
            final(self)@ == (NameState { col: last_of(old(self)@.text), ..old(self)@ }),
    {
        self.col = self.last();
    }

    pub fn jump_word_forward(&mut self)
        ensures
            final(self)@ == (NameState {
                col: min_int(
                    spec_word_forward(old(self)@.text, old(self)@.col),
                    last_of(old(self)@.text),
                ),
                ..old(self)@
            }),
    {
        let to = self.word_forward();
        let last = self.last();
        self.col = if to < last { to } else { last };
    }

    pub fn jump_word_back(&mut self)
        ensures
            final(self)@ == (NameState {
                col: spec_word_start(old(self)@.text, old(self)@.col),
                ..old(self)@
            }),
    {
        proof { use_type_invariant(&*self); }
        self.col = self.word_back();
    }

    pub fn jump_word_end(&mut self)
        ensures
            final(self)@ == (NameState {
                col: spec_word_end(old(self)@.text, old(self)@.col),
                ..old(self)@
            }),
    {
        self.col = self.word_end();
    }

    /// Start of the next word, or the end of the text when there is none.
    ///
    /// Unclamped, because an operator needs the true end: `cw` on a single word
    /// has to take all of it.
    fn word_forward(&self) -> (r: usize)
        ensures
            r == spec_word_forward(self@.text, self@.col),
            self@.col <= r <= self@.text.len(),
    {
        proof { use_type_invariant(self); }
        let t = self.text.as_slice();
        let mut i = self.col;
        if i < t.len() {
            let kind = class(t[i]);
            if kind != Class::Space {
                proof { lemma_forward_over_bounds(t@, i as int, kind); }
                i = walk_forward(t, i, kind);
            }
        }
        proof { lemma_forward_over_bounds(t@, i as int, Class::Space); }
        walk_forward(t, i, Class::Space)
    }

    fn word_back(&self) -> (r: usize)
        ensures
            r == spec_word_start(self@.text, self@.col),
            r <= self@.col,
    {
        word_start(self.text.as_slice(), self.col)
    }

    fn word_end(&self) -> (r: usize)
        ensures
            r == spec_word_end(self@.text, self@.col),
            r <= last_of(self@.text),
            self@.col < self@.text.len() ==> self@.col <= r,
    {
        proof { use_type_invariant(self); }
        let t = self.text.as_slice();
        let ghost s = t@;
        let last = self.last();
        if self.col >= t.len() {
            assert(forward_over(s, self.col + 1, Class::Space) == self.col + 1);
            return last;
        }
        let mut i = self.col + 1;
        let mut j: usize;
        proof { lemma_forward_over_bounds(s, i as int, Class::Space); }
        i = walk_forward(t, i, Class::Space);
        if i < t.len() {
            let kind = class(t[i]);
            proof { lemma_forward_over_bounds(s, i as int, kind); }
            j = walk_forward(t, i, kind) - 1;
        } else {
            j = i;
        }
        if j < last { j } else { last }
    }

    /// `^`: the first character that is not a blank, or the last character
    /// when they all are.
    pub fn jump_first_nonblank(&mut self)
        ensures
            final(self)@ == (NameState {
                col: min_int(forward_over(old(self)@.text, 0, Class::Space), last_of(old(self)@.text)),
                ..old(self)@
            }),
    {
        proof { use_type_invariant(&*self); lemma_forward_over_bounds(self.text@, 0, Class::Space); }
        let first = walk_forward(self.text.as_slice(), 0, Class::Space);
        let last = self.last();
        self.col = if first < last { first } else { last };
    }

    // ---- entering insert --------------------------------------------------
    pub fn append_here(&mut self)
        ensures
            final(self)@ == (NameState {
                col: min_int(old(self)@.col + 1, old(self)@.text.len() as int),
                ..old(self)@
            }),
    {
        proof { use_type_invariant(&*self); }
        self.col = if self.col < self.text.len() { self.col + 1 } else { self.text.len() };
    }

    pub fn append_at_end(&mut self)
        ensures
            final(self)@ == (NameState { col: old(self)@.text.len() as int, ..old(self)@ }),
    {
        self.col = self.text.len();
    }

    // ---- edits ------------------------------------------------------------
    pub fn insert(&mut self, c: char)
        ensures
            final(self)@ == (NameState {
                text: old(self)@.text.insert(old(self)@.col, c),
                col: old(self)@.col + 1,
                ..old(self)@
            }),
    {
        proof { use_type_invariant(&*self); }
        let at = self.col;
        let mut t = self.text_copy();
        t.insert(at, c);
        let n = t.len();
        assert(at < n);
        self.replace_text(t, at + 1);
    }

    pub fn backspace(&mut self)
        ensures
            old(self)@.col > 0 ==> final(self)@ == (NameState {
                text: old(self)@.text.remove(old(self)@.col - 1),
                col: old(self)@.col - 1,
                ..old(self)@
            }),
            old(self)@.col == 0 ==> final(self)@ == old(self)@,
    {
        proof { use_type_invariant(&*self); }
        if self.col > 0 {
            let mut t = self.text_copy();
            t.remove(self.col - 1);
            self.replace_text(t, self.col - 1);
        }
    }

    /// `x`, and Delete in insert: takes the character under the cursor.
    ///
    /// Every delete returns what it removed, because in vi a delete is also a
    /// yank: `p` puts back whatever the last one took.
    pub fn delete_here(&mut self) -> (taken: String)
        ensures
            old(self)@.col >= old(self)@.text.len() ==> final(self)@ == old(self)@ && taken@
                == Seq::<char>::empty(),
            old(self)@.col < old(self)@.text.len() ==> {
                &&& taken@ == seq![old(self)@.text[old(self)@.col]]
                &&& final(self)@ == (NameState {
                    text: old(self)@.text.remove(old(self)@.col),
                    col: min_int(old(self)@.col, last_of(old(self)@.text.remove(old(self)@.col))),
                    ..old(self)@
                })
            },
    {
        proof { use_type_invariant(&*self); }
        if self.col >= self.text.len() {
            return string_of(&[]);
        }
        let mut t = self.text_copy();
        let c = t.remove(self.col);
        let last = if t.len() == 0 { 0 } else { t.len() - 1 };
        self.replace_text(t, if self.col < last { self.col } else { last });
        let one = [c];
        assert(one@ =~= seq![c]);
        string_of(&one)
    }

    /// `D` and `C`: everything from the cursor on.
    pub fn truncate_here(&mut self) -> (taken: String)
        ensures
            taken@ == old(self)@.text.subrange(old(self)@.col, old(self)@.text.len() as int),
            final(self)@ == (NameState {
                text: old(self)@.text.subrange(0, old(self)@.col),
                col: min_int(old(self)@.col, last_of(old(self)@.text.subrange(0, old(self)@.col))),
                ..old(self)@
            }),
    {
        proof { use_type_invariant(&*self); }
        let mut t = self.text_copy();
        let len = t.len();
        let taken = take_span(&mut t, self.col, len);
        assert(t@ =~= old(self)@.text.subrange(0, self.col as int));
        let last = if t.len() == 0 { 0 } else { t.len() - 1 };
        self.replace_text(t, if self.col < last { self.col } else { last });
        string_of(taken.as_slice())
    }

    pub fn clear(&mut self) -> (taken: String)
        ensures
            taken@ == old(self)@.text,
            final(self)@ == (NameState { text: Seq::<char>::empty(), col: 0, ..old(self)@ }),
    {
        let mut t = self.text_copy();
        let len = t.len();
        let taken = take_span(&mut t, 0, len);
        assert(taken@ =~= old(self)@.text);
        assert(t@ =~= Seq::<char>::empty());
        self.replace_text(t, 0);
        string_of(taken.as_slice())
    }

    /// `dh`: takes the character before the cursor.
    pub fn delete_back(&mut self) -> (taken: String)
        ensures
            old(self)@.col == 0 ==> final(self)@ == old(self)@ && taken@ == Seq::<char>::empty(),
            old(self)@.col > 0 ==> {
                &&& taken@ == seq![old(self)@.text[old(self)@.col - 1]]
                &&& final(self)@ == (NameState {
                    text: old(self)@.text.remove(old(self)@.col - 1),
                    col: old(self)@.col - 1,
                    ..old(self)@
                })
            },
    {
        proof { use_type_invariant(&*self); }
        if self.col == 0 {
            return string_of(&[]);
        }
        let mut t = self.text_copy();
        let c = t.remove(self.col - 1);
        self.replace_text(t, self.col - 1);
        let one = [c];
        assert(one@ =~= seq![c]);
        string_of(&one)
    }

    /// `dw`, and `cw` which stops at the end of the word the way vim's does.
    pub fn delete_word(&mut self, to_word_end: bool) -> (taken: String)
        ensures
            ({
                let s = old(self)@;
                let to = min_int(
                    if to_word_end {
                        spec_word_end(s.text, s.col) + 1
                    } else {
                        max_int(spec_word_forward(s.text, s.col), s.col)
                    },
                    s.text.len() as int,
                );
                let after = without(s.text, s.col, to);
                &&& taken@ == s.text.subrange(s.col, to)
                &&& final(self)@ == (NameState {
                    text: after,
                    col: min_int(s.col, last_of(after)),
                    ..s
                })
            }),
    {
        proof { use_type_invariant(&*self); }
        let len = self.text.len();
        let to = if to_word_end {
            self.word_end() + 1
        } else {
            let f = self.word_forward();
            if f < self.col { self.col } else { f }
        };
        let to = if to < self.text.len() { to } else { self.text.len() };
        let mut t = self.text_copy();
        let taken = take_span(&mut t, self.col, to);
        let last = if t.len() == 0 { 0 } else { t.len() - 1 };
        self.replace_text(t, if self.col < last { self.col } else { last });
        string_of(taken.as_slice())
    }

    /// `db`, and ctrl-w on a command line.
    pub fn delete_word_back(&mut self) -> (taken: String)
        ensures
            ({
                let s = old(self)@;
                let from = spec_word_start(s.text, s.col);
                &&& taken@ == s.text.subrange(from, s.col)
                &&& final(self)@ == (NameState { text: without(s.text, from, s.col), col: from, ..s })
            }),
    {
        proof { use_type_invariant(&*self); }
        let from = self.word_back();
        let mut t = self.text_copy();
        let taken = take_span(&mut t, from, self.col);
        self.replace_text(t, from);
        string_of(taken.as_slice())
    }

    // ---- selecting --------------------------------------------------------
    /// True while `v` is active, which is what makes the statusline say so.
    pub fn selecting(&self) -> (b: bool)
        ensures
            b == self@.anchor is Some,
    {
        self.anchor.is_some()
    }

    /// `v`, and `v` again to drop it.
    pub fn toggle_visual(&mut self)
        ensures
            final(self)@ == (NameState {
                anchor: if old(self)@.anchor is Some {
                    None
                } else {
                    Some(old(self)@.col)
                },
                ..old(self)@
            }),
    {
        proof { use_type_invariant(&*self); }
        let anchor = if self.anchor.is_some() { None } else { Some(self.col) };
        self.anchor = anchor;
    }

    pub fn stop_visual(&mut self)
        ensures
            final(self)@ == (NameState { anchor: None, ..old(self)@ }),
    {
        proof { use_type_invariant(&*self); }
        self.anchor = None;
    }

    /// The selected span, both ends included, in character positions.
    pub fn selection(&self) -> (r: Option<(usize, usize)>)
        ensures
            match (r, spec_selection(self@)) {
                (Some((lo, hi)), Some((l, h))) => lo == l && hi == h,
                (None, None) => true,
                _ => false,
            },
    {
        match self.anchor {
            Some(a) => Some(
                (if a < self.col { a } else { self.col }, if a < self.col { self.col } else { a }),
            ),
            None => None,
        }
    }

    /// `y` in visual: the selected text, left in place.
    pub fn copy_selection(&self) -> (r: Option<String>)
        ensures
            match (r, spec_copied(self@)) {
                (Some(text), Some(piece)) => text@ == piece,
                (None, None) => true,
                _ => false,
            },
    {
        let (lo, hi) = match self.selection() {
            Some(span) => span,
            None => return None,
        };
        if lo >= self.text.len() {
            return None;
        }
        let last = self.last();
        let end = if hi < last { hi } else { last };
        let t = self.text.as_slice();
        let mut piece: Vec<char> = Vec::new();
        let mut i = lo;
        while i <= end
            invariant
                lo <= i <= end + 1,
                end < t@.len(),
                piece@ == t@.subrange(lo as int, i as int),
            decreases end + 1 - i,
        {
            piece.push(t[i]);
            i = i + 1;
        }
        Some(string_of(piece.as_slice()))
    }

    /// `d` and `c` in visual: the selected text, taken out.
    pub fn cut_selection(&mut self) -> (r: Option<String>)
        ensures
            final(self)@ == spec_cut(old(self)@).0,
            match (r, spec_cut(old(self)@).1) {
                (Some(text), Some(piece)) => text@ == piece,
                (None, None) => true,
                _ => false,
            },
    {
        proof { use_type_invariant(&*self); }
        let (lo, hi) = match self.selection() {
            Some(span) => span,
            None => return None,
        };
        self.anchor = None;
        if lo >= self.text.len() {
            return None;
        }
        let last = self.last();
        let end = if hi < last { hi } else { last };
        let mut t = self.text_copy();
        let taken = take_span(&mut t, lo, end + 1);
        let new_last = if t.len() == 0 { 0 } else { t.len() - 1 };
        self.replace_text(t, if lo < new_last { lo } else { new_last });
        Some(string_of(taken.as_slice()))
    }

    /// `p` puts after the cursor and `P` before it, as vi does, and leaves the
    /// cursor on the last character put so a second `p` does not stack.
    pub fn paste(&mut self, text: &str, after: bool)
        ensures
            text@.len() == 0 ==> final(self)@ == old(self)@,
            text@.len() > 0 ==> {
                let s = old(self)@;
                let at = min_int(
                    if after && s.text.len() > 0 {
                        s.col + 1
                    } else {
                        s.col
                    },
                    s.text.len() as int,
                );
                final(self)@ == (NameState {
                    text: with_inserted(s.text, at, text@),
                    col: at + text@.len() - 1,
                    ..s
                })
            },
    {
        proof { use_type_invariant(&*self); }
        let piece = chars_of(text);
        if piece.len() == 0 {
            return;
        }
        let len = self.text.len();
        let at = if after && len > 0 && self.col < len {
            self.col + 1
        } else if after && len > 0 {
            len
        } else {
            self.col
        };
        let mut t = self.text_copy();
        let mut tail = t.split_off(at);
        let mut middle = piece.clone();
        assert(middle@ =~= piece@);
        t.append(&mut middle);
        t.append(&mut tail);
        assert(t@ =~= with_inserted(old(self)@.text, at as int, text@));
        let n = t.len();
        self.replace_text(t, at + piece.len() - 1);
    }

    /// Slides the window so the cursor stays visible in `width` cells.
    pub fn follow(&mut self, width: usize)
        ensures
            ({
                let s = old(self)@;
                let w = width as int;
                let first = if s.col < s.scroll {
                    s.col
                } else {
                    s.scroll
                };
                let scroll = if w >= 2 && s.col + 1 >= first + w {
                    s.col + 2 - w
                } else if w >= 2 {
                    first
                } else {
                    s.scroll
                };
                final(self)@ == (NameState { scroll, ..s })
            }),
    {
        proof { use_type_invariant(&*self); }
        if width < 2 {
            return;
        }
        if self.col < self.scroll {
            self.scroll = self.col;
        }
        // One cell is kept free so the cursor can sit past the last character.
        if self.col - self.scroll >= width - 1 {
            self.scroll = self.col - (width - 2);
        }
    }
}

/// `y` and `d` in visual take the same text out of the same selection: the
/// yank is what the cut would have been.
pub proof fn law_copy_takes_what_cut_takes(s: NameState)
    ensures
        spec_copied(s) == spec_cut(s).1,
{
}

/// `v` pressed twice, starting with no selection, leaves the buffer as it was.
pub proof fn law_visual_twice_is_nothing(s: NameState)
    ensures
        ({
            let once = NameState {
                anchor: if s.anchor is Some {
                    None
                } else {
                    Some(s.col)
                },
                ..s
            };
            let twice = NameState {
                anchor: if once.anchor is Some {
                    None
                } else {
                    Some(once.col)
                },
                ..once
            };
            s.anchor is None ==> twice == s
        }),
{
}

/// Every delete is a yank: putting back what a delete took, where it took it
/// from, gives the text it started from.
pub proof fn law_put_back_what_was_taken(t: Seq<char>, from: int, to: int)
    requires
        0 <= from <= to <= t.len(),
    ensures
        with_inserted(without(t, from, to), from, t.subrange(from, to)) == t,
{
    assert(with_inserted(without(t, from, to), from, t.subrange(from, to)) =~= t);
}

/// `db` then `P`: the word taken back from the cursor goes back in front of
/// it, and the name reads as it did.
pub proof fn law_db_then_put_before_restores(s: NameState)
    requires
        0 <= s.col <= s.text.len(),
        spec_word_start(s.text, s.col) < s.col,
    ensures
        ({
            let from = spec_word_start(s.text, s.col);
            let after = without(s.text, from, s.col);
            let taken = s.text.subrange(from, s.col);
            let at = min_int(from, after.len() as int);
            with_inserted(after, at, taken) == s.text
        }),
{
    let from = spec_word_start(s.text, s.col);
    let a = if s.col < s.text.len() { s.col } else { s.text.len() as int };
    crate::text::lemma_back_over_bounds(s.text, a, Class::Space);
    let i = crate::text::back_over(s.text, a, Class::Space);
    if i > 0 {
        crate::text::lemma_back_over_bounds(s.text, i, class_of(s.text[i - 1]));
    }
    law_put_back_what_was_taken(s.text, from, s.col);
}

} // verus!
