//! The rename buffer's keys: vi editing of a name in place, its operators,
//! counts and word motions. Nothing here reaches the disk; `:w` writes.
//!
//! A key is first decided on (`edit_decide`), so the program can take its
//! undo snapshot before anything changes, and then carried out on the
//! buffer (`edit_insert`, `operate`, `buffer_key`).

use vstd::prelude::*;

use crate::keys::Key;
use crate::name::{
    last_of, max_int, min_int, spec_copied, spec_cut, spec_word_end, spec_word_forward,
    with_inserted, without, NameBuffer, NameState,
};
use crate::text::{forward_over, push_str, spec_word_start, string_of, Class};

verus! {

/// The motions a count repeats.
#[derive(Clone, Copy, PartialEq, Eq, Structural, Debug)]
pub enum Motion {
    Left,
    Right,
    WordForward,
    WordBack,
    WordEnd,
}

/// One motion on a buffer's state, as its `NameBuffer` method makes it.
pub open spec fn motion_step(m: Motion, s: NameState) -> NameState {
    match m {
        Motion::Left => NameState {
            col: if s.col > 0 {
                s.col - 1
            } else {
                0
            },
            ..s
        },
        Motion::Right => NameState { col: min_int(s.col + 1, last_of(s.text)), ..s },
        Motion::WordForward => NameState {
            col: min_int(spec_word_forward(s.text, s.col), last_of(s.text)),
            ..s
        },
        Motion::WordBack => NameState { col: spec_word_start(s.text, s.col), ..s },
        Motion::WordEnd => NameState { col: spec_word_end(s.text, s.col), ..s },
    }
}

/// A motion `n` times, which is all a count means in vi.
pub open spec fn repeat_motion(m: Motion, s: NameState, n: nat) -> NameState
    decreases n,
{
    if n == 0 {
        s
    } else {
        motion_step(m, repeat_motion(m, s, (n - 1) as nat))
    }
}

/// The deletes a count repeats.
#[derive(Clone, Copy, PartialEq, Eq, Structural, Debug)]
pub enum Cut {
    /// `x`, `dl`: the character under the cursor.
    Here,
    /// `dh`: the one before it.
    Back,
    /// `dw`, or `de` and `cw` to the end of the word.
    Word(bool),
    /// `db`.
    WordBack,
}

/// One delete on a buffer's state, as its `NameBuffer` method makes it, and
/// what it takes.
pub open spec fn cut_step(c: Cut, s: NameState) -> (NameState, Seq<char>) {
    match c {
        Cut::Here => if s.col >= s.text.len() {
            (s, Seq::empty())
        } else {
            (
                NameState {
                    text: s.text.remove(s.col),
                    col: min_int(s.col, last_of(s.text.remove(s.col))),
                    ..s
                },
                seq![s.text[s.col]],
            )
        },
        Cut::Back => if s.col == 0 {
            (s, Seq::empty())
        } else {
            (NameState { text: s.text.remove(s.col - 1), col: s.col - 1, ..s }, seq![s.text[s.col - 1]])
        },
        Cut::Word(to_end) => {
            let to = min_int(
                if to_end {
                    spec_word_end(s.text, s.col) + 1
                } else {
                    max_int(spec_word_forward(s.text, s.col), s.col)
                },
                s.text.len() as int,
            );
            let after = without(s.text, s.col, to);
            (NameState { text: after, col: min_int(s.col, last_of(after)), ..s }, s.text.subrange(s.col, to))
        },
        Cut::WordBack => {
            let from = spec_word_start(s.text, s.col);
            (NameState { text: without(s.text, from, s.col), col: from, ..s }, s.text.subrange(from, s.col))
        },
    }
}

/// A delete `n` times, keeping everything it took, so `3x` fills the
/// register with all three characters rather than only the last one.
pub open spec fn gather_cut(c: Cut, s: NameState, n: nat) -> (NameState, Seq<char>)
    decreases n,
{
    if n == 0 {
        (s, Seq::empty())
    } else {
        let (s1, t1) = gather_cut(c, s, (n - 1) as nat);
        let (s2, t2) = cut_step(c, s1);
        (s2, t1 + t2)
    }
}

/// One `p` (or `P`) of `text`, as `NameBuffer::paste` makes it.
pub open spec fn paste_step(s: NameState, text: Seq<char>, after: bool) -> NameState {
    if text.len() == 0 {
        s
    } else {
        let at = min_int(
            if after && s.text.len() > 0 {
                s.col + 1
            } else {
                s.col
            },
            s.text.len() as int,
        );
        NameState { text: with_inserted(s.text, at, text), col: at + text.len() - 1, ..s }
    }
}

pub open spec fn repeat_paste(s: NameState, text: Seq<char>, after: bool, n: nat) -> NameState
    decreases n,
{
    if n == 0 {
        s
    } else {
        paste_step(repeat_paste(s, text, after, (n - 1) as nat), text, after)
    }
}

fn motion(buf: &mut NameBuffer, m: Motion)
    ensures
        final(buf)@ == motion_step(m, old(buf)@),
{
    match m {
        Motion::Left => buf.left(),
        Motion::Right => buf.right(),
        Motion::WordForward => buf.jump_word_forward(),
        Motion::WordBack => buf.jump_word_back(),
        Motion::WordEnd => buf.jump_word_end(),
    }
}

/// Runs a motion `count` times.
pub fn times(buf: &mut NameBuffer, m: Motion, count: usize)
    ensures
        final(buf)@ == repeat_motion(m, old(buf)@, count as nat),
{
    let mut i: usize = 0;
    while i < count
        invariant
            i <= count,
            buf@ == repeat_motion(m, old(buf)@, i as nat),
        decreases count - i,
    {
        motion(buf, m);
        i = i + 1;
    }
}

fn cut(buf: &mut NameBuffer, c: Cut) -> (taken: String)
    ensures
        (final(buf)@, taken@) == cut_step(c, old(buf)@),
{
    let _ = buf.col();
    match c {
        Cut::Here => {
            let t = buf.delete_here();
            proof {
                let s = old(buf)@;
                if s.col < s.text.len() {
                    assert(t@ =~= seq![s.text[s.col]]);
                } else {
                    assert(t@ =~= Seq::<char>::empty());
                }
            }
            t
        },
        Cut::Back => {
            let t = buf.delete_back();
            proof {
                let s = old(buf)@;
                if s.col > 0 {
                    assert(t@ =~= seq![s.text[s.col - 1]]);
                } else {
                    assert(t@ =~= Seq::<char>::empty());
                }
            }
            t
        },
        Cut::Word(to_end) => buf.delete_word(to_end),
        Cut::WordBack => buf.delete_word_back(),
    }
}

/// A delete `count` times, and everything the deletes took, in order.
pub fn gather(buf: &mut NameBuffer, c: Cut, count: usize) -> (taken: String)
    ensures
        (final(buf)@, taken@) == gather_cut(c, old(buf)@, count as nat),
{
    let mut all: Vec<char> = Vec::new();
    let mut i: usize = 0;
    while i < count
        invariant
            i <= count,
            (buf@, all@) == gather_cut(c, old(buf)@, i as nat),
        decreases count - i,
    {
        let t = cut(buf, c);
        push_str(&mut all, t.as_str());
        i = i + 1;
    }
    string_of(all.as_slice())
}

fn paste_times(buf: &mut NameBuffer, text: &str, after: bool, count: usize)
    ensures
        final(buf)@ == repeat_paste(old(buf)@, text@, after, count as nat),
{
    let mut i: usize = 0;
    while i < count
        invariant
            i <= count,
            buf@ == repeat_paste(old(buf)@, text@, after, i as nat),
        decreases count - i,
    {
        buf.paste(text, after);
        i = i + 1;
    }
}

// ---- insert -----------------------------------------------------------------

/// A key while typing into the name: the buffer after it, and whether it
/// goes back to the motions (Esc, stepping back one as vi does; or Enter).
/// Deletes here do not fill the register: in vi only a normal mode delete
/// is also a yank.
pub open spec fn spec_insert_key(s: NameState, key: Key, ctrl: bool) -> (NameState, bool) {
    match key {
        Key::Esc => (motion_step(Motion::Left, s), true),
        Key::Enter => (s, true),
        Key::Backspace => (if s.col > 0 {
            NameState { text: s.text.remove(s.col - 1), col: s.col - 1, ..s }
        } else {
            s
        }, false),
        Key::Delete => (cut_step(Cut::Here, s).0, false),
        Key::Left => (motion_step(Motion::Left, s), false),
        Key::Right => (NameState { col: min_int(s.col + 1, s.text.len() as int), ..s }, false),
        Key::Home => (NameState { col: 0, ..s }, false),
        Key::End => (NameState { col: s.text.len() as int, ..s }, false),
        Key::Char(c) => if c == 'u' && ctrl {
            (NameState { text: Seq::empty(), col: 0, ..s }, false)
        } else if c == 'w' && ctrl {
            (cut_step(Cut::WordBack, s).0, false)
        } else {
            (NameState { text: s.text.insert(s.col, c), col: s.col + 1, ..s }, false)
        },
        _ => (s, false),
    }
}

/// A key while typing into the name; true when it leaves insert.
pub fn edit_insert(buf: &mut NameBuffer, key: Key, ctrl: bool) -> (leave: bool)
    ensures
        (final(buf)@, leave) == spec_insert_key(old(buf)@, key, ctrl),
{
    let _ = buf.col();
    match key {
        Key::Esc => {
            buf.left();
            assert(buf@ == motion_step(Motion::Left, old(buf)@));
            true
        },
        Key::Enter => true,
        Key::Backspace => {
            buf.backspace();
            false
        },
        Key::Delete => {
            let _ = buf.delete_here();
            false
        },
        Key::Left => {
            buf.left();
            assert(buf@ == motion_step(Motion::Left, old(buf)@));
            false
        },
        Key::Right => {
            buf.append_here();
            false
        },
        Key::Home => {
            buf.jump_start();
            false
        },
        Key::End => {
            buf.append_at_end();
            false
        },
        Key::Char(c) => {
            if c == 'u' && ctrl {
                let _ = buf.clear();
            } else if c == 'w' && ctrl {
                let _ = buf.delete_word_back();
            } else {
                buf.insert(c);
            }
            false
        },
        _ => false,
    }
}

// ---- operators ------------------------------------------------------------

/// The second key of `c`, `d` or `y`: the buffer after it and what it took,
/// or `None` with the buffer untouched when the key is no motion for it.
/// `y` only reads: it runs the motion on a copy, so whatever `dw` deletes is
/// exactly what `yw` yanks.
pub open spec fn spec_operate(s: NameState, op: char, key: Key, count: nat) -> (NameState, Option<Seq<char>>) {
    let taken: Option<(NameState, Seq<char>)> = match key {
        Key::Char(k) => if (op == 'y' && k == 'y') || (op == 'c' && k == 'c') || (op == 'd' && k
            == 'd') {
            Some((NameState { text: Seq::empty(), col: 0, ..s }, s.text))
        } else if k == 'w' || k == 'e' {
            Some(gather_cut(Cut::Word(op == 'c' || k == 'e'), s, count))
        } else if k == 'b' {
            Some(gather_cut(Cut::WordBack, s, count))
        } else if k == 'l' && op != 'y' {
            Some(gather_cut(Cut::Here, s, count))
        } else if k == 'h' && op != 'y' {
            Some(gather_cut(Cut::Back, s, count))
        } else if k == '$' {
            Some(
                (
                    NameState {
                        text: s.text.subrange(0, s.col),
                        col: min_int(s.col, last_of(s.text.subrange(0, s.col))),
                        ..s
                    },
                    s.text.subrange(s.col, s.text.len() as int),
                ),
            )
        } else {
            None
        },
        _ => None,
    };
    match taken {
        Some((after, t)) => (if op == 'y' {
            s
        } else {
            after
        }, Some(t)),
        None => (s, None),
    }
}

/// `cw`, `cc`, `dw`, `dd`, `yw` and the rest: the operator `op` with its
/// motion `key`, `count` times.
pub fn operate(buf: &mut NameBuffer, op: char, key: Key, count: usize) -> (taken: Option<String>)
    ensures
        final(buf)@ == spec_operate(old(buf)@, op, key, count as nat).0,
        match spec_operate(old(buf)@, op, key, count as nat).1 {
            Some(t) => taken matches Some(x) && x@ == t,
            None => taken is None,
        },
{
    let mut probe = buf.clone();
    let target: &mut NameBuffer = if op == 'y' {
        &mut probe
    } else {
        buf
    };
    let k = match key {
        Key::Char(k) => k,
        _ => {
            return None;
        },
    };
    if (op == 'y' && k == 'y') || (op == 'c' && k == 'c') || (op == 'd' && k == 'd') {
        Some(target.clear())
    } else if k == 'w' || k == 'e' {
        Some(gather(target, Cut::Word(op == 'c' || k == 'e'), count))
    } else if k == 'b' {
        Some(gather(target, Cut::WordBack, count))
    } else if k == 'l' && op != 'y' {
        Some(gather(target, Cut::Here, count))
    } else if k == 'h' && op != 'y' {
        Some(gather(target, Cut::Back, count))
    } else if k == '$' {
        Some(target.truncate_here())
    } else {
        None
    }
}


// ---- normal mode on a name ------------------------------------------------

/// The register after an edit: what it took, when that is something; the
/// old contents otherwise, so an empty take never wipes what `p` would put.
pub open spec fn spec_register(reg: Seq<char>, taken: Option<Seq<char>>) -> Seq<char> {
    match taken {
        Some(t) => if t.len() > 0 {
            t
        } else {
            reg
        },
        None => reg,
    }
}

pub open spec fn took(r: (NameState, Seq<char>)) -> Option<(NameState, Option<Seq<char>>)> {
    Some((r.0, Some(r.1)))
}

pub open spec fn moved(s: NameState) -> Option<(NameState, Option<Seq<char>>)> {
    Some((s, None))
}

/// A key in the motions, once `edit_decide` has left it to the buffer: the
/// buffer after it and what it took, or `None` when it means nothing here.
pub open spec fn spec_buffer_key(
    s: NameState,
    key: Key,
    ctrl: bool,
    count: nat,
    reg: Seq<char>,
) -> Option<(NameState, Option<Seq<char>>)> {
    match key {
        Key::Left => moved(repeat_motion(Motion::Left, s, count)),
        Key::Right => moved(repeat_motion(Motion::Right, s, count)),
        Key::Delete => took(gather_cut(Cut::Here, s, count)),
        Key::Char(c) => if c == 'h' {
            moved(repeat_motion(Motion::Left, s, count))
        } else if c == 'l' {
            moved(repeat_motion(Motion::Right, s, count))
        } else if c == '0' {
            moved(NameState { col: 0, ..s })
        } else if c == '^' || c == 'I' {
            moved(NameState { col: min_int(forward_over(s.text, 0, Class::Space), last_of(s.text)), ..s })
        } else if c == '$' {
            moved(NameState { col: last_of(s.text), ..s })
        } else if c == 'w' && !ctrl {
            moved(repeat_motion(Motion::WordForward, s, count))
        } else if c == 'b' {
            moved(repeat_motion(Motion::WordBack, s, count))
        } else if c == 'e' {
            moved(repeat_motion(Motion::WordEnd, s, count))
        } else if c == 'v' {
            moved(NameState { anchor: if s.anchor is Some { None } else { Some(s.col) }, ..s })
        } else if c == 'i' {
            moved(s)
        } else if c == 'a' {
            moved(NameState { col: min_int(s.col + 1, s.text.len() as int), ..s })
        } else if c == 'A' {
            moved(NameState { col: s.text.len() as int, ..s })
        } else if c == 'x' || c == 's' {
            took(gather_cut(Cut::Here, s, count))
        } else if c == 'D' || c == 'C' {
            took(
                (
                    NameState {
                        text: s.text.subrange(0, s.col),
                        col: min_int(s.col, last_of(s.text.subrange(0, s.col))),
                        ..s
                    },
                    s.text.subrange(s.col, s.text.len() as int),
                ),
            )
        } else if c == 'S' {
            took((NameState { text: Seq::empty(), col: 0, ..s }, s.text))
        } else if c == 'c' || c == 'd' {
            Some(spec_cut(s))
        } else if c == 'y' {
            Some((NameState { anchor: None, ..s }, spec_copied(s)))
        } else if c == 'p' || c == 'P' {
            moved(repeat_paste(s, reg, c == 'p', count))
        } else {
            None
        },
        _ => None,
    }
}

/// Carries out a key on the name: the motion or edit, `count` times where a
/// count means something, and whatever it took into the register `reg`.
/// False when the key means nothing here, with both left alone.
pub fn buffer_key(buf: &mut NameBuffer, key: Key, ctrl: bool, count: usize, reg: &mut String) -> (handled: bool)
    ensures
        match spec_buffer_key(old(buf)@, key, ctrl, count as nat, old(reg)@) {
            Some((after, taken)) => {
                &&& handled
                &&& final(buf)@ == after
                &&& final(reg)@ == spec_register(old(reg)@, taken)
            },
            None => !handled && final(buf)@ == old(buf)@ && final(reg)@ == old(reg)@,
        },
{
    let mut taken: Option<String> = None;
    match key {
        Key::Left => times(buf, Motion::Left, count),
        Key::Right => times(buf, Motion::Right, count),
        Key::Delete => {
            taken = Some(gather(buf, Cut::Here, count));
        },
        Key::Char(c) => {
            if c == 'h' {
                times(buf, Motion::Left, count);
            } else if c == 'l' {
                times(buf, Motion::Right, count);
            } else if c == '0' {
                buf.jump_start();
            } else if c == '^' || c == 'I' {
                buf.jump_first_nonblank();
            } else if c == '$' {
                buf.jump_end();
            } else if c == 'w' && !ctrl {
                times(buf, Motion::WordForward, count);
            } else if c == 'b' {
                times(buf, Motion::WordBack, count);
            } else if c == 'e' {
                times(buf, Motion::WordEnd, count);
            } else if c == 'v' {
                buf.toggle_visual();
            } else if c == 'i' {
            } else if c == 'a' {
                buf.append_here();
            } else if c == 'A' {
                buf.append_at_end();
            } else if c == 'x' || c == 's' {
                taken = Some(gather(buf, Cut::Here, count));
            } else if c == 'D' || c == 'C' {
                taken = Some(buf.truncate_here());
            } else if c == 'S' {
                taken = Some(buf.clear());
            } else if c == 'c' || c == 'd' {
                taken = buf.cut_selection();
            } else if c == 'y' {
                taken = buf.copy_selection();
                buf.stop_visual();
            } else if c == 'p' || c == 'P' {
                paste_times(buf, reg.as_str(), c == 'p', count);
            } else {
                return false;
            }
        },
        _ => {
            return false;
        },
    }
    if let Some(t) = taken {
        if !t.as_str().is_empty() {
            *reg = t;
        }
    }
    true
}


/// What a key in the motions on a name comes to, before the buffer sees it.
#[derive(Clone, Copy, PartialEq, Eq, Structural, Debug)]
pub enum EditStep {
    /// A digit of the count: the count so far.
    Count(usize),
    /// The motion after a waiting `c`, `d` or `y`, to run with `operate`
    /// that many times (a `c` or `d` is undoable, a `y` changes nothing).
    Operator(char, usize),
    /// Esc with a selection up drops the selection, not the name.
    StopVisual,
    /// Esc: done with the name, which joins the pending renames.
    Leave,
    /// `:`, the command line.
    Command,
    Undo,
    Redo,
    /// `j` or `k` while renaming tracks: the next row down, or up.
    NextRow(bool),
    /// `c`, `d` or `y` without a selection: wait for the motion.
    Await(char),
    /// Left to `buffer_key`, that many times; take an undo snapshot first
    /// when `checkpoint`, and go into insert afterwards when `insert`.
    Buffer { checkpoint: bool, insert: bool, count: usize },
}

pub open spec fn is_digit(c: char) -> bool {
    '0' <= c <= '9'
}

/// A digit that goes to the count: `0` only once a count has started.
pub open spec fn counts(key: Key, ctrl: bool, count: Option<usize>) -> bool {
    match key {
        Key::Char(c) => !ctrl && is_digit(c) && (c != '0' || count is Some),
        _ => false,
    }
}

/// A count the key can grow without overflow: a digit typed onto it still
/// fits. No other key in the buffer does arithmetic on the count.
pub open spec fn digit_fits(count: Option<usize>, key: Key, ctrl: bool) -> bool {
    match (count, key) {
        (Some(c), Key::Char(d)) => !ctrl && '0' <= d && d <= '9' ==> c * 10 + (d as int - 48) <= usize::MAX,
        _ => true,
    }
}

/// Whether `edit_decide` can take this key with this count: `digit_fits`.
pub fn edit_count_fits(count: Option<usize>, key: Key, ctrl: bool) -> (b: bool)
    ensures
        b == digit_fits(count, key, ctrl),
{
    match (count, key) {
        (Some(c), Key::Char(d)) => {
            if !ctrl && '0' <= d && d <= '9' {
                let digit: usize = (d as u32 - 48) as usize;
                c <= (usize::MAX - digit) / 10
            } else {
                true
            }
        },
        _ => true,
    }
}

pub open spec fn run_of(count: Option<usize>) -> usize {
    match count {
        Some(c) => c,
        None => 1,
    }
}

/// The keys that change the text, each undoable on its own.
pub open spec fn changes_text(key: Key) -> bool {
    match key {
        Key::Char(c) => c == 'i' || c == 'a' || c == 'I' || c == 'A' || c == 'x' || c == 'D' || c
            == 'C' || c == 'S' || c == 's' || c == 'c' || c == 'd' || c == 'p' || c == 'P',
        Key::Delete => true,
        _ => false,
    }
}

/// The keys after which typing goes into the name.
pub open spec fn enters_insert(key: Key) -> bool {
    match key {
        Key::Char(c) => c == 'i' || c == 'a' || c == 'I' || c == 'A' || c == 'C' || c == 'S' || c
            == 's' || c == 'c',
        _ => false,
    }
}

/// A key in the motions on a name, given the count typed so far, a waiting
/// operator, whether a selection is up and whether the names are tracks':
/// what it comes to, and the count afterwards.
///
/// A count is read before a waiting operator, so `3dw` and `d3w` mean the
/// same; `0` moves to the front until a count has started.
pub open spec fn spec_edit_decide(
    count: Option<usize>,
    pending: Option<char>,
    selecting: bool,
    tracks: bool,
    key: Key,
    ctrl: bool,
) -> (EditStep, Option<usize>) {
    if counts(key, ctrl, count) {
        let d = match key {
            Key::Char(c) => (c as u32 - '0' as u32) as int,
            _ => 0,
        };
        let before: int = match count {
            Some(n) => n as int,
            None => 0,
        };
        let now = (before * 10 + d) as usize;
        (EditStep::Count(now), Some(now))
    } else if pending is Some {
        (EditStep::Operator(pending->0, run_of(count)), None)
    } else {
        match key {
            Key::Esc => if selecting {
                (EditStep::StopVisual, count)
            } else {
                (EditStep::Leave, None)
            },
            Key::Char(c) if c == ':' => (EditStep::Command, count),
            Key::Char(c) if c == 'u' => (EditStep::Undo, count),
            Key::Char(c) if c == 'r' && ctrl => (EditStep::Redo, count),
            Key::Char(c) if c == 'j' && tracks => (EditStep::NextRow(true), count),
            Key::Down if tracks => (EditStep::NextRow(true), count),
            Key::Char(c) if c == 'k' && tracks => (EditStep::NextRow(false), count),
            Key::Up if tracks => (EditStep::NextRow(false), count),
            Key::Char(c) if (c == 'c' || c == 'd' || c == 'y') && !selecting => (
                EditStep::Await(c),
                count,
            ),
            _ => (
                EditStep::Buffer {
                    checkpoint: changes_text(key),
                    insert: enters_insert(key),
                    count: run_of(count),
                },
                None,
            ),
        }
    }
}

/// Decides what a key in the motions on a name does; the program then takes
/// the snapshot, switches mode or hands the key to `buffer_key` or `operate`.
pub fn edit_decide(
    count: Option<usize>,
    pending: Option<char>,
    selecting: bool,
    tracks: bool,
    key: Key,
    ctrl: bool,
) -> (r: (EditStep, Option<usize>))
    requires
        digit_fits(count, key, ctrl),
    ensures
        r == spec_edit_decide(count, pending, selecting, tracks, key, ctrl),
{
    if let Key::Char(c) = key {
        if !ctrl && '0' <= c && c <= '9' && (c != '0' || count.is_some()) {
            let before: usize = match count {
                Some(n) => n,
                None => 0,
            };
            let now: usize = before * 10 + (c as u32 - 48) as usize;
            return (EditStep::Count(now), Some(now));
        }
    }
    let run: usize = match count {
        Some(n) => n,
        None => 1,
    };
    if let Some(op) = pending {
        return (EditStep::Operator(op, run), None);
    }
    match key {
        Key::Esc => {
            if selecting {
                return (EditStep::StopVisual, count);
            }
            return (EditStep::Leave, None);
        },
        Key::Down if tracks => {
            return (EditStep::NextRow(true), count);
        },
        Key::Up if tracks => {
            return (EditStep::NextRow(false), count);
        },
        Key::Char(c) => {
            if c == ':' {
                return (EditStep::Command, count);
            } else if c == 'u' {
                return (EditStep::Undo, count);
            } else if c == 'r' && ctrl {
                return (EditStep::Redo, count);
            } else if c == 'j' && tracks {
                return (EditStep::NextRow(true), count);
            } else if c == 'k' && tracks {
                return (EditStep::NextRow(false), count);
            } else if (c == 'c' || c == 'd' || c == 'y') && !selecting {
                return (EditStep::Await(c), count);
            }
        },
        _ => {},
    }
    let checkpoint = match key {
        Key::Char(c) => c == 'i' || c == 'a' || c == 'I' || c == 'A' || c == 'x' || c == 'D' || c
            == 'C' || c == 'S' || c == 's' || c == 'c' || c == 'd' || c == 'p' || c == 'P',
        Key::Delete => true,
        _ => false,
    };
    let insert = match key {
        Key::Char(c) => c == 'i' || c == 'a' || c == 'I' || c == 'A' || c == 'C' || c == 'S' || c
            == 's' || c == 'c',
        _ => false,
    };
    (EditStep::Buffer { checkpoint, insert, count: run }, None)
}

} // verus!
