//! Ex commands: everything typed after `:`.
//!
//! Names follow vim where vim has an opinion (`:q`, `:e`, `:w`, `:h`) and stay
//! spelled out where it does not (`:vol`, `:seek`, `:shuffle`). This module
//! reads a line and decides what it asks for; the program carries it out.

use vstd::prelude::*;

use crate::app::{Columns, Repeat, spec_column, spec_set_column};
use crate::library::{SortKey, spec_sort_key};
use crate::text::{
    Class, chars_of, ends_with, find_char, lemma_forward_over_bounds, lemma_until_char,
    parse_i64, parse_usize, push_chars, push_str, same_chars, same_str, slice_of, spec_parse_i64,
    spec_parse_usize, spec_split_ws, spec_trim, spec_trim_end_char, spec_trim_start,
    spec_words, split_ws, starts_with, string_of, trim, trim_end_char, trim_start, until_char,
    words,
};

verus! {

/// A command line taken apart: the name, whether it ended in `!`, and the
/// rest of the line.
pub struct Parsed {
    pub name: String,
    pub bang: bool,
    pub args: String,
}

/// The name, the bang and the arguments of a line, or `None` for a blank one.
pub open spec fn spec_parse(line: Seq<char>) -> Option<(Seq<char>, bool, Seq<char>)> {
    let l = spec_trim_start(line);
    if l.len() == 0 {
        None
    } else {
        let (head, args) = match spec_split_ws(l) {
            Some((h, a)) => (h, a),
            None => (l, Seq::<char>::empty()),
        };
        Some((spec_trim_end_char(head, '!'), ends_with(head, '!'), spec_trim(args)))
    }
}

pub fn parse(line: &str) -> (r: Option<Parsed>)
    ensures
        match spec_parse(line@) {
            None => r is None,
            Some((name, bang, args)) => r matches Some(p) && p.name@ == name && p.bang == bang
                && p.args@ == args,
        },
{
    let all = chars_of(line);
    let l = trim_start(all.as_slice());
    if l.len() == 0 {
        return None;
    }
    let (head, args) = match split_ws(l.as_slice()) {
        Some((h, a)) => (h, a),
        None => (l, Vec::new()),
    };
    assert(args@ == (match spec_split_ws(l@) {
        Some((h, a)) => a,
        None => Seq::<char>::empty(),
    }));
    let bang = head.len() > 0 && head[head.len() - 1] == '!';
    let name = trim_end_char(head.as_slice(), '!');
    let rest = trim(args.as_slice());
    Some(Parsed { name: string_of(name.as_slice()), bang, args: string_of(rest.as_slice()) })
}

/// A number typed as a setting (`70`) or as a step from it (`+5`, `-5`).
#[derive(Debug, PartialEq, Eq, Structural, Clone, Copy)]
pub enum Delta {
    Absolute(i64),
    Relative(i64),
}

/// What `parse_delta` reads in `s`.
pub open spec fn spec_parse_delta(s: Seq<char>) -> Option<Delta> {
    let t = spec_trim(s);
    if starts_with(t, '+') {
        match spec_parse_i64(t.drop_first()) {
            Some(n) => Some(Delta::Relative(n)),
            None => None,
        }
    } else if starts_with(t, '-') {
        match spec_parse_i64(t.drop_first()) {
            Some(n) => Some(Delta::Relative((-n) as i64)),
            None => None,
        }
    } else {
        match spec_parse_i64(t) {
            Some(n) => Some(Delta::Absolute(n)),
            None => None,
        }
    }
}

/// The one input `parse_delta` cannot answer: a minus sign before a number
/// that is itself the most negative `i64`, whose negation has no `i64`.
pub open spec fn negates_the_minimum(s: Seq<char>) -> bool {
    let t = spec_trim(s);
    starts_with(t, '-') && spec_parse_i64(t.drop_first()) == Some(i64::MIN)
}

/// `70`, `+5`, `-5`.
pub fn parse_delta(s: &str) -> (r: Option<Delta>)
    requires
        !negates_the_minimum(s@),
    ensures
        r == spec_parse_delta(s@),
{
    let all = chars_of(s);
    parse_delta_chars(all.as_slice())
}

fn parse_delta_chars(s: &[char]) -> (r: Option<Delta>)
    requires
        !negates_the_minimum(s@),
    ensures
        r == spec_parse_delta(s@),
{
    let t = trim(s);
    if t.len() > 0 && (t[0] == '+' || t[0] == '-') {
        let rest = slice_of(t.as_slice(), 1, t.len());
        assert(rest@ =~= t@.drop_first());
        match parse_i64(rest.as_slice()) {
            Some(n) => {
                if t[0] == '+' {
                    Some(Delta::Relative(n))
                } else {
                    Some(Delta::Relative(-n))
                }
            },
            None => None,
        }
    } else {
        match parse_i64(t.as_slice()) {
            Some(n) => Some(Delta::Absolute(n)),
            None => None,
        }
    }
}

/// What `parse_seek` reads in `s`: a delta, or `m:ss` with the seconds under
/// a minute.
pub open spec fn spec_parse_seek(s: Seq<char>) -> Option<Delta> {
    let t = spec_trim(s);
    let k = until_char(t, 0, ':');
    if t.len() == 0 {
        None
    } else if spec_parse_delta(t) is Some {
        spec_parse_delta(t)
    } else if k < t.len() {
        match (
            spec_parse_i64(spec_trim(t.subrange(0, k))),
            spec_parse_i64(spec_trim(t.subrange(k + 1, t.len() as int))),
        ) {
            (Some(m), Some(sec)) => if 0 <= sec < 60 {
                Some(Delta::Absolute((m * 60 + sec) as i64))
            } else {
                None
            },
            _ => None,
        }
    } else {
        match spec_parse_i64(t) {
            Some(n) => Some(Delta::Absolute(n)),
            None => None,
        }
    }
}

/// `parse_seek` reads everything `parse_delta` reads, the same way: it only
/// adds `m:ss` and plain seconds on top.
pub proof fn law_seek_reads_a_delta_as_a_delta(s: Seq<char>)
    requires
        spec_parse_delta(s) is Some,
    ensures
        spec_parse_seek(s) == spec_parse_delta(s),
{
    crate::text::lemma_trim_twice(s);
    assert(spec_parse_delta(spec_trim(s)) == spec_parse_delta(s));
}

/// Whether `m:ss` in `s`, where it is read at all, comes to an `i64` on the
/// way to its seconds as well as at the end.
pub open spec fn seek_fits(s: Seq<char>) -> bool {
    let t = spec_trim(s);
    let k = until_char(t, 0, ':');
    k < t.len() ==> match (
        spec_parse_i64(spec_trim(t.subrange(0, k))),
        spec_parse_i64(spec_trim(t.subrange(k + 1, t.len() as int))),
    ) {
        (Some(m), Some(sec)) => 0 <= sec < 60 ==> i64::MIN <= m * 60 <= i64::MAX && i64::MIN <= m
            * 60 + sec <= i64::MAX,
        _ => true,
    }
}

/// Whether `s` is the one input `parse_delta` cannot answer, so a caller
/// can refuse it first.
pub fn is_negated_minimum(s: &str) -> (b: bool)
    ensures
        b == negates_the_minimum(s@),
{
    let all = chars_of(s);
    let t = trim(all.as_slice());
    if t.len() > 0 && t[0] == '-' {
        let rest = slice_of(t.as_slice(), 1, t.len());
        assert(rest@ =~= t@.drop_first());
        match parse_i64(rest.as_slice()) {
            Some(n) => n == i64::MIN,
            None => false,
        }
    } else {
        false
    }
}

/// Whether the minutes and seconds of an `m:ss` in `s` come to an `i64`,
/// so a caller can refuse them first.
pub fn seek_in_range(s: &str) -> (b: bool)
    ensures
        b == seek_fits(s@),
{
    let all = chars_of(s);
    let t = trim(all.as_slice());
    let k = find_char(t.as_slice(), ':');
    if k < t.len() {
        let m_text = slice_of(t.as_slice(), 0, k);
        let s_text = slice_of(t.as_slice(), k + 1, t.len());
        let m_trim = trim(m_text.as_slice());
        let s_trim = trim(s_text.as_slice());
        match (parse_i64(m_trim.as_slice()), parse_i64(s_trim.as_slice())) {
            (Some(m), Some(sec)) => {
                if 0 <= sec && sec < 60 {
                    let whole: i128 = m as i128 * 60;
                    let lo: i128 = i64::MIN as i128;
                    let hi: i128 = i64::MAX as i128;
                    lo <= whole && whole <= hi && lo <= whole + sec as i128 && whole + sec as i128 <= hi
                } else {
                    true
                }
            },
            _ => true,
        }
    } else {
        true
    }
}

/// Same as `parse_delta` but also accepts `m:ss` and plain seconds.
pub fn parse_seek(s: &str) -> (r: Option<Delta>)
    requires
        !negates_the_minimum(spec_trim(s@)),
        seek_fits(s@),
    ensures
        r == spec_parse_seek(s@),
{
    let all = chars_of(s);
    let t = trim(all.as_slice());
    if t.len() == 0 {
        return None;
    }
    let d = parse_delta_chars(t.as_slice());
    if d.is_some() {
        return d;
    }
    let k = find_char(t.as_slice(), ':');
    if k < t.len() {
        let m_text = slice_of(t.as_slice(), 0, k);
        let s_text = slice_of(t.as_slice(), k + 1, t.len());
        let m_trim = trim(m_text.as_slice());
        let s_trim = trim(s_text.as_slice());
        let m = parse_i64(m_trim.as_slice());
        let sec = parse_i64(s_trim.as_slice());
        match (m, sec) {
            (Some(m), Some(sec)) => {
                if !(0 <= sec && sec < 60) {
                    return None;
                }
                Some(Delta::Absolute(m * 60 + sec))
            },
            _ => None,
        }
    } else {
        match parse_i64(t.as_slice()) {
            Some(n) => Some(Delta::Absolute(n)),
            None => None,
        }
    }
}


// ---- :set ------------------------------------------------------------------

/// Every `:set` option: the tag columns, plus the lyrics pane, which can be
/// turned off.
#[derive(Clone, Copy, PartialEq, Eq, Structural, Debug)]
pub struct Options {
    pub columns: Columns,
    pub lyrics: bool,
}

pub open spec fn spec_option(o: Options, name: Seq<char>) -> Option<bool> {
    if name == "lyrics"@ {
        Some(o.lyrics)
    } else {
        spec_column(o.columns, name)
    }
}

pub open spec fn spec_set_option(o: Options, name: Seq<char>, on: bool) -> Options {
    if name == "lyrics"@ {
        Options { lyrics: on, ..o }
    } else {
        Options { columns: spec_set_column(o.columns, name, on), ..o }
    }
}

/// The value of the option called `name`, if there is one.
pub fn option(o: &Options, name: &str) -> (r: Option<bool>)
    ensures
        r == spec_option(*o, name@),
{
    if same_str(name, "lyrics") {
        Some(o.lyrics)
    } else {
        o.columns.get(name)
    }
}

pub fn set_option(o: &mut Options, name: &str, on: bool)
    ensures
        *final(o) == spec_set_option(*old(o), name@, on),
{
    if same_str(name, "lyrics") {
        o.lyrics = on;
    } else {
        let mut c = o.columns;
        c.set(name, on);
        o.columns = c;
    }
}

/// An option as `:set` prints it: its name, after `no` when it is off.
pub open spec fn flag(on: bool, name: Seq<char>) -> Seq<char> {
    if on {
        name
    } else {
        "no"@ + name
    }
}

/// Every option in the order `:set` lists them, two spaces apart.
pub open spec fn spec_list_options(o: Options) -> Seq<char> {
    flag(o.columns.file, "file"@) + "  "@ + flag(o.columns.title, "title"@) + "  "@ + flag(
        o.columns.artist,
        "artist"@,
    ) + "  "@ + flag(o.columns.album, "album"@) + "  "@ + flag(o.lyrics, "lyrics"@)
}

fn push_flag(v: &mut Vec<char>, on: bool, name: &str)
    ensures
        final(v)@ == old(v)@ + flag(on, name@),
{
    if !on {
        push_str(v, "no");
    }
    push_str(v, name);
    proof {
        if !on {
            assert(final(v)@ =~= old(v)@ + ("no"@ + name@));
        }
    }
}

/// `file  title  noartist ...`: every option, as `:set` with no argument
/// shows them and as the saved session writes them.
pub fn list_options(o: &Options) -> (s: String)
    ensures
        s@ == spec_list_options(*o),
{
    let mut v: Vec<char> = Vec::new();
    push_flag(&mut v, o.columns.file, "file");
    push_str(&mut v, "  ");
    push_flag(&mut v, o.columns.title, "title");
    push_str(&mut v, "  ");
    push_flag(&mut v, o.columns.artist, "artist");
    push_str(&mut v, "  ");
    push_flag(&mut v, o.columns.album, "album");
    push_str(&mut v, "  ");
    push_flag(&mut v, o.lyrics, "lyrics");
    assert(v@ =~= spec_list_options(*o));
    string_of(v.as_slice())
}

/// What the program says back: a message, or a complaint.
#[derive(Debug)]
pub enum Reply {
    Info(String),
    Error(String),
}

/// `r` is the reply `(error, text)` describes.
pub open spec fn reply_is(r: Reply, error: bool, text: Seq<char>) -> bool {
    match r {
        Reply::Info(m) => !error && m@ == text,
        Reply::Error(m) => error && m@ == text,
    }
}

/// How one `:set` word reads: the option it names, and `?` to ask, `!` to
/// flip, `0` for a `no` in front, `1` for a bare name.
pub open spec fn spec_set_word(o: Options, w: Seq<char>) -> (Seq<char>, char) {
    if ends_with(w, '?') {
        (spec_trim_end_char(w, '?'), '?')
    } else if ends_with(w, '!') {
        (spec_trim_end_char(w, '!'), '!')
    } else if w.len() >= 2 && w[0] == 'n' && w[1] == 'o' && spec_option(
        o,
        w.subrange(2, w.len() as int),
    ) is Some {
        (w.subrange(2, w.len() as int), '0')
    } else {
        (w, '1')
    }
}

pub open spec fn msg_unknown_option(name: Seq<char>) -> Seq<char> {
    "unknown option `"@ + name + "` - try file, title, artist, album, lyrics"@
}

/// The words of a `:set` applied in order: the options they leave, and the
/// reply that cut the line short, if one did.
pub open spec fn spec_set_run(o: Options, ws: Seq<Seq<char>>) -> (Options, Option<(bool, Seq<char>)>)
    decreases ws.len(),
{
    if ws.len() == 0 {
        (o, None)
    } else {
        let (name, act) = spec_set_word(o, ws[0]);
        match spec_option(o, name) {
            None => (o, Some((true, msg_unknown_option(name)))),
            Some(cur) => if act == '?' {
                (o, Some((false, flag(cur, name))))
            } else {
                let on = if act == '!' {
                    !cur
                } else {
                    act != '0'
                };
                spec_set_run(spec_set_option(o, name, on), ws.drop_first())
            },
        }
    }
}

/// `:set`, spelled the way vim spells it: `:set artist`, `:set noartist`,
/// `:set artist!` to flip it and `:set artist?` to ask.
pub fn set(o: &mut Options, args: &str) -> (r: Reply)
    ensures
        args@.len() == 0 ==> *final(o) == *old(o) && reply_is(r, false, spec_list_options(*old(o))),
        args@.len() > 0 ==> {
            let (after, cut) = spec_set_run(*old(o), spec_words(args@));
            &&& *final(o) == after
            &&& match cut {
                Some((error, text)) => reply_is(r, error, text),
                None => reply_is(r, false, spec_list_options(after)),
            }
        },
{
    let text = chars_of(args);
    if text.len() == 0 {
        return Reply::Info(list_options(o));
    }
    let ws = words(text.as_slice());
    let ghost all = spec_words(args@);
    let mut i: usize = 0;
    assert(all.subrange(0, all.len() as int) =~= all);
    while i < ws.len()
        invariant
            args@.len() > 0,
            all == spec_words(args@),
            i <= ws@.len(),
            ws@.len() == all.len(),
            forall|j: int| 0 <= j < ws@.len() ==> ws@[j]@ == all[j],
            spec_set_run(*old(o), all) == spec_set_run(*o, all.subrange(i as int, all.len() as int)),
        decreases ws@.len() - i,
    {
        let w = &ws[i];
        let ghost rest = all.subrange(i as int, all.len() as int);
        assert(rest[0] == w@);
        assert(rest.drop_first() =~= all.subrange(i + 1, all.len() as int));
        let n = w.len();
        let (name, act) = if n > 0 && w[n - 1] == '?' {
            (trim_end_char(w.as_slice(), '?'), '?')
        } else if n > 0 && w[n - 1] == '!' {
            (trim_end_char(w.as_slice(), '!'), '!')
        } else if n >= 2 && w[0] == 'n' && w[1] == 'o' && {
            let tail = slice_of(w.as_slice(), 2, n);
            let tail_s = string_of(tail.as_slice());
            option(o, tail_s.as_str()).is_some()
        } {
            (slice_of(w.as_slice(), 2, n), '0')
        } else {
            (slice_of(w.as_slice(), 0, n), '1')
        };
        assert(w@.subrange(0, n as int) =~= w@);
        assert((name@, act) == spec_set_word(*o, w@));
        let name_s = string_of(name.as_slice());
        match option(o, name_s.as_str()) {
            None => {
                let mut m: Vec<char> = Vec::new();
                push_str(&mut m, "unknown option `");
                push_chars(&mut m, name.as_slice());
                push_str(&mut m, "` - try file, title, artist, album, lyrics");
                assert(m@ =~= msg_unknown_option(name@));
                return Reply::Error(string_of(m.as_slice()));
            },
            Some(cur) => {
                if act == '?' {
                    let mut m: Vec<char> = Vec::new();
                    push_flag(&mut m, cur, name_s.as_str());
                    assert(m@ =~= flag(cur, name@));
                    return Reply::Info(string_of(m.as_slice()));
                }
                let on = if act == '!' {
                    !cur
                } else {
                    act != '0'
                };
                set_option(o, name_s.as_str(), on);
            },
        }
        i = i + 1;
    }
    assert(all.subrange(i as int, all.len() as int) =~= Seq::<Seq<char>>::empty());
    Reply::Info(list_options(o))
}


// ---- what a line asks for ------------------------------------------------

/// What the player is doing that a command line's meaning depends on.
#[derive(Clone, Copy, PartialEq, Eq, Structural, Debug)]
pub struct Session {
    /// The track list is a buffer of names being edited.
    pub editing: bool,
    /// That buffer holds changes nobody has written.
    pub dirty: bool,
    pub repeat: Repeat,
    pub shuffle: bool,
}

/// What a command line asks the player to do.
#[derive(Debug)]
pub enum Action {
    /// A blank line.
    Nothing,
    /// `:42`: the row, counted from zero.
    Goto(usize),
    Quit,
    /// `:e!` over pending renames: throw them away.
    DiscardEdits,
    /// `:e`: open the path given, or reread the root when it is empty.
    Open(String),
    Pwd,
    Reload,
    /// `:w` with a buffer of names to write.
    Write,
    Volume(String),
    Mute,
    Seek(String),
    Next,
    Prev,
    Play,
    Pause,
    Stop,
    SetRepeat(Repeat),
    SetShuffle(bool),
    Sort(SortKey),
    SetOptions(String),
    /// `:mkrc`, and whether it may overwrite.
    Mkrc(bool),
    Matrix,
    Help,
    /// The line is refused, with the reason.
    Fail(String),
}

/// An `Action` with its strings as character sequences.
pub enum ActionView {
    Nothing,
    Goto(usize),
    Quit,
    DiscardEdits,
    Open(Seq<char>),
    Pwd,
    Reload,
    Write,
    Volume(Seq<char>),
    Mute,
    Seek(Seq<char>),
    Next,
    Prev,
    Play,
    Pause,
    Stop,
    SetRepeat(Repeat),
    SetShuffle(bool),
    Sort(SortKey),
    SetOptions(Seq<char>),
    Mkrc(bool),
    Matrix,
    Help,
    Fail(Seq<char>),
}

impl View for Action {
    type V = ActionView;

    open spec fn view(&self) -> ActionView {
        match self {
            Action::Nothing => ActionView::Nothing,
            Action::Goto(r) => ActionView::Goto(*r),
            Action::Quit => ActionView::Quit,
            Action::DiscardEdits => ActionView::DiscardEdits,
            Action::Open(a) => ActionView::Open(a@),
            Action::Pwd => ActionView::Pwd,
            Action::Reload => ActionView::Reload,
            Action::Write => ActionView::Write,
            Action::Volume(a) => ActionView::Volume(a@),
            Action::Mute => ActionView::Mute,
            Action::Seek(a) => ActionView::Seek(a@),
            Action::Next => ActionView::Next,
            Action::Prev => ActionView::Prev,
            Action::Play => ActionView::Play,
            Action::Pause => ActionView::Pause,
            Action::Stop => ActionView::Stop,
            Action::SetRepeat(r) => ActionView::SetRepeat(*r),
            Action::SetShuffle(b) => ActionView::SetShuffle(*b),
            Action::Sort(k) => ActionView::Sort(*k),
            Action::SetOptions(a) => ActionView::SetOptions(a@),
            Action::Mkrc(b) => ActionView::Mkrc(*b),
            Action::Matrix => ActionView::Matrix,
            Action::Help => ActionView::Help,
            Action::Fail(m) => ActionView::Fail(m@),
        }
    }
}

pub open spec fn msg_unsaved() -> Seq<char> {
    "no write since last change: `:w` renames, `:q!` throws it away"@
}

pub open spec fn msg_nothing_to_write() -> Seq<char> {
    "nothing to write: `c` edits filenames, `:w` renames them"@
}

pub open spec fn msg_bad_repeat(arg: Seq<char>) -> Seq<char> {
    "bad repeat mode `"@ + arg + "` - use off, all or one"@
}

pub open spec fn msg_bad_shuffle(arg: Seq<char>) -> Seq<char> {
    "bad shuffle value `"@ + arg + "` - use on or off"@
}

pub open spec fn msg_bad_sort() -> Seq<char> {
    "bad sort key - use path, title, artist, album or duration"@
}

pub open spec fn msg_unknown_command(name: Seq<char>) -> Seq<char> {
    "not a vibox command: `"@ + name + "` - see :help"@
}

/// The repeat mode `:repeat` with these arguments asks for.
pub open spec fn spec_repeat_arg(args: Seq<char>, now: Repeat) -> ActionView {
    if args.len() == 0 || args == "toggle"@ {
        ActionView::SetRepeat(now.spec_next())
    } else if args == "off"@ || args == "none"@ {
        ActionView::SetRepeat(Repeat::Off)
    } else if args == "all"@ {
        ActionView::SetRepeat(Repeat::All)
    } else if args == "one"@ || args == "track"@ {
        ActionView::SetRepeat(Repeat::One)
    } else {
        ActionView::Fail(msg_bad_repeat(args))
    }
}

/// The shuffle setting `:shuffle` with these arguments asks for.
pub open spec fn spec_shuffle_arg(args: Seq<char>, now: bool) -> ActionView {
    if args.len() == 0 || args == "toggle"@ {
        ActionView::SetShuffle(!now)
    } else if args == "on"@ || args == "1"@ {
        ActionView::SetShuffle(true)
    } else if args == "off"@ || args == "0"@ {
        ActionView::SetShuffle(false)
    } else {
        ActionView::Fail(msg_bad_shuffle(args))
    }
}

/// What a command with this name, bang and arguments asks for.
pub open spec fn spec_command(name: Seq<char>, bang: bool, args: Seq<char>, st: Session) -> ActionView {
    if name == "q"@ || name == "qa"@ || name == "quit"@ || name == "qall"@ || name == "x"@ {
        if st.dirty && !bang {
            ActionView::Fail(msg_unsaved())
        } else {
            ActionView::Quit
        }
    } else if name == "e"@ || name == "edit"@ || name == "cd"@ {
        if bang && args.len() == 0 && st.editing {
            ActionView::DiscardEdits
        } else {
            ActionView::Open(args)
        }
    } else if name == "pwd"@ {
        ActionView::Pwd
    } else if name == "reload"@ || name == "scan"@ {
        ActionView::Reload
    } else if name == "w"@ || name == "write"@ || name == "save"@ {
        if st.editing {
            ActionView::Write
        } else {
            ActionView::Fail(msg_nothing_to_write())
        }
    } else if name == "vol"@ || name == "volume"@ {
        ActionView::Volume(args)
    } else if name == "mute"@ {
        ActionView::Mute
    } else if name == "seek"@ {
        ActionView::Seek(args)
    } else if name == "next"@ || name == "n"@ {
        ActionView::Next
    } else if name == "prev"@ || name == "p"@ || name == "previous"@ {
        ActionView::Prev
    } else if name == "play"@ {
        ActionView::Play
    } else if name == "pause"@ {
        ActionView::Pause
    } else if name == "stop"@ {
        ActionView::Stop
    } else if name == "repeat"@ {
        spec_repeat_arg(args, st.repeat)
    } else if name == "shuffle"@ {
        spec_shuffle_arg(args, st.shuffle)
    } else if name == "sort"@ {
        match spec_sort_key(args) {
            Some(k) => ActionView::Sort(k),
            None => ActionView::Fail(msg_bad_sort()),
        }
    } else if name == "set"@ || name == "se"@ {
        ActionView::SetOptions(args)
    } else if name == "mkrc"@ {
        ActionView::Mkrc(bang)
    } else if name == "matrix"@ {
        ActionView::Matrix
    } else if name == "h"@ || name == "help"@ {
        ActionView::Help
    } else {
        ActionView::Fail(msg_unknown_command(name))
    }
}

/// What a whole command line asks for: nothing when blank, a row when the
/// name is a number (`:42`, counted from one as vim counts), else the command.
pub open spec fn spec_decide(line: Seq<char>, st: Session) -> ActionView {
    match spec_parse(line) {
        None => ActionView::Nothing,
        Some((name, bang, args)) => match spec_parse_usize(name) {
            Some(row) => ActionView::Goto(
                if row > 0 {
                    (row - 1) as usize
                } else {
                    0
                },
            ),
            None => spec_command(name, bang, args, st),
        },
    }
}

fn message(a: &str, b: &[char], c: &str) -> (s: String)
    ensures
        s@ == a@ + b@ + c@,
{
    let mut m: Vec<char> = Vec::new();
    push_str(&mut m, a);
    push_chars(&mut m, b);
    push_str(&mut m, c);
    string_of(m.as_slice())
}

fn repeat_arg(args: &str, now: Repeat) -> (a: Action)
    ensures
        a@ == spec_repeat_arg(args@, now),
{
    if args.is_empty() || same_str(args, "toggle") {
        Action::SetRepeat(now.next())
    } else if same_str(args, "off") || same_str(args, "none") {
        Action::SetRepeat(Repeat::Off)
    } else if same_str(args, "all") {
        Action::SetRepeat(Repeat::All)
    } else if same_str(args, "one") || same_str(args, "track") {
        Action::SetRepeat(Repeat::One)
    } else {
        let text = chars_of(args);
        Action::Fail(message("bad repeat mode `", text.as_slice(), "` - use off, all or one"))
    }
}

fn shuffle_arg(args: &str, now: bool) -> (a: Action)
    ensures
        a@ == spec_shuffle_arg(args@, now),
{
    if args.is_empty() || same_str(args, "toggle") {
        Action::SetShuffle(!now)
    } else if same_str(args, "on") || same_str(args, "1") {
        Action::SetShuffle(true)
    } else if same_str(args, "off") || same_str(args, "0") {
        Action::SetShuffle(false)
    } else {
        let text = chars_of(args);
        Action::Fail(message("bad shuffle value `", text.as_slice(), "` - use on or off"))
    }
}

fn command(name: &str, bang: bool, args: String, st: Session) -> (a: Action)
    ensures
        a@ == spec_command(name@, bang, args@, st),
{
    if same_str(name, "q") || same_str(name, "qa") || same_str(name, "quit") || same_str(
        name,
        "qall",
    ) || same_str(name, "x") {
        if st.dirty && !bang {
            Action::Fail(string_of(chars_of("no write since last change: `:w` renames, `:q!` throws it away").as_slice()))
        } else {
            Action::Quit
        }
    } else if same_str(name, "e") || same_str(name, "edit") || same_str(name, "cd") {
        if bang && args.as_str().is_empty() && st.editing {
            Action::DiscardEdits
        } else {
            Action::Open(args)
        }
    } else if same_str(name, "pwd") {
        Action::Pwd
    } else if same_str(name, "reload") || same_str(name, "scan") {
        Action::Reload
    } else if same_str(name, "w") || same_str(name, "write") || same_str(name, "save") {
        if st.editing {
            Action::Write
        } else {
            Action::Fail(string_of(chars_of("nothing to write: `c` edits filenames, `:w` renames them").as_slice()))
        }
    } else if same_str(name, "vol") || same_str(name, "volume") {
        Action::Volume(args)
    } else if same_str(name, "mute") {
        Action::Mute
    } else if same_str(name, "seek") {
        Action::Seek(args)
    } else if same_str(name, "next") || same_str(name, "n") {
        Action::Next
    } else if same_str(name, "prev") || same_str(name, "p") || same_str(name, "previous") {
        Action::Prev
    } else if same_str(name, "play") {
        Action::Play
    } else if same_str(name, "pause") {
        Action::Pause
    } else if same_str(name, "stop") {
        Action::Stop
    } else if same_str(name, "repeat") {
        repeat_arg(args.as_str(), st.repeat)
    } else if same_str(name, "shuffle") {
        shuffle_arg(args.as_str(), st.shuffle)
    } else if same_str(name, "sort") {
        match SortKey::parse(args.as_str()) {
            Some(k) => Action::Sort(k),
            None => Action::Fail(string_of(chars_of("bad sort key - use path, title, artist, album or duration").as_slice())),
        }
    } else if same_str(name, "set") || same_str(name, "se") {
        Action::SetOptions(args)
    } else if same_str(name, "mkrc") {
        Action::Mkrc(bang)
    } else if same_str(name, "matrix") {
        Action::Matrix
    } else if same_str(name, "h") || same_str(name, "help") {
        Action::Help
    } else {
        let text = chars_of(name);
        Action::Fail(message("not a vibox command: `", text.as_slice(), "` - see :help"))
    }
}

/// Reads an ex command line and says what it asks for.
pub fn decide(line: &str, st: Session) -> (a: Action)
    ensures
        a@ == spec_decide(line@, st),
{
    match parse(line) {
        None => Action::Nothing,
        Some(cmd) => {
            let name = chars_of(cmd.name.as_str());
            match parse_usize(name.as_slice()) {
                Some(row) => Action::Goto(row.saturating_sub(1)),
                None => command(cmd.name.as_str(), cmd.bang, cmd.args, st),
            }
        },
    }
}


// ---- :vol and :seek ------------------------------------------------------

/// What `:vol` asks of the mixer.
#[derive(Debug)]
pub enum VolumeChange {
    /// No argument: say what the volume is.
    Show,
    /// `+5`, `-5`: move it by that much.
    Nudge(i32),
    /// `70`: put it there, held to `0..=100`.
    Level(u8),
    /// Not a volume, and what to say about it.
    Bad(String),
}

pub open spec fn msg_bad_volume(args: Seq<char>) -> Seq<char> {
    "bad volume `"@ + args + "` - use `:vol 70`, `:vol +5`"@
}

pub open spec fn clamp_volume(v: i64) -> u8 {
    if v < 0 {
        0
    } else if v > 100 {
        100
    } else {
        v as u8
    }
}

pub fn volume_change(args: &str) -> (c: VolumeChange)
    requires
        !negates_the_minimum(args@),
    ensures
        args@.len() == 0 ==> c is Show,
        args@.len() > 0 ==> match spec_parse_delta(args@) {
            Some(Delta::Relative(d)) => c == VolumeChange::Nudge(d as i32),
            Some(Delta::Absolute(v)) => c == VolumeChange::Level(clamp_volume(v)),
            None => c matches VolumeChange::Bad(m) && m@ == msg_bad_volume(args@),
        },
{
    if args.is_empty() {
        return VolumeChange::Show;
    }
    match parse_delta(args) {
        Some(Delta::Relative(d)) => VolumeChange::Nudge(d as i32),
        Some(Delta::Absolute(v)) => {
            let level: u8 = if v < 0 {
                0
            } else if v > 100 {
                100
            } else {
                v as u8
            };
            VolumeChange::Level(level)
        },
        None => {
            let text = chars_of(args);
            VolumeChange::Bad(message("bad volume `", text.as_slice(), "` - use `:vol 70`, `:vol +5`"))
        },
    }
}

/// Where `:seek` asks playback to go.
#[derive(Clone, Copy, PartialEq, Eq, Structural, Debug)]
pub enum SeekTo {
    /// This many seconds from where it is.
    By(i64),
    /// This many seconds from the start.
    At(u64),
}

pub open spec fn msg_bad_position(args: Seq<char>) -> Seq<char> {
    "bad position `"@ + args + "` - use `:seek 1:30`, `:seek +30`"@
}

pub fn seek_request(args: &str) -> (r: Result<SeekTo, String>)
    requires
        !negates_the_minimum(spec_trim(args@)),
        seek_fits(args@),
    ensures
        match spec_parse_seek(args@) {
            Some(Delta::Relative(d)) => r == Ok::<SeekTo, String>(SeekTo::By(d)),
            Some(Delta::Absolute(s)) => r == Ok::<SeekTo, String>(SeekTo::At(if s < 0 { 0 } else { s as u64 })),
            None => r matches Err(m) && m@ == msg_bad_position(args@),
        },
{
    match parse_seek(args) {
        Some(Delta::Relative(d)) => Ok(SeekTo::By(d)),
        Some(Delta::Absolute(s)) => Ok(SeekTo::At(if s < 0 { 0 } else { s as u64 })),
        None => {
            let text = chars_of(args);
            Err(message("bad position `", text.as_slice(), "` - use `:seek 1:30`, `:seek +30`"))
        },
    }
}

/// The commands that manage the library's files and the `:changes` window,
/// read before the rest of the grammar.
#[derive(Debug, PartialEq, Eq)]
pub enum FileCommand {
    /// `:playlist late night`: a new, empty playlist.
    Playlist(String),
    /// `:mkdir name`: a new folder here, danger mode only.
    Mkdir(String),
    /// `:changes`: the window of what `:w` would do.
    Changes,
    /// `:danger`, `:set danger`: let keys move, copy and delete files.
    Danger,
}

pub enum FileCommandView {
    Playlist(Seq<char>),
    Mkdir(Seq<char>),
    Changes,
    Danger,
}

impl View for FileCommand {
    type V = FileCommandView;

    open spec fn view(&self) -> FileCommandView {
        match self {
            FileCommand::Playlist(n) => FileCommandView::Playlist(n@),
            FileCommand::Mkdir(n) => FileCommandView::Mkdir(n@),
            FileCommand::Changes => FileCommandView::Changes,
            FileCommand::Danger => FileCommandView::Danger,
        }
    }
}

/// `t` starts with `p`.
pub open spec fn has_prefix(t: Seq<char>, p: Seq<char>) -> bool {
    p.len() <= t.len() && t.subrange(0, p.len() as int) == p
}

/// Which of these commands the line (trimmed) is: `playlist ` or `mkdir `
/// and a name (trimmed), `changes`, `danger` or `set danger`; none for any
/// other line.
pub open spec fn spec_file_command(line: Seq<char>) -> Option<FileCommandView> {
    let t = spec_trim(line);
    if has_prefix(t, "playlist "@) {
        Some(FileCommandView::Playlist(spec_trim(t.subrange(9, t.len() as int))))
    } else if has_prefix(t, "mkdir "@) {
        Some(FileCommandView::Mkdir(spec_trim(t.subrange(6, t.len() as int))))
    } else if t == "changes"@ {
        Some(FileCommandView::Changes)
    } else if t == "danger"@ || t == "set danger"@ {
        Some(FileCommandView::Danger)
    } else {
        None
    }
}

fn prefixed(t: &[char], p: &str) -> (b: bool)
    ensures
        b == has_prefix(t@, p@),
{
    let pc = chars_of(p);
    if pc.len() > t.len() {
        return false;
    }
    let head = slice_of(t, 0, pc.len());
    same_chars(head.as_slice(), pc.as_slice())
}

/// Reads one of the file commands out of a `:` line.
pub fn file_command(line: &str) -> (r: Option<FileCommand>)
    ensures
        match r {
            Some(c) => spec_file_command(line@) == Some(c@),
            None => spec_file_command(line@) is None,
        },
{
    let all = chars_of(line);
    let t = trim(all.as_slice());
    proof {
        reveal_strlit("playlist ");
        reveal_strlit("mkdir ");
    }
    if prefixed(t.as_slice(), "playlist ") {
        let rest = slice_of(t.as_slice(), 9, t.len());
        let name = trim(rest.as_slice());
        return Some(FileCommand::Playlist(string_of(name.as_slice())));
    }
    if prefixed(t.as_slice(), "mkdir ") {
        let rest = slice_of(t.as_slice(), 6, t.len());
        let name = trim(rest.as_slice());
        return Some(FileCommand::Mkdir(string_of(name.as_slice())));
    }
    let changes = chars_of("changes");
    if same_chars(t.as_slice(), changes.as_slice()) {
        return Some(FileCommand::Changes);
    }
    let danger = chars_of("danger");
    let set_danger = chars_of("set danger");
    if same_chars(t.as_slice(), danger.as_slice()) || same_chars(t.as_slice(), set_danger.as_slice()) {
        return Some(FileCommand::Danger);
    }
    None
}

/// A plain word typed alone (no whitespace, no `!`, not starting like a
/// number) is a command's name, with no bang and nothing after it.
proof fn lemma_a_word_is_a_command(w: Seq<char>, st: Session)
    requires
        w.len() > 0,
        forall|i: int| 0 <= i < w.len() ==> !crate::text::spec_is_whitespace(w[i]) && w[i] != '!',
        !crate::text::is_digit(w[0]),
        w[0] != '+',
    ensures
        spec_decide(w, st) == spec_command(w, false, Seq::<char>::empty(), st),
{
    assert(crate::text::forward_over(w, 0, Class::Space) == 0);
    assert(spec_trim_start(w) =~= w);
    crate::text::lemma_until_space(w, 0);
    assert(spec_split_ws(w) is None);
    assert(crate::text::back_over_char(w, w.len() as int, '!') == w.len());
    assert(spec_trim_end_char(w, '!') =~= w);
    let e = Seq::<char>::empty();
    assert(crate::text::forward_over(e, 0, Class::Space) == 0);
    assert(spec_trim_start(e) =~= e);
    assert(spec_trim(e) =~= e);
    assert(!crate::text::all_digits(w));
    assert(spec_parse(w) == Some((w, false, e)));
    assert(spec_parse_usize(w) is None);
}

/// `:next` (or `:n`) goes on to the next track and `:prev` (`:p`,
/// `:previous`) back to the one before, in every session: the command's
/// name alone decides which way.
pub proof fn law_next_and_prev_go_their_own_way(st: Session)
    ensures
        spec_decide("next"@, st) == ActionView::Next,
        spec_decide("n"@, st) == ActionView::Next,
        spec_decide("prev"@, st) == ActionView::Prev,
        spec_decide("p"@, st) == ActionView::Prev,
        spec_decide("previous"@, st) == ActionView::Prev,
{
    reveal_strlit("q");
    reveal_strlit("qa");
    reveal_strlit("quit");
    reveal_strlit("qall");
    reveal_strlit("x");
    reveal_strlit("e");
    reveal_strlit("edit");
    reveal_strlit("cd");
    reveal_strlit("pwd");
    reveal_strlit("reload");
    reveal_strlit("scan");
    reveal_strlit("w");
    reveal_strlit("write");
    reveal_strlit("save");
    reveal_strlit("vol");
    reveal_strlit("volume");
    reveal_strlit("mute");
    reveal_strlit("seek");
    reveal_strlit("next");
    reveal_strlit("n");
    reveal_strlit("prev");
    reveal_strlit("p");
    reveal_strlit("previous");
    lemma_a_word_is_a_command("next"@, st);
    lemma_a_word_is_a_command("n"@, st);
    lemma_a_word_is_a_command("prev"@, st);
    lemma_a_word_is_a_command("p"@, st);
    lemma_a_word_is_a_command("previous"@, st);
}

} // verus!
