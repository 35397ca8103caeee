//! Lyrics from lrclib.net: which search hit is the song, what its text says,
//! and how an entry is kept in the cache on disk.
//!
//! The request and the disk are the program's; it hands in what lrclib
//! answered as `Hit`s and the cache file as text. Times are whole
//! milliseconds.

use vstd::prelude::*;
use vstd::string::StringSliceAdditionalSpecFns;

use crate::assoc::{
    keys_distinct, lemma_push_distinct, lemma_set_push, lemma_set_remove, lemma_to_map_at,
    lemma_to_map_dom, lemma_to_map_remove, names_distinct, to_map, to_set,
};

use crate::text::{
    all_digits, chars_of, digits_value, ends_with, find_char, is_alphanumeric, lines,
    lemma_until_char, parse_i64, parse_u64, same_chars, slice_of, spec_is_alphanumeric, spec_lines, spec_parse_i64,
    spec_parse_u64, spec_trim, spec_trim_end, starts_with, string_of, trim, trim_end,
    until_char, spec_hex, hex, push_str, same_str, decimal, zero_pad, spec_decimal,
    spec_zero_pad, signed_decimal, spec_signed_decimal, push_chars,
};

verus! {

/// Who the words came from, for the pane to credit.
pub const SOURCE: &'static str = "lrclib";

/// What one character becomes in lower case: `char::to_lowercase`, whose
/// tables are Unicode's and not restated here.
pub uninterp spec fn spec_lowercase(c: char) -> Seq<char>;

/// `char::to_lowercase` from std, collected. Its contract claims that the
/// characters are a function of the one handed in, named `spec_lowercase`,
/// and that an ASCII character maps to one character: `A` to `Z` to `a` to
/// `z`, every other one to itself, as Unicode's lower case mapping has it.
#[verifier::external_body]
fn lowercase(c: char) -> (v: Vec<char>)
    ensures
        v@ == spec_lowercase(c),
        (c as u32) < 128 ==> v@ == seq![crate::library::ascii_lower_char(c)],
{
    c.to_lowercase().collect()
}

// ---- matching a song by name -------------------------------------------

/// One step of `normalize`: the text so far, how deep inside brackets it is,
/// and whether the last thing written was a space (or nothing yet).
pub open spec fn norm_step(st: (Seq<char>, nat, bool), c: char) -> (Seq<char>, nat, bool) {
    let (out, depth, space) = st;
    if c == '(' || c == '[' {
        (out, depth + 1, space)
    } else if c == ')' || c == ']' {
        (out, if depth > 0 { (depth - 1) as nat } else { 0 }, space)
    } else if depth > 0 {
        st
    } else if spec_is_alphanumeric(c) {
        (out + spec_lowercase(c), depth, false)
    } else if !space {
        (out.push(' '), depth, true)
    } else {
        st
    }
}

pub open spec fn norm_fold(s: Seq<char>) -> (Seq<char>, nat, bool)
    decreases s.len(),
{
    if s.len() == 0 {
        (seq![], 0, true)
    } else {
        norm_step(norm_fold(s.drop_last()), s.last())
    }
}

/// Lower case, without bracketed asides, with every run of anything that is
/// not a letter or digit made one space, and none at the end.
pub open spec fn spec_normalize(s: Seq<char>) -> Seq<char> {
    spec_trim_end(norm_fold(s).0)
}

/// Lowercase, without bracketed asides or punctuation: `Destiny (Original
/// Version)` and `destiny` are the same title written twice.
pub fn normalize(s: &str) -> (r: Vec<char>)
    ensures
        r@ == spec_normalize(s@),
{
    let text = chars_of(s);
    let mut out: Vec<char> = Vec::new();
    let mut depth: usize = 0;
    let mut space = true;
    let mut i: usize = 0;
    while i < text.len()
        invariant
            i <= text@.len(),
            depth <= i,
            norm_fold(text@.subrange(0, i as int)) == (out@, depth as nat, space),
        decreases text@.len() - i,
    {
        let c = text[i];
        assert(text@.subrange(0, i + 1).drop_last() =~= text@.subrange(0, i as int));
        if c == '(' || c == '[' {
            depth = depth + 1;
        } else if c == ')' || c == ']' {
            depth = if depth > 0 { depth - 1 } else { 0 };
        } else if depth > 0 {
        } else if is_alphanumeric(c) {
            let mut low = lowercase(c);
            out.append(&mut low);
            space = false;
        } else if !space {
            out.push(' ');
            space = true;
        }
        i = i + 1;
    }
    assert(text@.subrange(0, text@.len() as int) =~= text@);
    trim_end(out.as_slice())
}

pub open spec fn min3(x: nat, y: nat, z: nat) -> nat {
    if x <= y && x <= z {
        x
    } else if y <= z {
        y
    } else {
        z
    }
}

/// The Levenshtein distance: the fewest single character insertions,
/// deletions and substitutions that turn `a` into `b`.
pub open spec fn lev(a: Seq<char>, b: Seq<char>) -> nat
    decreases a.len() + b.len(),
{
    if a.len() == 0 {
        b.len()
    } else if b.len() == 0 {
        a.len()
    } else {
        min3(
            lev(a.drop_last(), b) + 1,
            lev(a, b.drop_last()) + 1,
            lev(a.drop_last(), b.drop_last()) + if a.last() == b.last() {
                0nat
            } else {
                1nat
            },
        )
    }
}

proof fn lemma_lev_bound(a: Seq<char>, b: Seq<char>)
    ensures
        lev(a, b) <= if a.len() >= b.len() {
            a.len()
        } else {
            b.len()
        },
    decreases a.len() + b.len(),
{
    if a.len() > 0 && b.len() > 0 {
        lemma_lev_bound(a.drop_last(), b.drop_last());
    }
}

proof fn lemma_lev_self(a: Seq<char>)
    ensures
        lev(a, a) == 0,
    decreases a.len(),
{
    if a.len() > 0 {
        lemma_lev_self(a.drop_last());
    }
}

/// No round or square bracket anywhere in `a`.
pub open spec fn no_brackets(a: Seq<char>) -> bool {
    forall|i: int| 0 <= i < a.len() ==> a[i] != '(' && a[i] != ')' && a[i] != '[' && a[i] != ']'
}

/// Inside brackets, text without brackets of its own changes nothing.
proof fn lemma_fold_inside(p: Seq<char>, a: Seq<char>)
    requires
        norm_fold(p).1 > 0,
        no_brackets(a),
    ensures
        norm_fold(p + a) == norm_fold(p),
    decreases a.len(),
{
    if a.len() > 0 {
        lemma_fold_inside(p, a.drop_last());
        assert((p + a).drop_last() =~= p + a.drop_last());
        assert((p + a).last() == a.last());
    } else {
        assert(p + a =~= p);
    }
}

/// An aside opened and closed after `s` leaves `s`'s reading as it was.
proof fn lemma_aside_vanishes(s: Seq<char>, a: Seq<char>, open: char, shut: char)
    requires
        (open == '(' && shut == ')') || (open == '[' && shut == ']'),
        no_brackets(a),
    ensures
        norm_fold(s + seq![open] + a + seq![shut]) == norm_fold(s),
{
    let u = s + seq![open];
    assert(u.drop_last() =~= s);
    assert(u.last() == open);
    lemma_fold_inside(u, a);
    let z = u + a + seq![shut];
    assert(z.drop_last() =~= u + a);
    assert(z.last() == shut);
}

/// A bracketed aside, round or square, is no part of a name: a title with
/// `[Remastered 2011]` or `(Live)` after it reads as the title alone, and
/// so is close to it whenever the title reads as anything at all.
pub proof fn law_bracketed_asides_do_not_count(s: Seq<char>, a: Seq<char>)
    requires
        no_brackets(a),
    ensures
        spec_normalize(s + "["@ + a + "]"@) == spec_normalize(s),
        spec_normalize(s + "("@ + a + ")"@) == spec_normalize(s),
        spec_normalize(s).len() > 0 ==> spec_close(s + "["@ + a + "]"@, s),
        spec_normalize(s).len() > 0 ==> spec_close(s + "("@ + a + ")"@, s),
{
    reveal_strlit("[");
    reveal_strlit("]");
    reveal_strlit("(");
    reveal_strlit(")");
    assert("["@ =~= seq!['[']);
    assert("]"@ =~= seq![']']);
    assert("("@ =~= seq!['(']);
    assert(")"@ =~= seq![')']);
    lemma_aside_vanishes(s, a, '[', ']');
    lemma_aside_vanishes(s, a, '(', ')');
    assert(s + "["@ + a + "]"@ =~= s + seq!['['] + a + seq![']']);
    assert(s + "("@ + a + ")"@ =~= s + seq!['('] + a + seq![')']);
    lemma_lev_self(spec_normalize(s));
}

/// Levenshtein distance, two rows at a time. Titles are short, so the naive
/// version is free.
pub fn distance(a: &[char], b: &[char]) -> (d: usize)
    ensures
        d == lev(a@, b@),
{
    let n = b.len();
    let mut prev: Vec<u128> = Vec::new();
    prev.push(0);
    let mut j: usize = 0;
    while j < n
        invariant
            j <= n,
            n == b@.len(),
            prev@.len() == j + 1,
            forall|k: int| 0 <= k <= j ==> prev@[k] == lev(seq![], b@.subrange(0, k)),
        decreases n - j,
    {
        prev.push((j + 1) as u128);
        j = j + 1;
    }
    let mut i: usize = 0;
    while i < a.len()
        invariant
            i <= a@.len(),
            n == b@.len(),
            prev@.len() == n + 1,
            forall|k: int|
                0 <= k <= n ==> prev@[k] == lev(a@.subrange(0, i as int), b@.subrange(0, k)),
        decreases a@.len() - i,
    {
        let ghost ai = a@.subrange(0, i as int);
        let ghost ai1 = a@.subrange(0, i + 1);
        assert(ai1.drop_last() =~= ai);
        let mut cur: Vec<u128> = Vec::new();
        cur.push((i + 1) as u128);
        let mut k: usize = 0;
        while k < n
            invariant
                i < a@.len(),
                k <= n,
                n == b@.len(),
                ai == a@.subrange(0, i as int),
                ai1 == a@.subrange(0, i + 1),
                ai1.drop_last() == ai,
                prev@.len() == n + 1,
                forall|q: int| 0 <= q <= n ==> prev@[q] == lev(ai, b@.subrange(0, q)),
                cur@.len() == k + 1,
                forall|q: int| 0 <= q <= k ==> cur@[q] == lev(ai1, b@.subrange(0, q)),
            decreases n - k,
        {
            let ghost bk1 = b@.subrange(0, k + 1);
            assert(bk1.drop_last() =~= b@.subrange(0, k as int));
            proof {
                lemma_lev_bound(ai, bk1);
                lemma_lev_bound(ai1, b@.subrange(0, k as int));
                lemma_lev_bound(ai, b@.subrange(0, k as int));
            }
            let cost: u128 = if a[i] == b[k] { 0 } else { 1 };
            let up = prev[k + 1] + 1;
            let left = cur[k] + 1;
            let diag = prev[k] + cost;
            let best = if up <= left && up <= diag {
                up
            } else if left <= diag {
                left
            } else {
                diag
            };
            cur.push(best);
            k = k + 1;
        }
        prev = cur;
        i = i + 1;
    }
    assert(a@.subrange(0, a@.len() as int) =~= a@);
    assert(b@.subrange(0, n as int) =~= b@);
    proof {
        lemma_lev_bound(a@, b@);
    }
    prev[n] as usize
}

/// Two names are the same song when, normalized, neither is empty and they
/// are at most three tenths of the longer one apart.
pub open spec fn spec_close(theirs: Seq<char>, ours: Seq<char>) -> bool {
    let t = spec_normalize(theirs);
    let o = spec_normalize(ours);
    let longest = if t.len() >= o.len() {
        t.len()
    } else {
        o.len()
    };
    t.len() > 0 && o.len() > 0 && lev(t, o) * 10 <= longest * 3
}

/// Two names for the same song, allowing for case, punctuation and whatever is
/// in the brackets.
pub fn close(theirs: &str, ours: &str) -> (b: bool)
    ensures
        b == spec_close(theirs@, ours@),
{
    let t = normalize(theirs);
    let o = normalize(ours);
    if t.len() == 0 || o.len() == 0 {
        return false;
    }
    let longest = if t.len() >= o.len() {
        t.len()
    } else {
        o.len()
    };
    let d = distance(t.as_slice(), o.as_slice());
    (d as u128) * 10 <= (longest as u128) * 3
}


// ---- what a song's words are -------------------------------------------

pub enum Lyrics {
    /// Timestamped lines, in order: milliseconds from the start, and words.
    Synced(Vec<(u64, String)>),
    Plain(Vec<String>),
    /// Nothing to show, and the reason to put in the pane.
    Missing(String),
}

pub enum LyricsView {
    Synced(Seq<(u64, Seq<char>)>),
    Plain(Seq<Seq<char>>),
    Missing(Seq<char>),
}

impl View for Lyrics {
    type V = LyricsView;

    open spec fn view(&self) -> LyricsView {
        match self {
            Lyrics::Synced(v) => LyricsView::Synced(
                Seq::new(v@.len(), |i: int| (v@[i].0, v@[i].1@)),
            ),
            Lyrics::Plain(v) => LyricsView::Plain(Seq::new(v@.len(), |i: int| v@[i]@)),
            Lyrics::Missing(m) => LyricsView::Missing(m@),
        }
    }
}

/// True when the last line is timed past the end of the track, allowing a few
/// seconds for a fade or a sloppy final timestamp. A length of zero is one
/// nobody knows, and rejects nothing.
pub open spec fn spec_runs_over(lines: Seq<(u64, Seq<char>)>, ours: u64) -> bool {
    ours != 0 && lines.len() > 0 && lines.last().0 / 1000 > ours + 5
}

pub fn runs_over(lines: &[(u64, String)], ours: u64) -> (b: bool)
    ensures
        b == (ours != 0 && lines@.len() > 0 && lines@.last().0 / 1000 > ours + 5),
{
    if ours == 0 || lines.len() == 0 {
        return false;
    }
    let last = lines[lines.len() - 1].0 / 1000;
    (last as u128) > (ours as u128) + 5
}

// ---- lrc ----------------------------------------------------------------

/// The fraction digits of a number of seconds, as whole milliseconds: the
/// first three, with zeros after when there are fewer.
pub open spec fn millis_of(f: Seq<char>) -> nat {
    if f.len() >= 3 {
        digits_value(f.subrange(0, 3))
    } else {
        digits_value(f + Seq::new((3 - f.len()) as nat, |i: int| '0'))
    }
}

/// A number of seconds as lrc writes them (`30.50`, `5`, `.5`, `+7.`), in
/// whole milliseconds, when it is one and fits in a `u64`.
pub open spec fn spec_seconds_ms(t: Seq<char>) -> Option<u64> {
    let u = if starts_with(t, '+') {
        t.drop_first()
    } else {
        t
    };
    let d = until_char(u, 0, '.');
    let whole = u.subrange(0, d);
    let frac = if d < u.len() {
        u.subrange(d + 1, u.len() as int)
    } else {
        Seq::<char>::empty()
    };
    if all_digits(whole) && all_digits(frac) && (whole.len() > 0 || frac.len() > 0) {
        let v = digits_value(whole) * 1000 + millis_of(frac);
        if v <= u64::MAX {
            Some(v as u64)
        } else {
            None
        }
    } else {
        None
    }
}

/// `[01:23.45] words` into the time and the words.
pub open spec fn spec_split_timestamp(line: Seq<char>) -> Option<(u64, Seq<char>)> {
    if !starts_with(line, '[') {
        None
    } else {
        let rest = line.drop_first();
        let k = until_char(rest, 0, ']');
        let stamp = rest.subrange(0, k);
        let c = until_char(stamp, 0, ':');
        if k >= rest.len() || c >= stamp.len() {
            None
        } else {
            match (
                spec_parse_u64(spec_trim(stamp.subrange(0, c))),
                spec_seconds_ms(spec_trim(stamp.subrange(c + 1, stamp.len() as int))),
            ) {
                (Some(m), Some(ms)) => if m * 60000 + ms <= u64::MAX {
                    Some(
                        (
                            (m * 60000 + ms) as u64,
                            spec_trim(rest.subrange(k + 1, rest.len() as int)),
                        ),
                    )
                } else {
                    None
                },
                _ => None,
            }
        }
    }
}

/// A number of seconds as lrc writes them, in whole milliseconds.
pub fn seconds_ms(t: &[char]) -> (r: Option<u64>)
    ensures
        r == spec_seconds_ms(t@),
{
    let u = if t.len() > 0 && t[0] == '+' {
        slice_of(t, 1, t.len())
    } else {
        slice_of(t, 0, t.len())
    };
    assert(t@.len() > 0 && t@[0] == '+' ==> u@ =~= t@.drop_first());
    assert(!(t@.len() > 0 && t@[0] == '+') ==> u@ =~= t@);
    let d = find_char(u.as_slice(), '.');
    let whole = slice_of(u.as_slice(), 0, d);
    let frac = if d < u.len() {
        slice_of(u.as_slice(), d + 1, u.len())
    } else {
        Vec::new()
    };
    assert(d >= u@.len() ==> frac@ =~= Seq::<char>::empty());
    if whole.len() == 0 && frac.len() == 0 {
        return None;
    }
    let mut three: Vec<char> = Vec::new();
    let mut i: usize = 0;
    while i < 3
        invariant
            i <= 3,
            three@.len() == i,
            forall|j: int| 0 <= j < i ==> three@[j] == if j < frac@.len() {
                frac@[j]
            } else {
                '0'
            },
        decreases 3 - i,
    {
        if i < frac.len() {
            three.push(frac[i]);
        } else {
            three.push('0');
        }
        i = i + 1;
    }
    proof {
        if frac@.len() >= 3 {
            assert(three@ =~= frac@.subrange(0, 3));
        } else {
            assert(three@ =~= frac@ + Seq::new((3 - frac@.len()) as nat, |i: int| '0'));
        }
    }
    let frac_ok = frac_digits(frac.as_slice());
    if !frac_ok {
        return None;
    }
    proof {
        assert(all_digits(three@)) by {
            assert forall|j: int| 0 <= j < 3 implies crate::text::is_digit(#[trigger] three@[j]) by {
                if j < frac@.len() {
                    assert(crate::text::is_digit(frac@[j]));
                }
            }
        }
    }
    let ms = match crate::text::digits_upto(three.as_slice(), 999) {
        Some(v) => v,
        None => {
            proof {
                lemma_three_digits(three@);
            }
            return None;
        },
    };
    match crate::text::digits_upto(whole.as_slice(), 18446744073709551615u64) {
        Some(w) => {
            let total: u128 = (w as u128) * 1000 + (ms as u128);
            if total <= 18446744073709551615u128 {
                Some(total as u64)
            } else {
                None
            }
        },
        None => None,
    }
}

proof fn lemma_three_digits(s: Seq<char>)
    requires
        s.len() == 3,
        all_digits(s),
    ensures
        digits_value(s) <= 999,
{
    let a = s.drop_last();
    let b = a.drop_last();
    let c = b.drop_last();
    assert(c =~= Seq::<char>::empty());
    assert(crate::text::is_digit(s[0]) && crate::text::is_digit(s[1]) && crate::text::is_digit(s[2]));
    assert(b.last() == s[0] && a.last() == s[1] && s.last() == s[2]);
    assert(digits_value(c) == 0);
    assert(digits_value(b) <= 9);
    assert(digits_value(a) <= 99);
}

fn frac_digits(f: &[char]) -> (b: bool)
    ensures
        b == all_digits(f@),
{
    let mut i: usize = 0;
    while i < f.len()
        invariant
            i <= f@.len(),
            all_digits(f@.subrange(0, i as int)),
        decreases f@.len() - i,
    {
        if !('0' <= f[i] && f[i] <= '9') {
            assert(!crate::text::is_digit(f@[i as int]));
            return false;
        }
        assert(f@.subrange(0, i + 1) =~= f@.subrange(0, i as int).push(f@[i as int]));
        i = i + 1;
    }
    assert(f@.subrange(0, f@.len() as int) =~= f@);
    true
}

/// `[01:23.45] words` into the time and the words.
pub fn split_timestamp(line: &[char]) -> (r: Option<(u64, Vec<char>)>)
    ensures
        match spec_split_timestamp(line@) {
            None => r is None,
            Some((at, words)) => r matches Some((a, w)) && a == at && w@ == words,
        },
{
    if line.len() == 0 || line[0] != '[' {
        return None;
    }
    let rest = slice_of(line, 1, line.len());
    assert(rest@ =~= line@.drop_first());
    let k = find_char(rest.as_slice(), ']');
    if k >= rest.len() {
        return None;
    }
    let stamp = slice_of(rest.as_slice(), 0, k);
    let c = find_char(stamp.as_slice(), ':');
    if c >= stamp.len() {
        return None;
    }
    let m_text = slice_of(stamp.as_slice(), 0, c);
    let s_text = slice_of(stamp.as_slice(), c + 1, stamp.len());
    let m_trim = trim(m_text.as_slice());
    let s_trim = trim(s_text.as_slice());
    let m = parse_u64(m_trim.as_slice());
    let ms = seconds_ms(s_trim.as_slice());
    match (m, ms) {
        (Some(m), Some(ms)) => {
            let total: u128 = (m as u128) * 60000 + (ms as u128);
            if total > 18446744073709551615u128 {
                return None;
            }
            let words_text = slice_of(rest.as_slice(), k + 1, rest.len());
            let words = trim(words_text.as_slice());
            Some((total as u64, words))
        },
        _ => None,
    }
}

/// Whether a trimmed line is an `[offset:ms]` tag, and the text of its value.
pub open spec fn offset_value(t: Seq<char>) -> Option<Seq<char>> {
    if t.len() >= 9 && t.subrange(0, 8) == "[offset:"@ && t.last() == ']' {
        Some(t.subrange(8, t.len() - 1))
    } else {
        None
    }
}

/// From `i`, past every `+`.
pub open spec fn past_plus(s: Seq<char>, i: int) -> int
    decreases s.len() - i,
{
    if 0 <= i < s.len() && s[i] == '+' {
        past_plus(s, i + 1)
    } else {
        i
    }
}

/// An offset tag's value: trimmed, its `+` signs dropped, read as an `i64`,
/// or zero when it is not one.
pub open spec fn spec_offset_of(value: Seq<char>) -> i64 {
    let t = spec_trim(value);
    match spec_parse_i64(t.subrange(past_plus(t, 0), t.len() as int)) {
        Some(v) => v,
        None => 0,
    }
}

/// What reading the lines of an lrc file has gathered: the timed lines in the
/// order they came, the untimed ones, and the offset.
pub open spec fn lrc_fold(ls: Seq<Seq<char>>) -> (Seq<(u64, Seq<char>)>, Seq<Seq<char>>, i64)
    decreases ls.len(),
{
    if ls.len() == 0 {
        (seq![], seq![], 0)
    } else {
        let (timed, plain, offset) = lrc_fold(ls.drop_last());
        let line = ls.last();
        match offset_value(spec_trim(line)) {
            Some(v) => (timed, plain, spec_offset_of(v)),
            None => match spec_split_timestamp(line) {
                Some(p) => (timed.push(p), plain, offset),
                None => (timed, plain.push(spec_trim_end(line)), offset),
            },
        }
    }
}

/// Where a line timed at `at` goes among `sorted`: after every line timed at
/// or before it, so lines with one time keep their order.
pub open spec fn insert_at(sorted: Seq<(u64, Seq<char>)>, at: u64, i: int) -> int
    decreases sorted.len() - i,
{
    if 0 <= i < sorted.len() && sorted[i].0 <= at {
        insert_at(sorted, at, i + 1)
    } else {
        i
    }
}

/// The lines in order of time, lines with one time in the order they came:
/// what a stable sort by time gives.
pub open spec fn by_time(s: Seq<(u64, Seq<char>)>) -> Seq<(u64, Seq<char>)>
    decreases s.len(),
{
    if s.len() == 0 {
        seq![]
    } else {
        let sorted = by_time(s.drop_last());
        let p = insert_at(sorted, s.last().0, 0);
        sorted.subrange(0, p).push(s.last()) + sorted.subrange(p, sorted.len() as int)
    }
}

/// Parses lrc if the text is timestamped, and falls back to plain lines;
/// also reads the `[offset:ms]` tag a nudge writes.
pub open spec fn spec_parse_with_offset(text: Seq<char>) -> (LyricsView, i64) {
    let (timed, plain, offset) = lrc_fold(spec_lines(text));
    if timed.len() == 0 {
        (LyricsView::Plain(plain), offset)
    } else {
        (LyricsView::Synced(by_time(timed)), offset)
    }
}

/// An offset's value as the tag writes it reads back as itself, sign and
/// all.
proof fn lemma_offset_value_reads_back(v: i64)
    ensures
        spec_offset_of(spec_signed_decimal(v as int)) == v,
{
    crate::text::lemma_signed_decimal_reads_back(v);
    let sd = spec_signed_decimal(v as int);
    crate::text::lemma_trim_solid(sd);
    assert(past_plus(sd, 0) == 0);
    assert(sd.subrange(0, sd.len() as int) =~= sd);
}

/// The `[offset:ms]` tag a nudge writes reads back as the nudge, in either
/// direction: `[offset:-250]` puts the words 250 ms earlier and
/// `[offset:250]` 250 ms later, for every offset there is.
pub proof fn law_an_offset_tag_reads_back(v: i64)
    ensures
        spec_parse_with_offset("[offset:"@ + spec_signed_decimal(v as int) + "]"@).1 == v,
{
    reveal_strlit("[offset:");
    reveal_strlit("]");
    crate::text::lemma_signed_decimal_reads_back(v);
    lemma_offset_value_reads_back(v);
    let sd = spec_signed_decimal(v as int);
    let t = "[offset:"@ + sd + "]"@;
    assert(t.len() == sd.len() + 9);
    assert forall|i: int| 0 <= i < t.len() implies t[i] != '\n' by {
        if 8 <= i < t.len() - 1 {
            assert(t[i] == sd[i - 8]);
        }
    }
    crate::text::lemma_until_char(t, 0, '\n');
    assert(crate::text::until_char(t, 0, '\n') == t.len());
    assert(spec_lines(t) == seq![t]);
    let ls = seq![t];
    assert(ls.drop_last() =~= Seq::<Seq<char>>::empty());
    crate::text::lemma_trim_solid(t);
    assert(t.subrange(0, 8) =~= "[offset:"@);
    assert(t.subrange(8, t.len() - 1) =~= sd);
    assert(offset_value(spec_trim(t)) == Some(sd));
}

/// Pairs of a time and characters, the characters as their sequence.
pub open spec fn timed_view(v: Seq<(u64, Vec<char>)>) -> Seq<(u64, Seq<char>)> {
    Seq::new(v.len(), |i: int| (v[i].0, v[i].1@))
}

pub open spec fn texts_view(v: Seq<Vec<char>>) -> Seq<Seq<char>> {
    Seq::new(v.len(), |i: int| v[i]@)
}

fn offset_of(value: &[char]) -> (v: i64)
    ensures
        v == spec_offset_of(value@),
{
    let t = trim(value);
    let mut i: usize = 0;
    while i < t.len() && t[i] == '+'
        invariant
            i <= t@.len(),
            past_plus(t@, i as int) == past_plus(t@, 0),
        decreases t@.len() - i,
    {
        i = i + 1;
    }
    let rest = slice_of(t.as_slice(), i, t.len());
    match parse_i64(rest.as_slice()) {
        Some(v) => v,
        None => 0,
    }
}

fn offset_tag(t: &[char]) -> (r: Option<Vec<char>>)
    ensures
        match offset_value(t@) {
            None => r is None,
            Some(v) => r matches Some(x) && x@ == v,
        },
{
    if t.len() < 9 || t[t.len() - 1] != ']' {
        return None;
    }
    let head = slice_of(t, 0, 8);
    let tag = chars_of("[offset:");
    if !same_chars(head.as_slice(), tag.as_slice()) {
        return None;
    }
    Some(slice_of(t, 8, t.len() - 1))
}

/// Sorts timed lines by time, keeping the order of lines with one time.
fn sort_by_time(timed: Vec<(u64, Vec<char>)>) -> (out: Vec<(u64, Vec<char>)>)
    ensures
        timed_view(out@) == by_time(timed_view(timed@)),
{
    let mut out: Vec<(u64, Vec<char>)> = Vec::new();
    let mut src = timed;
    let ghost all = timed_view(src@);
    let n = src.len();
    assert(all.len() == n);
    let mut i: usize = 0;
    assert(all.subrange(0, 0) =~= Seq::<(u64, Seq<char>)>::empty());
    while src.len() > 0
        invariant
            all.len() <= usize::MAX,
            i + src@.len() == all.len(),
            timed_view(src@) == all.subrange(i as int, all.len() as int),
            timed_view(out@) == by_time(all.subrange(0, i as int)),
        decreases src@.len(),
    {
        let ghost before = timed_view(src@);
        let x = src.remove(0);
        let ghost xv = (x.0, x.1@);
        assert(before[0] == xv);
        assert(all[i as int] == before[0]);
        assert(timed_view(src@) =~= before.drop_first());
        let ghost sorted = timed_view(out@);
        let mut p: usize = 0;
        while p < out.len() && out[p].0 <= x.0
            invariant
                p <= out@.len(),
                sorted == timed_view(out@),
                insert_at(sorted, x.0, p as int) == insert_at(sorted, x.0, 0),
            decreases out@.len() - p,
        {
            p = p + 1;
        }
        out.insert(p, x);
        proof {
            let s1 = all.subrange(0, i + 1);
            assert(s1.drop_last() =~= all.subrange(0, i as int));
            assert(s1.last() == xv);
            assert(timed_view(out@) =~= sorted.subrange(0, p as int).push(xv) + sorted.subrange(
                p as int,
                sorted.len() as int,
            ));
        }
        i = i + 1;
        assert(timed_view(src@) =~= all.subrange(i as int, all.len() as int));
    }
    assert(all.subrange(0, i as int) =~= all);
    out
}

fn synced_of(v: Vec<(u64, Vec<char>)>) -> (l: Lyrics)
    ensures
        l@ == LyricsView::Synced(timed_view(v@)),
{
    let mut out: Vec<(u64, String)> = Vec::new();
    let mut i: usize = 0;
    while i < v.len()
        invariant
            i <= v@.len(),
            out@.len() == i,
            forall|j: int| 0 <= j < i ==> out@[j].0 == v@[j].0 && out@[j].1@ == v@[j].1@,
        decreases v@.len() - i,
    {
        out.push((v[i].0, string_of(v[i].1.as_slice())));
        i = i + 1;
    }
    let l = Lyrics::Synced(out);
    assert(l@ matches LyricsView::Synced(x) && x =~= timed_view(v@));
    l
}

fn plain_of(v: Vec<Vec<char>>) -> (l: Lyrics)
    ensures
        l@ == LyricsView::Plain(texts_view(v@)),
{
    let mut out: Vec<String> = Vec::new();
    let mut i: usize = 0;
    while i < v.len()
        invariant
            i <= v@.len(),
            out@.len() == i,
            forall|j: int| 0 <= j < i ==> out@[j]@ == v@[j]@,
        decreases v@.len() - i,
    {
        out.push(string_of(v[i].as_slice()));
        i = i + 1;
    }
    let l = Lyrics::Plain(out);
    assert(l@ matches LyricsView::Plain(x) && x =~= texts_view(v@));
    l
}

/// Parses lrc if the text is timestamped, and falls back to plain lines;
/// also reads the `[offset:ms]` tag written by a nudge.
pub fn parse_with_offset(text: &str) -> (r: (Lyrics, i64))
    ensures
        (r.0@, r.1) == spec_parse_with_offset(text@),
{
    let all = chars_of(text);
    let ls = lines(all.as_slice());
    let ghost lv = spec_lines(text@);
    assert(texts_view(ls@) =~= lv);
    let mut timed: Vec<(u64, Vec<char>)> = Vec::new();
    let mut plain: Vec<Vec<char>> = Vec::new();
    let mut offset: i64 = 0;
    let mut i: usize = 0;
    assert(lv.subrange(0, 0) =~= Seq::<Seq<char>>::empty());
    while i < ls.len()
        invariant
            i <= ls@.len(),
            lv == texts_view(ls@),
            (timed_view(timed@), texts_view(plain@), offset) == lrc_fold(lv.subrange(0, i as int)),
        decreases ls@.len() - i,
    {
        let line = &ls[i];
        proof {
            let s1 = lv.subrange(0, i + 1);
            assert(s1.drop_last() =~= lv.subrange(0, i as int));
            assert(s1.last() == line@);
        }
        let t = trim(line.as_slice());
        match offset_tag(t.as_slice()) {
            Some(v) => {
                offset = offset_of(v.as_slice());
            },
            None => match split_timestamp(line.as_slice()) {
                Some(p) => {
                    let ghost before = timed_view(timed@);
                    let ghost pv = (p.0, p.1@);
                    timed.push(p);
                    assert(timed_view(timed@) =~= before.push(pv));
                },
                None => {
                    let ghost before = texts_view(plain@);
                    let kept = trim_end(line.as_slice());
                    let ghost kv = kept@;
                    plain.push(kept);
                    assert(texts_view(plain@) =~= before.push(kv));
                },
            },
        }
        i = i + 1;
    }
    assert(lv.subrange(0, i as int) =~= lv);
    if timed.len() == 0 {
        (plain_of(plain), offset)
    } else {
        (synced_of(sort_by_time(timed)), offset)
    }
}

/// Parses lrc if the text is timestamped, and falls back to plain lines.
pub fn parse(text: &str) -> (l: Lyrics)
    ensures
        l@ == spec_parse_with_offset(text@).0,
{
    parse_with_offset(text).0
}

// ---- choosing among search hits ---------------------------------------

/// One lrclib answer, as the fields the choice reads them.
pub struct Hit {
    /// `artistName`.
    pub artist: String,
    /// `trackName`.
    pub title: String,
    /// `duration`, in milliseconds, when the entry gives one.
    pub duration_ms: Option<u64>,
    /// `syncedLyrics`, empty when absent.
    pub synced: String,
    /// `plainLyrics`, empty when absent.
    pub plain: String,
    /// `instrumental`, false when absent.
    pub instrumental: bool,
}

/// A hit is a candidate when it has words and names the song we asked for;
/// an empty tag of ours cannot disagree with anything, so it gets no say.
pub open spec fn eligible(h: &Hit, artist: Seq<char>, title: Seq<char>) -> bool {
    &&& h.synced@.len() > 0 || h.plain@.len() > 0
    &&& artist.len() == 0 || spec_close(h.artist@, artist)
    &&& title.len() == 0 || spec_close(h.title@, title)
}

/// Further than any running time can be: where a hit that gives none ranks.
pub open spec fn no_gap() -> int {
    0x1_0000_0000_0000_0000_0000
}

/// How far a hit's running time is from ours, in milliseconds.
pub open spec fn gap(h: &Hit, ours: u64) -> int {
    match h.duration_ms {
        Some(d) => if d >= ours * 1000 {
            d - ours * 1000
        } else {
            ours * 1000 - d
        },
        None => no_gap(),
    }
}

fn gap_of(h: &Hit, ours: u64) -> (g: u128)
    ensures
        g == gap(h, ours),
{
    match h.duration_ms {
        Some(d) => {
            let want: u128 = (ours as u128) * 1000;
            if (d as u128) >= want {
                (d as u128) - want
            } else {
                want - (d as u128)
            }
        },
        None => 0x1_0000_0000_0000_0000_0000u128,
    }
}

/// Picks the hit closest in running time out of the ones that are actually
/// this song, the first of them on a tie. The name has to agree before the
/// running time is worth consulting.
pub fn pick(hits: &[Hit], artist: &str, title: &str, ours: u64) -> (r: Option<usize>)
    ensures
        r is None <==> forall|j: int| 0 <= j < hits@.len() ==> !eligible(&hits@[j], artist@, title@),
        r matches Some(i) ==> {
            &&& i < hits@.len()
            &&& eligible(&hits@[i as int], artist@, title@)
            &&& forall|j: int|
                0 <= j < hits@.len() && eligible(&hits@[j], artist@, title@) ==> gap(
                    &hits@[i as int],
                    ours,
                ) <= gap(&hits@[j], ours)
            &&& forall|j: int|
                0 <= j < i && eligible(&hits@[j], artist@, title@) ==> gap(&hits@[j], ours) > gap(
                    &hits@[i as int],
                    ours,
                )
        },
{
    let mut best: Option<(usize, u128)> = None;
    let mut k: usize = 0;
    while k < hits.len()
        invariant
            k <= hits@.len(),
            best is None <==> forall|j: int| 0 <= j < k ==> !eligible(&hits@[j], artist@, title@),
            best matches Some((i, g)) ==> {
                &&& i < k
                &&& g == gap(&hits@[i as int], ours)
                &&& eligible(&hits@[i as int], artist@, title@)
                &&& forall|j: int|
                    0 <= j < k && eligible(&hits@[j], artist@, title@) ==> g <= gap(&hits@[j], ours)
                &&& forall|j: int|
                    0 <= j < i && eligible(&hits@[j], artist@, title@) ==> gap(&hits@[j], ours) > g
            },
        decreases hits@.len() - k,
    {
        let h = &hits[k];
        let ok = (!h.synced.as_str().is_empty() || !h.plain.as_str().is_empty()) && (artist.is_empty()
            || close(h.artist.as_str(), artist)) && (title.is_empty() || close(
            h.title.as_str(),
            title,
        ));
        if ok {
            let g = gap_of(h, ours);
            match best {
                None => {
                    best = Some((k, g));
                },
                Some((_, b)) => {
                    if g < b {
                        best = Some((k, g));
                    }
                },
            }
        }
        k = k + 1;
    }
    match best {
        None => None,
        Some((i, _)) => Some(i),
    }
}

pub open spec fn msg_no_lyrics() -> Seq<char> {
    "no lyrics on lrclib for this track"@
}

/// Timestamps survive unless they cannot be about this track at all: when
/// the last one lands past its end, the words stay and the times go.
pub open spec fn spec_from_hit(h: &Hit, ours: u64) -> LyricsView {
    if h.instrumental {
        LyricsView::Missing("instrumental"@)
    } else if spec_trim(h.synced@).len() > 0 {
        match spec_parse_with_offset(h.synced@).0 {
            LyricsView::Synced(lines) => if spec_runs_over(lines, ours) {
                LyricsView::Plain(Seq::new(lines.len(), |i: int| lines[i].1))
            } else {
                LyricsView::Synced(lines)
            },
            other => other,
        }
    } else if spec_trim(h.plain@).len() == 0 {
        LyricsView::Missing(msg_no_lyrics())
    } else {
        spec_parse_with_offset(h.plain@).0
    }
}

/// The words of the hit lrclib gave for this track, `ours` seconds long.
pub fn from_hit(h: &Hit, ours: u64) -> (l: Lyrics)
    ensures
        l@ == spec_from_hit(h, ours),
{
    if h.instrumental {
        return Lyrics::Missing(string_of(chars_of("instrumental").as_slice()));
    }
    let synced = chars_of(h.synced.as_str());
    let synced_t = trim(synced.as_slice());
    if synced_t.len() > 0 {
        let parsed = parse(h.synced.as_str());
        match parsed {
            Lyrics::Synced(lines) => {
                let ghost lv = Seq::new(lines@.len(), |i: int| (lines@[i].0, lines@[i].1@));
                if runs_over(lines.as_slice(), ours) {
                    let mut words: Vec<String> = Vec::new();
                    let mut i: usize = 0;
                    while i < lines.len()
                        invariant
                            i <= lines@.len(),
                            words@.len() == i,
                            forall|j: int| 0 <= j < i ==> words@[j]@ == lines@[j].1@,
                        decreases lines@.len() - i,
                    {
                        words.push(lines[i].1.clone());
                        i = i + 1;
                    }
                    let l = Lyrics::Plain(words);
                    assert(l@ matches LyricsView::Plain(x) && x =~= Seq::new(lv.len(), |i: int| lv[i].1));
                    l
                } else {
                    Lyrics::Synced(lines)
                }
            },
            other => other,
        }
    } else {
        let plain = chars_of(h.plain.as_str());
        let plain_t = trim(plain.as_slice());
        if plain_t.len() == 0 {
            Lyrics::Missing(string_of(chars_of("no lyrics on lrclib for this track").as_slice()))
        } else {
            parse(h.plain.as_str())
        }
    }
}

// ---- the query string and the cache -------------------------------------

/// Bytes a query string carries as they are.
pub open spec fn unreserved(b: u8) -> bool {
    (65 <= b <= 90) || (97 <= b <= 122) || (48 <= b <= 57) || b == 45 || b == 95 || b == 46
        || b == 126
}

/// One byte of a query value: itself when it is unreserved, `%XX` otherwise.
pub open spec fn encode_byte(b: u8) -> Seq<char> {
    if unreserved(b) {
        seq![b as char]
    } else {
        seq!['%'] + spec_hex(b as nat, 2, true)
    }
}

pub open spec fn spec_encode(bytes: Seq<u8>) -> Seq<char>
    decreases bytes.len(),
{
    if bytes.len() == 0 {
        seq![]
    } else {
        spec_encode(bytes.drop_last()) + encode_byte(bytes.last())
    }
}

/// Percent encodes everything a query string cannot carry literally, byte by
/// byte of the UTF-8.
pub fn encode(value: &str) -> (out: String)
    ensures
        out@ == spec_encode(value.spec_bytes()),
{
    let bytes = value.as_bytes();
    let mut out: Vec<char> = Vec::new();
    let mut i: usize = 0;
    while i < bytes.len()
        invariant
            i <= bytes@.len(),
            bytes@ == value.spec_bytes(),
            out@ == spec_encode(bytes@.subrange(0, i as int)),
        decreases bytes@.len() - i,
    {
        let b = bytes[i];
        assert(bytes@.subrange(0, i + 1).drop_last() =~= bytes@.subrange(0, i as int));
        if (65 <= b && b <= 90) || (97 <= b && b <= 122) || (48 <= b && b <= 57) || b == 45 || b
            == 95 || b == 46 || b == 126 {
            out.push(b as char);
        } else {
            let ghost before = out@;
            out.push('%');
            let mut h = hex(b as u64, 2, true);
            out.append(&mut h);
            assert(out@ =~= before + encode_byte(b));
        }
        i = i + 1;
    }
    assert(bytes@.subrange(0, bytes@.len() as int) =~= bytes@);
    string_of(out.as_slice())
}

pub open spec fn two_64() -> nat {
    0x1_0000_0000_0000_0000
}

/// The cache id of a track: its path's bytes folded as `acc * 31 + b`,
/// wrapping at 64 bits.
pub open spec fn path_id(bytes: Seq<u8>) -> nat
    decreases bytes.len(),
{
    if bytes.len() == 0 {
        0
    } else {
        (((path_id(bytes.drop_last()) * 31) % two_64() + bytes.last() as nat) % two_64()) as nat
    }
}

/// The name a track's lyrics are cached under: its id in sixteen hex digits.
pub open spec fn spec_cache_name(track: &str) -> Seq<char> {
    spec_hex(path_id(track.spec_bytes()), 16, false) + ".lrc"@
}

/// The file name a track's lyrics are cached under, inside the cache
/// directory.
pub fn cache_name(track: &str) -> (name: String)
    ensures
        name@ == spec_cache_name(track),
{
    let bytes = track.as_bytes();
    let mut acc: u64 = 0;
    let mut i: usize = 0;
    while i < bytes.len()
        invariant
            i <= bytes@.len(),
            bytes@ == track.spec_bytes(),
            acc == path_id(bytes@.subrange(0, i as int)),
        decreases bytes@.len() - i,
    {
        assert(bytes@.subrange(0, i + 1).drop_last() =~= bytes@.subrange(0, i as int));
        let m = acc.wrapping_mul(31);
        acc = m.wrapping_add(bytes[i] as u64);
        i = i + 1;
    }
    assert(bytes@.subrange(0, bytes@.len() as int) =~= bytes@);
    let mut v = hex(acc, 16, false);
    push_str(&mut v, ".lrc");
    string_of(v.as_slice())
}

// ---- what has been fetched --------------------------------------------

/// What the fetcher holds: lyrics per file, the per file correction in
/// milliseconds (positive meaning the words come later), and the files whose
/// lookup has been sent and not answered.
pub struct FetcherView {
    pub cache: Map<Seq<char>, LyricsView>,
    pub offsets: Map<Seq<char>, i64>,
    pub inflight: Set<Seq<char>>,
}

/// The lyrics of the tracks that have been played, and the lookups on their
/// way. Asking lrclib is the program's part: `request` says when to ask,
/// and `poll` takes what came back.
pub struct Fetcher {
    cache: Vec<(String, Lyrics)>,
    offsets: Vec<(String, i64)>,
    inflight: Vec<String>,
}

pub open spec fn cache_seq(v: Seq<(String, Lyrics)>) -> Seq<(Seq<char>, LyricsView)> {
    Seq::new(v.len(), |i: int| (v[i].0@, v[i].1@))
}

pub open spec fn offsets_seq(v: Seq<(String, i64)>) -> Seq<(Seq<char>, i64)> {
    Seq::new(v.len(), |i: int| (v[i].0@, v[i].1))
}

pub open spec fn names_seq(v: Seq<String>) -> Seq<Seq<char>> {
    Seq::new(v.len(), |i: int| v[i]@)
}

impl View for Fetcher {
    type V = FetcherView;

    closed spec fn view(&self) -> FetcherView {
        FetcherView {
            cache: to_map(cache_seq(self.cache@)),
            offsets: to_map(offsets_seq(self.offsets@)),
            inflight: to_set(names_seq(self.inflight@)),
        }
    }
}

pub open spec fn msg_no_tags() -> Seq<char> {
    "no artist or title tag to search with"@
}

/// The fetcher after one answer came back for `path`.
pub open spec fn received(f: FetcherView, path: Seq<char>, l: LyricsView, offset: i64) -> FetcherView {
    FetcherView {
        cache: f.cache.insert(path, l),
        offsets: f.offsets.insert(path, offset),
        inflight: f.inflight.remove(path),
    }
}

/// The fetcher after a batch of answers, in the order they came.
pub open spec fn received_all(f: FetcherView, done: Seq<(Seq<char>, LyricsView, i64)>) -> FetcherView
    decreases done.len(),
{
    if done.len() == 0 {
        f
    } else {
        let last = done.last();
        received(received_all(f, done.drop_last()), last.0, last.1, last.2)
    }
}

fn find_pair<X>(v: &Vec<(String, X)>, k: &str) -> (r: Option<usize>)
    ensures
        match r {
            Some(i) => i < v@.len() && v@[i as int].0@ == k@,
            None => forall|i: int| 0 <= i < v@.len() ==> v@[i].0@ != k@,
        },
{
    let mut i: usize = 0;
    while i < v.len()
        invariant
            i <= v@.len(),
            forall|j: int| 0 <= j < i ==> v@[j].0@ != k@,
        decreases v@.len() - i,
    {
        if same_str(v[i].0.as_str(), k) {
            return Some(i);
        }
        i = i + 1;
    }
    None
}

fn find_name(v: &Vec<String>, k: &str) -> (r: Option<usize>)
    ensures
        match r {
            Some(i) => i < v@.len() && v@[i as int]@ == k@,
            None => forall|i: int| 0 <= i < v@.len() ==> v@[i]@ != k@,
        },
{
    let mut i: usize = 0;
    while i < v.len()
        invariant
            i <= v@.len(),
            forall|j: int| 0 <= j < i ==> v@[j]@ != k@,
        decreases v@.len() - i,
    {
        if same_str(v[i].as_str(), k) {
            return Some(i);
        }
        i = i + 1;
    }
    None
}

impl Fetcher {
    #[verifier::type_invariant]
    spec fn wf(&self) -> bool {
        &&& keys_distinct(cache_seq(self.cache@))
        &&& keys_distinct(offsets_seq(self.offsets@))
        &&& names_distinct(names_seq(self.inflight@))
    }

    pub fn new() -> (f: Fetcher)
        ensures
            f@.cache == Map::<Seq<char>, LyricsView>::empty(),
            f@.offsets == Map::<Seq<char>, i64>::empty(),
            f@.inflight == Set::<Seq<char>>::empty(),
    {
        let f = Fetcher { cache: Vec::new(), offsets: Vec::new(), inflight: Vec::new() };
        assert(cache_seq(f.cache@) =~= Seq::<(Seq<char>, LyricsView)>::empty());
        assert(offsets_seq(f.offsets@) =~= Seq::<(Seq<char>, i64)>::empty());
        assert(to_set(names_seq(f.inflight@)) =~= Set::<Seq<char>>::empty());
        f
    }

    fn put_lyrics(&mut self, path: String, l: Lyrics)
        ensures
            final(self)@ == (FetcherView { cache: old(self)@.cache.insert(path@, l@), ..old(self)@ }),
    {
        proof {
            use_type_invariant(&*self);
        }
        let mut c: Vec<(String, Lyrics)> = Vec::new();
        std::mem::swap(&mut c, &mut self.cache);
        let ghost before = cache_seq(c@);
        match find_pair(&c, path.as_str()) {
            Some(i) => {
                proof {
                    assert(before[i as int].0 == path@);
                    lemma_to_map_remove(before, i as int);
                }
                c.remove(i);
                assert(cache_seq(c@) =~= before.remove(i as int));
            },
            None => {
                proof {
                    lemma_to_map_dom(before, path@);
                }
            },
        }
        let ghost mid = cache_seq(c@);
        proof {
            lemma_to_map_dom(mid, path@);
            if to_map(mid).dom().contains(path@) {
                let j = choose|j: int| 0 <= j < mid.len() && mid[j].0 == path@;
                assert(false);
            }
            lemma_push_distinct(mid, path@, l@);
        }
        let ghost lv = l@;
        c.push((path, l));
        assert(cache_seq(c@) =~= mid.push((path@, lv)));
        self.cache = c;
        assert(to_map(cache_seq(self.cache@)) =~= to_map(before).insert(path@, lv));
    }

    fn put_offset(&mut self, path: String, offset: i64)
        ensures
            final(self)@ == (FetcherView { offsets: old(self)@.offsets.insert(path@, offset), ..old(self)@ }),
    {
        proof {
            use_type_invariant(&*self);
        }
        let mut c: Vec<(String, i64)> = Vec::new();
        std::mem::swap(&mut c, &mut self.offsets);
        let ghost before = offsets_seq(c@);
        match find_pair(&c, path.as_str()) {
            Some(i) => {
                proof {
                    assert(before[i as int].0 == path@);
                    lemma_to_map_remove(before, i as int);
                }
                c.remove(i);
                assert(offsets_seq(c@) =~= before.remove(i as int));
            },
            None => {},
        }
        let ghost mid = offsets_seq(c@);
        proof {
            lemma_to_map_dom(mid, path@);
            if to_map(mid).dom().contains(path@) {
                let j = choose|j: int| 0 <= j < mid.len() && mid[j].0 == path@;
                assert(false);
            }
            lemma_push_distinct(mid, path@, offset);
        }
        c.push((path, offset));
        assert(offsets_seq(c@) =~= mid.push((path@, offset)));
        self.offsets = c;
        assert(to_map(offsets_seq(self.offsets@)) =~= to_map(before).insert(path@, offset));
    }

    fn mark_loading(&mut self, path: String)
        ensures
            final(self)@ == (FetcherView { inflight: old(self)@.inflight.insert(path@), ..old(self)@ }),
    {
        proof {
            use_type_invariant(&*self);
        }
        let mut c: Vec<String> = Vec::new();
        std::mem::swap(&mut c, &mut self.inflight);
        let ghost before = names_seq(c@);
        match find_name(&c, path.as_str()) {
            Some(i) => {
                proof {
                    assert(before[i as int] == path@);
                    assert(to_set(before).contains(path@));
                    assert(to_set(before).insert(path@) =~= to_set(before));
                }
            },
            None => {
                proof {
                    if to_set(before).contains(path@) {
                        let j = choose|j: int| 0 <= j < before.len() && before[j] == path@;
                        assert(c@[j]@ == path@);
                    }
                    lemma_set_push(before, path@);
                }
                c.push(path);
                assert(names_seq(c@) =~= before.push(path@));
            },
        }
        self.inflight = c;
    }

    fn unmark_loading(&mut self, path: &str)
        ensures
            final(self)@ == (FetcherView { inflight: old(self)@.inflight.remove(path@), ..old(self)@ }),
    {
        proof {
            use_type_invariant(&*self);
        }
        let mut c: Vec<String> = Vec::new();
        std::mem::swap(&mut c, &mut self.inflight);
        let ghost before = names_seq(c@);
        match find_name(&c, path) {
            Some(i) => {
                proof {
                    assert(before[i as int] == path@);
                    lemma_set_remove(before, i as int);
                }
                c.remove(i);
                assert(names_seq(c@) =~= before.remove(i as int));
            },
            None => {
                proof {
                    if to_set(before).contains(path@) {
                        let j = choose|j: int| 0 <= j < before.len() && before[j] == path@;
                        assert(c@[j]@ == path@);
                    }
                    assert(to_set(before).remove(path@) =~= to_set(before));
                }
            },
        }
        self.inflight = c;
    }

    /// The lyrics held for `path`, if any.
    pub fn get(&self, path: &str) -> (r: Option<&Lyrics>)
        ensures
            match r {
                Some(l) => self@.cache.dom().contains(path@) && l@ == self@.cache[path@],
                None => !self@.cache.dom().contains(path@),
            },
    {
        proof {
            use_type_invariant(self);
        }
        let ghost s = cache_seq(self.cache@);
        match find_pair(&self.cache, path) {
            Some(i) => {
                proof {
                    assert(s[i as int].0 == path@);
                    lemma_to_map_at(s, i as int);
                }
                Some(&self.cache[i].1)
            },
            None => {
                proof {
                    lemma_to_map_dom(s, path@);
                    if to_map(s).dom().contains(path@) {
                        let j = choose|j: int| 0 <= j < s.len() && s[j].0 == path@;
                        assert(self.cache@[j].0@ == path@);
                    }
                }
                None
            },
        }
    }

    /// The correction for `path`, zero when it has none.
    pub fn offset(&self, path: &str) -> (o: i64)
        ensures
            o == if self@.offsets.dom().contains(path@) {
                self@.offsets[path@]
            } else {
                0
            },
    {
        proof {
            use_type_invariant(self);
        }
        let ghost s = offsets_seq(self.offsets@);
        match find_pair(&self.offsets, path) {
            Some(i) => {
                proof {
                    assert(s[i as int].0 == path@);
                    lemma_to_map_at(s, i as int);
                }
                self.offsets[i].1
            },
            None => {
                proof {
                    lemma_to_map_dom(s, path@);
                    if to_map(s).dom().contains(path@) {
                        let j = choose|j: int| 0 <= j < s.len() && s[j].0 == path@;
                        assert(self.offsets@[j].0@ == path@);
                    }
                }
                0
            },
        }
    }

    /// Whether the lookup for `path` was sent and has not come back.
    pub fn is_loading(&self, path: &str) -> (b: bool)
        ensures
            b == self@.inflight.contains(path@),
    {
        proof {
            use_type_invariant(self);
        }
        let ghost s = names_seq(self.inflight@);
        match find_name(&self.inflight, path) {
            Some(i) => {
                assert(s[i as int] == path@);
                true
            },
            None => {
                proof {
                    if to_set(s).contains(path@) {
                        let j = choose|j: int| 0 <= j < s.len() && s[j] == path@;
                        assert(self.inflight@[j]@ == path@);
                    }
                }
                false
            },
        }
    }

    /// Whether a lookup for this track should go out: not when its lyrics are
    /// here or already asked for, and not when it has neither an artist nor a
    /// title to ask with, which is remembered as the reason there are none.
    pub fn request(&mut self, path: &str, artist: &str, title: &str) -> (send: bool)
        ensures
            old(self)@.cache.dom().contains(path@) || old(self)@.inflight.contains(path@) ==> !send
                && final(self)@ == old(self)@,
            !old(self)@.cache.dom().contains(path@) && !old(self)@.inflight.contains(path@) ==> {
                if spec_trim(title@).len() == 0 && spec_trim(artist@).len() == 0 {
                    !send && final(self)@ == (FetcherView {
                        cache: old(self)@.cache.insert(path@, LyricsView::Missing(msg_no_tags())),
                        ..old(self)@
                    })
                } else {
                    send && final(self)@ == (FetcherView {
                        inflight: old(self)@.inflight.insert(path@),
                        ..old(self)@
                    })
                }
            },
    {
        if self.get(path).is_some() || self.is_loading(path) {
            return false;
        }
        let t = chars_of(title);
        let a = chars_of(artist);
        let tt = trim(t.as_slice());
        let at = trim(a.as_slice());
        let owned = string_of(chars_of(path).as_slice());
        if tt.len() == 0 && at.len() == 0 {
            let why = string_of(chars_of("no artist or title tag to search with").as_slice());
            self.put_lyrics(owned, Lyrics::Missing(why));
            return false;
        }
        self.mark_loading(owned);
        true
    }

    /// Takes in one answer: the lookup is over, and the lyrics and their
    /// correction are held.
    pub fn receive(&mut self, path: String, lyrics: Lyrics, offset: i64)
        ensures
            final(self)@ == received(old(self)@, path@, lyrics@, offset),
    {
        self.unmark_loading(path.as_str());
        let again = string_of(chars_of(path.as_str()).as_slice());
        self.put_offset(again, offset);
        self.put_lyrics(path, lyrics);
    }

    /// Moves whatever the worker finished into the cache, in the order it
    /// finished. Called every tick with what arrived since the last.
    pub fn poll(&mut self, done: Vec<(String, Lyrics, i64)>)
        ensures
            final(self)@ == received_all(
                old(self)@,
                Seq::new(done@.len(), |i: int| (done@[i].0@, done@[i].1@, done@[i].2)),
            ),
    {
        let ghost all = Seq::new(done@.len(), |i: int| (done@[i].0@, done@[i].1@, done@[i].2));
        let ghost start = self@;
        let mut rest = done;
        let mut i: usize = 0;
        let n = rest.len();
        assert(all.subrange(0, 0) =~= Seq::<(Seq<char>, LyricsView, i64)>::empty());
        while rest.len() > 0
            invariant
                n == all.len(),
                i + rest@.len() == n,
                forall|j: int|
                    0 <= j < rest@.len() ==> (rest@[j].0@, rest@[j].1@, rest@[j].2) == all[i + j],
                self@ == received_all(start, all.subrange(0, i as int)),
            decreases rest@.len(),
        {
            let ghost before = rest@;
            let (p, l, o) = rest.remove(0);
            assert((p@, l@, o) == all[i as int]) by {
                assert(before[0] == (p, l, o));
            }
            assert(all.subrange(0, i + 1).drop_last() =~= all.subrange(0, i as int));
            self.receive(p, l, o);
            i = i + 1;
        }
        assert(all.subrange(0, i as int) =~= all);
    }

    /// Shifts this file's lyrics by `delta_ms` and says what its correction is
    /// now. `None`, and nothing changed, when it has no timestamps to shift.
    pub fn nudge(&mut self, path: &str, delta_ms: i64) -> (r: Option<i64>)
        requires
            old(self)@.cache.dom().contains(path@) && old(self)@.cache[path@] is Synced ==> i64::MIN
                <= (if old(self)@.offsets.dom().contains(path@) {
                old(self)@.offsets[path@]
            } else {
                0
            }) + delta_ms <= i64::MAX,
        ensures
            old(self)@.cache.dom().contains(path@) && old(self)@.cache[path@] is Synced ==> {
                let now = (if old(self)@.offsets.dom().contains(path@) {
                    old(self)@.offsets[path@]
                } else {
                    0
                }) + delta_ms;
                r == Some(now as i64) && final(self)@ == (FetcherView {
                    offsets: old(self)@.offsets.insert(path@, now as i64),
                    ..old(self)@
                })
            },
            !(old(self)@.cache.dom().contains(path@) && old(self)@.cache[path@] is Synced) ==> r
                is None && final(self)@ == old(self)@,
    {
        let synced = match self.get(path) {
            Some(Lyrics::Synced(_)) => true,
            _ => false,
        };
        if !synced {
            return None;
        }
        let now = self.offset(path) + delta_ms;
        let owned = string_of(chars_of(path).as_slice());
        self.put_offset(owned, now);
        Some(now)
    }

    /// Forgets every lyric held in memory, and every correction; lookups on
    /// their way still land.
    pub fn clear(&mut self)
        ensures
            final(self)@.cache == Map::<Seq<char>, LyricsView>::empty(),
            final(self)@.offsets == Map::<Seq<char>, i64>::empty(),
            final(self)@.inflight == old(self)@.inflight,
    {
        proof {
            use_type_invariant(&*self);
        }
        let c: Vec<(String, Lyrics)> = Vec::new();
        assert(cache_seq(c@) =~= Seq::<(Seq<char>, LyricsView)>::empty());
        self.cache = c;
        let o: Vec<(String, i64)> = Vec::new();
        assert(offsets_seq(o@) =~= Seq::<(Seq<char>, i64)>::empty());
        self.offsets = o;
    }
}

// ---- the cache file -----------------------------------------------------

/// Stamped on every cache entry. Entries without the current marker are
/// refetched rather than trusted, since an old one cannot say whether its
/// timings were believed.
pub open spec fn cache_mark() -> Seq<char> {
    "[vibox:4]"@
}

/// A time as lrc writes it: `[mm:ss.xx]`, to the nearest hundredth.
pub open spec fn spec_stamp(ms: u64) -> Seq<char> {
    let cs = ((ms % 60000) + 5) / 10;
    "["@ + spec_zero_pad(spec_decimal((ms / 60000) as nat), 2) + ":"@ + spec_zero_pad(
        spec_decimal((cs / 100) as nat),
        2,
    ) + "."@ + spec_zero_pad(spec_decimal((cs % 100) as nat), 2) + "]"@
}

/// The parts, with `sep` between each two.
pub open spec fn spec_join(parts: Seq<Seq<char>>, sep: Seq<char>) -> Seq<char>
    decreases parts.len(),
{
    if parts.len() == 0 {
        seq![]
    } else if parts.len() == 1 {
        parts[0]
    } else {
        spec_join(parts.drop_last(), sep) + sep + parts.last()
    }
}

/// What the cache file for these lyrics says: the mark, the correction when
/// there is one, then the lines.
pub open spec fn spec_cache_text(l: LyricsView, offset: i64) -> Seq<char> {
    let head = if offset == 0 {
        Seq::<char>::empty()
    } else {
        "[offset:"@ + spec_signed_decimal(offset as int) + "]\n"@
    };
    let body = match l {
        LyricsView::Synced(lines) => spec_join(
            Seq::new(lines.len(), |i: int| spec_stamp(lines[i].0) + " "@ + lines[i].1),
            "\n"@,
        ),
        LyricsView::Plain(lines) => spec_join(lines, "\n"@),
        LyricsView::Missing(_) => Seq::<char>::empty(),
    };
    cache_mark() + "\n"@ + head + body
}

fn stamp(ms: u64) -> (v: Vec<char>)
    ensures
        v@ == spec_stamp(ms),
{
    let cs = ((ms % 60000) + 5) / 10;
    let mut v: Vec<char> = Vec::new();
    push_str(&mut v, "[");
    let mut m = zero_pad(decimal(ms / 60000), 2);
    v.append(&mut m);
    push_str(&mut v, ":");
    let mut sec = zero_pad(decimal(cs / 100), 2);
    v.append(&mut sec);
    push_str(&mut v, ".");
    let mut hund = zero_pad(decimal(cs % 100), 2);
    v.append(&mut hund);
    push_str(&mut v, "]");
    v
}

/// The text a cache file holds for these lyrics and this correction. An
/// empty body means lrclib was asked and has nothing, so a track with no
/// lyrics is not looked up again on every play.
pub fn cache_text(l: &Lyrics, offset: i64) -> (t: String)
    ensures
        t@ == spec_cache_text(l@, offset),
{
    let mut v: Vec<char> = Vec::new();
    push_str(&mut v, "[vibox:4]");
    push_str(&mut v, "\n");
    if offset != 0 {
        push_str(&mut v, "[offset:");
        let mut n = signed_decimal(offset);
        v.append(&mut n);
        push_str(&mut v, "]\n");
    }
    let ghost head = v@;
    match l {
        Lyrics::Synced(lines) => {
            let ghost parts = Seq::new(
                lines@.len(),
                |i: int| spec_stamp(lines@[i].0) + " "@ + lines@[i].1@,
            );
            let mut i: usize = 0;
            while i < lines.len()
                invariant
                    i <= lines@.len(),
                    parts.len() == lines@.len(),
                    forall|j: int| 0 <= j < parts.len() ==> parts[j] == spec_stamp(lines@[j].0) + " "@ + lines@[j].1@,
                    v@ == head + spec_join(parts.subrange(0, i as int), "\n"@),
                decreases lines@.len() - i,
            {
                let ghost before = v@;
                if i > 0 {
                    push_str(&mut v, "\n");
                }
                let mut st = stamp(lines[i].0);
                v.append(&mut st);
                push_str(&mut v, " ");
                let words = chars_of(lines[i].1.as_str());
                push_chars(&mut v, words.as_slice());
                proof {
                    let p = parts.subrange(0, i + 1);
                    assert(p.drop_last() =~= parts.subrange(0, i as int));
                    assert(p.last() == parts[i as int]);
                    if i == 0 {
                        assert(spec_join(parts.subrange(0, 0), "\n"@) =~= Seq::<char>::empty());
                        assert(v@ =~= head + spec_join(p, "\n"@));
                    } else {
                        assert(v@ =~= head + spec_join(p, "\n"@));
                    }
                }
                i = i + 1;
            }
            assert(parts.subrange(0, i as int) =~= parts);
            proof {
                let lv = match l@ {
                    LyricsView::Synced(x) => x,
                    _ => arbitrary(),
                };
                assert(Seq::new(lv.len(), |i: int| spec_stamp(lv[i].0) + " "@ + lv[i].1) =~= parts);
            }
        },
        Lyrics::Plain(lines) => {
            let ghost parts = Seq::new(lines@.len(), |i: int| lines@[i]@);
            let mut i: usize = 0;
            while i < lines.len()
                invariant
                    i <= lines@.len(),
                    parts.len() == lines@.len(),
                    forall|j: int| 0 <= j < parts.len() ==> parts[j] == lines@[j]@,
                    v@ == head + spec_join(parts.subrange(0, i as int), "\n"@),
                decreases lines@.len() - i,
            {
                if i > 0 {
                    push_str(&mut v, "\n");
                }
                let words = chars_of(lines[i].as_str());
                push_chars(&mut v, words.as_slice());
                proof {
                    let p = parts.subrange(0, i + 1);
                    assert(p.drop_last() =~= parts.subrange(0, i as int));
                    if i == 0 {
                        assert(spec_join(parts.subrange(0, 0), "\n"@) =~= Seq::<char>::empty());
                    }
                    assert(v@ =~= head + spec_join(p, "\n"@));
                }
                i = i + 1;
            }
            assert(parts.subrange(0, i as int) =~= parts);
        },
        Lyrics::Missing(_) => {
            assert(v@ =~= head + Seq::<char>::empty());
        },
    }
    string_of(v.as_slice())
}

/// What a cache file says, when it was written by this version: the lyrics
/// and the correction, or that lrclib has nothing for the track.
pub open spec fn spec_cached(text: Seq<char>) -> Option<(LyricsView, i64)> {
    let m = cache_mark();
    if text.len() >= m.len() && text.subrange(0, m.len() as int) == m {
        let rest = text.subrange(m.len() as int, text.len() as int);
        let body = if starts_with(rest, '\n') {
            rest.drop_first()
        } else {
            Seq::<char>::empty()
        };
        if spec_trim(body).len() == 0 {
            Some((LyricsView::Missing(msg_no_lyrics()), 0))
        } else {
            Some(spec_parse_with_offset(body))
        }
    } else {
        None
    }
}

/// Reads a cache file's text back. `None` when an older version wrote it,
/// which means asking lrclib again rather than believing its timestamps.
pub fn cached(text: &str) -> (r: Option<(Lyrics, i64)>)
    ensures
        match spec_cached(text@) {
            None => r is None,
            Some((l, o)) => r matches Some((x, y)) && x@ == l && y == o,
        },
{
    let all = chars_of(text);
    let mark = chars_of("[vibox:4]");
    if all.len() < mark.len() {
        return None;
    }
    let head = slice_of(all.as_slice(), 0, mark.len());
    if !same_chars(head.as_slice(), mark.as_slice()) {
        return None;
    }
    let rest = slice_of(all.as_slice(), mark.len(), all.len());
    let body = if rest.len() > 0 && rest[0] == '\n' {
        slice_of(rest.as_slice(), 1, rest.len())
    } else {
        Vec::new()
    };
    assert(rest@.len() > 0 && rest@[0] == '\n' ==> body@ =~= rest@.drop_first());
    assert(!(rest@.len() > 0 && rest@[0] == '\n') ==> body@ =~= Seq::<char>::empty());
    let trimmed = trim(body.as_slice());
    if trimmed.len() == 0 {
        return Some((Lyrics::Missing(string_of(chars_of("no lyrics on lrclib for this track").as_slice())), 0));
    }
    let body_s = string_of(body.as_slice());
    Some(parse_with_offset(body_s.as_str()))
}

} // verus!
