//! What the screen is made of, before it is drawn: which characters of a
//! rename changed, how a lyric wraps, where the lyric window sits, how wide
//! the columns are. Drawing it is the program's part.

use vstd::prelude::*;

use unicode_width::{UnicodeWidthChar, UnicodeWidthStr};

use crate::app::{Columns, spec_shown};
use crate::library::Track;
use crate::text::{
    chars_of, decimal, push_chars, push_str, slice_of, spec_decimal, spec_trim, spec_words,
    string_of, trim, words,
};

verus! {

// ---- which characters of a rename changed -----------------------------

/// How many characters must agree in a row before a match means anything.
pub const MIN_ANCHOR: usize = 4;

/// Longest pair worth the quadratic search for an anchor.
pub const ANCHOR_LIMIT: usize = 512;

/// How many characters of `old[..i]` and `new[..j]` agree, counted back from
/// their ends.
pub open spec fn common_end(old: Seq<char>, new: Seq<char>, i: int, j: int) -> nat
    decreases i,
{
    if i > 0 && j > 0 && old[i - 1] == new[j - 1] {
        common_end(old, new, i - 1, j - 1) + 1
    } else {
        0
    }
}

/// The best run found before cell `(i, j)` of the search: rows above `i` done,
/// and row `i` up to column `j`. A run replaces the best only when it is
/// longer, so the first of the longest wins.
pub open spec fn best_before(old: Seq<char>, new: Seq<char>, i: int, j: int) -> (int, int, int)
    decreases i, j,
{
    if i <= 0 && j <= 0 {
        (0, 0, 0)
    } else if j <= 0 {
        best_before(old, new, i - 1, new.len() as int)
    } else {
        let b = best_before(old, new, i, j - 1);
        let l = common_end(old, new, i + 1, j) as int;
        if l > b.2 {
            (i + 1 - l, j - l, l)
        } else {
            b
        }
    }
}

/// The longest run of characters the two share, when it is long enough to be
/// worth trusting and both are short enough to search: where it starts in
/// each, and how long it is.
pub open spec fn spec_anchor(old: Seq<char>, new: Seq<char>) -> Option<(int, int, int)> {
    if old.len() > ANCHOR_LIMIT || new.len() > ANCHOR_LIMIT {
        None
    } else {
        let b = best_before(old, new, old.len() as int, 0);
        if b.2 >= MIN_ANCHOR {
            Some(b)
        } else {
            None
        }
    }
}

pub proof fn lemma_common_end_bound(old: Seq<char>, new: Seq<char>, i: int, j: int)
    requires
        0 <= i,
        0 <= j,
    ensures
        common_end(old, new, i, j) <= i,
        common_end(old, new, i, j) <= j,
    decreases i,
{
    if i > 0 && j > 0 && old[i - 1] == new[j - 1] {
        lemma_common_end_bound(old, new, i - 1, j - 1);
    }
}

pub proof fn lemma_common_end_run(old: Seq<char>, new: Seq<char>, i: int, j: int)
    requires
        0 <= i <= old.len(),
        0 <= j <= new.len(),
    ensures
        forall|p: int|
            i - common_end(old, new, i, j) <= p < i ==> #[trigger] old[p] == new[p - i + j],
    decreases i,
{
    if i > 0 && j > 0 && old[i - 1] == new[j - 1] {
        lemma_common_end_run(old, new, i - 1, j - 1);
    }
}

pub proof fn lemma_best_bounds(old: Seq<char>, new: Seq<char>, i: int, j: int)
    requires
        0 <= i <= old.len(),
        0 <= j <= new.len(),
        i < old.len() || j == 0,
    ensures
        ({
            let b = best_before(old, new, i, j);
            &&& 0 <= b.2
            &&& 0 <= b.0 && b.0 + b.2 <= old.len()
            &&& 0 <= b.1 && b.1 + b.2 <= new.len()
            &&& forall|p: int| b.0 <= p < b.0 + b.2 ==> #[trigger] old[p] == new[p - b.0 + b.1]
        }),
    decreases i, j,
{
    if i <= 0 && j <= 0 {
    } else if j <= 0 {
        lemma_best_bounds(old, new, i - 1, new.len() as int);
    } else {
        lemma_best_bounds(old, new, i, j - 1);
        lemma_common_end_bound(old, new, i + 1, j);
        lemma_common_end_run(old, new, i + 1, j);
    }
}

/// The longest run of characters the two share, if it is long enough to be
/// worth trusting: where it starts in each, and how long it is.
pub fn anchor(old: &[char], new: &[char]) -> (r: Option<(usize, usize, usize)>)
    ensures
        match spec_anchor(old@, new@) {
            None => r is None,
            Some((o, e, l)) => r == Some((o as usize, e as usize, l as usize)),
        },
        r matches Some((o, e, l)) ==> o + l <= old@.len() && e + l <= new@.len() && l >= MIN_ANCHOR
            && forall|p: int| o <= p < o + l ==> #[trigger] old@[p] == new@[p - o + e],
{
    if old.len() > ANCHOR_LIMIT || new.len() > ANCHOR_LIMIT {
        return None;
    }
    let m = new.len();
    let mut prev: Vec<usize> = Vec::new();
    let mut z: usize = 0;
    while z <= m
        invariant
            z <= m + 1,
            m == new@.len(),
            m <= ANCHOR_LIMIT,
            prev@.len() == z,
            forall|q: int| 0 <= q < z ==> prev@[q] == 0,
        decreases m + 1 - z,
    {
        prev.push(0);
        z = z + 1;
    }
    let mut best: (usize, usize, usize) = (0, 0, 0);
    let mut i: usize = 0;
    proof {
        lemma_best_bounds(old@, new@, 0, 0);
    }
    while i < old.len()
        invariant
            i <= old@.len(),
            old@.len() <= ANCHOR_LIMIT,
            m == new@.len(),
            m <= ANCHOR_LIMIT,
            prev@.len() == m + 1,
            forall|q: int| 0 <= q <= m ==> prev@[q] == common_end(old@, new@, i as int, q),
            (best.0 as int, best.1 as int, best.2 as int) == best_before(old@, new@, i as int, 0),
        decreases old@.len() - i,
    {
        let mut row: Vec<usize> = Vec::new();
        row.push(0);
        let mut j: usize = 0;
        proof {
            if i > 0 {
                assert(best_before(old@, new@, i as int, 0) == best_before(
                    old@,
                    new@,
                    i - 1,
                    m as int,
                ));
            }
        }
        assert(best_before(old@, new@, i as int, 0) == best_before(old@, new@, i as int, 0));
        while j < m
            invariant
                i < old@.len(),
                old@.len() <= ANCHOR_LIMIT,
                j <= m,
                m == new@.len(),
                m <= ANCHOR_LIMIT,
                prev@.len() == m + 1,
                forall|q: int| 0 <= q <= m ==> prev@[q] == common_end(old@, new@, i as int, q),
                row@.len() == j + 1,
                forall|q: int| 0 <= q <= j ==> row@[q] == common_end(old@, new@, i + 1, q),
                (best.0 as int, best.1 as int, best.2 as int) == best_before(
                    old@,
                    new@,
                    i as int,
                    j as int,
                ),
            decreases m - j,
        {
            proof {
                lemma_common_end_bound(old@, new@, i as int, j as int);
                lemma_common_end_bound(old@, new@, i + 1, j + 1);
            }
            let here: usize = if old[i] == new[j] {
                prev[j] + 1
            } else {
                0
            };
            if here > best.2 {
                best = (i + 1 - here, j + 1 - here, here);
            }
            row.push(here);
            j = j + 1;
        }
        prev = row;
        i = i + 1;
    }
    proof {
        if old@.len() > 0 {
            lemma_best_bounds(old@, new@, old@.len() - 1, m as int);
        }
        assert(best_before(old@, new@, old@.len() as int, 0) == if old@.len() > 0 {
            best_before(old@, new@, old@.len() - 1, m as int)
        } else {
            (0, 0, 0)
        });
    }
    if best.2 >= MIN_ANCHOR {
        Some(best)
    } else {
        None
    }
}

/// How far the two agree from the front, from `i` on.
pub open spec fn head_from(old: Seq<char>, new: Seq<char>, i: int) -> int
    decreases old.len() - i,
{
    if 0 <= i < old.len() && i < new.len() && old[i] == new[i] {
        head_from(old, new, i + 1)
    } else {
        i
    }
}

/// How far the two agree from the back, from `k` on, never reaching into the
/// first `head` characters of either.
pub open spec fn tail_from(old: Seq<char>, new: Seq<char>, head: int, k: int) -> int
    decreases old.len() - k,
{
    if 0 <= k && 0 <= head && k + head < old.len() && k + head < new.len() && old[old.len() - 1 - k]
        == new[new.len() - 1 - k] {
        tail_from(old, new, head, k + 1)
    } else {
        k
    }
}

pub proof fn lemma_head_from(old: Seq<char>, new: Seq<char>, i: int)
    requires
        0 <= i <= old.len(),
        i <= new.len(),
    ensures
        i <= head_from(old, new, i) <= old.len(),
        head_from(old, new, i) <= new.len(),
    decreases old.len() - i,
{
    if i < old.len() && i < new.len() && old[i] == new[i] {
        lemma_head_from(old, new, i + 1);
    }
}

pub proof fn lemma_tail_from(old: Seq<char>, new: Seq<char>, head: int, k: int)
    requires
        0 <= head,
        0 <= k,
        k + head <= old.len(),
        k + head <= new.len(),
    ensures
        k <= tail_from(old, new, head, k),
        tail_from(old, new, head, k) + head <= old.len(),
        tail_from(old, new, head, k) + head <= new.len(),
    decreases old.len() - k,
{
    if k + head < old.len() && k + head < new.len() && old[old.len() - 1 - k] == new[new.len()
        - 1 - k] {
        lemma_tail_from(old, new, head, k + 1);
    }
}

/// `k` with the places `a..b` set.
pub open spec fn fill(k: Seq<bool>, a: int, b: int) -> Seq<bool> {
    Seq::new(k.len(), |i: int| if a <= i < b { true } else { k[i] })
}

/// What `align` leaves in the two masks: the shared start and end of the two
/// names kept, then, when the middles still share a long enough run, that run
/// kept and each side of it walked the same way.
pub open spec fn spec_align(
    old: Seq<char>,
    new: Seq<char>,
    at_old: int,
    at_new: int,
    ko: Seq<bool>,
    kn: Seq<bool>,
) -> (Seq<bool>, Seq<bool>)
    decreases old.len() + new.len(),
{
    let n = old.len() as int;
    let m = new.len() as int;
    let head = head_from(old, new, 0);
    let tail = tail_from(old, new, head, 0);
    let ko2 = fill(fill(ko, at_old, at_old + head), at_old + n - tail, at_old + n);
    let kn2 = fill(fill(kn, at_new, at_new + head), at_new + m - tail, at_new + m);
    proof {
        lemma_head_from(old, new, 0);
        lemma_tail_from(old, new, head, 0);
    }
    if !(0 <= head && 0 <= tail && head + tail <= n && head + tail <= m) {
        (ko2, kn2)
    } else {
        let om = old.subrange(head, n - tail);
        let nm = new.subrange(head, m - tail);
        if om.len() == 0 || nm.len() == 0 {
            (ko2, kn2)
        } else {
            match spec_anchor(om, nm) {
                None => (ko2, kn2),
                Some((o, e, len)) => {
                    proof {
                        lemma_best_bounds(om, nm, om.len() as int, 0);
                    }
                    if 0 <= o && 0 <= e && 4 <= len && o + len <= om.len() && e + len <= nm.len() {
                        let (ko3, kn3) = spec_align(
                            om.subrange(0, o),
                            nm.subrange(0, e),
                            at_old + head,
                            at_new + head,
                            ko2,
                            kn2,
                        );
                        let ko4 = fill(ko3, at_old + head + o, at_old + head + o + len);
                        let kn4 = fill(kn3, at_new + head + e, at_new + head + e + len);
                        spec_align(
                            om.subrange(o + len, om.len() as int),
                            nm.subrange(e + len, nm.len() as int),
                            at_old + head + o + len,
                            at_new + head + e + len,
                            ko4,
                            kn4,
                        )
                    } else {
                        (ko2, kn2)
                    }
                },
            }
        }
    }
}

fn fill_range(k: &mut Vec<bool>, a: usize, b: usize)
    requires
        a <= b <= old(k)@.len(),
    ensures
        final(k)@ == fill(old(k)@, a as int, b as int),
{
    let mut i: usize = a;
    while i < b
        invariant
            a <= i <= b <= k@.len(),
            k@.len() == old(k)@.len(),
            k@ =~= Seq::new(
                old(k)@.len(),
                |q: int|
                    if a <= q < i {
                        true
                    } else {
                        old(k)@[q]
                    },
            ),
        decreases b - i,
    {
        k.set(i, true);
        i = i + 1;
    }
}

/// Marks what the old and new name share, writing into the masks at the offsets the
/// two slices sit at in the whole name.
#[verifier::rlimit(50)]
pub fn align(
    was: &[char],
    now: &[char],
    at_old: usize,
    at_new: usize,
    kept_old: &mut Vec<bool>,
    kept_new: &mut Vec<bool>,
)
    requires
        at_old + was@.len() <= old(kept_old)@.len(),
        at_new + now@.len() <= old(kept_new)@.len(),
    ensures
        (final(kept_old)@, final(kept_new)@) == spec_align(
            was@,
            now@,
            at_old as int,
            at_new as int,
            old(kept_old)@,
            old(kept_new)@,
        ),
        final(kept_old)@.len() == old(kept_old)@.len(),
        final(kept_new)@.len() == old(kept_new)@.len(),
    decreases was@.len() + now@.len(),
{
    let n = was.len();
    let m = now.len();
    let ko_len = kept_old.len();
    let kn_len = kept_new.len();
    let most = if n < m {
        n
    } else {
        m
    };
    let mut head: usize = 0;
    while head < most && was[head] == now[head]
        invariant
            head <= most,
            most <= n && most <= m,
            n == was@.len() && m == now@.len(),
            head_from(was@, now@, head as int) == head_from(was@, now@, 0),
        decreases most - head,
    {
        head = head + 1;
    }
    proof {
        lemma_head_from(was@, now@, 0);
    }
    let mut tail: usize = 0;
    while tail < most - head && was[n - 1 - tail] == now[m - 1 - tail]
        invariant
            head <= most,
            most <= n && most <= m,
            (most == n || most == m),
            n == was@.len() && m == now@.len(),
            tail <= most - head,
            head == head_from(was@, now@, 0),
            tail_from(was@, now@, head as int, tail as int) == tail_from(was@, now@, head as int, 0),
        decreases most - head - tail,
    {
        tail = tail + 1;
    }
    proof {
        lemma_tail_from(was@, now@, head as int, 0);
    }
    fill_range(kept_old, at_old, at_old + head);
    fill_range(kept_new, at_new, at_new + head);
    fill_range(kept_old, at_old + n - tail, at_old + n);
    fill_range(kept_new, at_new + m - tail, at_new + m);
    let old_mid = slice_of(was, head, n - tail);
    let new_mid = slice_of(now, head, m - tail);
    if old_mid.len() == 0 || new_mid.len() == 0 {
        return;
    }
    let (o, e, len) = match anchor(old_mid.as_slice(), new_mid.as_slice()) {
        Some(x) => x,
        None => {
            return;
        },
    };
    proof {
        lemma_best_bounds(old_mid@, new_mid@, old_mid@.len() as int, 0);
    }
    let o_at = at_old + head;
    let n_at = at_new + head;
    let ghost ko2 = kept_old@;
    let ghost kn2 = kept_new@;
    assert(spec_anchor(old_mid@, new_mid@) == Some((o as int, e as int, len as int)));
    let left_old = slice_of(old_mid.as_slice(), 0, o);
    let left_new = slice_of(new_mid.as_slice(), 0, e);
    align(left_old.as_slice(), left_new.as_slice(), o_at, n_at, kept_old, kept_new);
    fill_range(kept_old, o_at + o, o_at + o + len);
    fill_range(kept_new, n_at + e, n_at + e + len);
    let ghost ko4 = kept_old@;
    let ghost kn4 = kept_new@;
    let right_old = slice_of(old_mid.as_slice(), o + len, old_mid.len());
    let right_new = slice_of(new_mid.as_slice(), e + len, new_mid.len());
    align(
        right_old.as_slice(),
        right_new.as_slice(),
        o_at + o + len,
        n_at + e + len,
        kept_old,
        kept_new,
    );
}

fn falses(n: usize) -> (v: Vec<bool>)
    ensures
        v@ == Seq::new(n as nat, |i: int| false),
{
    let mut v: Vec<bool> = Vec::new();
    let mut i: usize = 0;
    while i < n
        invariant
            i <= n,
            v@ =~= Seq::new(i as nat, |q: int| false),
        decreases n - i,
    {
        v.push(false);
        i = i + 1;
    }
    v
}

/// Which characters of each name survive into the other. Deliberately not a
/// longest common subsequence, which pairs scattered characters: an anchor
/// is a run, at least `MIN_ANCHOR` long, so a two character coincidence can
/// never become one.
pub fn common(was: &[char], now: &[char]) -> (r: (Vec<bool>, Vec<bool>))
    ensures
        (r.0@, r.1@) == spec_align(
            was@,
            now@,
            0,
            0,
            Seq::new(was@.len(), |i: int| false),
            Seq::new(now@.len(), |i: int| false),
        ),
{
    let mut kept_old = falses(was.len());
    let mut kept_new = falses(now.len());
    align(was, now, 0, 0, &mut kept_old, &mut kept_new);
    (kept_old, kept_new)
}

// ---- a change line --------------------------------------------------------

/// How wide the verb column of a change line is.
pub const VERB: usize = 8;

/// Whether `pat` stands in `s` at `i`.
pub open spec fn occurs_at(s: Seq<char>, pat: Seq<char>, i: int) -> bool {
    0 <= i && i + pat.len() <= s.len() && s.subrange(i, i + pat.len()) == pat
}

/// The first place at or after `i` where `pat` stands in `s`, or `None`.
pub open spec fn find_from(s: Seq<char>, pat: Seq<char>, i: int) -> Option<int>
    decreases s.len() + 1 - i,
{
    if i < 0 || i + pat.len() > s.len() {
        None
    } else if occurs_at(s, pat, i) {
        Some(i)
    } else {
        find_from(s, pat, i + 1)
    }
}

pub proof fn lemma_find_from(s: Seq<char>, pat: Seq<char>, i: int)
    requires
        0 <= i,
    ensures
        find_from(s, pat, i) matches Some(k) ==> i <= k && occurs_at(s, pat, k),
    decreases s.len() + 1 - i,
{
    if i + pat.len() <= s.len() && !occurs_at(s, pat, i) {
        lemma_find_from(s, pat, i + 1);
    }
}

pub(crate) fn find_pattern(s: &[char], pat: &[char]) -> (r: Option<usize>)
    requires
        pat@.len() > 0,
    ensures
        match find_from(s@, pat@, 0) {
            None => r is None,
            Some(i) => r == Some(i as usize),
        },
        r matches Some(k) ==> k + pat@.len() <= s@.len(),
{
    proof {
        lemma_find_from(s@, pat@, 0);
    }
    if pat.len() > s.len() {
        return None;
    }
    let mut i: usize = 0;
    while i <= s.len() - pat.len()
        invariant
            pat@.len() > 0,
            pat@.len() <= s@.len(),
            i <= s@.len(),
            find_from(s@, pat@, i as int) == find_from(s@, pat@, 0),
        decreases s@.len() - i,
    {
        let piece = slice_of(s, i, i + pat.len());
        if crate::text::same_chars(piece.as_slice(), pat) {
            return Some(i);
        }
        i = i + 1;
    }
    None
}

/// A change line taken apart: its verb, trimmed; the name that goes; and the
/// name that arrives, when the line has an arrow.
pub open spec fn spec_split_change(line: Seq<char>) -> (Seq<char>, Seq<char>, Option<Seq<char>>) {
    let cut = if line.len() < VERB {
        line.len() as int
    } else {
        VERB as int
    };
    let verb = line.subrange(0, cut);
    let rest = line.subrange(cut, line.len() as int);
    let arrow = "  ->  "@;
    match find_from(rest, arrow, 0) {
        Some(k) => (
            crate::text::spec_trim_end(verb),
            rest.subrange(0, k),
            Some(rest.subrange(k + arrow.len(), rest.len() as int)),
        ),
        None => (crate::text::spec_trim_end(verb), rest, None),
    }
}

/// A change line split into its verb, the name that goes, and the name that
/// arrives if there is one.
pub fn split_change(line: &str) -> (r: (String, String, Option<String>))
    ensures
        r.0@ == spec_split_change(line@).0,
        r.1@ == spec_split_change(line@).1,
        spec_split_change(line@).2 is None ==> r.2 is None,
        spec_split_change(line@).2 matches Some(x) ==> r.2 matches Some(y) && y@ == x,
{
    let all = chars_of(line);
    let cut = if all.len() < VERB {
        all.len()
    } else {
        VERB
    };
    let verb = slice_of(all.as_slice(), 0, cut);
    let rest = slice_of(all.as_slice(), cut, all.len());
    let arrow = chars_of("  ->  ");
    proof {
        reveal_strlit("  ->  ");
    }
    let v = crate::text::trim_end(verb.as_slice());
    assert(verb@ =~= line@.subrange(0, cut as int));
    assert(rest@ =~= line@.subrange(cut as int, line@.len() as int));
    assert(arrow@ == "  ->  "@);
    match find_pattern(rest.as_slice(), arrow.as_slice()) {
        Some(k) => {
            let from = slice_of(rest.as_slice(), 0, k);
            let to = slice_of(rest.as_slice(), k + arrow.len(), rest.len());
            proof {
                lemma_find_from(rest@, arrow@, 0);
            }
            (string_of(v.as_slice()), string_of(from.as_slice()), Some(string_of(to.as_slice())))
        },
        None => (string_of(v.as_slice()), string_of(rest.as_slice()), None),
    }
}

// ---- the lyrics pane ------------------------------------------------------

/// One step of wrapping: the rows so far and the row being filled, after
/// `word`. A row that would run past `width` is closed first, and the next
/// is indented so the runover does not read as a new lyric.
pub open spec fn wrap_step(st: (Seq<Seq<char>>, Seq<char>), word: Seq<char>, width: int) -> (Seq<Seq<char>>, Seq<char>) {
    let (out, line) = st;
    let indent = if out.len() == 0 {
        1int
    } else {
        3
    };
    let (out2, line2) = if line.len() > indent && line.len() + 1 + word.len() > width {
        (out.push(line), "   "@)
    } else {
        (out, line)
    };
    let indent2 = if out2.len() == 0 {
        1int
    } else {
        3
    };
    let line3 = if line2.len() > indent2 {
        line2.push(' ')
    } else {
        line2
    };
    (out2, line3 + word)
}

pub open spec fn wrap_fold(ws: Seq<Seq<char>>, width: int) -> (Seq<Seq<char>>, Seq<char>)
    decreases ws.len(),
{
    if ws.len() == 0 {
        (seq![], " "@)
    } else {
        wrap_step(wrap_fold(ws.drop_last(), width), ws.last(), width)
    }
}

/// A lyric wrapped at the pane width (at least eight): one row with a space
/// in front when it fits, else its words laid out row by row.
pub open spec fn spec_wrap_lyric(text: Seq<char>, width: usize) -> Seq<Seq<char>> {
    let w: int = if width < 8 {
        8
    } else {
        width as int
    };
    if text.len() < w {
        seq![" "@ + text]
    } else {
        let (out, line) = wrap_fold(spec_words(text), w);
        if spec_trim(line).len() == 0 {
            if out.len() == 0 {
                seq![Seq::<char>::empty()]
            } else {
                out
            }
        } else {
            out.push(line)
        }
    }
}

/// Wraps one lyric at the pane width, indenting the runover so a long line
/// still reads as one line and not as two lyrics.
#[verifier::rlimit(30)]
pub fn wrap_lyric(text: &str, width: usize) -> (r: Vec<String>)
    ensures
        r@.len() == spec_wrap_lyric(text@, width).len(),
        forall|i: int| 0 <= i < r@.len() ==> #[trigger] r@[i]@ == spec_wrap_lyric(text@, width)[i],
{
    let w: usize = if width < 8 {
        8
    } else {
        width
    };
    let t = chars_of(text);
    if t.len() < w {
        let mut v: Vec<char> = Vec::new();
        push_str(&mut v, " ");
        push_chars(&mut v, t.as_slice());
        let mut r: Vec<String> = Vec::new();
        r.push(string_of(v.as_slice()));
        assert(spec_wrap_lyric(text@, width) =~= seq![v@]);
        return r;
    }
    let ws = words(t.as_slice());
    let ghost all = spec_words(text@);
    let mut out: Vec<Vec<char>> = Vec::new();
    let mut line: Vec<char> = chars_of(" ");
    let mut i: usize = 0;
    assert(all.subrange(0, 0) =~= Seq::<Seq<char>>::empty());
    while i < ws.len()
        invariant
            i <= ws@.len(),
            ws@.len() == all.len(),
            forall|j: int| 0 <= j < ws@.len() ==> #[trigger] ws@[j]@ == all[j],
            (Seq::new(out@.len(), |j: int| out@[j]@), line@) == wrap_fold(all.subrange(0, i as int), w as int),
        decreases ws@.len() - i,
    {
        let ghost before = Seq::new(out@.len(), |j: int| out@[j]@);
        assert(all.subrange(0, i + 1).drop_last() =~= all.subrange(0, i as int));
        assert(all.subrange(0, i + 1).last() == ws@[i as int]@);
        let word = &ws[i];
        let indent: usize = if out.len() == 0 {
            1
        } else {
            3
        };
        if line.len() > indent && (line.len() as u128) + 1 + (word.len() as u128) > (w as u128) {
            let ghost lv = line@;
            let mut fresh = chars_of("   ");
            std::mem::swap(&mut fresh, &mut line);
            out.push(fresh);
            assert(Seq::new(out@.len(), |j: int| out@[j]@) =~= before.push(lv));
        }
        let indent2: usize = if out.len() == 0 {
            1
        } else {
            3
        };
        if line.len() > indent2 {
            line.push(' ');
        }
        push_chars(&mut line, word.as_slice());
        i = i + 1;
    }
    assert(all.subrange(0, i as int) =~= all);
    let tl = trim(line.as_slice());
    let mut r: Vec<String> = Vec::new();
    let mut k: usize = 0;
    while k < out.len()
        invariant
            k <= out@.len(),
            r@.len() == k,
            forall|j: int| 0 <= j < k ==> #[trigger] r@[j]@ == out@[j]@,
        decreases out@.len() - k,
    {
        r.push(string_of(out[k].as_slice()));
        k = k + 1;
    }
    let ghost outv = Seq::new(out@.len(), |j: int| out@[j]@);
    if tl.len() == 0 {
        if out.len() == 0 {
            r.push(string_of(Vec::<char>::new().as_slice()));
            assert(Seq::new(r@.len(), |j: int| r@[j]@) =~= seq![Seq::<char>::empty()]);
        } else {
            assert(Seq::new(r@.len(), |j: int| r@[j]@) =~= outv);
        }
    } else {
        r.push(string_of(line.as_slice()));
        assert(Seq::new(r@.len(), |j: int| r@[j]@) =~= outv.push(line@));
    }
    proof {
        let want = spec_wrap_lyric(text@, width);
        assert(Seq::new(r@.len(), |j: int| r@[j]@) =~= want);
        assert forall|j: int| 0 <= j < r@.len() implies #[trigger] r@[j]@ == want[j] by {
            assert(Seq::new(r@.len(), |q: int| r@[q]@)[j] == r@[j]@);
        }
    }
    r
}

/// Where the lyric window starts when it follows the song: with the line
/// being sung in the middle where it can be, never past the last full
/// window, and at the top when nothing is being sung.
pub open spec fn spec_follow_top(rows: usize, current: Option<usize>, height: usize) -> usize {
    let max_top: int = if rows > height {
        rows - height
    } else {
        0
    };
    match current {
        Some(row) => {
            let want: int = if row > height / 2 {
                row - height / 2
            } else {
                0
            };
            if want < max_top {
                want as usize
            } else {
                max_top as usize
            }
        },
        None => 0,
    }
}

/// Where the window sits when the pane is following rather than pinned.
/// Only a highlighted line moves it, because only a timestamp knows where
/// the song is.
pub fn follow_top(rows: usize, current: Option<usize>, height: usize) -> (top: usize)
    ensures
        top == spec_follow_top(rows, current, height),
{
    let max_top = rows.saturating_sub(height);
    match current {
        Some(row) => {
            let want = row.saturating_sub(height / 2);
            if want < max_top {
                want
            } else {
                max_top
            }
        },
        None => 0,
    }
}

// ---- the track list -------------------------------------------------------

/// Cells before the first column: the sign, a space, the line number (three
/// digits at least), a space.
pub open spec fn spec_gutter(rows: usize) -> int {
    let d = spec_decimal(rows as nat).len();
    3 + if d > 3 {
        d as int
    } else {
        3
    }
}

pub open spec fn pow10(k: nat) -> nat
    decreases k,
{
    if k == 0 {
        1
    } else {
        10 * pow10((k - 1) as nat)
    }
}

proof fn lemma_decimal_len(n: nat, k: nat)
    requires
        1 <= k,
        n < pow10(k),
    ensures
        1 <= spec_decimal(n).len() <= k,
    decreases k,
{
    if n >= 10 {
        assert(k >= 2) by {
            if k == 1 {
                assert(pow10(1) == 10 * pow10(0));
            }
        }
        assert(n / 10 < pow10((k - 1) as nat)) by (nonlinear_arith)
            requires
                n < pow10(k),
                pow10(k) == 10 * pow10((k - 1) as nat),
        ;
        lemma_decimal_len(n / 10, (k - 1) as nat);
    }
}

proof fn lemma_usize_digits(n: usize)
    ensures
        1 <= spec_decimal(n as nat).len() <= 20,
{
    reveal_with_fuel(pow10, 21);
    assert(pow10(20) == 100000000000000000000nat);
    lemma_decimal_len(n as nat, 20);
}

/// Cells before the first column: the sign, a space, the line number, a
/// space. The number grows with the library, so a four digit row widens the
/// gutter instead of shoving the name sideways.
pub fn gutter(rows: usize) -> (g: usize)
    ensures
        g == spec_gutter(rows),
{
    let d = decimal(rows as u64);
    proof {
        lemma_usize_digits(rows);
    }
    let digits = if d.len() > 3 {
        d.len()
    } else {
        3
    };
    3 + digits
}

/// How wide the duration column is: `1:13:24` when some row runs an hour or
/// more, else `4:03`.
pub open spec fn spec_duration_width(tracks: Seq<Track>, view: Seq<usize>) -> usize {
    if exists|i: int| 0 <= i < view.len() && tracks[view[i] as int].duration_ms / 1000 >= 3600 {
        7
    } else {
        5
    }
}

/// Hour long rips need `1:13:24`, everything else fits in `4:03`.
pub fn duration_width(tracks: &[Track], view: &[usize]) -> (w: usize)
    requires
        forall|i: int| 0 <= i < view@.len() ==> view@[i] < tracks@.len(),
    ensures
        w == spec_duration_width(tracks@, view@),
{
    let mut i: usize = 0;
    while i < view.len()
        invariant
            i <= view@.len(),
            forall|q: int| 0 <= q < view@.len() ==> view@[q] < tracks@.len(),
            forall|q: int| 0 <= q < i ==> tracks@[view@[q] as int].duration_ms / 1000 < 3600,
        decreases view@.len() - i,
    {
        if tracks[view[i]].duration_ms / 1000 >= 3600 {
            return 7;
        }
        i = i + 1;
    }
    5
}

/// The width of each visible column, out of what is left of the row once
/// the gutter, a space after each column and the duration are taken: shared
/// by weight, rounding down, the last column taking what the rounding left.
pub open spec fn spec_column_width(shown: Seq<(Seq<char>, usize)>, rest: int, i: int) -> int
    decreases i,
{
    let total = weights(shown, shown.len() as int);
    if i + 1 == shown.len() {
        let used = widths_before(shown, rest, i);
        if rest > used {
            rest - used
        } else {
            0
        }
    } else {
        rest * shown[i].1 / total
    }
}

/// The sum of the first `i` weights.
pub open spec fn weights(shown: Seq<(Seq<char>, usize)>, i: int) -> int
    decreases i,
{
    if i <= 0 {
        0
    } else {
        weights(shown, i - 1) + shown[i - 1].1
    }
}

/// The width the first `i` columns take, none of them the last.
pub open spec fn widths_before(shown: Seq<(Seq<char>, usize)>, rest: int, i: int) -> int
    decreases i,
{
    if i <= 0 {
        0
    } else {
        widths_before(shown, rest, i - 1) + rest * shown[i - 1].1 / weights(shown, shown.len() as int)
    }
}

/// Column `i` of the row is named and as wide as `shown` and `rest` say.
pub open spec fn column_is(col: (&'static str, usize), shown: Seq<(Seq<char>, usize)>, rest: int, i: int) -> bool {
    col.0@ == shown[i].0 && col.1 == spec_column_width(shown, rest, i)
}

/// What is left of a row of `width` cells for the columns themselves.
pub open spec fn spec_rest(c: Columns, width: usize, gutter: usize, dur_w: usize) -> int {
    let need = gutter + spec_shown(c).len() + dur_w;
    if width > need {
        width - need
    } else {
        0
    }
}

/// Name and width of each visible column, so the header and the rows agree.
pub fn columns(c: Columns, width: usize, gutter: usize, dur_w: usize) -> (r: Vec<(&'static str, usize)>)
    ensures
        weights(spec_shown(c), spec_shown(c).len() as int) == 0 ==> r@.len() == 0,
        weights(spec_shown(c), spec_shown(c).len() as int) != 0 ==> r@.len() == spec_shown(c).len(),
        forall|i: int|
            0 <= i < r@.len() ==> column_is(#[trigger] r@[i], spec_shown(c), spec_rest(c, width, gutter, dur_w), i),
{
    let shown = c.shown();
    let ghost sh = spec_shown(c);
    let need: u128 = (gutter as u128) + (shown.len() as u128) + (dur_w as u128);
    let rest: usize = if (width as u128) > need {
        ((width as u128) - need) as usize
    } else {
        0
    };
    let mut total: usize = 0;
    let mut k: usize = 0;
    while k < shown.len()
        invariant
            k <= shown@.len(),
            shown@.len() == sh.len(),
            sh.len() <= 4,
            forall|q: int| 0 <= q < sh.len() ==> #[trigger] shown@[q].1 == sh[q].1 && shown@[q].0@ == sh[q].0 && sh[q].1 <= 40,
            total == weights(sh, k as int),
            total <= 40 * k,
        decreases shown@.len() - k,
    {
        total = total + shown[k].1;
        k = k + 1;
    }
    let mut out: Vec<(&'static str, usize)> = Vec::new();
    if total == 0 {
        return out;
    }
    assert(rest == spec_rest(c, width, gutter, dur_w));
    let mut used: usize = 0;
    let mut i: usize = 0;
    while i < shown.len()
        invariant
            i <= shown@.len(),
            shown@.len() == sh.len(),
            forall|q: int| 0 <= q < sh.len() ==> #[trigger] shown@[q].1 == sh[q].1 && shown@[q].0@ == sh[q].0 && sh[q].1 <= 40,
            total == weights(sh, sh.len() as int),
            total > 0,
            rest == spec_rest(c, width, gutter, dur_w),
            i < sh.len() ==> used == widths_before(sh, rest as int, i as int),
            (used as int) * total <= (rest as int) * weights(sh, i as int),
            weights(sh, i as int) <= total,
            out@.len() == i,
            forall|q: int|
                0 <= q < i ==> #[trigger] out@[q].0@ == sh[q].0 && out@[q].1
                    == spec_column_width(sh, rest as int, q),
        decreases shown@.len() - i,
    {
        let weight = shown[i].1;
        let w: usize = if i + 1 == shown.len() {
            rest.saturating_sub(used)
        } else {
            assert((rest as int) * (weight as int) <= 0xffff_ffff_ffff_ffff * 40) by (nonlinear_arith)
                requires
                    rest <= 0xffff_ffff_ffff_ffff,
                    weight <= 40,
            ;
            let prod: u128 = (rest as u128) * (weight as u128);
            proof {
                lemma_weights_grow(sh, 0, i as int);
                lemma_weights_grow(sh, i + 1, sh.len() as int);
                assert(weights(sh, i + 1) == weights(sh, i as int) + sh[i as int].1);
            }
            let q: u128 = prod / (total as u128);
            proof {
                assert(q <= rest) by (nonlinear_arith)
                    requires
                        q == (prod as int) / (total as int),
                        prod == rest * weight,
                        weight <= total,
                        total > 0,
                ;
            }
            q as usize
        };
        proof {
            assert(weights(sh, i + 1) == weights(sh, i as int) + sh[i as int].1);
            lemma_weights_grow(sh, 0, i as int);
            if i + 1 == shown.len() {
                assert((used as int) * total <= (rest as int) * weights(sh, i + 1)) by (nonlinear_arith)
                    requires
                        (used as int) * total <= (rest as int) * weights(sh, i as int),
                        weights(sh, i as int) <= weights(sh, i + 1),
                        rest >= 0,
                ;
            }
            if i + 1 < shown.len() {
                assert((used as int + w as int) * total <= (rest as int) * weights(sh, i + 1)) by (nonlinear_arith)
                    requires
                        (used as int) * total <= (rest as int) * weights(sh, i as int),
                        w == (rest as int) * (weight as int) / (total as int),
                        total > 0,
                        weights(sh, i + 1) == weights(sh, i as int) + weight,
                ;
                assert(weights(sh, i + 1) <= total) by {
                    lemma_weights_grow(sh, i + 1, sh.len() as int);
                }
                assert((used as int + w as int) <= rest as int) by (nonlinear_arith)
                    requires
                        (used as int + w as int) * total <= (rest as int) * weights(sh, i + 1),
                        weights(sh, i + 1) <= total,
                        total > 0,
                        rest >= 0,
                ;
            }
        }
        out.push((shown[i].0, w));
        if i + 1 < shown.len() {
            used = used + w;
            assert(widths_before(sh, rest as int, i + 1) == widths_before(sh, rest as int, i as int) + (rest as int) * sh[i as int].1 / (total as int));
        }
        i = i + 1;
    }
    assert(out@.len() == sh.len());
    assert forall|q: int| 0 <= q < out@.len() implies column_is(#[trigger] out@[q], spec_shown(c), spec_rest(c, width, gutter, dur_w), q) by {
        assert(q < i);
        assert(out@[q].0@ == sh[q].0);
        assert(out@[q].1 == spec_column_width(sh, rest as int, q));
    }
    out
}

proof fn lemma_weights_grow(sh: Seq<(Seq<char>, usize)>, i: int, j: int)
    requires
        0 <= i <= j <= sh.len(),
    ensures
        weights(sh, i) <= weights(sh, j),
    decreases j - i,
{
    if i < j {
        lemma_weights_grow(sh, i, j - 1);
    }
}

// ---- cells ------------------------------------------------------------------

/// How many terminal cells a string takes, as `unicode-width` measures it.
pub uninterp spec fn spec_str_width(s: Seq<char>) -> usize;

/// How many terminal cells a character takes, `None` for a control
/// character, as `unicode-width` measures it.
pub uninterp spec fn spec_char_width(c: char) -> Option<usize>;

/// `UnicodeWidthStr::width` from `unicode-width`. Its contract claims only
/// that the width is a function of the string, named `spec_str_width`.
#[verifier::external_body]
fn str_width(s: &str) -> (w: usize)
    ensures
        w == spec_str_width(s@),
{
    UnicodeWidthStr::width(s)
}

/// `UnicodeWidthChar::width` from `unicode-width`. Its contract claims that
/// the answer is a function of the character, named `spec_char_width`, and,
/// as the crate's first test before any table shows, that printable ASCII
/// takes one cell and the C0 and C1 control characters none at all.
#[verifier::external_body]
fn char_width(c: char) -> (w: Option<usize>)
    ensures
        w == spec_char_width(c),
        ' ' <= c && c < '\u{7F}' ==> w == Some(1usize),
        c < ' ' || ('\u{7F}' <= c && c < '\u{A0}') ==> w is None,
{
    UnicodeWidthChar::width(c)
}

/// A character's cells, a control character taking none.
pub open spec fn cells(c: char) -> int {
    match spec_char_width(c) {
        Some(w) => w as int,
        None => 0,
    }
}

/// How many characters from `i` on fit in `limit` cells when `used` are
/// taken, and how many cells they take with them.
pub open spec fn fit(s: Seq<char>, i: int, used: int, limit: int) -> (int, int)
    decreases s.len() - i,
{
    if i < 0 || i >= s.len() || used + cells(s[i]) > limit {
        (i, used)
    } else {
        fit(s, i + 1, used + cells(s[i]), limit)
    }
}

pub open spec fn spaces(n: int) -> Seq<char> {
    Seq::new(if n > 0 { n as nat } else { 0 }, |i: int| ' ')
}

/// `s` padded or cut to exactly `width` cells: padded with spaces when it
/// fits, else as many characters as fit in one cell less, an ellipsis, and
/// spaces for what a wide character left over.
pub open spec fn spec_truncate(s: Seq<char>, width: usize) -> Seq<char> {
    if width == 0 {
        seq![]
    } else if spec_str_width(s) <= width {
        s + spaces(width - spec_str_width(s))
    } else {
        let (k, used) = fit(s, 0, 0, width - 1);
        s.subrange(0, k) + seq!['…'] + spaces(width - (used + 1))
    }
}

pub proof fn lemma_fit(s: Seq<char>, i: int, used: int, limit: int)
    requires
        0 <= i <= s.len(),
        0 <= used <= limit,
    ensures
        i <= fit(s, i, used, limit).0 <= s.len(),
        used <= fit(s, i, used, limit).1 <= limit,
    decreases s.len() - i,
{
    if i < s.len() && used + cells(s[i]) <= limit {
        assert(cells(s[i]) >= 0);
        lemma_fit(s, i + 1, used + cells(s[i]), limit);
    }
}

pub(crate) fn push_spaces(v: &mut Vec<char>, n: usize)
    ensures
        final(v)@ == old(v)@ + spaces(n as int),
{
    let ghost start = v@;
    let mut i: usize = 0;
    while i < n
        invariant
            i <= n,
            v@ =~= start + Seq::new(i as nat, |q: int| ' '),
        decreases n - i,
    {
        v.push(' ');
        i = i + 1;
    }
    assert(spaces(n as int) =~= Seq::new(n as nat, |q: int| ' '));
}

/// Pads or cuts to an exact number of terminal cells, measured in display
/// width, not characters: a CJK glyph takes two cells.
pub fn truncate(s: &str, width: usize) -> (t: String)
    ensures
        t@ == spec_truncate(s@, width),
{
    if width == 0 {
        return string_of(Vec::<char>::new().as_slice());
    }
    let shown = str_width(s);
    let text = chars_of(s);
    let mut out: Vec<char> = Vec::new();
    if shown <= width {
        push_chars(&mut out, text.as_slice());
        push_spaces(&mut out, width - shown);
        return string_of(out.as_slice());
    }
    let limit = width - 1;
    let mut used: usize = 0;
    let mut i: usize = 0;
    proof {
        lemma_fit(text@, 0, 0, limit as int);
    }
    while i < text.len()
        invariant
            i <= text@.len(),
            used <= limit,
            limit == width - 1,
            fit(text@, i as int, used as int, limit as int) == fit(text@, 0, 0, limit as int),
            out@ == text@.subrange(0, i as int),
        ensures
            i <= text@.len(),
            used <= limit,
            out@ == text@.subrange(0, i as int),
            fit(text@, 0, 0, limit as int) == (i as int, used as int),
        decreases text@.len() - i,
    {
        let w: usize = match char_width(text[i]) {
            Some(x) => x,
            None => 0,
        };
        if (used as u128) + (w as u128) > (limit as u128) {
            break;
        }
        out.push(text[i]);
        used = used + w;
        i = i + 1;
        assert(out@ =~= text@.subrange(0, i as int));
    }
    out.push('…');
    push_spaces(&mut out, width.saturating_sub(used + 1));
    string_of(out.as_slice())
}

// ---- the help window ------------------------------------------------------

/// What the help window says, section by section: keys, and what they do.
/// An entry with no keys is a note about its section.
pub fn help() -> (h: Vec<(&'static str, Vec<(&'static str, &'static str)>)>)
    ensures
        h@.len() == 7,
        h@[0].1@.len() == 7,
        h@[1].1@.len() == 11,
        h@[2].1@.len() == 7,
        h@[3].1@.len() == 18,
        h@[4].1@.len() == 6,
        h@[5].1@.len() == 13,
        h@[6].1@.len() == 2,
{
    let mut h: Vec<(&'static str, Vec<(&'static str, &'static str)>)> = Vec::new();
    h.push(("windows and tabs", vec![
        ("tab, ctrl-w h/l", "move between the side pane and the tracks"),
        ("gt gT", "switch tabs in whichever pane has the keyboard"),
        ("enter", "open the folder or playlist under the cursor"),
        ("t", "open it in a tab of its own instead"),
        (":q", "close the tab, and the last one closes vibox"),
        (":qa, ZZ", "quit, whatever is open"),
        ("F1, :help", "this window, q or esc closes it"),
    ]));
    h.push(("moving", vec![
        ("j k", "down, up, and with a count: 8j"),
        ("gg G, 12G", "first row, last row, row 12"),
        ("ctrl-d ctrl-u", "half a page down, up"),
        ("ctrl-f ctrl-b", "a page down, up"),
        ("H M L", "cursor to the top, middle, bottom of the window"),
        ("zz zt zb", "window around the cursor"),
        ("ctrl-e ctrl-y", "scroll the window, leave the cursor"),
        ("gp", "jump to whatever is playing"),
        ("K", "what vibox knows about this track; y copies its path"),
        ("/ ?, n N", "search files, artists and albums, then repeat it"),
        ("* #", "next, previous track by the artist under the cursor"),
    ]));
    h.push(("playing", vec![
        ("enter", "play this track, queue the rest of the view"),
        ("space", "pause, resume"),
        ("h l", "seek 5s back, forward, and 30l seeks 30s"),
        ("< >", "previous, next in the queue"),
        ("+ -, m", "volume, and 20+ raises it by 20; mute"),
        ("r", "repeat: off, all, one"),
        ("s", "shuffle the queue on, off"),
    ]));
    h.push(("changing things", vec![
        ("", "nothing reaches the disk until `:w`"),
        ("c", "rename what the cursor is on: a track, folder or playlist"),
        ("i a I A", "insert while renaming, esc goes back to the motions"),
        ("h l 0 ^ $ w b e", "move inside the name being renamed"),
        ("cw cc dw yw yy x D C", "the usual operators, inside the name"),
        ("v", "while renaming, select inside the name; esc drops it"),
        ("d c y", "on that selection: cut, change, or copy it"),
        ("p P", "put what the last delete or copy took, after or before"),
        ("j k", "while renaming, take the name and move to the next row"),
        ("V, y", "select a run of tracks, yank the selection"),
        ("p", "put the yank in a playlist, or the cut in a folder"),
        ("dd x", "cut: a playlist entry, a playlist, or a file"),
        ("dd then p", "move a track: cut it, put it where it should go"),
        ("o", "new playlist or folder, by name"),
        ("u, ctrl-r", "undo, redo anything still waiting"),
        (":ch", "list exactly what `:w` would do; h and l pan it"),
        (":w", "do all of it; `:w mix` saves the view as a playlist"),
        (":e!", "throw away what is waiting"),
    ]));
    h.push(("danger mode, off by default", vec![
        (":set danger", "let vibox move, copy and delete your files"),
        ("dd", "cut tracks, or a folder and all of it; never put back, deleted"),
        ("d then p", "put them somewhere else instead: a move, like vim"),
        ("y then p", "copy them into another folder"),
        (":mkdir jazz", "a new folder under the library root"),
        (":mkrc", "keeps danger on for good, if it is on when you write it"),
    ]));
    h.push(("the library", vec![
        (":set root=~/Music", "the library vibox opens on its own"),
        (":e ~/Music", "open a directory or an m3u for now"),
        (":reload", "rescan from disk"),
        (":sort artist", "path, title, artist, album, duration"),
        (":set artist!", "flip a column: file, title, artist, album"),
        (":set lyrics", "lyrics for the playing track, from lrclib"),
        ("[ ]", "shift those lyrics earlier, later, kept per file"),
        (":set nokaraoke", "the words, without them following the song"),
        (":clearcache", "drop every cached lyric so they are fetched again"),
        (":vol 70, :seek 1:30", "volume and position"),
        (":history", "every track played this session, newest last"),
        (":mkrc", "keep the options you have set"),
        (":42", "jump to row 42"),
    ]));
    h.push(("from outside", vec![
        ("media keys", "play, pause, next, previous, over mpris"),
        ("playerctl", "the same, from a script or a status bar"),
    ]));
    h
}

/// How many rows the help window scrolls over: a header per section, a row
/// per entry, and a blank row between sections.
pub open spec fn spec_help_rows(h: Seq<(&'static str, Vec<(&'static str, &'static str)>)>) -> int
    decreases h.len(),
{
    if h.len() == 0 {
        0
    } else {
        spec_help_rows(h.drop_last()) + 1 + h.last().1@.len() + if h.len() > 1 {
            1int
        } else {
            0
        }
    }
}

/// How many rows the help window has, for the scrolling keys.
pub fn help_len() -> (n: usize)
    ensures
        n == 77,
{
    let h = help();
    let mut n: usize = 0;
    let mut i: usize = 0;
    assert(h@.subrange(0, 0) =~= Seq::<(&'static str, Vec<(&'static str, &'static str)>)>::empty());
    while i < h.len()
        invariant
            i <= h@.len(),
            h@.len() == 7,
            h@[0].1@.len() == 7,
            h@[1].1@.len() == 11,
            h@[2].1@.len() == 7,
            h@[3].1@.len() == 18,
            h@[4].1@.len() == 6,
            h@[5].1@.len() == 13,
            h@[6].1@.len() == 2,
            n == spec_help_rows(h@.subrange(0, i as int)),
            n <= 100 * i,
        decreases h@.len() - i,
    {
        assert(h@.subrange(0, i + 1).drop_last() =~= h@.subrange(0, i as int));
        if i > 0 {
            n = n + 1;
        }
        n = n + 1 + h[i].1.len();
        i = i + 1;
    }
    assert(h@.subrange(0, 7) =~= h@);
    proof {
        let s = h@;
        assert(spec_help_rows(s.subrange(0, 0)) == 0);
        assert(s.subrange(0, 1).drop_last() =~= s.subrange(0, 0));
        assert(s.subrange(0, 1).last() == s[0]);
        assert(spec_help_rows(s.subrange(0, 1)) == 8);
        assert(s.subrange(0, 2).drop_last() =~= s.subrange(0, 1));
        assert(s.subrange(0, 2).last() == s[1]);
        assert(spec_help_rows(s.subrange(0, 2)) == 21);
        assert(s.subrange(0, 3).drop_last() =~= s.subrange(0, 2));
        assert(s.subrange(0, 3).last() == s[2]);
        assert(spec_help_rows(s.subrange(0, 3)) == 30);
        assert(s.subrange(0, 4).drop_last() =~= s.subrange(0, 3));
        assert(s.subrange(0, 4).last() == s[3]);
        assert(spec_help_rows(s.subrange(0, 4)) == 50);
        assert(s.subrange(0, 5).drop_last() =~= s.subrange(0, 4));
        assert(s.subrange(0, 5).last() == s[4]);
        assert(spec_help_rows(s.subrange(0, 5)) == 58);
        assert(s.subrange(0, 6).drop_last() =~= s.subrange(0, 5));
        assert(s.subrange(0, 6).last() == s[5]);
        assert(spec_help_rows(s.subrange(0, 6)) == 73);
        assert(s.subrange(0, 7).drop_last() =~= s.subrange(0, 6));
        assert(s.subrange(0, 7).last() == s[6]);
        assert(spec_help_rows(s.subrange(0, 7)) == 77);
    }
    n
}

} // verus!
