//! Characters and strings: the classes a word motion steps over, and the
//! conversions between `str` and the character vectors everything edits.

use vstd::prelude::*;

verus! {

/// Unicode's `White_Space` property, which is what `char::is_whitespace`
/// answers.
pub open spec fn spec_is_whitespace(c: char) -> bool {
    let u = c as u32;
    ||| 0x09 <= u <= 0x0d
    ||| u == 0x20
    ||| u == 0x85
    ||| u == 0xa0
    ||| u == 0x1680
    ||| 0x2000 <= u <= 0x200a
    ||| u == 0x2028
    ||| u == 0x2029
    ||| u == 0x202f
    ||| u == 0x205f
    ||| u == 0x3000
}

/// Whitespace as `char::is_whitespace` has it.
pub fn is_whitespace(c: char) -> (b: bool)
    ensures
        b == spec_is_whitespace(c),
{
    let u = c as u32;
    (0x09 <= u && u <= 0x0d) || u == 0x20 || u == 0x85 || u == 0xa0 || u == 0x1680 || (0x2000
        <= u && u <= 0x200a) || u == 0x2028 || u == 0x2029 || u == 0x202f || u == 0x205f || u
        == 0x3000
}


/// Unicode's `Alphabetic` or `Numeric`, which is what `char::is_alphanumeric`
/// answers. The tables run to thousands of ranges, so they are not restated
/// here.
pub uninterp spec fn spec_is_alphanumeric(c: char) -> bool;

/// An ASCII letter or digit.
pub open spec fn ascii_alphanumeric(c: char) -> bool {
    ('a' <= c && c <= 'z') || ('A' <= c && c <= 'Z') || ('0' <= c && c <= '9')
}

/// `char::is_alphanumeric` from std. Its contract claims that the answer is a
/// function of the character, named `spec_is_alphanumeric`, and that on ASCII
/// it is true just for the letters and digits, the only ASCII characters with
/// Unicode's `Alphabetic` or `Numeric` property it documents.
#[verifier::external_body]
pub fn is_alphanumeric(c: char) -> (b: bool)
    ensures
        b == spec_is_alphanumeric(c),
        (c as u32) < 128 ==> (b <==> ascii_alphanumeric(c)),
{
    c.is_alphanumeric()
}

/// What kind of run a character belongs to, the way vim splits a line: a word
/// of letters and digits, a run of punctuation, or whitespace between them.
///
/// This is why `w` on `ABBA - As` stops on the dash: punctuation is a word of
/// its own, not a separator to skip over.
#[derive(PartialEq, Eq, Structural, Clone, Copy, Debug)]
pub enum Class {
    Space,
    Word,
    Punct,
}

pub open spec fn class_of(c: char) -> Class {
    if spec_is_whitespace(c) {
        Class::Space
    } else if spec_is_alphanumeric(c) || c == '_' {
        Class::Word
    } else {
        Class::Punct
    }
}

pub fn class(c: char) -> (k: Class)
    ensures
        k == class_of(c),
{
    if is_whitespace(c) {
        Class::Space
    } else if is_alphanumeric(c) || c == '_' {
        Class::Word
    } else {
        Class::Punct
    }
}

/// From `i`, back over every character of class `k` just before it.
pub open spec fn back_over(s: Seq<char>, i: int, k: Class) -> int
    decreases i,
{
    if 0 < i <= s.len() && class_of(s[i - 1]) == k {
        back_over(s, i - 1, k)
    } else {
        i
    }
}

/// From `i`, forward over every character of class `k` at and after it.
pub open spec fn forward_over(s: Seq<char>, i: int, k: Class) -> int
    decreases s.len() - i,
{
    if 0 <= i < s.len() && class_of(s[i]) == k {
        forward_over(s, i + 1, k)
    } else {
        i
    }
}

/// Where `b` lands from `at`: back over the blanks, then back over the run of
/// one class that ends there.
pub open spec fn spec_word_start(s: Seq<char>, at: int) -> int {
    let a = if at < s.len() { at } else { s.len() as int };
    let i = back_over(s, a, Class::Space);
    if i > 0 {
        back_over(s, i, class_of(s[i - 1]))
    } else {
        i
    }
}

pub proof fn lemma_back_over_bounds(s: Seq<char>, i: int, k: Class)
    requires
        0 <= i <= s.len(),
    ensures
        0 <= back_over(s, i, k) <= i,
        forall|j: int| back_over(s, i, k) <= j < i ==> class_of(s[j]) == k,
        back_over(s, i, k) == 0 || class_of(s[back_over(s, i, k) - 1]) != k,
    decreases i,
{
    if 0 < i && class_of(s[i - 1]) == k {
        lemma_back_over_bounds(s, i - 1, k);
    }
}

pub proof fn lemma_forward_over_bounds(s: Seq<char>, i: int, k: Class)
    requires
        0 <= i <= s.len(),
    ensures
        i <= forward_over(s, i, k) <= s.len(),
        forall|j: int| i <= j < forward_over(s, i, k) ==> class_of(s[j]) == k,
        forward_over(s, i, k) == s.len() || class_of(s[forward_over(s, i, k)]) != k,
    decreases s.len() - i,
{
    if i < s.len() && class_of(s[i]) == k {
        lemma_forward_over_bounds(s, i + 1, k);
    }
}

/// Walks back from `i` over class `k`, as `back_over` says.
pub fn walk_back(s: &[char], i: usize, k: Class) -> (r: usize)
    requires
        i <= s@.len(),
    ensures
        r == back_over(s@, i as int, k),
{
    let mut j = i;
    while j > 0 && class(s[j - 1]) == k
        invariant
            j <= i <= s@.len(),
            back_over(s@, j as int, k) == back_over(s@, i as int, k),
        decreases j,
    {
        j = j - 1;
    }
    j
}

/// Walks forward from `i` over class `k`, as `forward_over` says.
pub fn walk_forward(s: &[char], i: usize, k: Class) -> (r: usize)
    requires
        i <= s@.len(),
    ensures
        r == forward_over(s@, i as int, k),
{
    let mut j = i;
    while j < s.len() && class(s[j]) == k
        invariant
            i <= j <= s@.len(),
            forward_over(s@, j as int, k) == forward_over(s@, i as int, k),
        decreases s@.len() - j,
    {
        j = j + 1;
    }
    j
}

/// Start of the word at or before `at`, which is where `b` and `ctrl-w` land.
pub fn word_start(text: &[char], at: usize) -> (r: usize)
    ensures
        r == spec_word_start(text@, at as int),
        r <= text@.len(),
        r <= at,
{
    let a = if at < text.len() { at } else { text.len() };
    let i = walk_back(text, a, Class::Space);
    proof { lemma_back_over_bounds(text@, a as int, Class::Space); }
    if i > 0 {
        let k = class(text[i - 1]);
        proof { lemma_back_over_bounds(text@, i as int, k); }
        walk_back(text, i, k)
    } else {
        i
    }
}


/// The characters of a string, in order.
pub fn chars_of(s: &str) -> (v: Vec<char>)
    ensures
        v@ == s@,
{
    let mut v: Vec<char> = Vec::new();
    for c in it: s.chars()
        invariant
            it.seq() == s@,
            v@ == it.seq().take(it.index() as int),
    {
        v.push(c);
    }
    v
}


/// A string made of these characters, in order: `FromIterator<char>` for
/// `String` from std. Its contract claims the string's characters are exactly
/// the ones handed in.
#[verifier::external_body]
pub fn string_of(v: &[char]) -> (s: String)
    ensures
        s@ == v@,
{
    v.iter().collect()
}

/// Appends the characters of `s` to `v`.
pub fn push_str(v: &mut Vec<char>, s: &str)
    ensures
        final(v)@ == old(v)@ + s@,
{
    let mut more = chars_of(s);
    v.append(&mut more);
}

/// Appends the characters in `s` to `v`.
pub fn push_chars(v: &mut Vec<char>, s: &[char])
    ensures
        final(v)@ == old(v)@ + s@,
{
    let mut i: usize = 0;
    let ghost start = v@;
    while i < s.len()
        invariant
            i <= s@.len(),
            v@ == start + s@.subrange(0, i as int),
        decreases s@.len() - i,
    {
        v.push(s[i]);
        i = i + 1;
        assert(v@ =~= start + s@.subrange(0, i as int));
    }
    assert(s@.subrange(0, s@.len() as int) =~= s@);
}

/// Whether two character runs are the same.
pub fn same_chars(a: &[char], b: &[char]) -> (r: bool)
    ensures
        r == (a@ == b@),
{
    if a.len() != b.len() {
        return false;
    }
    let mut i: usize = 0;
    while i < a.len()
        invariant
            i <= a@.len(),
            a@.len() == b@.len(),
            forall|j: int| 0 <= j < i ==> a@[j] == b@[j],
        decreases a@.len() - i,
    {
        if a[i] != b[i] {
            return false;
        }
        i = i + 1;
    }
    assert(a@ =~= b@);
    true
}

/// Whether two strings are the same, character for character.
pub fn same_str(a: &str, b: &str) -> (r: bool)
    ensures
        r == (a@ == b@),
{
    let x = chars_of(a);
    let y = chars_of(b);
    same_chars(x.as_slice(), y.as_slice())
}

// ---- trimming and splitting ---------------------------------------------

/// `s` without the whitespace in front, as `str::trim_start` leaves it.
pub open spec fn spec_trim_start(s: Seq<char>) -> Seq<char> {
    s.subrange(forward_over(s, 0, Class::Space), s.len() as int)
}

/// `s` without the whitespace behind, as `str::trim_end` leaves it.
pub open spec fn spec_trim_end(s: Seq<char>) -> Seq<char> {
    s.subrange(0, back_over(s, s.len() as int, Class::Space))
}

/// `s` without whitespace at either end, as `str::trim` leaves it.
pub open spec fn spec_trim(s: Seq<char>) -> Seq<char> {
    spec_trim_end(spec_trim_start(s))
}

/// The first whitespace at or after `i`, or the end.
pub open spec fn until_space(s: Seq<char>, i: int) -> int
    decreases s.len() - i,
{
    if 0 <= i < s.len() && !spec_is_whitespace(s[i]) {
        until_space(s, i + 1)
    } else {
        i
    }
}

pub proof fn lemma_until_space(s: Seq<char>, i: int)
    requires
        0 <= i <= s.len(),
    ensures
        i <= until_space(s, i) <= s.len(),
        forall|j: int| i <= j < until_space(s, i) ==> !spec_is_whitespace(s[j]),
        until_space(s, i) < s.len() ==> spec_is_whitespace(s[until_space(s, i)]),
    decreases s.len() - i,
{
    if i < s.len() && !spec_is_whitespace(s[i]) {
        lemma_until_space(s, i + 1);
    }
}

/// `str::split_once(char::is_whitespace)`: what comes before the first
/// whitespace and what comes after it, or `None` when there is none.
pub open spec fn spec_split_ws(s: Seq<char>) -> Option<(Seq<char>, Seq<char>)> {
    let k = until_space(s, 0);
    if k < s.len() {
        Some((s.subrange(0, k), s.subrange(k + 1, s.len() as int)))
    } else {
        None
    }
}

/// From `i`, back over every copy of `c` just before it.
pub open spec fn back_over_char(s: Seq<char>, i: int, c: char) -> int
    decreases i,
{
    if 0 < i <= s.len() && s[i - 1] == c {
        back_over_char(s, i - 1, c)
    } else {
        i
    }
}

/// `str::trim_end_matches(c)`.
pub open spec fn spec_trim_end_char(s: Seq<char>, c: char) -> Seq<char> {
    s.subrange(0, back_over_char(s, s.len() as int, c))
}

pub fn slice_of(s: &[char], from: usize, to: usize) -> (r: Vec<char>)
    requires
        from <= to <= s@.len(),
    ensures
        r@ == s@.subrange(from as int, to as int),
{
    let mut r: Vec<char> = Vec::new();
    let mut i: usize = from;
    while i < to
        invariant
            from <= i <= to <= s@.len(),
            r@ == s@.subrange(from as int, i as int),
        decreases to - i,
    {
        r.push(s[i]);
        i = i + 1;
        assert(r@ =~= s@.subrange(from as int, i as int));
    }
    r
}

pub fn trim_start(s: &[char]) -> (r: Vec<char>)
    ensures
        r@ == spec_trim_start(s@),
{
    proof {
        lemma_forward_over_bounds(s@, 0, Class::Space);
    }
    let i = walk_forward(s, 0, Class::Space);
    slice_of(s, i, s.len())
}

pub fn trim_end(s: &[char]) -> (r: Vec<char>)
    ensures
        r@ == spec_trim_end(s@),
{
    proof {
        lemma_back_over_bounds(s@, s@.len() as int, Class::Space);
    }
    let i = walk_back(s, s.len(), Class::Space);
    slice_of(s, 0, i)
}

pub fn trim(s: &[char]) -> (r: Vec<char>)
    ensures
        r@ == spec_trim(s@),
{
    let t = trim_start(s);
    trim_end(t.as_slice())
}

pub fn trim_end_char(s: &[char], c: char) -> (r: Vec<char>)
    ensures
        r@ == spec_trim_end_char(s@, c),
{
    let mut i: usize = s.len();
    while i > 0 && s[i - 1] == c
        invariant
            i <= s@.len(),
            back_over_char(s@, i as int, c) == back_over_char(s@, s@.len() as int, c),
        decreases i,
    {
        i = i - 1;
    }
    slice_of(s, 0, i)
}

pub fn split_ws(s: &[char]) -> (r: Option<(Vec<char>, Vec<char>)>)
    ensures
        match (r, spec_split_ws(s@)) {
            (Some((a, b)), Some((x, y))) => a@ == x && b@ == y,
            (None, None) => true,
            _ => false,
        },
{
    let mut k: usize = 0;
    while k < s.len() && !is_whitespace(s[k])
        invariant
            k <= s@.len(),
            until_space(s@, k as int) == until_space(s@, 0),
        decreases s@.len() - k,
    {
        k = k + 1;
    }
    if k < s.len() {
        Some((slice_of(s, 0, k), slice_of(s, k + 1, s.len())))
    } else {
        None
    }
}

/// Whether `s` ends with `c`.
pub open spec fn ends_with(s: Seq<char>, c: char) -> bool {
    s.len() > 0 && s.last() == c
}

/// Whether `s` starts with `c`.
pub open spec fn starts_with(s: Seq<char>, c: char) -> bool {
    s.len() > 0 && s[0] == c
}

// ---- numbers --------------------------------------------------------------

pub open spec fn is_digit(c: char) -> bool {
    '0' <= c <= '9'
}

pub open spec fn all_digits(s: Seq<char>) -> bool {
    forall|i: int| 0 <= i < s.len() ==> is_digit(s[i])
}

/// The number a run of decimal digits spells.
pub open spec fn digits_value(s: Seq<char>) -> nat
    decreases s.len(),
{
    if s.len() == 0 {
        0
    } else {
        digits_value(s.drop_last()) * 10 + ((s.last() as u32 - '0' as u32) as nat)
    }
}

/// What `str::parse` makes of `s` as an integer before the range check: an
/// optional sign, then one or more decimal digits, nothing else.
pub open spec fn spec_int_text(s: Seq<char>, signed: bool) -> Option<int> {
    if s.len() > 0 && s[0] == '+' {
        let d = s.subrange(1, s.len() as int);
        if d.len() > 0 && all_digits(d) {
            Some(digits_value(d) as int)
        } else {
            None
        }
    } else if signed && s.len() > 0 && s[0] == '-' {
        let d = s.subrange(1, s.len() as int);
        if d.len() > 0 && all_digits(d) {
            Some(-(digits_value(d) as int))
        } else {
            None
        }
    } else if s.len() > 0 && all_digits(s) {
        Some(digits_value(s) as int)
    } else {
        None
    }
}

/// `s.parse::<i64>()`.
pub open spec fn spec_parse_i64(s: Seq<char>) -> Option<i64> {
    match spec_int_text(s, true) {
        Some(v) => if i64::MIN <= v <= i64::MAX {
            Some(v as i64)
        } else {
            None
        },
        None => None,
    }
}

/// `s.parse::<u64>()`.
pub open spec fn spec_parse_u64(s: Seq<char>) -> Option<u64> {
    match spec_int_text(s, false) {
        Some(v) => if 0 <= v <= u64::MAX {
            Some(v as u64)
        } else {
            None
        },
        None => None,
    }
}

/// `s.parse::<usize>()`.
pub open spec fn spec_parse_usize(s: Seq<char>) -> Option<usize> {
    match spec_int_text(s, false) {
        Some(v) => if 0 <= v <= usize::MAX {
            Some(v as usize)
        } else {
            None
        },
        None => None,
    }
}

proof fn lemma_digits_value_grows(s: Seq<char>, i: int)
    requires
        0 <= i <= s.len(),
        all_digits(s),
    ensures
        digits_value(s.subrange(0, i)) <= digits_value(s),
    decreases s.len() - i,
{
    if i < s.len() {
        lemma_digits_value_grows(s, i + 1);
        let t = s.subrange(0, i + 1);
        assert(t.drop_last() =~= s.subrange(0, i));
    } else {
        assert(s.subrange(0, i) =~= s);
    }
}

/// The value of the digits in `d`, while it fits under `bound`.
pub fn digits_upto(d: &[char], bound: u64) -> (r: Option<u64>)
    ensures
        all_digits(d@) && digits_value(d@) <= bound ==> r == Some(digits_value(d@) as u64),
        !all_digits(d@) || digits_value(d@) > bound ==> r is None,
{
    let mut v: u64 = 0;
    let mut i: usize = 0;
    while i < d.len()
        invariant
            i <= d@.len(),
            all_digits(d@.subrange(0, i as int)),
            v == digits_value(d@.subrange(0, i as int)),
            v <= bound,
        decreases d@.len() - i,
    {
        let c = d[i];
        let ghost t = d@.subrange(0, i + 1);
        assert(t.drop_last() =~= d@.subrange(0, i as int));
        if !('0' <= c && c <= '9') {
            assert(!all_digits(d@)) by {
                assert(!is_digit(d@[i as int]));
            }
            return None;
        }
        let digit = (c as u32 - '0' as u32) as u64;
        let next: u128 = (v as u128) * 10 + (digit as u128);
        if next > bound as u128 {
            proof {
                assert(digits_value(t) == v * 10 + digit);
                if all_digits(d@) {
                    lemma_digits_value_grows(d@, i + 1);
                }
            }
            return None;
        }
        v = v * 10 + digit;
        i = i + 1;
        assert(all_digits(d@.subrange(0, i as int)));
    }
    assert(d@.subrange(0, d@.len() as int) =~= d@);
    Some(v)
}


/// `s.parse::<i64>()`: an optional sign, then decimal digits, in range.
pub fn parse_i64(s: &[char]) -> (r: Option<i64>)
    ensures
        r == spec_parse_i64(s@),
{
    if s.len() == 0 {
        return None;
    }
    if s[0] == '+' || s[0] == '-' {
        let d = slice_of(s, 1, s.len());
        assert(d@ =~= s@.subrange(1, s@.len() as int));
        if d.len() == 0 {
            return None;
        }
        if s[0] == '+' {
            match digits_upto(d.as_slice(), 9223372036854775807u64) {
                Some(v) => Some(v as i64),
                None => None,
            }
        } else {
            match digits_upto(d.as_slice(), 9223372036854775808u64) {
                Some(v) => {
                    if v == 9223372036854775808u64 {
                        Some(i64::MIN)
                    } else {
                        let n: i64 = v as i64;
                        Some(-n)
                    }
                },
                None => None,
            }
        }
    } else {
        match digits_upto(s, 9223372036854775807u64) {
            Some(v) => Some(v as i64),
            None => None,
        }
    }
}

/// `s.parse::<usize>()`: an optional `+`, then decimal digits, in range.
pub fn parse_usize(s: &[char]) -> (r: Option<usize>)
    ensures
        r == spec_parse_usize(s@),
{
    if s.len() == 0 {
        return None;
    }
    let bound: u64 = if usize::MAX as u64 == u64::MAX { u64::MAX } else { usize::MAX as u64 };
    assert(bound == usize::MAX);
    if s[0] == '+' {
        let d = slice_of(s, 1, s.len());
        assert(d@ =~= s@.subrange(1, s@.len() as int));
        if d.len() == 0 {
            return None;
        }
        match digits_upto(d.as_slice(), bound) {
            Some(v) => Some(v as usize),
            None => None,
        }
    } else {
        match digits_upto(s, bound) {
            Some(v) => Some(v as usize),
            None => None,
        }
    }
}

/// The first `c` at or after `i`, or the end.
pub open spec fn until_char(s: Seq<char>, i: int, c: char) -> int
    decreases s.len() - i,
{
    if 0 <= i < s.len() && s[i] != c {
        until_char(s, i + 1, c)
    } else {
        i
    }
}

pub proof fn lemma_until_char(s: Seq<char>, i: int, c: char)
    requires
        0 <= i <= s.len(),
    ensures
        i <= until_char(s, i, c) <= s.len(),
        forall|j: int| i <= j < until_char(s, i, c) ==> s[j] != c,
        until_char(s, i, c) < s.len() ==> s[until_char(s, i, c)] == c,
    decreases s.len() - i,
{
    if i < s.len() && s[i] != c {
        lemma_until_char(s, i + 1, c);
    }
}

/// Where the first `c` in `s` stands, or its length when there is none.
pub fn find_char(s: &[char], c: char) -> (k: usize)
    ensures
        k == until_char(s@, 0, c),
        k <= s@.len(),
{
    proof {
        lemma_until_char(s@, 0, c);
    }
    let mut k: usize = 0;
    while k < s.len() && s[k] != c
        invariant
            k <= s@.len(),
            until_char(s@, k as int, c) == until_char(s@, 0, c),
        decreases s@.len() - k,
    {
        k = k + 1;
    }
    k
}

/// The whitespace-separated words of `s`, as `str::split_whitespace` yields them.
pub open spec fn spec_words(s: Seq<char>) -> Seq<Seq<char>>
    decreases s.len(),
{
    let t = spec_trim_start(s);
    if t.len() == 0 {
        seq![]
    } else {
        let k = until_space(t, 0);
        proof {
            lemma_forward_over_bounds(s, 0, Class::Space);
            lemma_until_space(t, 0);
        }
        if 0 < k <= t.len() <= s.len() {
            seq![t.subrange(0, k)] + spec_words(t.subrange(k, t.len() as int))
        } else {
            seq![]
        }
    }
}

/// The words of `s`, as `str::split_whitespace` yields them.
pub fn words(s: &[char]) -> (r: Vec<Vec<char>>)
    ensures
        r@.len() == spec_words(s@).len(),
        forall|i: int| 0 <= i < r@.len() ==> r@[i]@ == spec_words(s@)[i],
    decreases s@.len(),
{
    let t = trim_start(s);
    proof {
        lemma_forward_over_bounds(s@, 0, Class::Space);
    }
    if t.len() == 0 {
        return Vec::new();
    }
    let mut k: usize = 0;
    while k < t.len() && !is_whitespace(t[k])
        invariant
            k <= t@.len(),
            until_space(t@, k as int) == until_space(t@, 0),
        decreases t@.len() - k,
    {
        k = k + 1;
    }
    proof {
        lemma_until_space(t@, 0);
        assert(t@.len() > 0);
        assert(!spec_is_whitespace(t@[0])) by {
            assert(class_of(t@[0]) != Class::Space);
        }
    }
    let head = slice_of(t.as_slice(), 0, k);
    let rest = slice_of(t.as_slice(), k, t.len());
    let more = words(rest.as_slice());
    let mut r: Vec<Vec<char>> = Vec::new();
    r.push(head);
    let mut i: usize = 0;
    while i < more.len()
        invariant
            i <= more@.len(),
            r@.len() == i + 1,
            r@[0]@ == t@.subrange(0, k as int),
            forall|j: int| 0 < j <= i ==> r@[j]@ == more@[j - 1]@,
        decreases more@.len() - i,
    {
        let w = more[i].clone();
        assert(w@ =~= more@[i as int]@);
        r.push(w);
        i = i + 1;
    }
    r
}


// ---- writing numbers -------------------------------------------------------

/// The character of a decimal digit.
pub open spec fn digit_char(d: nat) -> char {
    (d + 48) as char
}

/// `n` in decimal, as `{}` writes it.
pub open spec fn spec_decimal(n: nat) -> Seq<char>
    decreases n,
{
    if n < 10 {
        seq![digit_char(n)]
    } else {
        spec_decimal(n / 10).push(digit_char(n % 10))
    }
}

fn digit(d: u64) -> (c: char)
    requires
        d < 10,
    ensures
        c == digit_char(d as nat),
{
    let b: u8 = 48u8 + d as u8;
    b as char
}

/// What `{}` writes for a number is digits that read back as that number.
pub proof fn lemma_decimal_reads_back(n: nat)
    ensures
        spec_decimal(n).len() > 0,
        all_digits(spec_decimal(n)),
        digits_value(spec_decimal(n)) == n,
    decreases n,
{
    if n < 10 {
        let d = spec_decimal(n);
        assert(digit_char(n) as u32 == n + 48);
        assert(d.drop_last() =~= Seq::<char>::empty());
        assert(d.last() == digit_char(n));
        assert('0' as u32 == 48);
        assert(digits_value(d) == digits_value(d.drop_last()) * 10 + ((d.last() as u32 - '0' as u32) as nat));
    } else {
        lemma_decimal_reads_back(n / 10);
        let d = spec_decimal(n);
        assert(d.drop_last() =~= spec_decimal(n / 10));
        assert(digit_char(n % 10) as u32 == n % 10 + 48);
        assert(forall|i: int| 0 <= i < d.len() - 1 ==> d[i] == spec_decimal(n / 10)[i]);
        assert((n / 10) * 10 + n % 10 == n) by (nonlinear_arith);
        assert(d.last() == digit_char(n % 10));
        assert('0' as u32 == 48);
        assert(digits_value(d) == digits_value(d.drop_last()) * 10 + ((d.last() as u32 - '0' as u32) as nat));
        assert(((d.last() as u32 - '0' as u32) as nat) == n % 10);
    }
}

/// A signed decimal, as `{}` writes an integer, parses back as it.
pub proof fn lemma_signed_decimal_reads_back(v: i64)
    ensures
        spec_parse_i64(spec_signed_decimal(v as int)) == Some(v),
        spec_signed_decimal(v as int).len() > 0,
        spec_signed_decimal(v as int)[0] == '-' || is_digit(spec_signed_decimal(v as int)[0]),
        is_digit(spec_signed_decimal(v as int).last()),
        forall|i: int| 0 <= i < spec_signed_decimal(v as int).len() ==> (#[trigger] spec_signed_decimal(v as int)[i] == '-' || is_digit(spec_signed_decimal(v as int)[i])),
{
    let sd = spec_signed_decimal(v as int);
    if v < 0 {
        let m = (-(v as int)) as nat;
        lemma_decimal_reads_back(m);
        let d = spec_decimal(m);
        assert(sd == seq!['-'] + d);
        assert(sd.subrange(1, sd.len() as int) =~= d);
        assert(sd[0] == '-');
        assert(sd.last() == d.last());
        assert(forall|i: int| 1 <= i < sd.len() ==> sd[i] == d[i - 1]);
    } else {
        lemma_decimal_reads_back(v as nat);
    }
}

/// `n` in decimal, as `{}` writes it.
pub fn decimal(n: u64) -> (v: Vec<char>)
    ensures
        v@ == spec_decimal(n as nat),
    decreases n,
{
    let d = digit(n % 10);
    if n < 10 {
        let mut v: Vec<char> = Vec::new();
        v.push(d);
        assert(v@ =~= seq![d]);
        v
    } else {
        let mut v = decimal(n / 10);
        v.push(d);
        v
    }
}

/// `n` in decimal with a minus sign when it is negative, as `{}` writes it.
pub open spec fn spec_signed_decimal(n: int) -> Seq<char> {
    if n < 0 {
        seq!['-'] + spec_decimal((-n) as nat)
    } else {
        spec_decimal(n as nat)
    }
}

pub fn signed_decimal(n: i64) -> (v: Vec<char>)
    ensures
        v@ == spec_signed_decimal(n as int),
{
    if n < 0 {
        let m: u64 = if n == i64::MIN {
            9223372036854775808u64
        } else {
            (-n) as u64
        };
        let mut v: Vec<char> = Vec::new();
        v.push('-');
        let mut d = decimal(m);
        v.append(&mut d);
        v
    } else {
        decimal(n as u64)
    }
}

/// `s` behind as many `0`s as it takes to reach `width`, as `{:0w}` pads.
pub open spec fn spec_zero_pad(s: Seq<char>, width: nat) -> Seq<char> {
    if s.len() < width {
        Seq::new((width - s.len()) as nat, |i: int| '0') + s
    } else {
        s
    }
}

pub fn zero_pad(s: Vec<char>, width: usize) -> (v: Vec<char>)
    ensures
        v@ == spec_zero_pad(s@, width as nat),
{
    if s.len() >= width {
        return s;
    }
    let mut v: Vec<char> = Vec::new();
    let fill = width - s.len();
    let mut i: usize = 0;
    while i < fill
        invariant
            i <= fill,
            fill == width - s@.len(),
            v@ =~= Seq::new(i as nat, |k: int| '0'),
        decreases fill - i,
    {
        v.push('0');
        i = i + 1;
    }
    let mut rest = s;
    v.append(&mut rest);
    v
}

/// The character of a hexadecimal digit, lower case or upper.
pub open spec fn hex_char(d: nat, upper: bool) -> char {
    if d < 10 {
        digit_char(d)
    } else if upper {
        (d + 55) as char
    } else {
        (d + 87) as char
    }
}

/// The last `k` hexadecimal digits of `x`, as `{:0kx}` writes a number that
/// fits in them.
pub open spec fn spec_hex(x: nat, k: nat, upper: bool) -> Seq<char>
    decreases k,
{
    if k == 0 {
        seq![]
    } else {
        spec_hex(x / 16, (k - 1) as nat, upper).push(hex_char(x % 16, upper))
    }
}

pub fn hex(x: u64, k: usize, upper: bool) -> (v: Vec<char>)
    ensures
        v@ == spec_hex(x as nat, k as nat, upper),
    decreases k,
{
    if k == 0 {
        return Vec::new();
    }
    let d = x % 16;
    let c: char = if d < 10 {
        digit(d)
    } else if upper {
        let b: u8 = 55u8 + d as u8;
        b as char
    } else {
        let b: u8 = 87u8 + d as u8;
        b as char
    };
    let mut v = hex(x / 16, k - 1, upper);
    v.push(c);
    v
}


// ---- lines ------------------------------------------------------------------

/// The lines of `s`, as `str::lines` yields them: split after each `\n`, with
/// the `\n`, and an `\r` just before it, dropped, and no empty line after a
/// final `\n`.
pub open spec fn spec_lines(s: Seq<char>) -> Seq<Seq<char>>
    decreases s.len(),
{
    if s.len() == 0 {
        seq![]
    } else {
        let k = until_char(s, 0, '\n');
        proof {
            lemma_until_char(s, 0, '\n');
        }
        if 0 <= k < s.len() {
            let line = s.subrange(0, k);
            let line = if ends_with(line, '\r') {
                line.drop_last()
            } else {
                line
            };
            seq![line] + spec_lines(s.subrange(k + 1, s.len() as int))
        } else {
            seq![s]
        }
    }
}

/// The lines of `s`, as `str::lines` yields them.
pub fn lines(s: &[char]) -> (r: Vec<Vec<char>>)
    ensures
        r@.len() == spec_lines(s@).len(),
        forall|i: int| 0 <= i < r@.len() ==> r@[i]@ == spec_lines(s@)[i],
{
    let mut r: Vec<Vec<char>> = Vec::new();
    let mut at: usize = 0;
    let ghost mut rest = s@;
    proof {
        assert(s@.subrange(0, s@.len() as int) =~= s@);
    }
    while at < s.len()
        invariant
            at <= s@.len(),
            rest == s@.subrange(at as int, s@.len() as int),
            spec_lines(s@) == Seq::new(r@.len(), |i: int| r@[i]@) + spec_lines(rest),
        decreases s@.len() - at,
    {
        let tail = slice_of(s, at, s.len());
        let k = find_char(tail.as_slice(), '\n');
        proof {
            lemma_until_char(rest, 0, '\n');
        }
        let ghost before = Seq::new(r@.len(), |i: int| r@[i]@);
        if k < tail.len() {
            let mut line = slice_of(tail.as_slice(), 0, k);
            if line.len() > 0 && line[line.len() - 1] == '\r' {
                line.pop();
            }
            let ghost l = line@;
            r.push(line);
            proof {
                assert(rest.subrange(k + 1, rest.len() as int) =~= s@.subrange(
                    at + k + 1,
                    s@.len() as int,
                ));
                assert(Seq::new(r@.len(), |i: int| r@[i]@) =~= before.push(l));
                assert(spec_lines(rest) == seq![l] + spec_lines(
                    rest.subrange(k + 1, rest.len() as int),
                ));
                assert(before + spec_lines(rest) =~= before.push(l) + spec_lines(
                    rest.subrange(k + 1, rest.len() as int),
                ));
                rest = rest.subrange(k + 1, rest.len() as int);
            }
            at = at + k + 1;
        } else {
            let ghost l = tail@;
            r.push(tail);
            proof {
                assert(Seq::new(r@.len(), |i: int| r@[i]@) =~= before.push(l));
                assert(spec_lines(rest) == seq![l]);
                assert(before + spec_lines(rest) =~= before.push(l) + spec_lines(seq![]));
                rest = seq![];
            }
            at = s.len();
            assert(rest =~= s@.subrange(at as int, s@.len() as int));
        }
    }
    proof {
        assert(rest =~= Seq::<char>::empty());
        assert(spec_lines(s@) =~= Seq::new(r@.len(), |i: int| r@[i]@));
    }
    r
}


/// `s.parse::<u64>()`: an optional `+`, then decimal digits, in range.
pub fn parse_u64(s: &[char]) -> (r: Option<u64>)
    ensures
        r == spec_parse_u64(s@),
{
    if s.len() == 0 {
        return None;
    }
    if s[0] == '+' {
        let d = slice_of(s, 1, s.len());
        assert(d@ =~= s@.subrange(1, s@.len() as int));
        if d.len() == 0 {
            return None;
        }
        digits_upto(d.as_slice(), 18446744073709551615u64)
    } else {
        digits_upto(s, 18446744073709551615u64)
    }
}


/// From `i`, forward over every copy of `c`.
pub open spec fn forward_over_char(s: Seq<char>, i: int, c: char) -> int
    decreases s.len() - i,
{
    if 0 <= i < s.len() && s[i] == c {
        forward_over_char(s, i + 1, c)
    } else {
        i
    }
}

pub proof fn lemma_forward_over_char(s: Seq<char>, i: int, c: char)
    requires
        0 <= i <= s.len(),
    ensures
        i <= forward_over_char(s, i, c) <= s.len(),
    decreases s.len() - i,
{
    if i < s.len() && s[i] == c {
        lemma_forward_over_char(s, i + 1, c);
    }
}


/// No line break anywhere in `s`.
pub open spec fn no_newline(s: Seq<char>) -> bool {
    forall|j: int| 0 <= j < s.len() ==> s[j] != '\n'
}

/// A line with the `\r` of a `\r\n` dropped.
pub open spec fn drop_cr(line: Seq<char>) -> Seq<char> {
    if ends_with(line, '\r') {
        line.drop_last()
    } else {
        line
    }
}

pub proof fn lemma_until_char_at(s: Seq<char>, i: int, k: int, c: char)
    requires
        0 <= i <= k < s.len(),
        s[k] == c,
        forall|j: int| i <= j < k ==> s[j] != c,
    ensures
        until_char(s, i, c) == k,
    decreases k - i,
{
    if i < k {
        lemma_until_char_at(s, i + 1, k, c);
    }
}

/// A line with no break in it, then a break, then the rest: the line comes
/// first, then the lines of the rest.
pub proof fn lemma_lines_cons(a: Seq<char>, b: Seq<char>)
    requires
        no_newline(a),
    ensures
        spec_lines(a + seq!['\n'] + b) == seq![drop_cr(a)] + spec_lines(b),
{
    let s = a + seq!['\n'] + b;
    lemma_until_char_at(s, 0, a.len() as int, '\n');
    assert(s.subrange(0, a.len() as int) =~= a);
    assert(s.subrange(a.len() as int + 1, s.len() as int) =~= b);
}

/// Text that is whole lines splits where the next text begins.
pub proof fn lemma_lines_append(x: Seq<char>, y: Seq<char>)
    requires
        x.len() == 0 || x.last() == '\n',
    ensures
        spec_lines(x + y) == spec_lines(x) + spec_lines(y),
    decreases x.len(),
{
    if x.len() == 0 {
        assert(x + y =~= y);
        assert(spec_lines(x) =~= Seq::<Seq<char>>::empty());
        assert(spec_lines(x) + spec_lines(y) =~= spec_lines(y));
    } else {
        let s = x + y;
        lemma_until_char(x, 0, '\n');
        let k = until_char(x, 0, '\n');
        assert(k < x.len()) by {
            if k >= x.len() {
                assert(x[x.len() - 1] != '\n');
            }
        }
        lemma_until_char_at(s, 0, k, '\n');
        let rest = x.subrange(k + 1, x.len() as int);
        assert(s.subrange(0, k) =~= x.subrange(0, k));
        assert(s.subrange(k + 1, s.len() as int) =~= rest + y);
        lemma_lines_append(rest, y);
    }
}

/// A line whose ends are not blank is its own trim.
pub proof fn lemma_trim_solid(p: Seq<char>)
    requires
        p.len() > 0,
        !spec_is_whitespace(p[0]),
        !spec_is_whitespace(p.last()),
    ensures
        spec_trim(p) == p,
{
    assert(forward_over(p, 0, Class::Space) == 0);
    assert(p.subrange(0, p.len() as int) =~= p);
    assert(spec_trim_start(p) == p);
    assert(back_over(p, p.len() as int, Class::Space) == p.len());
}

/// Trimming twice is trimming once.
pub proof fn lemma_trim_twice(s: Seq<char>)
    ensures
        spec_trim(spec_trim(s)) == spec_trim(s),
{
    let f = forward_over(s, 0, Class::Space);
    lemma_forward_over_bounds(s, 0, Class::Space);
    let u = s.subrange(f, s.len() as int);
    lemma_back_over_bounds(u, u.len() as int, Class::Space);
    let b = back_over(u, u.len() as int, Class::Space);
    let t = u.subrange(0, b);
    assert(spec_trim(s) == t);
    if t.len() == 0 {
        assert(forward_over(t, 0, Class::Space) == 0);
        assert(back_over(t.subrange(0, 0), 0, Class::Space) == 0);
        assert(spec_trim(t) =~= t);
    } else {
        assert(t[0] == s[f]);
        assert(t.last() == u[b - 1]);
        lemma_trim_solid(t);
    }
}

/// Trimming a line that starts with something other than a blank keeps that
/// first character first.
pub proof fn lemma_trim_keeps_head(p: Seq<char>)
    requires
        p.len() > 0,
        !spec_is_whitespace(p[0]),
    ensures
        spec_trim(p).len() > 0,
        spec_trim(p)[0] == p[0],
{
    assert(forward_over(p, 0, Class::Space) == 0);
    assert(p.subrange(0, p.len() as int) =~= p);
    lemma_back_over_bounds(p, p.len() as int, Class::Space);
    let b = back_over(p, p.len() as int, Class::Space);
    if b == 0 {
        assert(class_of(p[0]) == Class::Space);
    }
}


/// `n` in decimal, as `{}` writes it, for the widest unsigned numbers.
pub fn decimal_wide(n: u128) -> (v: Vec<char>)
    ensures
        v@ == spec_decimal(n as nat),
    decreases n,
{
    let d = n % 10;
    let b: u8 = 48u8 + d as u8;
    let c: char = b as char;
    if n < 10 {
        let mut v: Vec<char> = Vec::new();
        v.push(c);
        assert(v@ =~= seq![c]);
        v
    } else {
        let mut v = decimal_wide(n / 10);
        v.push(c);
        v
    }
}

} // verus!
