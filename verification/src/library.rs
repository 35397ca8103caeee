//! The library: tracks, their sort orders, the folder list and the m3u text a
//! playlist is stored as. Reading tags and walking the tree is the program's
//! part; what it finds is handed in here as plain values.

use vstd::prelude::*;

use crate::paths::{
    path_under, spec_strip_prefix, strip_prefix, spec_file_name, file_name,
};
use crate::text::{
    no_newline, drop_cr, lemma_lines_cons, lemma_lines_append, lemma_trim_solid,
    lemma_trim_keeps_head, spec_is_whitespace,
    lines, spec_lines, spec_trim, trim, ends_with, starts_with,
    chars_of, find_char, push_chars, push_str, same_chars, same_str, slice_of, string_of,
    until_char, lemma_until_char, decimal, spec_decimal, zero_pad, spec_zero_pad, spec_parse_u64,
};

verus! {

/// The orders the track list can be sorted in.
#[derive(Clone, Copy, PartialEq, Eq, Structural, Debug)]
pub enum SortKey {
    /// Directory order, which for a tagged library already is album order.
    Path,
    Title,
    Artist,
    Album,
    Duration,
}

impl Default for SortKey {
    fn default() -> (k: SortKey)
        ensures
            k == SortKey::Path,
    {
        SortKey::Path
    }
}

/// The key a `:sort` argument names, with its short forms.
pub open spec fn spec_sort_key(s: Seq<char>) -> Option<SortKey> {
    if s == "path"@ || s == "p"@ || s == "file"@ {
        Some(SortKey::Path)
    } else if s == "title"@ || s == "t"@ {
        Some(SortKey::Title)
    } else if s == "artist"@ || s == "a"@ {
        Some(SortKey::Artist)
    } else if s == "album"@ || s == "al"@ {
        Some(SortKey::Album)
    } else if s == "duration"@ || s == "d"@ || s == "len"@ {
        Some(SortKey::Duration)
    } else {
        None
    }
}

pub open spec fn spec_sort_name(k: SortKey) -> Seq<char> {
    match k {
        SortKey::Path => "path"@,
        SortKey::Title => "title"@,
        SortKey::Artist => "artist"@,
        SortKey::Album => "album"@,
        SortKey::Duration => "duration"@,
    }
}

impl SortKey {
    pub fn parse(s: &str) -> (k: Option<SortKey>)
        ensures
            k == spec_sort_key(s@),
    {
        if same_str(s, "path") || same_str(s, "p") || same_str(s, "file") {
            Some(SortKey::Path)
        } else if same_str(s, "title") || same_str(s, "t") {
            Some(SortKey::Title)
        } else if same_str(s, "artist") || same_str(s, "a") {
            Some(SortKey::Artist)
        } else if same_str(s, "album") || same_str(s, "al") {
            Some(SortKey::Album)
        } else if same_str(s, "duration") || same_str(s, "d") || same_str(s, "len") {
            Some(SortKey::Duration)
        } else {
            None
        }
    }

    pub fn name(self) -> (s: &'static str)
        ensures
            s@ == spec_sort_name(self),
    {
        match self {
            SortKey::Path => "path",
            SortKey::Title => "title",
            SortKey::Artist => "artist",
            SortKey::Album => "album",
            SortKey::Duration => "duration",
        }
    }
}

/// A key's own name reads back as that key, so what `:sort` reports can be
/// typed again.
pub proof fn law_sort_name_parses_back(k: SortKey)
    ensures
        spec_sort_key(spec_sort_name(k)) == Some(k),
{
    reveal_strlit("path");
    reveal_strlit("p");
    reveal_strlit("file");
    reveal_strlit("title");
    reveal_strlit("t");
    reveal_strlit("artist");
    reveal_strlit("a");
    reveal_strlit("album");
    reveal_strlit("al");
    reveal_strlit("duration");
    reveal_strlit("d");
    reveal_strlit("len");
    match k {
        SortKey::Path => {},
        SortKey::Title => {
            assert("title"@ != "path"@ && "title"@ != "p"@ && "title"@ != "file"@) by {
                assert("title"@[0] != "path"@[0]);
                assert("title"@[0] != "file"@[0]);
            }
        },
        SortKey::Artist => {
            assert("artist"@ != "path"@ && "artist"@ != "p"@ && "artist"@ != "file"@) by {
                assert("artist"@[0] != "path"@[0]);
                assert("artist"@[0] != "p"@[0]);
                assert("artist"@[0] != "file"@[0]);
            }
            assert("artist"@ != "title"@ && "artist"@ != "t"@) by {
                assert("artist"@[0] != "title"@[0]);
                assert("artist"@[0] != "t"@[0]);
            }
        },
        SortKey::Album => {
            assert("album"@ != "path"@ && "album"@ != "p"@ && "album"@ != "file"@) by {
                assert("album"@[0] != "path"@[0]);
                assert("album"@[0] != "file"@[0]);
            }
            assert("album"@ != "title"@ && "album"@ != "t"@) by {
                assert("album"@[0] != "title"@[0]);
            }
            assert("album"@ != "artist"@ && "album"@ != "a"@) by {
                assert("album"@[1] != "artist"@[1]);
                assert("album"@.len() != "a"@.len());
            }
        },
        SortKey::Duration => {
            assert("duration"@ != "path"@ && "duration"@ != "p"@ && "duration"@ != "file"@) by {
                assert("duration"@[0] != "path"@[0]);
                assert("duration"@[0] != "p"@[0]);
                assert("duration"@[0] != "file"@[0]);
            }
            assert("duration"@ != "title"@ && "duration"@ != "t"@) by {
                assert("duration"@[0] != "title"@[0]);
                assert("duration"@[0] != "t"@[0]);
            }
            assert("duration"@ != "artist"@ && "duration"@ != "a"@) by {
                assert("duration"@[0] != "artist"@[0]);
                assert("duration"@[0] != "a"@[0]);
            }
            assert("duration"@ != "album"@ && "duration"@ != "al"@) by {
                assert("duration"@[0] != "album"@[0]);
                assert("duration"@[0] != "al"@[0]);
            }
        },
    }
}

// ---- tracks ---------------------------------------------------------------

/// One audio file and what its tags say. A file with no tags has its
/// filename for a title and nothing else.
#[derive(Debug)]
pub struct Track {
    pub path: String,
    /// False for a track a playlist named from outside the library.
    pub in_library: bool,
    /// Filename without its extension. This is what the track list shows.
    pub file: String,
    pub title: String,
    pub artist: String,
    pub album: String,
    pub album_artist: String,
    pub track_no: Option<u32>,
    pub disc_no: Option<u32>,
    pub year: Option<u32>,
    pub genre: String,
    /// Running time in milliseconds. The tag reader measures every running
    /// time in whole milliseconds and an m3u gives whole seconds, so ordering
    /// by this number is ordering by the running time itself.
    pub duration_ms: u64,
}

impl Clone for Track {
    fn clone(&self) -> (t: Track)
        ensures
            t == *self,
    {
        Track {
            path: self.path.clone(),
            in_library: self.in_library,
            file: self.file.clone(),
            title: self.title.clone(),
            artist: self.artist.clone(),
            album: self.album.clone(),
            album_artist: self.album_artist.clone(),
            track_no: self.track_no,
            disc_no: self.disc_no,
            year: self.year,
            genre: self.genre.clone(),
            duration_ms: self.duration_ms,
        }
    }
}

/// The directory holding a path, as `Path::parent` gives it: nothing for the
/// root or an empty path.
pub uninterp spec fn spec_parent(p: Seq<char>) -> Option<Seq<char>>;

/// Calls `std::path::Path::parent`. Claimed: the answer is `spec_parent` of
/// the path, a function of the path alone.
#[verifier::external_body]
pub(crate) fn parent(p: &[char]) -> (r: Option<Vec<char>>)
    ensures
        match spec_parent(p@) {
            None => r is None,
            Some(d) => r matches Some(x) && x@ == d,
        },
{
    let p: String = p.iter().collect();
    match std::path::Path::new(&p).parent() {
        Some(d) => Some(d.to_string_lossy().chars().collect()),
        None => None,
    }
}

impl Track {
    /// Directory holding the file, which for a picarded library is the album.
    pub fn dir(&self) -> (d: String)
        ensures
            d@ == match spec_parent(self.path@) {
                Some(x) => x,
                None => Seq::<char>::empty(),
            },
    {
        let p = chars_of(self.path.as_str());
        match parent(p.as_slice()) {
            Some(d) => string_of(d.as_slice()),
            None => string_of(Vec::<char>::new().as_slice()),
        }
    }

    /// Haystack for `/` searches: the columns of the row, and nothing else.
    /// The directory is left out, or every track under `~/Music/TESTING`
    /// would match `/testing`.
    pub fn haystack(&self) -> (h: String)
        ensures
            h@ == self.file@ + " "@ + self.title@ + " "@ + self.artist@ + " "@ + self.album@ + " "@
                + self.album_artist@,
    {
        let mut v: Vec<char> = Vec::new();
        push_str(&mut v, self.file.as_str());
        push_str(&mut v, " ");
        push_str(&mut v, self.title.as_str());
        push_str(&mut v, " ");
        push_str(&mut v, self.artist.as_str());
        push_str(&mut v, " ");
        push_str(&mut v, self.album.as_str());
        push_str(&mut v, " ");
        push_str(&mut v, self.album_artist.as_str());
        string_of(v.as_slice())
    }
}

/// The last `.` in `s`, at or before `i`, or `-1`.
pub open spec fn last_dot(s: Seq<char>, i: int) -> int
    decreases i,
{
    if i <= 0 {
        -1
    } else if s[i - 1] == '.' {
        i - 1
    } else {
        last_dot(s, i - 1)
    }
}

/// The extension, as `Path::extension` gives it: what follows the last `.`
/// of the file name, unless that dot is the name's first character.
pub open spec fn spec_extension(p: Seq<char>) -> Option<Seq<char>> {
    match spec_file_name(p) {
        Some(name) => {
            let d = last_dot(name, name.len() as int);
            if d > 0 {
                Some(name.subrange(d + 1, name.len() as int))
            } else {
                None
            }
        },
        None => None,
    }
}

pub fn extension(p: &[char]) -> (r: Option<Vec<char>>)
    ensures
        match spec_extension(p@) {
            None => r is None,
            Some(e) => r matches Some(x) && x@ == e,
        },
{
    match file_name(p) {
        Some(name) => {
            let mut i: usize = name.len();
            while i > 0 && name[i - 1] != '.'
                invariant
                    i <= name@.len(),
                    last_dot(name@, i as int) == last_dot(name@, name@.len() as int),
                decreases i,
            {
                i = i - 1;
            }
            if i > 1 {
                Some(slice_of(name.as_slice(), i, name.len()))
            } else {
                None
            }
        },
        None => None,
    }
}

/// ASCII letters made lower case, everything else left alone, as
/// `to_ascii_lowercase` does.
pub open spec fn ascii_lower(s: Seq<char>) -> Seq<char> {
    Seq::new(
        s.len(),
        |i: int|
            if 'A' <= s[i] <= 'Z' {
                ((s[i] as u32) + 32) as char
            } else {
                s[i]
            },
    )
}

pub fn to_ascii_lower(s: &[char]) -> (r: Vec<char>)
    ensures
        r@ == ascii_lower(s@),
{
    let mut r: Vec<char> = Vec::new();
    let mut i: usize = 0;
    while i < s.len()
        invariant
            i <= s@.len(),
            r@ =~= ascii_lower(s@).subrange(0, i as int),
        decreases s@.len() - i,
    {
        let c = s[i];
        if 'A' <= c && c <= 'Z' {
            let u: u32 = (c as u32) + 32;
            let l: u8 = u as u8;
            r.push(l as char);
        } else {
            r.push(c);
        }
        i = i + 1;
    }
    r
}

/// Extensions handed to the decoder. Anything else in the tree is ignored.
pub open spec fn is_audio_ext(e: Seq<char>) -> bool {
    e == "mp3"@ || e == "flac"@ || e == "ogg"@ || e == "opus"@ || e == "m4a"@ || e == "aac"@ || e
        == "wav"@ || e == "wv"@
}

pub open spec fn spec_is_playlist(p: Seq<char>) -> bool {
    match spec_extension(p) {
        Some(e) => ascii_lower(e) == "m3u"@ || ascii_lower(e) == "m3u8"@,
        None => false,
    }
}

pub open spec fn spec_is_audio(p: Seq<char>) -> bool {
    match spec_extension(p) {
        Some(e) => is_audio_ext(ascii_lower(e)),
        None => false,
    }
}

fn is_lit(v: &Vec<char>, lit: &str) -> (b: bool)
    ensures
        b == (v@ == lit@),
{
    let l = chars_of(lit);
    same_chars(v.as_slice(), l.as_slice())
}

/// An m3u, whatever case its extension is in.
pub fn is_playlist(path: &str) -> (b: bool)
    ensures
        b == spec_is_playlist(path@),
{
    let p = chars_of(path);
    match extension(p.as_slice()) {
        Some(e) => {
            let l = to_ascii_lower(e.as_slice());
            is_lit(&l, "m3u") || is_lit(&l, "m3u8")
        },
        None => false,
    }
}

/// A file with one of the audio extensions, whatever case it is in.
pub fn is_audio(path: &str) -> (b: bool)
    ensures
        b == spec_is_audio(path@),
{
    let p = chars_of(path);
    match extension(p.as_slice()) {
        Some(e) => {
            let l = to_ascii_lower(e.as_slice());
            is_lit(&l, "mp3") || is_lit(&l, "flac") || is_lit(&l, "ogg") || is_lit(&l, "opus")
                || is_lit(&l, "m4a") || is_lit(&l, "aac") || is_lit(&l, "wav") || is_lit(&l, "wv")
        },
        None => false,
    }
}

// ---- durations ------------------------------------------------------------

/// `4:03`, or `1:02:03` once a track runs past the hour.
pub open spec fn spec_fmt_duration(secs: u64) -> Seq<char> {
    let h = secs / 3600;
    let m = (secs % 3600) / 60;
    let s = secs % 60;
    if h > 0 {
        spec_decimal(h as nat) + ":"@ + spec_zero_pad(spec_decimal(m as nat), 2) + ":"@
            + spec_zero_pad(spec_decimal(s as nat), 2)
    } else {
        spec_decimal(m as nat) + ":"@ + spec_zero_pad(spec_decimal(s as nat), 2)
    }
}

/// A running time in whole seconds, as the track list shows it.
pub fn fmt_duration(secs: u64) -> (t: String)
    ensures
        t@ == spec_fmt_duration(secs),
{
    let h = secs / 3600;
    let m = (secs % 3600) / 60;
    let s = secs % 60;
    let mut v: Vec<char> = Vec::new();
    if h > 0 {
        let mut hh = decimal(h);
        v.append(&mut hh);
        push_str(&mut v, ":");
        let mut mm = zero_pad(decimal(m), 2);
        v.append(&mut mm);
    } else {
        let mut mm = decimal(m);
        v.append(&mut mm);
    }
    push_str(&mut v, ":");
    let mut ss = zero_pad(decimal(s), 2);
    v.append(&mut ss);
    string_of(v.as_slice())
}

// ---- sorting --------------------------------------------------------------

/// What `str::to_lowercase` makes of a string. Unicode's case tables decide
/// it, and they are not restated here.
pub uninterp spec fn spec_lower(s: Seq<char>) -> Seq<char>;

/// An ASCII character in lower case: `A` to `Z` become `a` to `z`.
pub open spec fn ascii_lower_char(c: char) -> char {
    if 'A' <= c && c <= 'Z' {
        ((c as u32) + 32) as char
    } else {
        c
    }
}

/// `str::to_lowercase` from std. Its contract claims that the result is a
/// function of the string handed in, named `spec_lower`, and that a string
/// of ASCII characters is lowered one character at a time, `A` to `Z` to
/// `a` to `z`, as Unicode's lower case mapping has it.
#[verifier::external_body]
pub(crate) fn lower(s: &str) -> (r: String)
    ensures
        r@ == spec_lower(s@),
        (forall|i: int| 0 <= i < s@.len() ==> (#[trigger] s@[i] as u32) < 128) ==> r@ == ascii_lower(s@),
{
    s.to_lowercase()
}

/// Whether `a` sorts before `b` as `Path`s do, component by component.
pub uninterp spec fn spec_path_lt(a: Seq<char>, b: Seq<char>) -> bool;

/// `<` on `std::path::Path`, which compares paths component by component.
/// Its contract claims only that the answer is a function of the two paths,
/// named `spec_path_lt`.
#[verifier::external_body]
pub(crate) fn path_lt(a: &str, b: &str) -> (r: bool)
    ensures
        r == spec_path_lt(a@, b@),
{
    std::path::Path::new(a) < std::path::Path::new(b)
}

/// `a` before `b` character by character, a prefix first: the order of
/// `String`s, since UTF-8 keeps the order of the characters it encodes.
pub open spec fn text_lt(a: Seq<char>, b: Seq<char>) -> bool
    decreases a.len(),
{
    if b.len() == 0 {
        false
    } else if a.len() == 0 {
        true
    } else if a[0] != b[0] {
        a[0] < b[0]
    } else {
        text_lt(a.drop_first(), b.drop_first())
    }
}

pub fn text_less(a: &[char], b: &[char]) -> (r: bool)
    ensures
        r == text_lt(a@, b@),
{
    let mut i: usize = 0;
    assert(a@.subrange(0, a@.len() as int) =~= a@);
    assert(b@.subrange(0, b@.len() as int) =~= b@);
    while i < a.len() && i < b.len() && a[i] == b[i]
        invariant
            i <= a@.len(),
            i <= b@.len(),
            text_lt(a@, b@) == text_lt(a@.subrange(i as int, a@.len() as int), b@.subrange(i as int, b@.len() as int)),
        decreases a@.len() - i,
    {
        let ghost x = a@.subrange(i as int, a@.len() as int);
        let ghost y = b@.subrange(i as int, b@.len() as int);
        assert(x.drop_first() =~= a@.subrange(i + 1, a@.len() as int));
        assert(y.drop_first() =~= b@.subrange(i + 1, b@.len() as int));
        i = i + 1;
    }
    if i == b.len() {
        false
    } else if i == a.len() {
        true
    } else {
        a[i] < b[i]
    }
}

/// `None` before any number, numbers in order: the order of `Option<u32>`.
pub open spec fn opt_lt(a: Option<u32>, b: Option<u32>) -> bool {
    match (a, b) {
        (None, Some(_)) => true,
        (Some(x), Some(y)) => x < y,
        _ => false,
    }
}

/// Whether `x` goes before `y` in the order `k` names.
pub open spec fn track_less(k: SortKey, x: &Track, y: &Track) -> bool {
    match k {
        SortKey::Path => spec_path_lt(x.path@, y.path@),
        SortKey::Title => {
            let (a, b) = (spec_lower(x.title@), spec_lower(y.title@));
            text_lt(a, b) || (a == b && spec_path_lt(x.path@, y.path@))
        },
        SortKey::Artist => {
            let (a, b) = (spec_lower(x.artist@), spec_lower(y.artist@));
            let (c, d) = (spec_lower(x.album@), spec_lower(y.album@));
            text_lt(a, b) || (a == b && (text_lt(c, d) || (c == d && (opt_lt(x.disc_no, y.disc_no)
                || (x.disc_no == y.disc_no && opt_lt(x.track_no, y.track_no))))))
        },
        SortKey::Album => {
            let (a, b) = (spec_lower(x.album_artist@), spec_lower(y.album_artist@));
            let (c, d) = (spec_lower(x.album@), spec_lower(y.album@));
            text_lt(a, b) || (a == b && (text_lt(c, d) || (c == d && (opt_lt(x.disc_no, y.disc_no)
                || (x.disc_no == y.disc_no && opt_lt(x.track_no, y.track_no))))))
        },
        SortKey::Duration => x.duration_ms < y.duration_ms || (x.duration_ms == y.duration_ms
            && spec_path_lt(x.path@, y.path@)),
    }
}

fn lower_chars(s: &String) -> (v: Vec<char>)
    ensures
        v@ == spec_lower(s@),
{
    let l = lower(s.as_str());
    chars_of(l.as_str())
}

fn opt_less(a: Option<u32>, b: Option<u32>) -> (r: bool)
    ensures
        r == opt_lt(a, b),
{
    match (a, b) {
        (None, Some(_)) => true,
        (Some(x), Some(y)) => x < y,
        _ => false,
    }
}

fn lex4(a: &Vec<char>, b: &Vec<char>, c: &Vec<char>, d: &Vec<char>, x: &Track, y: &Track) -> (r: bool)
    ensures
        r == (text_lt(a@, b@) || (a@ == b@ && (text_lt(c@, d@) || (c@ == d@ && (opt_lt(
            x.disc_no,
            y.disc_no,
        ) || (x.disc_no == y.disc_no && opt_lt(x.track_no, y.track_no))))))),
{
    if text_less(a.as_slice(), b.as_slice()) {
        return true;
    }
    if !same_chars(a.as_slice(), b.as_slice()) {
        return false;
    }
    if text_less(c.as_slice(), d.as_slice()) {
        return true;
    }
    if !same_chars(c.as_slice(), d.as_slice()) {
        return false;
    }
    if opt_less(x.disc_no, y.disc_no) {
        return true;
    }
    x.disc_no == y.disc_no && opt_less(x.track_no, y.track_no)
}

pub fn less(k: SortKey, x: &Track, y: &Track) -> (r: bool)
    ensures
        r == track_less(k, x, y),
{
    match k {
        SortKey::Path => path_lt(x.path.as_str(), y.path.as_str()),
        SortKey::Title => {
            let a = lower_chars(&x.title);
            let b = lower_chars(&y.title);
            text_less(a.as_slice(), b.as_slice()) || (same_chars(a.as_slice(), b.as_slice())
                && path_lt(x.path.as_str(), y.path.as_str()))
        },
        SortKey::Artist => {
            let a = lower_chars(&x.artist);
            let b = lower_chars(&y.artist);
            let c = lower_chars(&x.album);
            let d = lower_chars(&y.album);
            lex4(&a, &b, &c, &d, x, y)
        },
        SortKey::Album => {
            let a = lower_chars(&x.album_artist);
            let b = lower_chars(&y.album_artist);
            let c = lower_chars(&x.album);
            let d = lower_chars(&y.album);
            lex4(&a, &b, &c, &d, x, y)
        },
        SortKey::Duration => x.duration_ms < y.duration_ms || (x.duration_ms == y.duration_ms
            && path_lt(x.path.as_str(), y.path.as_str())),
    }
}

/// Where `x` goes among `sorted`: after everything it does not go before.
pub open spec fn insert_pos(k: SortKey, sorted: Seq<Track>, x: Track, i: int) -> int
    decreases sorted.len() - i,
{
    if 0 <= i < sorted.len() && !track_less(k, &x, &sorted[i]) {
        insert_pos(k, sorted, x, i + 1)
    } else {
        i
    }
}

/// The tracks in the order `k` names, tracks that tie keeping the order they
/// had: a stable sort, one track at a time.
pub open spec fn spec_sorted(k: SortKey, s: Seq<Track>) -> Seq<Track>
    decreases s.len(),
{
    if s.len() == 0 {
        seq![]
    } else {
        let t = spec_sorted(k, s.drop_last());
        let p = insert_pos(k, t, s.last(), 0);
        t.subrange(0, p).push(s.last()) + t.subrange(p, t.len() as int)
    }
}

pub proof fn lemma_insert_pos(k: SortKey, sorted: Seq<Track>, x: Track, i: int)
    requires
        0 <= i <= sorted.len(),
    ensures
        i <= insert_pos(k, sorted, x, i) <= sorted.len(),
    decreases sorted.len() - i,
{
    if i < sorted.len() && !track_less(k, &x, &sorted[i]) {
        lemma_insert_pos(k, sorted, x, i + 1);
    }
}

/// Sorts the tracks in the order `k` names; tracks that tie keep their order.
pub fn sort(tracks: &mut Vec<Track>, k: SortKey)
    ensures
        final(tracks)@ == spec_sorted(k, old(tracks)@),
{
    let mut src: Vec<Track> = Vec::new();
    std::mem::swap(&mut src, tracks);
    let ghost all = src@;
    let n = src.len();
    let mut i: usize = 0;
    assert(all.subrange(0, 0) =~= Seq::<Track>::empty());
    while src.len() > 0
        invariant
            n == all.len(),
            i + src@.len() == n,
            src@ == all.subrange(i as int, n as int),
            tracks@ == spec_sorted(k, all.subrange(0, i as int)),
        decreases src@.len(),
    {
        let x = src.remove(0);
        assert(x == all[i as int]);
        let ghost sorted = tracks@;
        let mut p: usize = 0;
        while p < tracks.len() && !less(k, &x, &tracks[p])
            invariant
                p <= tracks@.len(),
                sorted == tracks@,
                insert_pos(k, sorted, x, p as int) == insert_pos(k, sorted, x, 0),
            decreases tracks@.len() - p,
        {
            p = p + 1;
        }
        tracks.insert(p, x);
        proof {
            let s1 = all.subrange(0, i + 1);
            assert(s1.drop_last() =~= all.subrange(0, i as int));
            assert(s1.last() == x);
            assert(tracks@ =~= sorted.subrange(0, p as int).push(x) + sorted.subrange(
                p as int,
                sorted.len() as int,
            ));
        }
        i = i + 1;
        assert(src@ =~= all.subrange(i as int, n as int));
    }
    assert(all.subrange(0, i as int) =~= all);
}

/// A sort moves tracks and never loses, adds or changes one: whatever the
/// order, the tracks after it are the tracks before it.
pub proof fn law_sort_keeps_every_track(k: SortKey, s: Seq<Track>)
    ensures
        spec_sorted(k, s).to_multiset() == s.to_multiset(),
    decreases s.len(),
{
    broadcast use vstd::multiset::group_multiset_axioms;
    broadcast use vstd::seq_lib::group_to_multiset_ensures;
    if s.len() > 0 {
        let t = spec_sorted(k, s.drop_last());
        law_sort_keeps_every_track(k, s.drop_last());
        let p = insert_pos(k, t, s.last(), 0);
        lemma_insert_pos(k, t, s.last(), 0);
        let a = t.subrange(0, p);
        let b = t.subrange(p, t.len() as int);
        assert(t =~= a + b);
        vstd::seq_lib::lemma_multiset_commutative(a, b);
        vstd::seq_lib::lemma_multiset_commutative(a.push(s.last()), b);
        assert(s =~= s.drop_last().push(s.last()));
    }
}

proof fn lemma_text_lt_irreflexive(a: Seq<char>)
    ensures
        !text_lt(a, a),
    decreases a.len(),
{
    if a.len() > 0 {
        lemma_text_lt_irreflexive(a.drop_first());
    }
}

proof fn lemma_text_lt_transitive(a: Seq<char>, b: Seq<char>, c: Seq<char>)
    requires
        text_lt(a, b),
        text_lt(b, c),
    ensures
        text_lt(a, c),
    decreases a.len(),
{
    if a.len() > 0 && b.len() > 0 && c.len() > 0 && a[0] == b[0] && b[0] == c[0] {
        lemma_text_lt_transitive(a.drop_first(), b.drop_first(), c.drop_first());
    }
}

proof fn lemma_artist_less_irreflexive(x: Track)
    ensures
        !track_less(SortKey::Artist, &x, &x),
{
    lemma_text_lt_irreflexive(spec_lower(x.artist@));
    lemma_text_lt_irreflexive(spec_lower(x.album@));
}

proof fn lemma_artist_less_transitive(x: Track, y: Track, z: Track)
    requires
        track_less(SortKey::Artist, &x, &y),
        track_less(SortKey::Artist, &y, &z),
    ensures
        track_less(SortKey::Artist, &x, &z),
{
    let (a, b, c) = (spec_lower(x.artist@), spec_lower(y.artist@), spec_lower(z.artist@));
    let (d, e, f) = (spec_lower(x.album@), spec_lower(y.album@), spec_lower(z.album@));
    if text_lt(a, b) && text_lt(b, c) {
        lemma_text_lt_transitive(a, b, c);
    }
    if text_lt(d, e) && text_lt(e, f) {
        lemma_text_lt_transitive(d, e, f);
    }
}

proof fn lemma_insert_pos_facts(k: SortKey, sorted: Seq<Track>, x: Track, i: int)
    requires
        0 <= i <= sorted.len(),
    ensures
        forall|j: int| i <= j < insert_pos(k, sorted, x, i) ==> !track_less(k, &x, &sorted[j]),
        insert_pos(k, sorted, x, i) < sorted.len() ==> track_less(k, &x, &sorted[insert_pos(k, sorted, x, i)]),
    decreases sorted.len() - i,
{
    if i < sorted.len() && !track_less(k, &x, &sorted[i]) {
        lemma_insert_pos_facts(k, sorted, x, i + 1);
    }
}

/// No track of the list sorts before one that comes earlier in it.
pub open spec fn in_artist_order(s: Seq<Track>) -> bool {
    forall|i: int, j: int| 0 <= i < j < s.len() ==> !track_less(SortKey::Artist, &s[j], &s[i])
}

proof fn lemma_sorted_by_artist(s: Seq<Track>)
    ensures
        in_artist_order(spec_sorted(SortKey::Artist, s)),
        spec_sorted(SortKey::Artist, s).len() == s.len(),
    decreases s.len(),
{
    if s.len() > 0 {
        let k = SortKey::Artist;
        let t = spec_sorted(k, s.drop_last());
        lemma_sorted_by_artist(s.drop_last());
        let x = s.last();
        let p = insert_pos(k, t, x, 0);
        lemma_insert_pos(k, t, x, 0);
        lemma_insert_pos_facts(k, t, x, 0);
        let r = t.subrange(0, p).push(x) + t.subrange(p, t.len() as int);
        assert(r.len() == t.len() + 1);
        assert forall|i: int, j: int| 0 <= i < j < r.len() implies !track_less(k, &r[j], &r[i]) by {
            if j < p {
                assert(r[i] == t[i] && r[j] == t[j]);
            } else if j == p {
                assert(r[j] == x && r[i] == t[i]);
            } else if i > p {
                assert(r[i] == t[i - 1] && r[j] == t[j - 1]);
            } else if i == p {
                assert(r[i] == x && r[j] == t[j - 1]);
                if track_less(k, &t[j - 1], &x) {
                    lemma_artist_less_transitive(t[j - 1], x, t[p]);
                    if j - 1 == p {
                        lemma_artist_less_irreflexive(t[p]);
                    }
                }
            } else {
                assert(r[i] == t[i] && r[j] == t[j - 1]);
            }
        }
        assert(spec_sorted(k, s) == r);
    }
}

/// By artist, the artist comes first: a track whose artist sorts before
/// another's (case aside) goes before it, and never after it, whatever
/// their albums, discs or track numbers; only between tracks of one artist
/// does the album decide.
pub proof fn law_artist_order_goes_by_artist_first(x: Track, y: Track)
    ensures
        text_lt(spec_lower(x.artist@), spec_lower(y.artist@)) ==> track_less(SortKey::Artist, &x, &y),
        text_lt(spec_lower(x.artist@), spec_lower(y.artist@)) ==> !track_less(SortKey::Artist, &y, &x),
        spec_lower(x.artist@) == spec_lower(y.artist@) && text_lt(spec_lower(x.album@), spec_lower(y.album@))
            ==> track_less(SortKey::Artist, &x, &y) && !track_less(SortKey::Artist, &y, &x),
{
    let (c, d) = (spec_lower(x.album@), spec_lower(y.album@));
    lemma_text_lt_irreflexive(spec_lower(x.artist@));
    if text_lt(c, d) && text_lt(d, c) {
        lemma_text_lt_transitive(c, d, c);
        lemma_text_lt_irreflexive(c);
    }
    if text_lt(c, d) {
        lemma_text_lt_irreflexive(c);
    }
    let (a, b) = (spec_lower(x.artist@), spec_lower(y.artist@));
    if text_lt(a, b) && text_lt(b, a) {
        lemma_text_lt_transitive(a, b, a);
        lemma_text_lt_irreflexive(a);
    }
    if text_lt(a, b) {
        lemma_text_lt_irreflexive(a);
    }
}

/// A library sorted by artist runs through the artists in order, case
/// aside: no track's artist sorts before the artist of a track above it.
pub proof fn law_sorted_by_artist_runs_through_the_artists(s: Seq<Track>)
    ensures
        forall|i: int, j: int|
            0 <= i < j < spec_sorted(SortKey::Artist, s).len() ==> !text_lt(
                spec_lower(spec_sorted(SortKey::Artist, s)[j].artist@),
                spec_lower(spec_sorted(SortKey::Artist, s)[i].artist@),
            ),
{
    lemma_sorted_by_artist(s);
    let r = spec_sorted(SortKey::Artist, s);
    assert forall|i: int, j: int| 0 <= i < j < r.len() implies !text_lt(
        spec_lower(r[j].artist@),
        spec_lower(r[i].artist@),
    ) by {
        assert(!track_less(SortKey::Artist, &r[j], &r[i]));
    }
}

// ---- the folder list ------------------------------------------------------

/// Where a directory goes in a sorted list with no directory twice: before
/// the first one it sorts before, or nowhere when one equal to it is there.
pub open spec fn dir_slot(sorted: Seq<Seq<char>>, d: Seq<char>, i: int) -> Option<int>
    decreases sorted.len() - i,
{
    if i < 0 || i >= sorted.len() {
        Some(i)
    } else if spec_path_lt(d, sorted[i]) {
        Some(i)
    } else if !spec_path_lt(sorted[i], d) {
        None
    } else {
        dir_slot(sorted, d, i + 1)
    }
}

/// The directories in path order, each once, as a `BTreeSet` keeps them.
pub open spec fn dir_set(ds: Seq<Seq<char>>) -> Seq<Seq<char>>
    decreases ds.len(),
{
    if ds.len() == 0 {
        seq![]
    } else {
        let t = dir_set(ds.drop_last());
        match dir_slot(t, ds.last(), 0) {
            Some(p) => if 0 <= p <= t.len() {
                t.subrange(0, p).push(ds.last()) + t.subrange(p, t.len() as int)
            } else {
                t
            },
            None => t,
        }
    }
}

pub proof fn lemma_dir_slot(sorted: Seq<Seq<char>>, d: Seq<char>, i: int)
    requires
        0 <= i <= sorted.len(),
    ensures
        dir_slot(sorted, d, i) matches Some(p) ==> i <= p <= sorted.len(),
    decreases sorted.len() - i,
{
    if i < sorted.len() && !spec_path_lt(d, sorted[i]) && spec_path_lt(sorted[i], d) {
        lemma_dir_slot(sorted, d, i + 1);
    }
}

/// The directory a track sits in, empty when it has none.
pub open spec fn dir_of(t: Track) -> Seq<char> {
    match spec_parent(t.path@) {
        Some(x) => x,
        None => Seq::<char>::empty(),
    }
}

/// The directories of the library's tracks, in track order.
pub open spec fn library_dirs(ts: Seq<Track>) -> Seq<Seq<char>>
    decreases ts.len(),
{
    if ts.len() == 0 {
        seq![]
    } else if ts.last().in_library {
        library_dirs(ts.drop_last()).push(dir_of(ts.last()))
    } else {
        library_dirs(ts.drop_last())
    }
}

/// The directories found on disk, without the root.
pub open spec fn below_root(ds: Seq<Seq<char>>, root: Seq<char>) -> Seq<Seq<char>>
    decreases ds.len(),
{
    if ds.len() == 0 {
        seq![]
    } else if ds.last() != root {
        below_root(ds.drop_last(), root).push(ds.last())
    } else {
        below_root(ds.drop_last(), root)
    }
}

/// The directories that hold library tracks, then the ones found on disk
/// other than the root, in that order.
pub open spec fn dir_candidates(tracks: Seq<Track>, root: Seq<char>, on_disk: Seq<Seq<char>>) -> Seq<Seq<char>> {
    library_dirs(tracks) + below_root(on_disk, root)
}

/// A folder as the left pane labels it: relative to the root, `.` for the
/// root itself, and only its own name when it lies outside.
pub open spec fn spec_label(d: Seq<char>, root: Seq<char>) -> Seq<char> {
    if path_under(d, root) {
        let rel = spec_strip_prefix(d, root);
        if rel.len() == 0 {
            "."@
        } else {
            rel
        }
    } else {
        match spec_file_name(d) {
            Some(n) => n,
            None => d,
        }
    }
}

fn label(d: &[char], root: &[char]) -> (l: Vec<char>)
    ensures
        l@ == spec_label(d@, root@),
{
    if let Some(rel) = strip_prefix(d, root) {
        if rel.len() == 0 {
            chars_of(".")
        } else {
            rel
        }
    } else {
        match file_name(d) {
            Some(n) => n,
            None => slice_of(d, 0, d.len()),
        }
    }
}

/// The directories of the folder list, in order.
pub open spec fn spec_folders(tracks: Seq<Track>, root: Seq<char>, on_disk: Seq<String>) -> Seq<Seq<char>> {
    dir_set(dir_candidates(tracks, root, Seq::new(on_disk.len(), |i: int| on_disk[i]@)))
}

/// The folders of the left pane: every directory with a library track in it
/// and every directory found under the root, in path order, each once, with
/// its label. A playlist's strays from outside the library add none.
pub fn folders(tracks: &[Track], root: &str, on_disk: &[String]) -> (r: Vec<(String, String)>)
    ensures
        r@.len() == spec_folders(tracks@, root@, on_disk@).len(),
        forall|i: int|
            0 <= i < r@.len() ==> #[trigger] r@[i].1@ == spec_folders(tracks@, root@, on_disk@)[i]
                && r@[i].0@ == spec_label(spec_folders(tracks@, root@, on_disk@)[i], root@),
{
    let ghost disk = Seq::new(on_disk@.len(), |i: int| on_disk@[i]@);
    let mut cands: Vec<Vec<char>> = Vec::new();
    let mut i: usize = 0;
    assert(tracks@.subrange(0, 0) =~= Seq::<Track>::empty());
    while i < tracks.len()
        invariant
            i <= tracks@.len(),
            Seq::new(cands@.len(), |j: int| cands@[j]@) =~= library_dirs(tracks@.subrange(0, i as int)),
        decreases tracks@.len() - i,
    {
        let ghost before = Seq::new(cands@.len(), |j: int| cands@[j]@);
        let ghost pre = tracks@.subrange(0, i as int);
        assert(tracks@.subrange(0, i + 1).drop_last() =~= pre);
        assert(tracks@.subrange(0, i + 1).last() == tracks@[i as int]);
        if tracks[i].in_library {
            let p = chars_of(tracks[i].path.as_str());
            let d = match parent(p.as_slice()) {
                Some(x) => x,
                None => Vec::new(),
            };
            cands.push(d);
            assert(Seq::new(cands@.len(), |j: int| cands@[j]@) =~= before.push(dir_of(tracks@[i as int])));
        }
        i = i + 1;
    }
    assert(tracks@.subrange(0, tracks@.len() as int) =~= tracks@);
    let root_chars = chars_of(root);
    let mut k: usize = 0;
    let ghost first = Seq::new(cands@.len(), |j: int| cands@[j]@);
    assert(disk.subrange(0, 0) =~= Seq::<Seq<char>>::empty());
    while k < on_disk.len()
        invariant
            k <= on_disk@.len(),
            disk == Seq::new(on_disk@.len(), |i: int| on_disk@[i]@),
            root_chars@ == root@,
            Seq::new(cands@.len(), |j: int| cands@[j]@) =~= first + below_root(disk.subrange(0, k as int), root@),
        decreases on_disk@.len() - k,
    {
        let ghost before = Seq::new(cands@.len(), |j: int| cands@[j]@);
        assert(disk.subrange(0, k + 1).drop_last() =~= disk.subrange(0, k as int));
        assert(disk.subrange(0, k + 1).last() == disk[k as int]);
        let d = chars_of(on_disk[k].as_str());
        if !same_chars(d.as_slice(), root_chars.as_slice()) {
            cands.push(d);
            assert(Seq::new(cands@.len(), |j: int| cands@[j]@) =~= before.push(disk[k as int]));
            assert(first + below_root(disk.subrange(0, k + 1), root@) =~= (first + below_root(disk.subrange(0, k as int), root@)).push(disk[k as int]));
        }
        k = k + 1;
    }
    assert(disk.subrange(0, disk.len() as int) =~= disk);
    let ghost all = Seq::new(cands@.len(), |j: int| cands@[j]@);
    assert(all =~= dir_candidates(tracks@, root@, disk));
    let mut set: Vec<Vec<char>> = Vec::new();
    let mut c: usize = 0;
    assert(all.subrange(0, 0) =~= Seq::<Seq<char>>::empty());
    while c < cands.len()
        invariant
            c <= cands@.len(),
            all == Seq::new(cands@.len(), |j: int| cands@[j]@),
            Seq::new(set@.len(), |j: int| set@[j]@) =~= dir_set(all.subrange(0, c as int)),
        decreases cands@.len() - c,
    {
        let ghost sorted = Seq::new(set@.len(), |j: int| set@[j]@);
        let ghost x = all[c as int];
        assert(all.subrange(0, c + 1).drop_last() =~= all.subrange(0, c as int));
        let ds = string_of(cands[c].as_slice());
        let mut p: usize = 0;
        let mut dup = false;
        while p < set.len()
            invariant_except_break
                !dup,
            invariant
                p <= set@.len(),
                sorted == Seq::new(set@.len(), |j: int| set@[j]@),
                ds@ == x,
                dir_slot(sorted, x, p as int) == dir_slot(sorted, x, 0),
            ensures
                dup ==> dir_slot(sorted, x, 0) is None,
                !dup ==> dir_slot(sorted, x, 0) == Some(p as int),
                p <= set@.len(),
            decreases set@.len() - p,
        {
            let es = string_of(set[p].as_slice());
            if path_lt(ds.as_str(), es.as_str()) {
                break;
            }
            if !path_lt(es.as_str(), ds.as_str()) {
                dup = true;
                break;
            }
            p = p + 1;
        }
        if !dup {
            let item = slice_of(cands[c].as_slice(), 0, cands[c].len());
            assert(item@ =~= x);
            set.insert(p, item);
            assert(Seq::new(set@.len(), |j: int| set@[j]@) =~= sorted.subrange(0, p as int).push(x) + sorted.subrange(p as int, sorted.len() as int));
        }
        c = c + 1;
    }
    assert(all.subrange(0, c as int) =~= all);
    let mut r: Vec<(String, String)> = Vec::new();
    let mut q: usize = 0;
    while q < set.len()
        invariant
            q <= set@.len(),
            root_chars@ == root@,
            r@.len() == q,
            forall|j: int| 0 <= j < q ==> r@[j].1@ == set@[j]@ && r@[j].0@ == spec_label(set@[j]@, root@),
        decreases set@.len() - q,
    {
        let l = label(set[q].as_slice(), root_chars.as_slice());
        r.push((string_of(l.as_slice()), string_of(set[q].as_slice())));
        q = q + 1;
    }
    r
}

// ---- m3u ------------------------------------------------------------------

/// One track as an extended m3u writes it: the running time in seconds and
/// `artist - title` on the `#EXTINF` line, then the path.
pub open spec fn m3u_entry(t: Track) -> Seq<char> {
    let who = if t.artist@.len() == 0 {
        Seq::<char>::empty()
    } else {
        t.artist@ + " - "@
    };
    "#EXTINF:"@ + spec_decimal((t.duration_ms / 1000) as nat) + ","@ + who + t.title@ + "\n"@
        + t.path@ + "\n"@
}

pub open spec fn m3u_body(ts: Seq<Track>) -> Seq<char>
    decreases ts.len(),
{
    if ts.len() == 0 {
        seq![]
    } else {
        m3u_body(ts.drop_last()) + m3u_entry(ts.last())
    }
}

/// An extended m3u of these tracks. Paths stay as they are, so the file
/// still resolves when it is opened from somewhere else.
pub open spec fn spec_m3u_text(ts: Seq<Track>) -> Seq<char> {
    "#EXTM3U\n"@ + m3u_body(ts)
}

/// The text of an extended m3u listing these tracks, in order.
pub fn m3u_text(tracks: &[Track]) -> (t: String)
    ensures
        t@ == spec_m3u_text(tracks@),
{
    let mut v: Vec<char> = Vec::new();
    push_str(&mut v, "#EXTM3U\n");
    let ghost head = v@;
    let mut i: usize = 0;
    assert(tracks@.subrange(0, 0) =~= Seq::<Track>::empty());
    while i < tracks.len()
        invariant
            i <= tracks@.len(),
            head == "#EXTM3U\n"@,
            v@ == head + m3u_body(tracks@.subrange(0, i as int)),
        decreases tracks@.len() - i,
    {
        let t = &tracks[i];
        let ghost before = v@;
        push_str(&mut v, "#EXTINF:");
        let mut secs = decimal(t.duration_ms / 1000);
        v.append(&mut secs);
        push_str(&mut v, ",");
        if !t.artist.as_str().is_empty() {
            push_str(&mut v, t.artist.as_str());
            push_str(&mut v, " - ");
        }
        push_str(&mut v, t.title.as_str());
        push_str(&mut v, "\n");
        push_str(&mut v, t.path.as_str());
        push_str(&mut v, "\n");
        proof {
            let s1 = tracks@.subrange(0, i + 1);
            assert(s1.drop_last() =~= tracks@.subrange(0, i as int));
            assert(s1.last() == *t);
            assert(v@ =~= before + m3u_entry(*t));
        }
        i = i + 1;
    }
    assert(tracks@.subrange(0, tracks@.len() as int) =~= tracks@);
    string_of(v.as_slice())
}

/// The lines of an m3u that name files: trimmed, neither empty nor a
/// directive or comment.
pub open spec fn m3u_keep(ls: Seq<Seq<char>>) -> Seq<Seq<char>>
    decreases ls.len(),
{
    if ls.len() == 0 {
        seq![]
    } else {
        let t = spec_trim(ls.last());
        if t.len() > 0 && t[0] != '#' {
            m3u_keep(ls.drop_last()).push(t)
        } else {
            m3u_keep(ls.drop_last())
        }
    }
}

/// The file paths out of an m3u's text, ignoring directives and comments.
pub fn m3u_paths(text: &str) -> (r: Vec<String>)
    ensures
        r@.len() == m3u_keep(spec_lines(text@)).len(),
        forall|i: int| 0 <= i < r@.len() ==> #[trigger] r@[i]@ == m3u_keep(spec_lines(text@))[i],
{
    let all = chars_of(text);
    let ls = lines(all.as_slice());
    let ghost lv = spec_lines(text@);
    let mut r: Vec<String> = Vec::new();
    let mut i: usize = 0;
    assert(lv.subrange(0, 0) =~= Seq::<Seq<char>>::empty());
    while i < ls.len()
        invariant
            i <= ls@.len(),
            ls@.len() == lv.len(),
            forall|j: int| 0 <= j < ls@.len() ==> #[trigger] ls@[j]@ == lv[j],
            Seq::new(r@.len(), |j: int| r@[j]@) =~= m3u_keep(lv.subrange(0, i as int)),
        decreases ls@.len() - i,
    {
        let ghost before = Seq::new(r@.len(), |j: int| r@[j]@);
        assert(lv.subrange(0, i + 1).drop_last() =~= lv.subrange(0, i as int));
        assert(lv.subrange(0, i + 1).last() == ls@[i as int]@);
        let t = trim(ls[i].as_slice());
        if t.len() > 0 && t[0] != '#' {
            let ghost tv = t@;
            r.push(string_of(t.as_slice()));
            assert(Seq::new(r@.len(), |j: int| r@[j]@) =~= before.push(tv));
        }
        i = i + 1;
    }
    assert(lv.subrange(0, lv.len() as int) =~= lv);
    r
}

pub proof fn lemma_keep_append(x: Seq<Seq<char>>, y: Seq<Seq<char>>)
    ensures
        m3u_keep(x + y) == m3u_keep(x) + m3u_keep(y),
    decreases y.len(),
{
    if y.len() == 0 {
        assert(x + y =~= x);
        assert(m3u_keep(x) + m3u_keep(y) =~= m3u_keep(x));
    } else {
        lemma_keep_append(x, y.drop_last());
        assert((x + y).drop_last() =~= x + y.drop_last());
        assert((x + y).last() == y.last());
    }
}

/// A path an m3u line can carry and give back: not empty, not a comment,
/// no blank at either end and no line break in it.
pub open spec fn m3u_safe_path(p: Seq<char>) -> bool {
    &&& p.len() > 0
    &&& p[0] != '#'
    &&& !spec_is_whitespace(p[0])
    &&& !spec_is_whitespace(p.last())
    &&& no_newline(p)
}

proof fn lemma_entry_lines(t: Track)
    requires
        m3u_safe_path(t.path@),
        no_newline(t.artist@),
        no_newline(t.title@),
    ensures
        m3u_keep(spec_lines(m3u_entry(t))) == seq![t.path@],
        m3u_entry(t).last() == '\n',
{
    reveal_strlit("#EXTINF:");
    reveal_strlit(",");
    reveal_strlit(" - ");
    reveal_strlit("\n");
    let who = if t.artist@.len() == 0 {
        Seq::<char>::empty()
    } else {
        t.artist@ + " - "@
    };
    let x = "#EXTINF:"@ + crate::text::spec_decimal((t.duration_ms / 1000) as nat) + ","@ + who
        + t.title@;
    let p = t.path@;
    assert(m3u_entry(t) =~= x + seq!['\n'] + (p + seq!['\n'] + Seq::<char>::empty()));
    lemma_decimal_no_newline((t.duration_ms / 1000) as nat);
    assert(no_newline(x)) by {
        assert forall|j: int| 0 <= j < x.len() implies x[j] != '\n' by {
            let d = crate::text::spec_decimal((t.duration_ms / 1000) as nat);
            if j < 8 {
            } else if j < 8 + d.len() {
                assert(x[j] == d[j - 8]);
            } else if j == 8 + d.len() {
            } else if j < 9 + d.len() + who.len() {
                assert(x[j] == who[j - 9 - d.len()]);
                if t.artist@.len() > 0 {
                    let w = j - 9 - d.len();
                    if w < t.artist@.len() {
                        assert(who[w] == t.artist@[w]);
                    }
                }
            } else {
                assert(x[j] == t.title@[j - 9 - d.len() - who.len()]);
            }
        }
    }
    lemma_lines_cons(x, p + seq!['\n'] + Seq::<char>::empty());
    lemma_lines_cons(p, Seq::<char>::empty());
    assert(spec_lines(Seq::<char>::empty()) =~= Seq::<Seq<char>>::empty());
    let ls = spec_lines(m3u_entry(t));
    assert(ls =~= seq![drop_cr(x), drop_cr(p)]);
    assert(drop_cr(p) == p);
    lemma_trim_solid(p);
    let xc = drop_cr(x);
    assert(xc.len() > 0 && xc[0] == '#');
    lemma_trim_keeps_head(xc);
    assert(ls.drop_last() =~= seq![xc]);
    assert(seq![xc].drop_last() =~= Seq::<Seq<char>>::empty());
    assert(m3u_keep(Seq::<Seq<char>>::empty()) =~= Seq::<Seq<char>>::empty());
    assert(seq![xc].last() == xc);
    assert(m3u_keep(seq![xc]) =~= Seq::<Seq<char>>::empty());
    assert(ls.last() == p);
    assert(m3u_keep(ls) =~= m3u_keep(seq![xc]).push(p));
    assert(m3u_keep(ls) =~= seq![p]);
}

proof fn lemma_decimal_no_newline(n: nat)
    ensures
        no_newline(crate::text::spec_decimal(n)),
    decreases n,
{
    if n >= 10 {
        lemma_decimal_no_newline(n / 10);
    }
}

/// A playlist that is written and read back gives the same paths, in the
/// same order, whatever the tags: as long as every path is one an m3u line
/// can carry and no artist or title breaks a line.
pub proof fn law_a_written_playlist_reads_back(ts: Seq<Track>)
    requires
        forall|i: int|
            0 <= i < ts.len() ==> m3u_safe_path(#[trigger] ts[i].path@) && no_newline(ts[i].artist@)
                && no_newline(ts[i].title@),
    ensures
        m3u_keep(spec_lines(spec_m3u_text(ts))) == Seq::new(ts.len(), |i: int| ts[i].path@),
    decreases ts.len(),
{
    reveal_strlit("#EXTM3U\n");
    let h = seq!['#', 'E', 'X', 'T', 'M', '3', 'U'];
    assert("#EXTM3U\n"@ =~= h + seq!['\n']);
    assert(spec_m3u_text(ts) =~= h + seq!['\n'] + m3u_body(ts));
    lemma_lines_cons(h, m3u_body(ts));
    lemma_trim_keeps_head(h);
    assert(drop_cr(h) == h);
    lemma_keep_append(seq![h], spec_lines(m3u_body(ts)));
    assert(seq![h].drop_last() =~= Seq::<Seq<char>>::empty());
    assert(m3u_keep(Seq::<Seq<char>>::empty()) =~= Seq::<Seq<char>>::empty());
    assert(seq![h].last() == h);
    assert(spec_trim(h)[0] == '#');
    assert(m3u_keep(seq![h]) =~= Seq::<Seq<char>>::empty());
    lemma_body_keep(ts);
    assert(Seq::<Seq<char>>::empty() + m3u_keep(spec_lines(m3u_body(ts))) =~= m3u_keep(spec_lines(m3u_body(ts))));
}

proof fn lemma_body_keep(ts: Seq<Track>)
    requires
        forall|i: int|
            0 <= i < ts.len() ==> m3u_safe_path(#[trigger] ts[i].path@) && no_newline(ts[i].artist@)
                && no_newline(ts[i].title@),
    ensures
        m3u_keep(spec_lines(m3u_body(ts))) == Seq::new(ts.len(), |i: int| ts[i].path@),
        m3u_body(ts).len() == 0 || m3u_body(ts).last() == '\n',
    decreases ts.len(),
{
    if ts.len() == 0 {
        assert(spec_lines(Seq::<char>::empty()) =~= Seq::<Seq<char>>::empty());
        assert(m3u_keep(spec_lines(m3u_body(ts))) =~= Seq::new(0, |i: int| ts[i].path@));
    } else {
        let front = ts.drop_last();
        let t = ts.last();
        assert(ts[ts.len() - 1] == t);
        lemma_body_keep(front);
        lemma_entry_lines(t);
        lemma_lines_append(m3u_body(front), m3u_entry(t));
        lemma_keep_append(spec_lines(m3u_body(front)), spec_lines(m3u_entry(t)));
        assert(Seq::new(ts.len(), |i: int| ts[i].path@) =~= Seq::new(front.len(), |i: int| front[i].path@).push(t.path@));
    }
}

/// How far along a scan is. A cold or large library takes seconds to walk
/// and tag, and only the caller knows where to say so.
#[derive(Clone, Copy, PartialEq, Eq, Structural, Debug)]
pub enum Scan {
    /// Walking the tree: audio files found so far. The total is not known yet.
    Walking(usize),
    /// Reading tags: files done, files found.
    Reading(usize, usize),
}


// ---- a track from its tags ------------------------------------------------

/// What a file's tags say, as the tag reader found them: `None` for a tag the
/// file does not have.
pub struct RawTags {
    /// Running time in milliseconds.
    pub duration_ms: u64,
    pub title: Option<String>,
    pub artist: Option<String>,
    pub album: Option<String>,
    pub genre: Option<String>,
    pub album_artist: Option<String>,
    pub track_no: Option<u32>,
    pub disc_no: Option<u32>,
    /// The year of the tag's date, when it has one.
    pub date_year: Option<u32>,
    /// The recording date as written, for a tag with no date.
    pub recording_date: Option<String>,
}

/// A tag that is present but blank is the same as no tag: a row with an
/// empty title is a file you cannot see.
pub open spec fn given(v: Option<Seq<char>>) -> Option<Seq<char>> {
    match v {
        Some(t) => if spec_trim(t).len() > 0 {
            Some(t)
        } else {
            None
        },
        None => None,
    }
}

pub open spec fn opt_view(v: Option<String>) -> Option<Seq<char>> {
    match v {
        Some(t) => Some(t@),
        None => None,
    }
}

/// The year in the first four characters of a date written out: what
/// `date.get(..4)?.parse()` finds, since only ASCII can be a digit.
pub open spec fn spec_year_of(date: Seq<char>) -> Option<u32> {
    if date.len() >= 4 && (forall|i: int| 0 <= i < 4 ==> (date[i] as u32) < 128) {
        match spec_parse_u64(date.subrange(0, 4)) {
            Some(v) => if v <= u32::MAX {
                Some(v as u32)
            } else {
                None
            },
            None => None,
        }
    } else {
        None
    }
}

pub fn year_of(date: &str) -> (y: Option<u32>)
    ensures
        y == spec_year_of(date@),
{
    let d = chars_of(date);
    if d.len() < 4 {
        return None;
    }
    let mut i: usize = 0;
    while i < 4
        invariant
            i <= 4,
            d@.len() >= 4,
            d@ == date@,
            forall|k: int| 0 <= k < i ==> (d@[k] as u32) < 128,
        decreases 4 - i,
    {
        if (d[i] as u32) >= 128 {
            return None;
        }
        i = i + 1;
    }
    let head = slice_of(d.as_slice(), 0, 4);
    match crate::text::parse_u64(head.as_slice()) {
        Some(v) => if v <= 0xFFFF_FFFF {
            Some(v as u32)
        } else {
            None
        },
        None => None,
    }
}

/// The name a file goes by before its tags are read: its file name without
/// the extension.
pub open spec fn spec_stem(p: Seq<char>) -> Seq<char> {
    match spec_file_name(p) {
        Some(n) => {
            let d = last_dot(n, n.len() as int);
            if d > 0 {
                n.subrange(0, d)
            } else {
                n
            }
        },
        None => Seq::empty(),
    }
}

pub fn stem(p: &str) -> (r: String)
    ensures
        r@ == spec_stem(p@),
{
    let pc = chars_of(p);
    match file_name(pc.as_slice()) {
        Some(n) => {
            let mut i: usize = n.len();
            while i > 0 && n[i - 1] != '.'
                invariant
                    i <= n@.len(),
                    last_dot(n@, i as int) == last_dot(n@, n@.len() as int),
                decreases i,
            {
                i = i - 1;
            }
            if i > 1 {
                string_of(slice_of(n.as_slice(), 0, i - 1).as_slice())
            } else {
                string_of(n.as_slice())
            }
        },
        None => String::new(),
    }
}

fn given_text(v: &Option<String>) -> (r: Option<String>)
    ensures
        opt_view(r) == given(opt_view(*v)),
{
    match v {
        Some(t) => {
            let c = chars_of(t.as_str());
            if trim(c.as_slice()).len() > 0 {
                Some(t.clone())
            } else {
                None
            }
        },
        None => None,
    }
}

/// A track as the scan finds it: the file name for every column until the
/// tags say otherwise; an untagged file (`tags` is `None`) keeps it. The
/// album artist falls back to the artist, and the year to the one in the
/// recording date.
pub fn track_from(path: &str, tags: &Option<RawTags>) -> (t: Track)
    ensures
        t.path@ == path@,
        t.in_library,
        t.file@ == spec_stem(path@),
        match tags {
            None => {
                &&& t.title@ == spec_stem(path@)
                &&& t.artist@.len() == 0 && t.album@.len() == 0 && t.album_artist@.len() == 0
                &&& t.genre@.len() == 0
                &&& t.track_no is None && t.disc_no is None && t.year is None
                &&& t.duration_ms == 0
            },
            Some(g) => {
                &&& t.duration_ms == g.duration_ms
                &&& t.title@ == (match given(opt_view(g.title)) {
                    Some(v) => v,
                    None => spec_stem(path@),
                })
                &&& t.artist@ == (match given(opt_view(g.artist)) {
                    Some(v) => v,
                    None => Seq::empty(),
                })
                &&& t.album@ == (match given(opt_view(g.album)) {
                    Some(v) => v,
                    None => Seq::empty(),
                })
                &&& t.genre@ == (match given(opt_view(g.genre)) {
                    Some(v) => v,
                    None => Seq::empty(),
                })
                &&& t.album_artist@ == (match given(opt_view(g.album_artist)) {
                    Some(v) => v,
                    None => t.artist@,
                })
                &&& t.track_no == g.track_no
                &&& t.disc_no == g.disc_no
                &&& t.year == (match g.date_year {
                    Some(y) => Some(y),
                    None => match g.recording_date {
                        Some(d) => spec_year_of(d@),
                        None => None,
                    },
                })
            },
        },
{
    let name = stem(path);
    let mut t = Track {
        path: String::from_str(path),
        in_library: true,
        file: name.clone(),
        title: name,
        artist: String::new(),
        album: String::new(),
        album_artist: String::new(),
        track_no: None,
        disc_no: None,
        year: None,
        genre: String::new(),
        duration_ms: 0,
    };
    let g = match tags {
        Some(g) => g,
        None => {
            return t;
        },
    };
    t.duration_ms = g.duration_ms;
    if let Some(v) = given_text(&g.title) {
        t.title = v;
    }
    if let Some(v) = given_text(&g.artist) {
        t.artist = v;
    }
    if let Some(v) = given_text(&g.album) {
        t.album = v;
    }
    if let Some(v) = given_text(&g.genre) {
        t.genre = v;
    }
    t.album_artist = match given_text(&g.album_artist) {
        Some(v) => v,
        None => t.artist.clone(),
    };
    t.track_no = g.track_no;
    t.disc_no = g.disc_no;
    t.year = match g.date_year {
        Some(y) => Some(y),
        None => match &g.recording_date {
            Some(d) => year_of(d.as_str()),
            None => None,
        },
    };
    t
}

} // verus!
