//! The rows printed while the library is scanned, before the terminal is taken
//! over: a braille wordmark decoding above a progress line.
//!
//! This is what each frame says and when one is due. The clock, the lock the
//! scan's threads share and the terminal are the program's: it hands in how
//! long it has been and writes out what comes back.

use vstd::prelude::*;

use crate::library::Scan;
use crate::paths::{path_under, spec_strip_prefix, strip_prefix};
use crate::text::{
    chars_of, decimal, push_chars, push_str, slice_of, spec_decimal,
    string_of,
};

verus! {

/// How long the scan may take, in milliseconds, before it starts explaining
/// itself.
pub const GRACE_MS: u64 = 150;

/// How often the progress line is rewritten once it is up, in milliseconds.
pub const REDRAW_MS: u64 = 60;

/// Width of the progress bar, in cells.
pub const BAR: usize = 20;

/// What the rest of the longest progress line costs, so the root can be cut
/// to whatever is left. A line that wraps is one `\r` can no longer rewrite.
pub const AROUND: usize = 52;

/// The wordmark, in braille, two rows tall.
pub open spec fn mark_row(r: int) -> Seq<char> {
    if r == 0 {
        "⢣⡜ ⡇⠀⣏⣹ ⡎⢱ ⢣⡜"@
    } else {
        "⠈⡇ ⡇ ⣇⣸ ⢇⡸ ⡜⢣"@
    }
}

fn mark(r: usize) -> (s: &'static str)
    ensures
        s@ == mark_row(r as int),
{
    if r == 0 {
        "⢣⡜ ⡇⠀⣏⣹ ⡎⢱ ⢣⡜"
    } else {
        "⠈⡇ ⡇ ⣇⣸ ⢇⡸ ⡜⢣"
    }
}

pub open spec fn scrambled() -> Seq<char> {
    "\x1b[2;90m"@
}

pub open spec fn locked() -> Seq<char> {
    "\x1b[1;96m"@
}

pub open spec fn off() -> Seq<char> {
    "\x1b[0m"@
}

/// A root as the progress line and the sidebar show it: `~` for the home
/// directory, and the head dropped once it is still wider than `budget`,
/// since the tail is the part that says which library this is.
pub open spec fn spec_short(root: Seq<char>, home: Option<Seq<char>>, budget: usize) -> Seq<char> {
    let full = match home {
        Some(h) => if path_under(root, h) {
            "~/"@ + spec_strip_prefix(root, h)
        } else {
            root
        },
        None => root,
    };
    if full.len() <= budget {
        full
    } else {
        let from = if budget == 0 {
            full.len() as int
        } else {
            full.len() - budget + 1
        };
        seq!['…'] + full.subrange(from, full.len() as int)
    }
}

pub fn short(root: &str, home: Option<&str>, budget: usize) -> (s: String)
    ensures
        s@ == spec_short(root@, match home {
            Some(h) => Some(h@),
            None => None,
        }, budget),
{
    let r = chars_of(root);
    let full: Vec<char> = match home {
        Some(h) => {
            let hc = chars_of(h);
            if let Some(tail) = strip_prefix(r.as_slice(), hc.as_slice()) {
                let mut v = chars_of("~/");
                push_chars(&mut v, tail.as_slice());
                v
            } else {
                r
            }
        },
        None => r,
    };
    if full.len() <= budget {
        return string_of(full.as_slice());
    }
    let from = if budget == 0 {
        full.len()
    } else {
        full.len() - budget + 1
    };
    let tail = slice_of(full.as_slice(), from, full.len());
    let mut v: Vec<char> = Vec::new();
    v.push('…');
    push_chars(&mut v, tail.as_slice());
    string_of(v.as_slice())
}

/// One braille cell of noise from the counter's value: the counter run
/// through a mixer, then the low 64 patterns, the six dot range the wordmark
/// is drawn in.
pub open spec fn noise_cell(x: u64) -> u64 {
    let a = x ^ (x >> 33u64);
    let b = ((a as nat * 0xFF51_AFD7_ED55_8CCDnat) % 0x1_0000_0000_0000_0000nat) as u64;
    let c = b ^ (b >> 33u64);
    c % 64
}

/// The counter after one draw.
pub open spec fn next_noise(x: u64) -> u64 {
    ((x as nat + 0x9E37_79B9_7F4A_7C15nat) % 0x1_0000_0000_0000_0000nat) as u64
}

/// The braille pattern `k`, one of the first 64.
pub open spec fn braille_char(k: u64) -> char {
    (0x2800 + k) as char
}

/// A number that is a character: at most `0x10FFFF`, and not a surrogate.
pub open spec fn is_char_code(n: u32) -> bool {
    n <= 0x10FFFF && !(0xD800 <= n && n <= 0xDFFF)
}

/// `char::from_u32` from std. Its contract claims what the documentation
/// promises: the character with that number, or nothing for a number that
/// is not one (above `0x10FFFF`, or a surrogate).
#[verifier::external_body]
fn char_from(n: u32) -> (r: Option<char>)
    ensures
        is_char_code(n) ==> r == Some(n as char),
        !is_char_code(n) ==> r is None,
{
    char::from_u32(n)
}

/// The braille pattern `k`, one of the first 64.
fn braille(k: u64) -> (c: char)
    requires
        k < 64,
    ensures
        c == braille_char(k),
{
    let n: u32 = 0x2800 + k as u32;
    let r = char_from(n);
    assert(is_char_code(n));
    r.unwrap()
}

/// The cells of a wordmark row from `i` on, with the columns before `locked`
/// and the gaps settled and the rest noise, and the counter afterwards.
pub open spec fn row_cells(row: Seq<char>, i: int, locked_cols: int, noise: u64) -> (Seq<char>, u64)
    decreases row.len() - i,
{
    if i < 0 || i >= row.len() {
        (seq![], noise)
    } else {
        let ch = row[i];
        let (here, after) = if ch == ' ' || i < locked_cols {
            (locked() + seq![ch] + off(), noise)
        } else {
            (scrambled() + seq![braille_char(noise_cell(noise))] + off(), next_noise(noise))
        };
        let (rest, last) = row_cells(row, i + 1, locked_cols, after);
        (here + rest, last)
    }
}

/// Both wordmark rows, each closed by clearing the rest of the line, and the
/// counter afterwards.
pub open spec fn spec_wordmark(locked_cols: int, noise: u64) -> (Seq<char>, u64) {
    let (a, n1) = row_cells(mark_row(0), 0, locked_cols, noise);
    let (b, n2) = row_cells(mark_row(1), 0, locked_cols, n1);
    (a + "\x1b[K\n"@ + b + "\x1b[K\n"@, n2)
}

/// How many wordmark columns have locked in when `done` of `total` files
/// are read: the share of the thirteen columns, to the nearest one.
pub open spec fn spec_locked_columns(done: usize, total: usize) -> int {
    if total == 0 || done >= total {
        13
    } else {
        (26 * done + total) / (2 * total)
    }
}

pub fn locked_columns(done: usize, total: usize) -> (n: usize)
    ensures
        n == spec_locked_columns(done, total),
{
    if total == 0 || done >= total {
        13
    } else {
        let n: u128 = (26 * (done as u128) + (total as u128)) / (2 * (total as u128));
        assert(n <= 13) by (nonlinear_arith)
            requires
                n == (26 * done + total) / (2 * total),
                done < total,
                total > 0,
        ;
        n as usize
    }
}

/// The progress line for a scan: what is being scanned and how far along it
/// is. `None` for a read of nothing, which has no share to show.
pub open spec fn spec_progress_line(root: Seq<char>, scan: Scan) -> Option<Seq<char>> {
    match scan {
        Scan::Walking(found) => Some(
            "scanning `"@ + root + "` ... "@ + spec_decimal(found as nat) + " files"@,
        ),
        Scan::Reading(done, total) => if total == 0 {
            None
        } else {
            let pct = done * 100 / (total as int);
            let full = done * BAR / (total as int);
            let digits = spec_decimal(pct as nat);
            let padded = if digits.len() < 3 {
                Seq::new((3 - digits.len()) as nat, |i: int| ' ') + digits
            } else {
                digits
            };
            Some(
                "reading `"@ + root + "` ["@ + Seq::new(
                    BAR as nat,
                    |i: int|
                        if i < full {
                            '#'
                        } else {
                            '-'
                        },
                ) + "] "@ + padded + "% ("@ + spec_decimal(done as nat) + "/"@ + spec_decimal(
                    total as nat,
                ) + ")"@,
            )
        },
    }
}

/// What one report asks of the program: whether to restart the redraw
/// clock, and the text of the frame to write, if one is due.
pub struct Frame {
    pub reset_clock: bool,
    pub text: Option<String>,
}

/// The state of the boot rows between frames.
pub struct Boot {
    /// The root being read, short enough to sit beside the bar on one line.
    pub root: String,
    /// Whether a frame has been drawn, so the next one backs up over it.
    pub printed: bool,
    /// Nothing to draw on: escape codes belong in a terminal, not in a file.
    pub tty: bool,
    /// State for the noise in the unresolved cells of the wordmark.
    pub noise: u64,
    /// Whether frames are rate limited.
    pub throttle: bool,
    /// Whether the grace period is waived.
    pub eager: bool,
}

/// A root cut to fit beside the bar on a terminal `cols` wide, eighty when
/// the width is not known.
pub open spec fn root_budget(cols: Option<usize>) -> usize {
    let c: int = match cols {
        Some(c) => c as int,
        None => 80,
    };
    if c - AROUND >= 12 {
        (c - AROUND) as usize
    } else {
        12
    }
}

impl Boot {
    /// The boot rows for the library at `root`, drawn on a terminal `cols`
    /// wide when `tty` says there is one.
    pub fn new(root: &str, home: Option<&str>, cols: Option<usize>, tty: bool) -> (b: Boot)
        ensures
            b.root@ == spec_short(root@, match home {
                Some(h) => Some(h@),
                None => None,
            }, root_budget(cols)),
            !b.printed,
            b.tty == tty,
            b.noise == 0x2545_F491_4F6C_DD1D,
            b.throttle,
            !b.eager,
    {
        let c: usize = match cols {
            Some(c) => c,
            None => 80,
        };
        let budget = if c >= AROUND + 12 {
            c - AROUND
        } else {
            12
        };
        Boot {
            root: short(root, home, budget),
            printed: false,
            tty,
            noise: 0x2545_F491_4F6C_DD1D,
            throttle: true,
            eager: false,
        }
    }

    /// Draws every frame it is handed, immediately: no grace period and no
    /// rate limit, for a test or a playback that wants every frame.
    pub fn draw_every_frame(&mut self)
        ensures
            final(self).eager,
            !final(self).throttle,
            final(self).root == old(self).root,
            final(self).printed == old(self).printed,
            final(self).tty == old(self).tty,
            final(self).noise == old(self).noise,
    {
        self.eager = true;
        self.throttle = false;
    }

    /// One braille cell of noise, moving the counter on.
    pub fn scramble(&mut self) -> (c: char)
        ensures
            c == braille_char(noise_cell(old(self).noise)),
            final(self).noise == next_noise(old(self).noise),
            final(self).root == old(self).root,
            final(self).printed == old(self).printed,
            final(self).tty == old(self).tty,
            final(self).throttle == old(self).throttle,
            final(self).eager == old(self).eager,
    {
        let x0 = self.noise;
        self.noise = x0.wrapping_add(0x9E37_79B9_7F4A_7C15);
        let a = x0 ^ (x0 >> 33u64);
        let b = a.wrapping_mul(0xFF51_AFD7_ED55_8CCD);
        let c = b ^ (b >> 33u64);
        braille(c % 64)
    }

    fn row(&mut self, r: usize, locked_cols: usize, out: &mut Vec<char>)
        ensures
            final(out)@ == old(out)@ + row_cells(mark_row(r as int), 0, locked_cols as int, old(self).noise).0,
            final(self).noise == row_cells(mark_row(r as int), 0, locked_cols as int, old(self).noise).1,
            final(self).root == old(self).root,
            final(self).printed == old(self).printed,
            final(self).tty == old(self).tty,
            final(self).throttle == old(self).throttle,
            final(self).eager == old(self).eager,
    {
        let cells = chars_of(mark(r));
        let ghost row = mark_row(r as int);
        let ghost start = out@;
        let ghost n0 = self.noise;
        let mut i: usize = 0;
        while i < cells.len()
            invariant
                i <= cells@.len(),
                cells@ == row,
                row_cells(row, 0, locked_cols as int, n0) == ({
                    let (rest, last) = row_cells(row, i as int, locked_cols as int, self.noise);
                    (out@.subrange(start.len() as int, out@.len() as int) + rest, last)
                }),
                out@.len() >= start.len(),
                out@.subrange(0, start.len() as int) == start,
                self.root == old(self).root,
                self.printed == old(self).printed,
                self.tty == old(self).tty,
                self.throttle == old(self).throttle,
                self.eager == old(self).eager,
            decreases cells@.len() - i,
        {
            let ch = cells[i];
            let ghost before = out@;
            let ghost nb = self.noise;
            if ch == ' ' || i < locked_cols {
                push_str(out, "\x1b[1;96m");
                out.push(ch);
            } else {
                push_str(out, "\x1b[2;90m");
                let c = self.scramble();
                out.push(c);
            }
            push_str(out, "\x1b[0m");
            proof {
                let here = out@.subrange(before.len() as int, out@.len() as int);
                assert(out@ =~= before + here);
                if ch == ' ' || i < locked_cols {
                    assert(here =~= locked() + seq![ch] + off());
                } else {
                    assert(here =~= scrambled() + seq![braille_char(noise_cell(nb))] + off());
                }
                assert(out@.subrange(start.len() as int, out@.len() as int) =~= before.subrange(
                    start.len() as int,
                    before.len() as int,
                ) + here);
                assert(out@.subrange(0, start.len() as int) =~= start);
            }
            i = i + 1;
        }
        proof {
            assert(out@ =~= start + out@.subrange(start.len() as int, out@.len() as int));
            assert(row_cells(row, i as int, locked_cols as int, self.noise).0 =~= Seq::<char>::empty());
        }
    }

    /// The wordmark with its leftmost `locked_cols` columns settled and the
    /// rest noise. Tied to the scan rather than to a clock, so it finishes
    /// resolving exactly when the library finishes loading.
    pub fn wordmark(&mut self, locked_cols: usize) -> (s: String)
        ensures
            (s@, final(self).noise) == spec_wordmark(locked_cols as int, old(self).noise),
            final(self).root == old(self).root,
            final(self).printed == old(self).printed,
            final(self).tty == old(self).tty,
            final(self).throttle == old(self).throttle,
            final(self).eager == old(self).eager,
    {
        let mut out: Vec<char> = Vec::new();
        self.row(0, locked_cols, &mut out);
        push_str(&mut out, "\x1b[K\n");
        self.row(1, locked_cols, &mut out);
        push_str(&mut out, "\x1b[K\n");
        string_of(out.as_slice())
    }
}

fn progress_line(root: &String, scan: Scan) -> (r: Option<String>)
    ensures
        match spec_progress_line(root@, scan) {
            None => r is None,
            Some(l) => r matches Some(x) && x@ == l,
        },
{
    match scan {
        Scan::Walking(found) => {
            let mut v: Vec<char> = Vec::new();
            push_str(&mut v, "scanning `");
            push_str(&mut v, root.as_str());
            push_str(&mut v, "` ... ");
            let mut d = decimal(found as u64);
            v.append(&mut d);
            push_str(&mut v, " files");
            Some(string_of(v.as_slice()))
        },
        Scan::Reading(done, total) => {
            if total == 0 {
                return None;
            }
            let pct: u128 = (done as u128) * 100 / (total as u128);
            let full: u128 = (done as u128) * 20 / (total as u128);
            let mut v: Vec<char> = Vec::new();
            push_str(&mut v, "reading `");
            push_str(&mut v, root.as_str());
            push_str(&mut v, "` [");
            let ghost before_bar = v@;
            let mut i: usize = 0;
            while i < BAR
                invariant
                    i <= BAR,
                    v@ =~= before_bar + Seq::new(i as nat, |q: int| if q < full { '#' } else { '-' }),
                decreases BAR - i,
            {
                if (i as u128) < full {
                    v.push('#');
                } else {
                    v.push('-');
                }
                i = i + 1;
            }
            push_str(&mut v, "] ");
            let digits = crate::text::decimal_wide(pct);
            let ghost before_pad = v@;
            let mut k: usize = digits.len();
            while k < 3
                invariant
                    digits@.len() <= k <= 3 || (k == digits@.len() && k >= 3),
                    v@ =~= before_pad + Seq::new((k - digits@.len()) as nat, |q: int| ' '),
                decreases 3 - k,
            {
                v.push(' ');
                k = k + 1;
            }
            let mut dg = digits;
            v.append(&mut dg);
            assert(k == if digits@.len() < 3 { 3 } else { digits@.len() });
            push_str(&mut v, "% (");
            let mut a = decimal(done as u64);
            v.append(&mut a);
            push_str(&mut v, "/");
            let mut b = decimal(total as u64);
            v.append(&mut b);
            push_str(&mut v, ")");
            Some(string_of(v.as_slice()))
        },
    }
}

/// What one report does, given how long the scan has run and how long since
/// the last frame, in milliseconds: whether the redraw clock restarts, the
/// frame's text, and the boot rows afterwards.
pub open spec fn spec_report(b: Boot, scan: Scan, elapsed_ms: u64, since_last_ms: u64) -> (bool, Option<Seq<char>>, bool, u64) {
    let final_frame = match scan {
        Scan::Reading(done, total) => done == total,
        _ => false,
    };
    if !b.tty || (!b.eager && elapsed_ms < GRACE_MS) {
        (false, None, b.printed, b.noise)
    } else if b.throttle && !final_frame && since_last_ms < REDRAW_MS {
        (false, None, b.printed, b.noise)
    } else {
        match spec_progress_line(b.root@, scan) {
            None => (true, None, b.printed, b.noise),
            Some(line) => {
                let cols = match scan {
                    Scan::Walking(_) => 0,
                    Scan::Reading(done, total) => spec_locked_columns(done, total),
                };
                let (mark, noise) = spec_wordmark(cols, b.noise);
                let up = if b.printed {
                    "\x1b[2A"@
                } else {
                    Seq::<char>::empty()
                };
                (true, Some(up + "\r"@ + mark + "\r\x1b[K"@ + line), true, noise)
            },
        }
    }
}

impl Boot {
    /// One step of the scan, reported. Anything that finishes inside the
    /// grace period prints nothing, so a small library still opens in
    /// silence; after that a frame is drawn at most every `REDRAW_MS`, and
    /// the last file always gets one. Each frame backs up over the one
    /// before, so the rows are rewritten in place.
    pub fn report(&mut self, scan: Scan, elapsed_ms: u64, since_last_ms: u64) -> (f: Frame)
        ensures
            ({
                let (reset, text, printed, noise) = spec_report(*old(self), scan, elapsed_ms, since_last_ms);
                &&& f.reset_clock == reset
                &&& match text {
                    None => f.text is None,
                    Some(t) => f.text matches Some(x) && x@ == t,
                }
                &&& final(self).printed == printed
                &&& final(self).noise == noise
                &&& final(self).root == old(self).root
                &&& final(self).tty == old(self).tty
                &&& final(self).throttle == old(self).throttle
                &&& final(self).eager == old(self).eager
            }),
    {
        if !self.tty || (!self.eager && elapsed_ms < GRACE_MS) {
            return Frame { reset_clock: false, text: None };
        }
        let final_frame = match scan {
            Scan::Reading(done, total) => done == total,
            _ => false,
        };
        if self.throttle && !final_frame && since_last_ms < REDRAW_MS {
            return Frame { reset_clock: false, text: None };
        }
        let line = match progress_line(&self.root, scan) {
            Some(l) => l,
            None => {
                return Frame { reset_clock: true, text: None };
            },
        };
        let cols: usize = match scan {
            Scan::Walking(_) => 0,
            Scan::Reading(done, total) => locked_columns(done, total),
        };
        let mark = self.wordmark(cols);
        let mut v: Vec<char> = Vec::new();
        if self.printed {
            push_str(&mut v, "\x1b[2A");
        }
        self.printed = true;
        push_str(&mut v, "\r");
        push_str(&mut v, mark.as_str());
        push_str(&mut v, "\r\x1b[K");
        push_str(&mut v, line.as_str());
        Frame { reset_clock: true, text: Some(string_of(v.as_slice())) }
    }

    /// What wipes the wordmark and the progress line, so the terminal is as
    /// it was found: up to the first row, then clear to the bottom. Nothing
    /// when nothing was drawn.
    pub fn finish(&self) -> (t: Option<&'static str>)
        ensures
            self.printed ==> (t matches Some(x) && x@ == "\x1b[2A\r\x1b[J"@),
            !self.printed ==> t is None,
    {
        if self.printed {
            Some("\x1b[2A\r\x1b[J")
        } else {
            None
        }
    }
}

} // verus!
