//! The terminal's clipboard: a yank travels to it as an OSC 52 escape
//! sequence, which carries the text's UTF-8 bytes in base64. Over ssh and in
//! tmux that still lands in the clipboard of the machine in front of you.

use vstd::prelude::*;
use vstd::string::StringSliceAdditionalSpecFns;

use crate::text::{push_str, string_of};

verus! {

/// The base64 digit for a six bit value: `A`-`Z`, `a`-`z`, `0`-`9`, `+`, `/`.
pub open spec fn b64_digit(v: int) -> char {
    if v < 26 {
        (65 + v) as char
    } else if v < 52 {
        (97 + v - 26) as char
    } else if v < 62 {
        (48 + v - 52) as char
    } else if v == 62 {
        '+'
    } else {
        '/'
    }
}

/// The four characters for one group of `n` bytes (one to three), the
/// missing bytes taken as zero and their digits written as `=`.
pub open spec fn spec_group(b0: u8, b1: u8, b2: u8, n: int) -> Seq<char> {
    seq![
        b64_digit((b0 / 4) as int),
        b64_digit((b0 % 4) * 16 + b1 / 16),
        if n >= 2 { b64_digit((b1 % 16) * 4 + b2 / 64) } else { '=' },
        if n >= 3 { b64_digit((b2 % 64) as int) } else { '=' },
    ]
}

/// The bytes in base64, three bytes to four characters, padded with `=`.
pub open spec fn spec_base64(b: Seq<u8>) -> Seq<char>
    decreases b.len(),
{
    if b.len() == 0 {
        Seq::empty()
    } else if b.len() == 1 {
        spec_group(b[0], 0, 0, 1)
    } else if b.len() == 2 {
        spec_group(b[0], b[1], 0, 2)
    } else {
        spec_group(b[0], b[1], b[2], 3) + spec_base64(b.skip(3))
    }
}

/// What asks the terminal to put `text` on its clipboard.
pub open spec fn spec_clipboard_sequence(text: &str) -> Seq<char> {
    "\x1b]52;c;"@ + spec_base64(text.spec_bytes()) + "\x07"@
}

fn digit(v: u8) -> (c: char)
    requires
        v < 64,
    ensures
        c == b64_digit(v as int),
{
    if v < 26 {
        (65 + v) as char
    } else if v < 52 {
        (97 + v - 26) as char
    } else if v < 62 {
        (48 + v - 52) as char
    } else if v == 62 {
        '+'
    } else {
        '/'
    }
}

/// Appends the four characters of one group of `n` bytes.
fn push_group(out: &mut Vec<char>, b0: u8, b1: u8, b2: u8, n: usize)
    requires
        1 <= n <= 3,
    ensures
        final(out)@ == old(out)@ + spec_group(b0, b1, b2, n as int),
{
    out.push(digit(b0 / 4));
    out.push(digit((b0 % 4) * 16 + b1 / 16));
    if n >= 2 {
        out.push(digit((b1 % 16) * 4 + b2 / 64));
    } else {
        out.push('=');
    }
    if n >= 3 {
        out.push(digit(b2 % 64));
    } else {
        out.push('=');
    }
}

/// The bytes in base64, with `=` padding.
pub fn base64(b: &[u8]) -> (s: Vec<char>)
    ensures
        s@ == spec_base64(b@),
{
    let mut out: Vec<char> = Vec::new();
    let mut i: usize = 0;
    assert(b@.skip(0) =~= b@);
    assert(out@ + spec_base64(b@) =~= spec_base64(b@));
    while i < b.len()
        invariant
            i <= b@.len(),
            out@ + spec_base64(b@.skip(i as int)) == spec_base64(b@),
        decreases b@.len() - i,
    {
        let rest = b.len() - i;
        let ghost tail = b@.skip(i as int);
        if rest == 1 {
            push_group(&mut out, b[i], 0, 0, 1);
            i = i + 1;
            assert(b@.skip(i as int) =~= Seq::<u8>::empty());
        } else if rest == 2 {
            push_group(&mut out, b[i], b[i + 1], 0, 2);
            i = i + 2;
            assert(b@.skip(i as int) =~= Seq::<u8>::empty());
        } else {
            push_group(&mut out, b[i], b[i + 1], b[i + 2], 3);
            assert(tail.skip(3) =~= b@.skip(i + 3));
            i = i + 3;
        }
    }
    assert(b@.skip(i as int) =~= Seq::<u8>::empty());
    out
}

/// The escape sequence that puts `text` on the terminal's clipboard: OSC 52
/// for the clipboard selection, the text's bytes in base64, then BEL.
pub fn clipboard_sequence(text: &str) -> (s: String)
    ensures
        s@ == spec_clipboard_sequence(text),
{
    let mut out: Vec<char> = Vec::new();
    push_str(&mut out, "\x1b]52;c;");
    let b = text.as_bytes();
    let body = base64(b);
    let mut i: usize = 0;
    let ghost start = out@;
    while i < body.len()
        invariant
            i <= body@.len(),
            out@ == start + body@.subrange(0, i as int),
        decreases body@.len() - i,
    {
        out.push(body[i]);
        i = i + 1;
        assert(out@ =~= start + body@.subrange(0, i as int));
    }
    assert(body@.subrange(0, i as int) =~= body@);
    push_str(&mut out, "\x07");
    string_of(out.as_slice())
}

} // verus!
