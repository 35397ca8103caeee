//! What the player tells the desktop over MPRIS: its state in MPRIS's words,
//! the track's id and the track's address. The session bus is the
//! program's part.

use vstd::prelude::*;
use vstd::string::StringSliceAdditionalSpecFns;

use crate::lyrics::path_id;
use crate::text::{decimal, hex, push_str, spec_decimal, spec_hex, string_of};

verus! {

/// The playback state as MPRIS spells it.
pub open spec fn spec_playback_status(has_track: bool, paused: bool) -> Seq<char> {
    if !has_track {
        "Stopped"@
    } else if paused {
        "Paused"@
    } else {
        "Playing"@
    }
}

pub fn playback_status(has_track: bool, paused: bool) -> (s: &'static str)
    ensures
        s@ == spec_playback_status(has_track, paused),
{
    if !has_track {
        "Stopped"
    } else if paused {
        "Paused"
    } else {
        "Playing"
    }
}

/// Bytes a file URI carries as they are: those of a query value, and `/`.
pub open spec fn uri_plain(b: u8) -> bool {
    (65 <= b <= 90) || (97 <= b <= 122) || (48 <= b <= 57) || b == 47 || b == 45 || b == 95 || b
        == 46 || b == 126
}

pub open spec fn uri_byte(b: u8) -> Seq<char> {
    if uri_plain(b) {
        seq![b as char]
    } else {
        seq!['%'] + spec_hex(b as nat, 2, true)
    }
}

pub open spec fn uri_bytes(bytes: Seq<u8>) -> Seq<char>
    decreases bytes.len(),
{
    if bytes.len() == 0 {
        seq![]
    } else {
        uri_bytes(bytes.drop_last()) + uri_byte(bytes.last())
    }
}

/// `file://` and the path, its bytes percent encoded where a URI cannot
/// carry them.
pub fn file_uri(path: &str) -> (u: String)
    ensures
        u@ == "file://"@ + uri_bytes(path.spec_bytes()),
{
    let bytes = path.as_bytes();
    let mut out: Vec<char> = Vec::new();
    push_str(&mut out, "file://");
    let ghost head = out@;
    let mut i: usize = 0;
    while i < bytes.len()
        invariant
            i <= bytes@.len(),
            bytes@ == path.spec_bytes(),
            head == "file://"@,
            out@ == head + uri_bytes(bytes@.subrange(0, i as int)),
        decreases bytes@.len() - i,
    {
        let b = bytes[i];
        assert(bytes@.subrange(0, i + 1).drop_last() =~= bytes@.subrange(0, i as int));
        let ghost before = out@;
        if (65 <= b && b <= 90) || (97 <= b && b <= 122) || (48 <= b && b <= 57) || b == 47 || b
            == 45 || b == 95 || b == 46 || b == 126 {
            out.push(b as char);
        } else {
            out.push('%');
            let mut h = hex(b as u64, 2, true);
            out.append(&mut h);
        }
        assert(out@ =~= before + uri_byte(b));
        i = i + 1;
    }
    assert(bytes@.subrange(0, bytes@.len() as int) =~= bytes@);
    string_of(out.as_slice())
}

/// The track id MPRIS wants, which has to be an object path: the file's
/// path folded into a number.
pub fn track_id(path: &str) -> (id: String)
    ensures
        id@ == "/org/mpris/vibox/track/"@ + spec_decimal(path_id(path.spec_bytes())),
{
    let bytes = path.as_bytes();
    let mut acc: u64 = 0;
    let mut i: usize = 0;
    while i < bytes.len()
        invariant
            i <= bytes@.len(),
            bytes@ == path.spec_bytes(),
            acc == path_id(bytes@.subrange(0, i as int)),
        decreases bytes@.len() - i,
    {
        assert(bytes@.subrange(0, i + 1).drop_last() =~= bytes@.subrange(0, i as int));
        let m = acc.wrapping_mul(31);
        acc = m.wrapping_add(bytes[i] as u64);
        i = i + 1;
    }
    assert(bytes@.subrange(0, bytes@.len() as int) =~= bytes@);
    let mut v: Vec<char> = Vec::new();
    push_str(&mut v, "/org/mpris/vibox/track/");
    let mut d = decimal(acc);
    v.append(&mut d);
    string_of(v.as_slice())
}

} // verus!
