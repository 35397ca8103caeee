//! The boot rows are three rows of escape codes rewritten in place, and the
//! cursor arithmetic is the part that breaks silently: one row out and the
//! progress line eats the wordmark, or the wipe leaves half of it behind.

use vibox::boot::{locked_columns, short, Boot};
use vibox::library::Scan;

/// A boot screen that draws every frame, and what it has written so far.
fn booted() -> (Boot, String) {
    let mut boot = Boot::new("/music", None, Some(80), true);
    boot.draw_every_frame();
    (boot, String::new())
}

fn report(boot: &mut Boot, out: &mut String, scan: Scan) {
    if let Some(text) = boot.report(scan, 0, 0).text {
        out.push_str(&text);
    }
}

#[test]
fn the_first_frame_does_not_move_the_cursor_up_into_the_prompt() {
    let (mut boot, mut out) = booted();
    report(&mut boot, &mut out, Scan::Reading(0, 100));

    assert!(!out.starts_with("\x1b[2A"), "there is nothing above the first frame to go back to");
    assert_eq!(out.matches('\n').count(), 2, "two wordmark rows, then the progress line");
}

#[test]
fn every_later_frame_goes_back_over_the_wordmark_first() {
    let (mut boot, mut out) = booted();
    report(&mut boot, &mut out, Scan::Reading(0, 100));
    let first = out.len();
    report(&mut boot, &mut out, Scan::Reading(100, 100));

    let later = &out[first..];
    assert!(
        later.starts_with("\x1b[2A"),
        "a redraw has to step back over the two wordmark rows, got `{}`",
        later.escape_debug().to_string().chars().take(40).collect::<String>()
    );
}

#[test]
fn finishing_wipes_every_row_it_drew() {
    let (mut boot, mut out) = booted();
    report(&mut boot, &mut out, Scan::Reading(50, 100));
    let before = out.len();
    if let Some(wipe) = boot.finish() {
        out.push_str(wipe);
    }

    assert_eq!(&out[before..], "\x1b[2A\r\x1b[J", "back to the top row, then clear to the bottom of the screen");
}

#[test]
fn nothing_is_drawn_at_all_when_there_is_no_terminal() {
    let mut boot = Boot::new("/music", None, Some(80), false);
    boot.draw_every_frame();
    let mut out = String::new();

    report(&mut boot, &mut out, Scan::Reading(50, 100));
    if let Some(wipe) = boot.finish() {
        out.push_str(wipe);
    }
    assert!(out.is_empty(), "escape codes belong in a terminal, not in a redirected stderr");
}

#[test]
fn the_wordmark_resolves_as_the_scan_does() {
    let (mut boot, _out) = booted();

    let done = boot.wordmark(locked_columns(1, 1));
    for row in ["⢣⡜ ⡇⠀⣏⣹ ⡎⢱ ⢣⡜", "⠈⡇ ⡇ ⣇⣸ ⢇⡸ ⡜⢣"] {
        for ch in row.chars() {
            assert!(done.contains(ch), "a finished wordmark is missing `{ch}`");
        }
    }

    // and at the start only the gaps are settled
    let begun = boot.wordmark(locked_columns(0, 1));
    assert!(!begun.contains('⣹'), "nothing but the gaps has locked in yet");
}

#[test]
fn half_the_scan_locks_half_the_wordmark() {
    assert_eq!(locked_columns(0, 100), 0);
    assert_eq!(locked_columns(50, 100), 7);
    assert_eq!(locked_columns(100, 100), 13);
    assert_eq!(locked_columns(0, 0), 13);
}

#[test]
fn the_root_is_shown_from_home_when_it_is_under_it() {
    assert_eq!(short("/home/me/music", Some("/home/me"), 40), "~/music");
    assert_eq!(short("/srv/music", Some("/home/me"), 40), "/srv/music");
}

#[test]
fn a_throttled_boot_draws_nothing_in_its_grace_period() {
    let mut boot = Boot::new("/music", None, Some(80), true);
    let frame = boot.report(Scan::Walking(3), 10, 10);
    assert!(frame.text.is_none(), "a fast scan never flashes the boot screen");
}
