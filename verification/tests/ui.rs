//! Drawing arithmetic: cells, gutters, wrapping, and the change lines.

use vibox::mpris::{file_uri, playback_status};
use vibox::player::{seek_target, Mixer};
use vibox::ui::{follow_top, gutter, help, help_len, split_change, truncate, wrap_lyric};

#[test]
fn truncating_pads_to_the_width_or_cuts_with_an_ellipsis() {
    assert_eq!(truncate("abc", 5), "abc  ");
    assert_eq!(truncate("abcdef", 4), "abc…");
    assert_eq!(truncate("abc", 0), "");
    assert_eq!(truncate("日本語", 4), "日… ", "a wide character takes two cells");
}

#[test]
fn the_gutter_grows_with_the_library() {
    assert_eq!(gutter(5), 6);
    assert_eq!(gutter(999), 6);
    assert_eq!(gutter(1000), 7);
}

#[test]
fn a_long_lyric_wraps_with_its_runover_indented() {
    let rows = wrap_lyric("one two three", 8);
    assert!(rows.len() > 1);
    assert!(rows[1].starts_with(' '));
    assert_eq!(wrap_lyric("short", 20), vec![" short".to_string()]);
}

#[test]
fn the_lyrics_window_centres_the_line_being_sung() {
    assert_eq!(follow_top(100, Some(50), 10), 45);
    assert_eq!(follow_top(100, Some(2), 10), 0);
    assert_eq!(follow_top(100, Some(99), 10), 90);
    assert_eq!(follow_top(100, None, 10), 0);
}

#[test]
fn a_change_line_splits_at_its_arrow() {
    let (verb, from, to) = split_change("rename  root/a  ->  root/b");
    assert_eq!(verb, "rename");
    assert_eq!(from, "root/a");
    assert_eq!(to.as_deref(), Some("root/b"));
    let (verb, what, to) = split_change("DELETE  root/c");
    assert_eq!(verb, "DELETE");
    assert_eq!(what, "root/c");
    assert_eq!(to, None);
}

#[test]
fn the_help_window_has_a_row_for_every_entry() {
    let sections = help();
    assert_eq!(sections.len(), 7);
    let rows: usize = sections.iter().map(|(_, entries)| entries.len() + 2).sum();
    assert_eq!(help_len(), rows - 1);
}

#[test]
fn the_session_bus_hears_what_is_playing() {
    assert_eq!(playback_status(false, false), "Stopped");
    assert_eq!(playback_status(true, true), "Paused");
    assert_eq!(playback_status(true, false), "Playing");
    assert_eq!(file_uri("/m/a b.mp3"), "file:///m/a%20b.mp3");
}

#[test]
fn the_mixer_holds_volume_to_a_hundred_and_mutes_without_forgetting_it() {
    let mut m = Mixer::new();
    assert_eq!(m.volume, 80);
    m.nudge_volume(50);
    assert_eq!(m.volume, 100);
    m.set_volume(30);
    m.toggle_mute();
    assert_eq!(m.gain(), 0);
    m.toggle_mute();
    assert_eq!(m.gain(), 300);
    assert_eq!(seek_target(10, -30), 0);
    assert_eq!(seek_target(10, 5), 15);
}
