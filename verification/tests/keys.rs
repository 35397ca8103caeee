//! The keymap: counts, two key sequences, and the `:` line.

use vibox::app::{Pane, Tab};
use vibox::edit::edit_count_fits;
use vibox::keys::{count_fits, normal_key, Act, Key, LineEdit, LineOutcome, NormalState};
use vibox::text::word_start;

fn state() -> NormalState {
    NormalState {
        count: None,
        pending: None,
        focus: Pane::Tracks,
        tab: Tab::Folders,
        visual: false,
        show_help: false,
        track_h: 20,
    }
}

/// Feeds keys to normal mode, carrying the count and the prefix along, and
/// hands back every act.
fn press(keys: &[Key]) -> Vec<Act> {
    let mut st = state();
    let mut acts = Vec::new();
    for &k in keys {
        let o = normal_key(st, k, false);
        st.count = o.count;
        st.pending = o.pending;
        acts.push(o.act);
    }
    acts
}

#[test]
fn keys_ctrl_w_deletes_back_to_the_start_of_the_word() {
    let text: Vec<char> = "late night mix".chars().collect();
    assert_eq!(word_start(&text, text.len()), 11);
    assert_eq!(word_start(&text, 11), 5);
    assert_eq!(word_start(&text, 0), 0);
}

#[test]
fn text_ctrl_w_deletes_back_to_the_start_of_the_word() {
    let text: Vec<char> = "late night mix".chars().collect();
    assert_eq!(word_start(&text, text.len()), 11);
    assert_eq!(word_start(&text, 11), 5);
    assert_eq!(word_start(&text, 0), 0);
}

#[test]
fn a_count_repeats_the_motion() {
    let acts = press(&[Key::Char('3'), Key::Char('j')]);
    assert_eq!(acts, vec![Act::Nothing, Act::MoveTracks(3)]);
}

#[test]
fn zero_is_part_of_a_count_once_one_has_started() {
    let acts = press(&[Key::Char('1'), Key::Char('0'), Key::Char('j')]);
    assert_eq!(acts[2], Act::MoveTracks(10));
}

#[test]
fn gg_goes_to_the_top_and_a_count_before_g_to_that_row() {
    assert_eq!(press(&[Key::Char('g'), Key::Char('g')])[1], Act::GotoRow(0));
    // The `g` itself uses the count up, as every key normal mode knows does.
    assert_eq!(press(&[Key::Char('5'), Key::Char('g'), Key::Char('g')])[2], Act::GotoRow(0));
    assert_eq!(press(&[Key::Char('G')])[0], Act::GotoRow(usize::MAX));
    assert_eq!(press(&[Key::Char('5'), Key::Char('G')])[1], Act::GotoRow(4));
}

#[test]
fn dd_deletes_and_zz_quits() {
    assert_eq!(press(&[Key::Char('d'), Key::Char('d')])[1], Act::DeleteSelection);
    assert_eq!(press(&[Key::Char('Z'), Key::Char('Z')])[1], Act::Quit);
    assert_eq!(press(&[Key::Char(':')])[0], Act::CommandLine);
}

#[test]
fn ctrl_d_moves_half_a_window() {
    let o = normal_key(state(), Key::Char('d'), true);
    assert_eq!(o.act, Act::MoveTracks(10));
}

#[test]
fn volume_keys_default_to_five_and_take_a_count() {
    assert_eq!(press(&[Key::Char('+')])[0], Act::Volume(5));
    assert_eq!(press(&[Key::Char('2'), Key::Char('-')])[1], Act::Volume(-2));
}

#[test]
fn the_line_edits_like_a_readline() {
    let mut line = LineEdit::new();
    for c in "set lyrics".chars() {
        assert!(matches!(line.key(Key::Char(c), false), LineOutcome::Stay));
    }
    line.key(Key::Char('w'), true);
    assert_eq!(line.line(), "set ");
    line.key(Key::Backspace, false);
    assert_eq!(line.line(), "set");
    match line.key(Key::Enter, false) {
        LineOutcome::Submit(s) => assert_eq!(s, "set"),
        _ => panic!("Enter runs the line"),
    }
}

#[test]
fn backspace_on_an_empty_line_leaves_it() {
    let mut line = LineEdit::new();
    assert!(matches!(line.key(Key::Backspace, false), LineOutcome::Leave));
}

#[test]
fn only_the_keys_that_grow_or_scale_a_count_can_overflow_it() {
    let mut st = state();
    st.count = Some((usize::MAX - 9) / 10);
    assert!(count_fits(&st, Key::Char('j'), false));
    st.count = Some(usize::MAX / 100);
    assert!(!count_fits(&st, Key::Char(']'), false));
    assert!(count_fits(&st, Key::Char('j'), false));
    st.count = Some(usize::MAX);
    assert!(!count_fits(&st, Key::Char('j'), false));
    st.count = Some(3);
    assert!(count_fits(&st, Key::Char('['), false));
    assert!(edit_count_fits(Some(usize::MAX), Key::Char('w'), false));
    assert!(!edit_count_fits(Some(usize::MAX), Key::Char('1'), false));
    assert!(edit_count_fits(Some(usize::MAX / 10), Key::Char('5'), false));
}
