//! The rename buffer: vi motions and edits on one name.

use vibox::name::NameBuffer;

fn buffer(text: &str, col: usize) -> NameBuffer {
    let mut buf = NameBuffer::new(text);
    for _ in 0..col {
        buf.right();
    }
    buf
}

#[test]
fn w_treats_punctuation_as_its_own_word() {
    let mut buf = buffer("ABBA - As Good as New", 0);
    buf.jump_word_forward();
    assert_eq!(buf.col(), 5, "the dash is a word");
    buf.jump_word_forward();
    assert_eq!(buf.col(), 7);
    buf.jump_word_forward();
    assert_eq!(buf.col(), 10);
}

#[test]
fn b_comes_back_over_punctuation_the_same_way() {
    let mut buf = buffer("ABBA - As", 7);
    buf.jump_word_back();
    assert_eq!(buf.col(), 5);
    buf.jump_word_back();
    assert_eq!(buf.col(), 0);
}

#[test]
fn cw_takes_the_whole_word_when_there_is_only_one() {
    let mut buf = buffer("testing", 0);
    buf.delete_word(true);
    assert_eq!(buf.text(), "", "cw on a single word leaves nothing behind");
}

#[test]
fn cw_stops_at_the_end_of_the_word_and_dw_takes_the_space() {
    let mut change = buffer("Knife Party", 0);
    change.delete_word(true);
    assert_eq!(change.text(), " Party");

    let mut delete = buffer("Knife Party", 0);
    delete.delete_word(false);
    assert_eq!(delete.text(), "Party");
}

#[test]
fn typing_inserts_at_the_cursor_and_moves_it_along() {
    let mut buf = buffer("ac", 1);
    buf.insert('b');
    assert_eq!(buf.text(), "abc");
    assert_eq!(buf.col(), 2);
    buf.backspace();
    assert_eq!(buf.text(), "ac");
}

#[test]
fn the_motions_hold_on_an_empty_name() {
    let mut buf = NameBuffer::new("");
    buf.jump_word_forward();
    buf.jump_word_back();
    buf.jump_word_end();
    buf.right();
    buf.delete_here();
    assert_eq!(buf.text(), "");
    assert_eq!(buf.col(), 0);
}

#[test]
fn the_window_follows_the_cursor_in_a_narrow_column() {
    let mut buf = buffer("a very long name indeed", 0);
    buf.follow(10);
    assert_eq!(buf.scroll(), 0);

    buf.jump_end();
    buf.follow(10);
    assert!(buf.scroll() > 0, "the far end has to be visible");
    assert!(buf.col() >= buf.scroll());
}

/// Two buffers are two buffers: this is the whole point of the type.
#[test]
fn buffers_do_not_share_anything() {
    let mut one = NameBuffer::new("folder");
    let mut two = NameBuffer::new("track");
    one.clear();
    one.insert('x');
    two.jump_end();
    assert_eq!(one.text(), "x");
    assert_eq!(two.text(), "track");
    assert_eq!(one.col(), 1);
    assert_eq!(two.col(), 4);
}

#[test]
fn p_puts_after_the_cursor_and_capital_p_before_it() {
    let mut after = buffer("abc", 1);
    after.paste("XY", true);
    assert_eq!(after.text(), "abXYc", "p goes after the character under the cursor");

    let mut before = buffer("abc", 1);
    before.paste("XY", false);
    assert_eq!(before.text(), "aXYbc", "P goes before it");
}

#[test]
fn a_put_leaves_the_cursor_on_what_it_put() {
    let mut buf = buffer("abc", 0);
    buf.paste("XY", true);
    assert_eq!(buf.text(), "aXYbc");
    assert_eq!(buf.col(), 2, "on the last character put, so a second p does not stack");
}

#[test]
fn putting_into_an_empty_name_does_not_fall_off_the_end() {
    let mut buf = buffer("", 0);
    buf.paste("hi", true);
    assert_eq!(buf.text(), "hi", "there is no character to go after");
    assert_eq!(buf.col(), 1);
}

/// Every delete is a yank in vi, which is what makes `dw` then `$p` a move.
#[test]
fn a_delete_hands_back_what_it_took() {
    let mut buf = buffer("one two", 0);
    assert_eq!(buf.delete_word(false), "one ");
    assert_eq!(buf.text(), "two");

    let mut buf = buffer("abc", 1);
    assert_eq!(buf.delete_here(), "b");
    assert_eq!(buf.truncate_here(), "c");

    let mut buf = buffer("gone", 0);
    assert_eq!(buf.clear(), "gone");
    assert_eq!(buf.text(), "");
}

#[test]
fn v_selects_from_where_it_started_to_the_cursor() {
    let mut buf = buffer("one two", 0);
    assert!(!buf.selecting());
    buf.toggle_visual();
    assert!(buf.selecting());
    buf.jump_word_forward();
    assert_eq!(buf.selection(), Some((0, 4)), "both ends are included");

    // and selecting backwards is the same span
    let mut back = buffer("one two", 4);
    back.toggle_visual();
    back.jump_word_back();
    assert_eq!(back.selection(), Some((0, 4)));
}

#[test]
fn a_selection_is_dropped_without_touching_the_name() {
    let mut buf = buffer("keep me", 0);
    buf.toggle_visual();
    buf.jump_word_forward();
    buf.stop_visual();
    assert!(!buf.selecting());
    assert_eq!(buf.selection(), None);
    assert_eq!(buf.text(), "keep me");

    // `v` a second time drops it too
    buf.toggle_visual();
    buf.toggle_visual();
    assert!(!buf.selecting());
}

#[test]
fn copying_a_selection_leaves_it_alone_and_cutting_takes_it() {
    // `ve`, which is the idiom for "this word and no more": the character
    // under the cursor is in the selection, the way vi counts.
    let mut buf = buffer("one two", 0);
    buf.toggle_visual();
    buf.jump_word_end();
    assert_eq!(buf.copy_selection().as_deref(), Some("one"));
    assert_eq!(buf.text(), "one two", "y does not remove anything");

    assert_eq!(buf.cut_selection().as_deref(), Some("one"));
    assert_eq!(buf.text(), " two");
    assert!(!buf.selecting(), "the selection is spent");
}

/// vi counts the character under the cursor as selected, so `vw` reaches
/// one past the start of the next word rather than stopping short of it.
#[test]
fn a_selection_includes_the_character_under_the_cursor() {
    let mut buf = buffer("one two", 0);
    buf.toggle_visual();
    buf.jump_word_forward();
    assert_eq!(buf.col(), 4, "w landed on the `t`");
    assert_eq!(buf.copy_selection().as_deref(), Some("one t"));
}

/// The reason all of this exists: swapping the halves of `TITLE - ARTIST`
/// without retyping either of them.
#[test]
fn a_selection_can_be_cut_and_put_back_at_the_end() {
    let mut buf = buffer("TITLE - ARTIST", 0);

    // v, w onto the dash, l onto the space after it
    buf.toggle_visual();
    buf.jump_word_forward();
    buf.right();
    let taken = buf.cut_selection().unwrap();
    assert_eq!(taken, "TITLE - ");
    assert_eq!(buf.text(), "ARTIST");

    // $ then p
    buf.jump_end();
    buf.paste(&taken, true);
    assert_eq!(buf.text(), "ARTISTTITLE - ");
}

/// `yw` must take exactly what `dw` would, which is why it runs the same
/// motion on a copy instead of a second implementation of the maths.
#[test]
fn a_yank_takes_what_the_same_delete_would_have() {
    for motion in ["w", "e", "b", "$", "all"] {
        let start = buffer("one two three", 4);
        let mut cut = start.clone();
        let mut probe = start.clone();

        let (deleted, yanked) = match motion {
            "w" => (cut.delete_word(false), probe.delete_word(false)),
            "e" => (cut.delete_word(true), probe.delete_word(true)),
            "b" => (cut.delete_word_back(), probe.delete_word_back()),
            "$" => (cut.truncate_here(), probe.truncate_here()),
            _ => (cut.clear(), probe.clear()),
        };

        assert_eq!(deleted, yanked, "`y{motion}` and `d{motion}` take the same text");
        assert!(!yanked.is_empty(), "`{motion}` had something to take");
    }
}
