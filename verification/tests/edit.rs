//! The rename buffer's keys: counts, operators, insert, and the register.

use vibox::edit::{buffer_key, edit_decide, edit_insert, operate, EditStep};
use vibox::keys::Key;
use vibox::name::NameBuffer;

/// Runs keys through the motions on a name the way the program does, and
/// hands back the buffer and the register.
fn type_keys(text: &str, keys: &[Key]) -> (NameBuffer, String) {
    let mut buf = NameBuffer::new(text);
    let mut reg = String::new();
    let mut count: Option<usize> = None;
    let mut pending: Option<char> = None;
    let mut inserting = false;
    for &k in keys {
        if inserting {
            if edit_insert(&mut buf, k, false) {
                inserting = false;
            }
            continue;
        }
        let (step, after) = edit_decide(count, pending, buf.selecting(), false, k, false);
        count = after;
        match step {
            EditStep::Await(op) => pending = Some(op),
            EditStep::Operator(op, n) => {
                pending = None;
                if let Some(t) = operate(&mut buf, op, k, n) {
                    if !t.is_empty() {
                        reg = t;
                    }
                }
                if op == 'c' {
                    inserting = true;
                }
            }
            EditStep::StopVisual => buf.stop_visual(),
            EditStep::Buffer { insert, count: n, .. } => {
                if buffer_key(&mut buf, k, false, n, &mut reg) && insert {
                    inserting = true;
                }
            }
            _ => {}
        }
    }
    (buf, reg)
}

fn keys(s: &str) -> Vec<Key> {
    s.chars().map(Key::Char).collect()
}

#[test]
fn three_x_takes_three_characters_into_the_register() {
    let (buf, reg) = type_keys("abcdef", &keys("3x"));
    assert_eq!(buf.text(), "def");
    assert_eq!(reg, "abc");
}

#[test]
fn a_count_before_or_after_the_operator_means_the_same() {
    let (a, _) = type_keys("one two three four", &keys("2dw"));
    let (b, _) = type_keys("one two three four", &keys("d2w"));
    assert_eq!(a.text(), "three four");
    assert_eq!(b.text(), "three four");
}

#[test]
fn yw_takes_what_dw_would_and_changes_nothing() {
    let (buf, reg) = type_keys("one two", &keys("yw"));
    assert_eq!(buf.text(), "one two");
    assert_eq!(reg, "one ");
}

#[test]
fn cw_then_typing_replaces_the_word() {
    let mut ks = keys("cwfirst");
    ks.push(Key::Esc);
    let (buf, _) = type_keys("one two", &ks);
    assert_eq!(buf.text(), "first two");
}

#[test]
fn dd_empties_the_name_and_p_puts_it_back() {
    let (buf, reg) = type_keys("whole name", &keys("ddp"));
    assert_eq!(reg, "whole name");
    assert_eq!(buf.text(), "whole name");
}

#[test]
fn a_dollar_delete_takes_the_rest_of_the_name() {
    let (buf, reg) = type_keys("keep cut", &keys("wd$"));
    assert_eq!(buf.text(), "keep ");
    assert_eq!(reg, "cut");
}

#[test]
fn capital_a_appends_at_the_end() {
    let mut ks = keys("A!");
    ks.push(Key::Esc);
    let (buf, _) = type_keys("name", &ks);
    assert_eq!(buf.text(), "name!");
}

#[test]
fn zero_moves_to_the_front_until_a_count_has_started() {
    let (step, count) = edit_decide(None, None, false, false, Key::Char('0'), false);
    assert!(matches!(step, EditStep::Buffer { .. }));
    assert_eq!(count, None);
    let (step, count) = edit_decide(Some(1), None, false, false, Key::Char('0'), false);
    assert_eq!(step, EditStep::Count(10));
    assert_eq!(count, Some(10));
}

#[test]
fn escape_drops_a_selection_before_it_leaves_the_name() {
    let (step, _) = edit_decide(None, None, true, false, Key::Esc, false);
    assert_eq!(step, EditStep::StopVisual);
    let (step, count) = edit_decide(Some(3), None, false, false, Key::Esc, false);
    assert_eq!(step, EditStep::Leave);
    assert_eq!(count, None);
}

#[test]
fn j_and_k_move_between_rows_only_when_renaming_tracks() {
    let (step, _) = edit_decide(None, None, false, true, Key::Char('j'), false);
    assert_eq!(step, EditStep::NextRow(true));
    let (step, _) = edit_decide(None, None, false, true, Key::Up, false);
    assert_eq!(step, EditStep::NextRow(false));
    let (step, _) = edit_decide(None, None, false, false, Key::Char('j'), false);
    assert!(matches!(step, EditStep::Buffer { checkpoint: false, insert: false, count: 1 }));
}

#[test]
fn edits_take_a_snapshot_and_motions_do_not() {
    let (step, _) = edit_decide(None, None, false, false, Key::Char('x'), false);
    assert!(matches!(step, EditStep::Buffer { checkpoint: true, insert: false, .. }));
    let (step, _) = edit_decide(None, None, false, false, Key::Char('w'), false);
    assert!(matches!(step, EditStep::Buffer { checkpoint: false, insert: false, .. }));
    let (step, _) = edit_decide(None, None, false, false, Key::Char('s'), false);
    assert!(matches!(step, EditStep::Buffer { checkpoint: true, insert: true, .. }));
}

#[test]
fn a_visual_delete_takes_the_selection() {
    let (buf, reg) = type_keys("abcdef", &keys("lvlld"));
    assert_eq!(buf.text(), "aef");
    assert_eq!(reg, "bcd");
}

#[test]
fn an_empty_take_leaves_the_register_alone() {
    let mut buf = NameBuffer::new("");
    let mut reg = "kept".to_string();
    assert!(buffer_key(&mut buf, Key::Char('x'), false, 1, &mut reg));
    assert_eq!(reg, "kept");
    assert!(!buffer_key(&mut buf, Key::Char('Q'), false, 1, &mut reg));
}

#[test]
fn insert_keys_type_and_delete() {
    let mut buf = NameBuffer::new("ab");
    buf.append_at_end();
    assert!(!edit_insert(&mut buf, Key::Char('c'), false));
    assert!(!edit_insert(&mut buf, Key::Backspace, false));
    assert!(!edit_insert(&mut buf, Key::Char('w'), true));
    assert_eq!(buf.text(), "");
    assert!(edit_insert(&mut buf, Key::Enter, false));
}
