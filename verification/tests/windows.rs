use vibox::keys::Key;
use vibox::windows::{help_key, window_key, WindowAct, Windows};

fn press(w: &mut Windows, key: Key, ctrl: bool, count: &mut Option<usize>) -> WindowAct {
    assert!(w.key_fits(key, ctrl, *count));
    window_key(w, key, ctrl, count, 77)
}

#[test]
fn help_scrolls_within_its_rows_and_closes() {
    let mut w = Windows::new();
    w.help = true;
    help_key(&mut w, Key::Char('j'), false, 77);
    assert_eq!(w.help_scroll, 1);
    help_key(&mut w, Key::Char('G'), false, 77);
    assert_eq!(w.help_scroll, 76);
    help_key(&mut w, Key::Down, false, 77);
    assert_eq!(w.help_scroll, 76);
    help_key(&mut w, Key::Char('u'), true, 77);
    assert_eq!(w.help_scroll, 66);
    help_key(&mut w, Key::Char('k'), false, 77);
    assert_eq!(w.help_scroll, 65);
    help_key(&mut w, Key::Char('g'), false, 77);
    assert_eq!(w.help_scroll, 0);
    help_key(&mut w, Key::Up, false, 77);
    assert_eq!(w.help_scroll, 0);
    help_key(&mut w, Key::Char('d'), true, 77);
    assert_eq!(w.help_scroll, 10);
    help_key(&mut w, Key::F(1), false, 77);
    assert!(!w.help);
    assert_eq!(w.help_scroll, 0);
}

#[test]
fn ctrl_d_without_ctrl_does_not_scroll_help() {
    let mut w = Windows::new();
    w.help = true;
    help_key(&mut w, Key::Char('d'), false, 77);
    assert_eq!(w.help_scroll, 0);
    assert!(w.help);
}

#[test]
fn info_y_asks_for_the_path_and_closes() {
    let mut w = Windows::new();
    w.info = true;
    let mut count = Some(4);
    assert_eq!(press(&mut w, Key::Char('y'), false, &mut count), WindowAct::CopyPath);
    assert!(!w.info);
    assert_eq!(count, Some(4), "the info window leaves the count alone");
    w.info = true;
    assert_eq!(press(&mut w, Key::Char('j'), false, &mut count), WindowAct::Nothing);
    assert!(w.info);
    assert_eq!(press(&mut w, Key::Char('K'), false, &mut count), WindowAct::Nothing);
    assert!(!w.info);
}

#[test]
fn changes_pan_by_four_columns_a_step_and_use_up_the_count() {
    let mut w = Windows::new();
    w.changes = true;
    let mut count = Some(3);
    press(&mut w, Key::Char('l'), false, &mut count);
    assert_eq!(w.changes_pan, 12);
    assert_eq!(count, None);
    press(&mut w, Key::Left, false, &mut count);
    assert_eq!(w.changes_pan, 8);
    let mut two = Some(2);
    press(&mut w, Key::Char('h'), false, &mut two);
    assert_eq!(w.changes_pan, 0);
    press(&mut w, Key::Char('$'), false, &mut count);
    assert_eq!(w.changes_pan, usize::MAX);
    assert!(!w.key_fits(Key::Char('l'), false, None), "past the end of a usize");
    press(&mut w, Key::Char('0'), false, &mut count);
    assert_eq!(w.changes_pan, 0);
}

#[test]
fn changes_scroll_and_close_back_at_the_start() {
    let mut w = Windows::new();
    w.changes = true;
    let mut count = Some(5);
    press(&mut w, Key::Char('j'), false, &mut count);
    assert_eq!(w.changes_top, 5);
    press(&mut w, Key::Char('d'), true, &mut count);
    assert_eq!(w.changes_top, 15);
    press(&mut w, Key::Char('u'), true, &mut count);
    assert_eq!(w.changes_top, 5);
    press(&mut w, Key::Up, false, &mut count);
    assert_eq!(w.changes_top, 4);
    press(&mut w, Key::End, false, &mut count);
    assert_eq!(w.changes_top, usize::MAX);
    press(&mut w, Key::Char('l'), false, &mut count);
    press(&mut w, Key::Esc, false, &mut count);
    assert!(!w.changes);
    assert_eq!((w.changes_pan, w.changes_top), (0, 0));
}

#[test]
fn changes_y_asks_for_the_whole_list_and_closes() {
    let mut w = Windows::new();
    w.changes = true;
    let mut count = None;
    assert_eq!(press(&mut w, Key::Char('y'), false, &mut count), WindowAct::CopyChanges);
    assert!(!w.changes);
}

#[test]
fn history_scrolls_by_the_count() {
    let mut w = Windows::new();
    w.history = true;
    let mut count = Some(5);
    press(&mut w, Key::Char('j'), false, &mut count);
    assert_eq!(w.history_top, 5);
    assert_eq!(count, None);
    press(&mut w, Key::Char('k'), false, &mut count);
    assert_eq!(w.history_top, 4);
    press(&mut w, Key::Char('G'), false, &mut count);
    assert_eq!(w.history_top, usize::MAX);
    press(&mut w, Key::Home, false, &mut count);
    assert_eq!(w.history_top, 0);
    press(&mut w, Key::Enter, false, &mut count);
    assert!(!w.history);
}

#[test]
fn the_info_window_comes_before_the_others() {
    let mut w = Windows::new();
    w.info = true;
    w.help = true;
    let mut count = None;
    press(&mut w, Key::Char('q'), false, &mut count);
    assert!(!w.info);
    assert!(w.help, "only the top window closes");
    assert!(w.any_open());
}

#[test]
fn with_no_window_up_a_key_changes_nothing() {
    let mut w = Windows::new();
    let mut count = Some(3);
    assert_eq!(press(&mut w, Key::Char('q'), false, &mut count), WindowAct::Nothing);
    assert_eq!(w, Windows::new());
    assert_eq!(count, Some(3));
    assert!(!w.any_open());
}
