//! The player's state: modes, options, the queue, the cursor and undo.

use vibox::app::queue::seed_of;
use vibox::app::history::History;
use vibox::app::queue::{Queue, Step};
use vibox::app::view::Viewport;
use vibox::app::{plural, Columns, Mode, Repeat};

#[test]
fn tests_shuffle_goes_back_to_what_was_actually_played() {
    let mut q = Queue::start(vec![0, 1, 2, 3, 4], 0, 0x2545_F491_4F6C_DD1D);

    let mut heard = vec![q.pos];
    for _ in 0..3 {
        assert_eq!(q.advance(1, false, Repeat::Off, true), Step::Play);
        heard.push(q.pos);
    }

    // Walking back has to retrace those steps, not the queue order.
    for expected in heard.iter().rev().skip(1) {
        q.advance(-1, false, Repeat::Off, true);
        assert_eq!(q.pos, *expected);
    }
    assert_eq!(q.advance(-1, false, Repeat::Off, true), Step::NothingBefore);
}

#[test]
fn the_end_of_the_queue_stops_unless_it_repeats() {
    let mut q = Queue::start(vec![7, 8], 1, 1);
    assert_eq!(q.advance(1, true, Repeat::Off, false), Step::Stop);
    assert_eq!(q.pos, 1);
    assert_eq!(q.advance(1, true, Repeat::All, false), Step::Play);
    assert_eq!(q.pos, 0);
    assert_eq!(q.current(), Some(7));
    assert_eq!(q.advance(1, true, Repeat::One, false), Step::Play);
    assert_eq!(q.pos, 0, "repeat one plays the same track again");
    let mut empty = Queue::start(vec![], 0, 1);
    assert_eq!(empty.advance(1, false, Repeat::Off, false), Step::Idle);
}

#[test]
fn repeat_cycles_through_its_three_modes() {
    assert_eq!(Repeat::Off.next(), Repeat::All);
    assert_eq!(Repeat::All.next(), Repeat::One);
    assert_eq!(Repeat::One.next(), Repeat::Off);
    assert_eq!(Repeat::One.name(), "one");
    assert_eq!(Mode::EditInsert.label(), "INSERT");
}

#[test]
fn columns_are_options_by_name() {
    let mut c = Columns::default();
    assert_eq!(c.get("title"), Some(false));
    assert!(c.set("title", true));
    assert_eq!(c.get("title"), Some(true));
    assert!(!c.set("nonsense", true));
    assert_eq!(c.get("nonsense"), None);
    let shown: Vec<&str> = c.shown().into_iter().map(|(n, _)| n).collect();
    assert_eq!(shown, vec!["file", "title", "artist", "album"]);
    assert_eq!(plural(1), "");
    assert_eq!(plural(2), "s");
}

#[test]
fn the_cursor_keeps_a_margin_inside_the_window() {
    let mut v = Viewport { len: 100, cur: 0, top: 0, height: 10 };
    v.move_cursor(9);
    assert_eq!(v.cur, 9);
    assert_eq!(v.top, 3, "three rows stay below the cursor");
    v.goto(1000);
    assert_eq!(v.cur, 99);
    assert_eq!(v.top, 90);
    v.move_cursor(-1000);
    assert_eq!(v.cur, 0);
    assert_eq!(v.top, 0);
}

#[test]
fn an_empty_list_has_nowhere_to_move() {
    let mut v = Viewport { len: 0, cur: 0, top: 0, height: 10 };
    v.move_cursor(3);
    assert_eq!(v.cur, 0);
}

#[test]
fn undo_and_redo_step_between_snapshots() {
    let mut h: History<u32> = History::new();
    assert!(!h.can_undo());
    h.checkpoint(1);
    h.checkpoint(2);
    assert_eq!(h.undo(3), Some(2));
    assert_eq!(h.undo(2), Some(1));
    assert_eq!(h.undo(1), None);
    assert_eq!(h.redo(1), Some(2));
    h.checkpoint(5);
    assert_eq!(h.redo(5), None, "a new change forgets what could be redone");
}

#[test]
fn the_shuffle_seed_is_odd() {
    assert_eq!(seed_of(Some(10)), 11);
    assert_eq!(seed_of(Some((1u128 << 64) + 4)), 5);
    assert_eq!(seed_of(None), 0x2545_F491_4F6C_DD1D);
}
