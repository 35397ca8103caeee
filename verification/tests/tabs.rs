use vibox::app::tabs::{Jump, Tabs, ViewTab};
use vibox::library::SortKey;

fn folder(f: usize, cur: usize) -> ViewTab {
    ViewTab { playlist: None, folder: f, cur, top: 0, sort_key: SortKey::Path, rows: Vec::new(), dirty: false }
}

fn playlist(name: &str, rows: Vec<usize>, dirty: bool) -> ViewTab {
    ViewTab { playlist: Some(name.to_string()), folder: 0, cur: 0, top: 0, sort_key: SortKey::Path, rows, dirty }
}

fn folders() -> Vec<(String, String)> {
    vec![("rock".to_string(), "/m/rock".to_string()), ("jazz".to_string(), "/m/jazz".to_string())]
}

#[test]
fn one_tab_does_not_cycle() {
    let mut t = Tabs::new(folder(0, 0));
    assert!(t.cycle(folder(0, 3), 1).is_none());
    assert_eq!(t.len(), 1);
    assert_eq!(t.current(), 0);
}

#[test]
fn a_new_tab_opens_after_the_current_one_and_cycles_round() {
    let mut t = Tabs::new(folder(0, 0));
    t.open_after(folder(0, 5));
    assert_eq!((t.len(), t.current()), (2, 1));
    // The tab left behind keeps where its cursor was.
    let back = t.cycle(folder(1, 2), 1).unwrap();
    assert_eq!(t.current(), 0);
    assert_eq!((back.folder, back.cur), (0, 5));
    let again = t.cycle(folder(0, 7), -1).unwrap();
    assert_eq!(t.current(), 1);
    assert_eq!((again.folder, again.cur), (1, 2));
    let far = t.cycle(folder(1, 2), -3).unwrap();
    assert_eq!(t.current(), 0);
    assert_eq!(far.cur, 7);
}

#[test]
fn asking_for_an_open_view_goes_to_its_tab() {
    let mut t = Tabs::new(folder(0, 0));
    t.open_after(folder(0, 0));
    // The new tab now shows the playlist `mix`.
    match t.jump_to(playlist("mix", vec![1], false), Some("mix"), 0) {
        Jump::Here => {}
        _ => panic!("the tab on screen shows it"),
    }
    match t.jump_to(playlist("mix", vec![1], false), None, 0) {
        Jump::Switched(tab) => assert_eq!(tab.folder, 0),
        _ => panic!("the first tab shows the whole library"),
    }
    assert_eq!(t.current(), 0);
    match t.jump_to(folder(0, 0), None, 2) {
        Jump::NotOpen => {}
        _ => panic!("no tab shows folder 2"),
    }
    assert_eq!(t.len(), 2, "asking never opens a tab by itself");
}

#[test]
fn closing_brings_up_a_neighbour_and_the_last_stays() {
    let mut t = Tabs::new(folder(0, 0));
    t.open_after(folder(0, 0));
    t.open_after(folder(1, 0));
    assert_eq!(t.current(), 2);
    let up = t.close().unwrap();
    assert_eq!((t.len(), t.current()), (2, 1));
    assert_eq!(up.folder, 1);
    t.close().unwrap();
    assert!(t.close().is_none(), "the last tab closes vibox instead");
    assert_eq!(t.len(), 1);
}

#[test]
fn labels_name_each_view_and_mark_the_unwritten() {
    let mut t = Tabs::new(folder(0, 0));
    t.open_after(folder(0, 0));
    t.cycle(playlist("mix", vec![0], true), 1);
    let labels = t.labels(&folder(2, 0), &folders());
    assert_eq!(labels, vec![("jazz".to_string(), false), ("mix".to_string(), true)]);
    let labels = t.labels(&folder(9, 0), &folders());
    assert_eq!(labels[0], ("everything".to_string(), false));
}

#[test]
fn only_other_tabs_count_as_dirty_and_clean_clears_them() {
    let mut t = Tabs::new(folder(0, 0));
    t.open_after(folder(0, 0));
    t.cycle(playlist("mix", vec![0, 2], true), 1);
    assert_eq!(t.dirty_others(), vec![("mix".to_string(), vec![0, 2])]);
    t.cycle(folder(0, 0), 1);
    assert!(t.dirty_others().is_empty(), "the tab on screen is not another tab");
    t.cycle(playlist("mix", vec![0, 2], true), 1);
    assert!(!t.dirty_others().is_empty());
    t.clean(true);
    assert!(t.dirty_others().is_empty());
}

#[test]
fn rows_follow_the_library() {
    let mut t = Tabs::new(folder(0, 0));
    t.open_after(folder(0, 0));
    t.cycle(playlist("mix", vec![0, 2], true), 1);
    assert!(t.rows_below(3));
    assert!(!t.rows_below(2));
    t.remap_rows(&vec![2, 0, 1]);
    assert_eq!(t.dirty_others(), vec![("mix".to_string(), vec![2, 1])]);
    t.follow(&vec![None, Some(0), Some(1)]);
    assert_eq!(t.dirty_others(), vec![("mix".to_string(), vec![1, 0])]);
    t.follow(&vec![Some(0), None]);
    assert_eq!(t.dirty_others(), vec![("mix".to_string(), vec![0])]);
}

#[test]
fn a_renamed_playlist_stays_open_and_a_deleted_one_does_not() {
    let mut t = Tabs::new(playlist("mix", vec![0], true));
    t.open_after(playlist("mix", vec![0], true));
    t.rename_playlist("mix", "road");
    assert_eq!(t.labels(&folder(0, 0), &folders())[0].0, "road");
    t.drop_playlist("road");
    assert_eq!(t.labels(&folder(0, 0), &folders())[0], ("everything".to_string(), false));
}
