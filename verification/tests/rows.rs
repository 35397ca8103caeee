//! The track list's bookkeeping: views, selections, search and reordering.

use vibox::app::rows::{
    apply_order, cut_rows, gather_at_cursor, gather_order, inverse, map_rows, put_rows, remap_by_path, rows_of,
    search_row, selection_range, view_of,
};
use vibox::library::Track;

fn track(file: &str, artist: &str, path: &str) -> Track {
    Track {
        path: path.to_string(),
        in_library: true,
        file: file.to_string(),
        title: file.to_string(),
        artist: artist.to_string(),
        album: String::new(),
        album_artist: String::new(),
        track_no: None,
        disc_no: None,
        year: None,
        genre: String::new(),
        duration_ms: 0,
    }
}

fn library() -> Vec<Track> {
    let mut outside = track("x", "Nobody", "/elsewhere/x.mp3");
    outside.in_library = false;
    vec![
        track("a", "ABBA", "/m/a.mp3"),
        track("b", "Björk", "/m/jazz/b.mp3"),
        outside,
        track("c", "Air", "/m/jazz/c.mp3"),
    ]
}

#[test]
fn a_selection_runs_from_the_anchor_to_the_cursor_in_visual_only() {
    assert_eq!(selection_range(Some(5), true, 2), (2, 5));
    assert_eq!(selection_range(Some(1), true, 3), (1, 3));
    assert_eq!(selection_range(Some(5), false, 2), (2, 2));
    assert_eq!(selection_range(None, true, 4), (4, 4));
}

#[test]
fn the_whole_library_leaves_out_tracks_from_outside_and_marked_ones() {
    let tracks = library();
    assert_eq!(view_of(&tracks, &None, &vec![]), vec![0, 1, 3]);
    assert_eq!(view_of(&tracks, &None, &vec!["/m/a.mp3".to_string()]), vec![1, 3]);
    assert_eq!(view_of(&tracks, &Some("/m/jazz".to_string()), &vec![]), vec![1, 3]);
}

#[test]
fn search_is_smartcase_and_wraps_around() {
    let tracks = library();
    let view = vec![0, 1, 3];
    assert_eq!(search_row(&tracks, &view, "air", false, 0), Some(2));
    assert_eq!(search_row(&tracks, &view, "AIR", false, 0), None, "an upper case pattern is literal");
    assert_eq!(search_row(&tracks, &view, "abba", false, 1), Some(0), "the search wraps past the end");
    assert_eq!(search_row(&tracks, &view, "a", true, 0), Some(2), "backwards from the top wraps to the bottom");
    assert_eq!(search_row(&tracks, &view, "", false, 0), None);
    assert_eq!(search_row(&tracks, &vec![], "a", false, 0), None);
}

#[test]
fn a_put_goes_after_the_cursor_and_a_cut_takes_the_rows() {
    let rows = vec![10, 11, 12];
    assert_eq!(put_rows(&rows, 0, &vec![7, 8]), (vec![10, 7, 8, 11, 12], 1));
    assert_eq!(put_rows(&rows, 9, &vec![7]), (vec![10, 11, 12, 7], 3));
    assert_eq!(cut_rows(&rows, 1, 9), (vec![10], vec![11, 12]));
    assert_eq!(cut_rows(&rows, 0, 0), (vec![11, 12], vec![10]));
}

#[test]
fn yanked_paths_find_their_rows_and_a_missing_one_is_skipped() {
    let tracks = library();
    let paths = vec!["/m/jazz/c.mp3".to_string(), "/gone.mp3".to_string(), "/m/a.mp3".to_string()];
    assert_eq!(rows_of(&tracks, &paths), vec![3, 0]);
}

#[test]
fn a_resort_finds_every_track_again_by_its_path() {
    let before: Vec<String> = library().iter().map(|t| t.path.clone()).collect();
    let mut after = library();
    after.reverse();
    let remap = remap_by_path(&before, &after).unwrap();
    assert_eq!(remap, vec![3, 2, 1, 0]);
    assert_eq!(map_rows(&vec![0, 3], &remap), vec![3, 0]);
    let missing = vec!["/nowhere.mp3".to_string()];
    assert_eq!(remap_by_path(&missing, &after), None);
}

#[test]
fn gathered_rows_land_in_front_of_the_cursor() {
    let order = gather_order(&vec![false, true, false, true, false], Some(2));
    assert_eq!(order, vec![0, 1, 3, 2, 4]);
    assert_eq!(gather_order(&vec![true, false], None), vec![1, 0]);
    let inv = inverse(&order);
    assert_eq!(inv, vec![0, 1, 3, 2, 4]);
    assert_eq!(apply_order(vec!['a', 'b', 'c', 'd', 'e'], &order), vec!['a', 'b', 'd', 'c', 'e']);

    let moved = vec!["/m/jazz/c.mp3".to_string()];
    let (tracks, remap) = gather_at_cursor(library(), &moved, Some(1));
    let files: Vec<&str> = tracks.iter().map(|t| t.file.as_str()).collect();
    assert_eq!(files, vec!["a", "c", "b", "x"]);
    assert_eq!(remap, vec![0, 2, 3, 1]);
}
