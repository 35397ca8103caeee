use vibox::app::pending::{NameEdit, Pending, Renames, Renaming};
use vibox::app::{Mode, Pane, Repeat, Tab};
use vibox::library::{SortKey, Track};
use vibox::lyric_pane::{current_line, lyric_rows, RowStyle};
use vibox::lyrics::Lyrics;
use vibox::name::NameBuffer;
use vibox::scrollbar::scrollbar;
use vibox::sidebar::{folder_rows, keep_in_view, library_len, playlist_rows};
use vibox::status::{cursor_split, pending_label, status_line};
use vibox::track_pane::{cells, header, row_look, selection_at, track_row, Cell, RowLook};

fn track(file: &str, artist: &str, title: &str, secs: u64) -> Track {
    Track {
        path: format!("/m/{file}.flac"),
        in_library: true,
        file: file.to_string(),
        title: title.to_string(),
        artist: artist.to_string(),
        album: "Album".to_string(),
        album_artist: String::new(),
        track_no: None,
        disc_no: None,
        year: None,
        genre: String::new(),
        duration_ms: secs * 1000,
    }
}

fn synced() -> Lyrics {
    Lyrics::Synced(vec![(0, "one".to_string()), (1000, "two".to_string()), (2000, "three".to_string())])
}

fn texts(rows: &[(String, RowStyle)]) -> Vec<(&str, RowStyle)> {
    rows.iter().map(|(t, s)| (t.as_str(), *s)).collect()
}

#[test]
fn the_line_sung_is_the_last_one_whose_time_has_passed() {
    let l = vec![(0u64, "a".to_string()), (1000, "b".to_string()), (2000, "c".to_string())];
    assert_eq!(current_line(&l, 0, 1500), Some(1));
    assert_eq!(current_line(&l, 0, 2000), Some(2));
    assert_eq!(current_line(&l, 600, 1500), Some(0));
    assert_eq!(current_line(&l, -600, 1500), Some(2));
    assert_eq!(current_line(&l, 500, 100), None);
    assert_eq!(current_line(&[], 0, 100), None);
}

#[test]
fn lyric_rows_pick_out_the_line_being_sung() {
    let l = synced();
    let (rows, current) = lyric_rows(true, Some(&l), false, 0, 1500, 40);
    assert_eq!(texts(&rows), vec![(" one", RowStyle::Dim), (" two", RowStyle::Current), (" three", RowStyle::Dim)]);
    assert_eq!(current, Some(1));
    let (_, before) = lyric_rows(true, Some(&l), false, 500, 100, 40);
    assert_eq!(before, None);
}

#[test]
fn lyric_rows_say_why_there_is_nothing() {
    let (rows, current) = lyric_rows(false, None, false, 0, 0, 40);
    assert_eq!(texts(&rows), vec![("  nothing playing", RowStyle::Dim)]);
    assert_eq!(current, None);
    let (rows, _) = lyric_rows(true, None, true, 0, 0, 40);
    assert_eq!(texts(&rows), vec![("  looking on lrclib...", RowStyle::Dim)]);
    let (rows, _) = lyric_rows(true, None, false, 0, 0, 40);
    assert_eq!(texts(&rows), vec![("  ...", RowStyle::Dim)]);
    let missing = Lyrics::Missing("no lyrics found".to_string());
    let (rows, _) = lyric_rows(true, Some(&missing), false, 0, 0, 40);
    assert_eq!(texts(&rows), vec![("  no lyrics found", RowStyle::Dim)]);
}

#[test]
fn plain_lyrics_are_wrapped_and_not_followed() {
    let plain = Lyrics::Plain(vec!["la la".to_string(), "one two three four five six".to_string()]);
    let (rows, current) = lyric_rows(true, Some(&plain), false, 0, 0, 10);
    assert_eq!(
        texts(&rows),
        vec![(" la la", RowStyle::Plain), (" one two", RowStyle::Plain), ("   three", RowStyle::Plain), ("   four", RowStyle::Plain), ("   five", RowStyle::Plain), ("   six", RowStyle::Plain)]
    );
    assert_eq!(current, None);
}

#[test]
fn the_statusline_keeps_its_fixed_parts_whole() {
    let s = status_line(Mode::Normal, false, Pane::Tracks, Tab::Folders, false, None, None, SortKey::Path, Repeat::Off, false, 0, 0, 60);
    assert_eq!(s.left, " NORMAL ");
    assert_eq!(s.place, "");
    assert_eq!(s.dirty, "");
    assert_eq!(s.vol, " vol no audio ");
    assert_eq!(s.right, " path rep:-      0/0 ");
    assert_eq!(s.middle, format!(" - {}", " ".repeat(14)));
    let narrow = status_line(Mode::Normal, false, Pane::Tracks, Tab::Folders, false, None, None, SortKey::Path, Repeat::Off, false, 0, 0, 40);
    assert_eq!(narrow.middle, "", "the track name gives way first");
}

#[test]
fn the_statusline_names_the_track_volume_and_position() {
    let t = track("01 song", "Band", "Song", 200);
    let s = status_line(Mode::Edit, true, Pane::Folders, Tab::Playlists, true, Some(&t), Some((false, 70)), SortKey::Artist, Repeat::All, true, 4, 12, 200);
    assert_eq!(s.left, " VISUAL ");
    assert_eq!(s.place, " PLAYLISTS ");
    assert_eq!(s.dirty, " [+] ");
    assert_eq!(s.vol, " vol 70% ");
    assert_eq!(s.right, " artist rep:all shf  5/12 ");
    assert!(s.middle.starts_with(" Band - Song "));
    let muted = status_line(Mode::Command, false, Pane::Folders, Tab::Folders, false, None, Some((true, 70)), SortKey::Path, Repeat::One, false, 0, 3, 80);
    assert_eq!(muted.left, " COMMAND ");
    assert_eq!(muted.place, " FOLDERS ");
    assert_eq!(muted.vol, " vol mute ");
    assert_eq!(muted.right, " path rep:one      1/3 ");
    let untitled = track("x", "", "Only Title", 1);
    let s = status_line(Mode::Normal, false, Pane::Tracks, Tab::Folders, false, Some(&untitled), None, SortKey::Path, Repeat::Off, false, 0, 1, 80);
    assert!(s.middle.starts_with(" Only Title "));
}

#[test]
fn a_half_typed_command_shows_bottom_right() {
    assert_eq!(pending_label(Some(12), Some('g')), "12g");
    assert_eq!(pending_label(None, Some('\u{17}')), "^W");
    assert_eq!(pending_label(Some(3), None), "3");
    assert_eq!(pending_label(None, None), "");
}

#[test]
fn the_command_line_splits_at_its_cursor() {
    let t: Vec<char> = "abc".chars().collect();
    assert_eq!(cursor_split(&t, 1), (vec!['a'], 'b', vec!['c']));
    assert_eq!(cursor_split(&t, 3), (vec!['a', 'b', 'c'], ' ', vec![]));
    assert_eq!(cursor_split(&t, 9), (vec!['a', 'b', 'c'], ' ', vec![]));
    assert_eq!(cursor_split(&t, 0), (vec![], 'a', vec!['b', 'c']));
}

#[test]
fn the_header_sits_over_its_columns() {
    let cols: Vec<(&'static str, usize)> = vec![("file", 6), ("title", 4)];
    assert_eq!(header(&cols, 6, 5), "      file   tit…  time");
}

#[test]
fn a_row_numbers_relative_to_the_cursor() {
    let t = track("song", "Band", "Song", 243);
    let cols: Vec<(&'static str, usize)> = vec![("file", 6), ("artist", 5)];
    assert_eq!(track_row(&t, 2, 2, false, false, &None, None, &cols, 3, 5, 40), "  3   song   Band   4:03                ");
    assert_eq!(track_row(&t, 5, 2, true, false, &None, None, &cols, 3, 5, 40), ">   3 song   Band   4:03                ");
    assert_eq!(track_row(&t, 1, 2, true, true, &None, None, &cols, 3, 5, 40), "|   1 song   Band   4:03                ");
}

#[test]
fn a_renamed_row_shows_the_new_name_with_a_tilde() {
    let t = track("song", "Band", "Song", 3725);
    let cols: Vec<(&'static str, usize)> = vec![("file", 8)];
    let edited = Some("new name".to_string());
    assert_eq!(track_row(&t, 0, 0, false, false, &edited, None, &cols, 3, 7, 30), "~ 1   new name 1:02:05        ");
    assert_eq!(track_row(&t, 0, 0, false, false, &edited, Some(4), &cols, 3, 7, 30), "~ 1   name     1:02:05        ");
    let same = Some("song".to_string());
    assert!(track_row(&t, 0, 0, false, false, &same, None, &cols, 3, 7, 30).starts_with("  1"));
}

#[test]
fn the_row_look_goes_by_priority() {
    assert_eq!(row_look(true, true, true, true, true), RowLook::Selected);
    assert_eq!(row_look(false, true, true, true, true), RowLook::Editing);
    assert_eq!(row_look(false, false, true, true, true), RowLook::Cursor);
    assert_eq!(row_look(false, false, false, true, true), RowLook::Doomed);
    assert_eq!(row_look(false, false, false, false, true), RowLook::Playing);
    assert_eq!(row_look(false, false, false, false, false), RowLook::Plain);
}

#[test]
fn a_selection_moves_into_the_row() {
    assert_eq!(selection_at(Some((2, 5)), 6, 1), Some((7, 10)));
    assert_eq!(selection_at(Some((0, 5)), 6, 3), Some((6, 8)));
    assert_eq!(selection_at(Some((0, 2)), 6, 3), None);
    assert_eq!(selection_at(None, 6, 0), None);
}

#[test]
fn the_cursor_cell_is_held_to_the_row() {
    assert_eq!(cells(4, 1, Some((2, 3))), vec![Cell::Plain, Cell::Cursor, Cell::Picked, Cell::Picked]);
    assert_eq!(cells(3, 9, None), vec![Cell::Plain, Cell::Plain, Cell::Cursor]);
    assert_eq!(cells(0, 0, None), Vec::<Cell>::new());
}

#[test]
fn the_folder_tree_starts_with_everything() {
    let folders = vec![("rock".to_string(), "/m/rock".to_string()), ("jazz".to_string(), "/m/jazz".to_string())];
    let mut p = Pending::new();
    p.doomed_dirs.push("/m/jazz".to_string());
    let rows = folder_rows(&folders, 12, &p.renames, &None, &p.doomed_dirs, Mode::Normal, 1, 0, 10);
    let got: Vec<(String, bool, bool, bool)> = rows.into_iter().map(|r| (r.text, r.cursor, r.editing, r.doomed)).collect();
    assert_eq!(
        got,
        vec![
            ("* everything (12)".to_string(), false, false, false),
            ("rock".to_string(), true, false, false),
            ("jazz".to_string(), false, false, true),
        ]
    );
    assert_eq!(folder_rows(&folders, 12, &p.renames, &None, &p.doomed_dirs, Mode::Normal, 1, 1, 1).len(), 1);
    assert_eq!(folder_rows(&folders, 12, &p.renames, &None, &p.doomed_dirs, Mode::Normal, 1, 5, 3).len(), 0);
}

#[test]
fn a_folder_being_renamed_shows_what_is_typed() {
    let folders = vec![("rock".to_string(), "/m/rock".to_string())];
    let renames = Renames::new();
    let edit = Some(NameEdit { buf: NameBuffer::new("rocks"), what: Renaming::Folder("/m/rock".to_string()) });
    let rows = folder_rows(&folders, 1, &renames, &edit, &Vec::new(), Mode::Edit, 1, 0, 5);
    assert_eq!(rows[1].text, "rocks");
    assert!(rows[1].editing);
    assert!(!rows[0].editing);
}

#[test]
fn playlists_show_renames_and_deletions() {
    let lists = vec![("chill".to_string(), "/p/chill.m3u".to_string()), ("gym".to_string(), "/p/gym.m3u".to_string())];
    let mut renames = Renames::new();
    renames.insert(Renaming::Playlist("gym".to_string()), "run".to_string());
    let doomed = vec!["/p/chill.m3u".to_string()];
    let rows = playlist_rows(&lists, &renames, &None, &doomed, Mode::Normal, 1, 0, 5);
    assert_eq!(rows.len(), 2);
    assert_eq!((rows[0].text.as_str(), rows[0].doomed, rows[0].cursor), ("chill", true, false));
    assert_eq!((rows[1].text.as_str(), rows[1].doomed, rows[1].cursor), ("run", false, true));
    assert_eq!(playlist_rows(&lists, &renames, &None, &doomed, Mode::Normal, 1, 1, 5).len(), 1);
}

#[test]
fn the_sidebar_scrolls_no_further_than_it_takes() {
    assert_eq!(keep_in_view(0, 3, 10), 0);
    assert_eq!(keep_in_view(0, 12, 10), 3);
    assert_eq!(keep_in_view(5, 2, 10), 2);
    assert_eq!(keep_in_view(4, 4, 0), 4);
    assert_eq!(keep_in_view(4, 5, 0), 5);
}

#[test]
fn everything_counts_only_the_library() {
    let mut outside = track("x", "", "", 1);
    outside.in_library = false;
    assert_eq!(library_len(&[track("a", "", "", 1), outside, track("b", "", "", 1)]), 2);
}

#[test]
fn the_thumb_shows_the_share_in_view() {
    assert_eq!(scrollbar(10, 100, 0, 10), vec![true, false, false, false, false, false, false, false, false, false]);
    assert_eq!(scrollbar(10, 100, 90, 10), vec![false, false, false, false, false, false, false, false, false, true]);
    assert_eq!(scrollbar(4, 8, 2, 4), vec![false, true, true, false]);
    assert_eq!(scrollbar(4, 2, 0, 4), vec![true, true, true, true]);
    assert!(scrollbar(0, 8, 0, 4).is_empty());
    assert!(scrollbar(4, 0, 0, 4).is_empty());
}
