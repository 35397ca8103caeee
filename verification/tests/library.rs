//! The library: durations, what a scan keeps, searching, playlists as text,
//! folder labels and sorting.

use vibox::library::{fmt_duration, folders, is_audio, is_playlist, m3u_paths, m3u_text, sort, SortKey, Track};

fn track(file: &str, artist: &str, secs: u64, path: &str) -> Track {
    Track {
        path: path.to_string(),
        in_library: true,
        file: file.to_string(),
        title: file.to_string(),
        artist: artist.to_string(),
        album: "Album".to_string(),
        album_artist: artist.to_string(),
        track_no: None,
        disc_no: None,
        year: None,
        genre: String::new(),
        duration_ms: secs * 1000,
    }
}

#[test]
fn durations_grow_an_hour_field_only_when_they_need_one() {
    assert_eq!(fmt_duration(3), "0:03");
    assert_eq!(fmt_duration(243), "4:03");
    assert_eq!(fmt_duration(3723), "1:02:03");
}

#[test]
fn only_known_audio_extensions_are_scanned() {
    assert!(is_audio("/m/a.FLAC"));
    assert!(is_audio("/m/a.mp3"));
    assert!(!is_audio("/m/cover.jpg"));
    assert!(!is_audio("/m/notes"));
    assert!(is_playlist("/m/set.m3u"));
    assert!(!is_playlist("/m/set.mp3"));
}

#[test]
fn a_search_never_matches_the_directory_a_track_sits_in() {
    let hay = track("Bonfire", "Knife Party", 150, "/m/TESTING/Bonfire.mp3").haystack();
    assert!(hay.contains("Bonfire"));
    assert!(!hay.to_lowercase().contains("testing"));
}

#[test]
fn a_written_playlist_reads_back_to_the_same_paths() {
    let tracks = [track("a", "x", 61, "/m/a.mp3"), track("b", "y", 2, "/m/b.mp3")];
    let text = m3u_text(&tracks);
    assert_eq!(m3u_paths(&text), vec!["/m/a.mp3".to_string(), "/m/b.mp3".to_string()]);
}

#[test]
fn an_empty_playlist_is_written_and_reads_back_empty() {
    let text = m3u_text(&[]);
    assert!(m3u_paths(&text).is_empty());
}

#[test]
fn folder_labels_are_relative_to_the_library_root() {
    let tracks = vec![
        track("a", "x", 1, "/m/Bjork/Post/01.flac"),
        track("b", "x", 1, "/m/Bjork/Post/02.flac"),
        track("c", "y", 1, "/m/Air/Moon/01.flac"),
    ];
    let labels: Vec<String> = folders(&tracks, "/m", &[]).into_iter().map(|(label, _)| label).collect();
    assert_eq!(labels, vec!["Air/Moon", "Bjork/Post"]);
}

#[test]
fn sorting_by_title_ignores_case() {
    let mut tracks = vec![track("zeta", "a", 1, "/m/1.mp3"), track("Alpha", "b", 2, "/m/2.mp3")];
    sort(&mut tracks, SortKey::Title);
    assert_eq!(tracks[0].title, "Alpha");
}

#[test]
fn a_written_playlist_holds_each_track_with_its_length_and_name() {
    let tracks = [track("a", "x", 61, "/m/a.mp3")];
    let text = m3u_text(&tracks);
    assert!(text.starts_with("#EXTM3U\n"));
    assert!(text.contains("/m/a.mp3"));
}

#[test]
fn a_folder_on_disk_with_no_tracks_still_shows() {
    let tracks = vec![track("a", "x", 1, "/m/Air/01.flac")];
    let got = folders(&tracks, "/m", &["/m/Empty".to_string()]);
    let labels: Vec<String> = got.iter().map(|(l, _)| l.clone()).collect();
    assert_eq!(labels, vec!["Air", "Empty"]);
    assert_eq!(got[1].1, "/m/Empty");
}

#[test]
fn sorting_by_path_keeps_directory_order() {
    let mut tracks = vec![track("b", "a", 1, "/m/b/1.mp3"), track("a", "b", 2, "/m/a/2.mp3")];
    sort(&mut tracks, SortKey::Path);
    assert_eq!(tracks[0].path, "/m/a/2.mp3");
    assert_eq!(SortKey::parse("title"), Some(SortKey::Title));
    assert_eq!(SortKey::Title.name(), "title");
    assert_eq!(SortKey::parse("nonsense"), None);
}

