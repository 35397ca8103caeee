//! The tracks after a `:w` has done its work on disk.

use vibox::app::applied::{finish_track_rename, follow_moves, rebase_tracks};
use vibox::library::Track;

fn track(file: &str, path: &str) -> Track {
    Track {
        path: path.to_string(),
        in_library: true,
        file: file.to_string(),
        title: file.to_string(),
        artist: String::new(),
        album: String::new(),
        album_artist: String::new(),
        track_no: None,
        disc_no: None,
        year: None,
        genre: String::new(),
        duration_ms: 0,
    }
}

fn paths(tracks: &[Track]) -> Vec<String> {
    tracks.iter().map(|t| t.path.clone()).collect()
}

fn pair(a: &str, b: &str) -> (String, String) {
    (a.to_string(), b.to_string())
}

#[test]
fn a_renamed_track_follows_its_file_and_shows_the_new_name() {
    let mut tracks = vec![track("a", "/m/a.mp3"), track("b", "/m/b.mp3")];
    let done = vec![pair("/m/x.mp3", "/m/y.mp3"), pair("/m/b.mp3", "/m/c.mp3")];
    finish_track_rename(&mut tracks, 1, &done, "c");
    assert_eq!(paths(&tracks), vec!["/m/a.mp3".to_string(), "/m/c.mp3".to_string()]);
    assert_eq!(tracks[1].file, "c");
    assert_eq!(tracks[0].file, "a");
}

#[test]
fn a_track_no_rename_moved_stays_as_it_was() {
    let mut tracks = vec![track("a", "/m/a.mp3")];
    finish_track_rename(&mut tracks, 0, &vec![pair("/m/x.mp3", "/m/y.mp3")], "z");
    assert_eq!(tracks[0].path, "/m/a.mp3");
    assert_eq!(tracks[0].file, "a");
    finish_track_rename(&mut tracks, 5, &vec![pair("/m/a.mp3", "/m/y.mp3")], "z");
    assert_eq!(tracks[0].path, "/m/a.mp3");
}

#[test]
fn a_folder_rename_carries_the_tracks_inside_it_along() {
    let mut tracks = vec![
        track("a", "/m/jazz/a.mp3"),
        track("b", "/m/jazzier/b.mp3"),
        track("c", "/m/jazz/deep/c.mp3"),
    ];
    let mut done = vec![pair("/m/x.mp3", "/m/y.mp3")];
    rebase_tracks(&mut tracks, "/m/jazz", "/m/blues", &mut done);
    assert_eq!(
        paths(&tracks),
        vec!["/m/blues/a.mp3".to_string(), "/m/jazzier/b.mp3".to_string(), "/m/blues/deep/c.mp3".to_string()]
    );
    assert_eq!(
        done,
        vec![
            pair("/m/x.mp3", "/m/y.mp3"),
            pair("/m/jazz/a.mp3", "/m/blues/a.mp3"),
            pair("/m/jazz/deep/c.mp3", "/m/blues/deep/c.mp3"),
        ]
    );
}

#[test]
fn moves_are_followed_one_after_another() {
    let mut tracks = vec![track("a", "/m/a.mp3"), track("b", "/m/b.mp3")];
    let moves = vec![pair("/m/a.mp3", "/m/x/a.mp3"), pair("/m/x/a.mp3", "/m/y/a.mp3"), pair("/m/q.mp3", "/m/r.mp3")];
    follow_moves(&mut tracks, &moves);
    assert_eq!(paths(&tracks), vec!["/m/y/a.mp3".to_string(), "/m/b.mp3".to_string()]);
    assert_eq!(tracks[0].file, "a");
}
