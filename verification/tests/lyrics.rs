//! Lyrics: choosing among search hits, trusting timestamps, reading lrc.

use vibox::lyrics::{close, from_hit, normalize, parse, parse_with_offset, pick, runs_over, Hit, Lyrics};

/// One lrclib search result, as the fields `pick` reads them.
fn hit(artist: &str, track: &str, seconds: f64) -> Hit {
    Hit {
        artist: artist.to_string(),
        title: track.to_string(),
        duration_ms: Some((seconds * 1000.0).round() as u64),
        synced: "[00:01.00] words".to_string(),
        plain: String::new(),
        instrumental: false,
    }
}

fn chosen(hits: &[Hit], artist: &str, title: &str, seconds: u64) -> Option<String> {
    pick(hits, artist, title, seconds).map(|i| hits[i].title.clone())
}

fn timed(seconds: &[u64]) -> Vec<(u64, String)> {
    seconds.iter().map(|s| (s * 1000, format!("line at {s}"))).collect()
}

#[test]
fn a_search_that_found_only_other_songs_picks_nothing() {
    let hits = [
        hit("Nightmares on Wax", "Date With Destiny", 308.0),
        hit("Wax", "Call It Destiny", 243.0),
    ];
    assert_eq!(chosen(&hits, "Wax", "Destiny", 306), None);
}

#[test]
fn the_song_we_asked_for_beats_a_closer_running_time() {
    let hits = [
        hit("Nightmares on Wax", "Date With Destiny", 306.0),
        hit("Wax", "Destiny", 280.0),
    ];
    assert_eq!(chosen(&hits, "Wax", "Destiny", 306).as_deref(), Some("Destiny"));
}

#[test]
fn case_punctuation_and_whatever_is_in_the_brackets_do_not_matter() {
    let hits = [hit("SFDK", "Despacito Pero Voy", 287.0)];
    assert!(chosen(&hits, "sfdk", "Despacito pero voy (Original Mix)", 288).is_some());
}

#[test]
fn the_closest_running_time_wins_among_the_ones_that_are_the_song() {
    let hits = [
        hit("ABBA", "The Day Before You Came", 360.0),
        hit("ABBA", "The Day Before You Came", 349.0),
        hit("ABBA", "The Day Before You Came", 320.0),
    ];
    let got = pick(&hits, "ABBA", "The Day Before You Came", 350).unwrap();
    assert_eq!(hits[got].duration_ms, Some(349_000));
}

#[test]
fn an_entry_with_no_words_in_it_is_never_the_answer() {
    let empty = Hit {
        artist: "ABBA".to_string(),
        title: "Waterloo".to_string(),
        duration_ms: Some(166_000),
        synced: String::new(),
        plain: String::new(),
        instrumental: false,
    };
    assert_eq!(chosen(&[empty], "ABBA", "Waterloo", 166), None);
}

#[test]
fn a_tag_we_do_not_have_does_not_get_a_vote() {
    let hits = [hit("Alphaville", "Forever Young", 227.0)];
    assert!(chosen(&hits, "", "Forever Young", 227).is_some());
}

#[test]
fn lyrics_timed_past_the_end_of_the_track_are_not_trusted() {
    assert!(runs_over(&timed(&[14, 120, 190]), 164));
}

#[test]
fn a_hit_whose_duration_disagrees_keeps_its_timestamps() {
    let mut entry = hit("Ice Cube", "Gangsta Rap Made Me Do It", 326.0);
    entry.synced = "[00:03.41] first\n[04:26.78] last".to_string();
    entry.plain = "first\nlast".to_string();
    match from_hit(&entry, 319) {
        Lyrics::Synced(lines) => assert_eq!(lines.len(), 2),
        _ => panic!("timestamps that fit inside the track were thrown away"),
    }
}

#[test]
fn a_last_line_inside_the_track_is_fine() {
    assert!(!runs_over(&timed(&[14, 120, 160]), 164));
}

#[test]
fn a_few_seconds_over_is_allowed_for_a_fade() {
    assert!(!runs_over(&timed(&[160, 166]), 164));
}

#[test]
fn an_unknown_duration_never_rejects_anything() {
    assert!(!runs_over(&timed(&[190]), 0));
}

#[test]
fn lrc_timestamps_parse_to_their_offsets() {
    let (lyrics, offset) = parse_with_offset("[offset:250]\n[01:30.50] words\n");
    assert_eq!(offset, 250);
    match lyrics {
        Lyrics::Synced(lines) => {
            assert_eq!(lines[0].0, 90_500);
            assert_eq!(lines[0].1, "words");
        }
        _ => panic!("timestamped lines are synced lyrics"),
    }
}

#[test]
fn a_synced_sheet_running_past_the_track_is_shown_without_its_timestamps() {
    let mut entry = hit("X", "Y", 164.0);
    entry.synced = "[00:14.00] one\n[03:10.00] two".to_string();
    match from_hit(&entry, 164) {
        Lyrics::Plain(lines) => assert_eq!(lines, vec!["one".to_string(), "two".to_string()]),
        _ => panic!("timings past the end are not trusted"),
    }
}

#[test]
fn an_instrumental_hit_says_so() {
    let mut entry = hit("X", "Y", 100.0);
    entry.instrumental = true;
    match from_hit(&entry, 100) {
        Lyrics::Missing(why) => assert_eq!(why, "instrumental"),
        _ => panic!("an instrumental has no words"),
    }
}

#[test]
fn a_hit_with_nothing_in_it_is_missing() {
    let mut entry = hit("X", "Y", 100.0);
    entry.synced = "   ".to_string();
    match from_hit(&entry, 100) {
        Lyrics::Missing(why) => assert_eq!(why, "no lyrics on lrclib for this track"),
        _ => panic!("blank lyrics are no lyrics"),
    }
}

#[test]
fn lines_without_timestamps_are_plain_lyrics() {
    match parse("first\nsecond\n") {
        Lyrics::Plain(lines) => assert_eq!(lines, vec!["first".to_string(), "second".to_string()]),
        _ => panic!("no timestamps, no sync"),
    }
}

#[test]
fn synced_lines_come_out_in_time_order() {
    match parse("[00:10.00] b\n[00:05.00] a\n") {
        Lyrics::Synced(lines) => {
            assert_eq!(lines[0], (5_000, "a".to_string()));
            assert_eq!(lines[1], (10_000, "b".to_string()));
        }
        _ => panic!("timestamped lines are synced lyrics"),
    }
}

#[test]
fn normalizing_drops_case_punctuation_and_brackets() {
    let n: String = normalize("Destiny (Original Version)!").into_iter().collect();
    assert_eq!(n, "destiny");
    assert!(close("Despacito Pero Voy", "despacito pero voy (Original Mix)"));
    assert!(!close("Date With Destiny", "Destiny"));
    assert!(!close("", "anything"));
}
