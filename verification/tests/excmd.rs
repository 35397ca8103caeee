//! The `:` line: taking a command apart, and what each one asks for.

use vibox::excmd::{file_command, FileCommand};
use vibox::excmd::{is_negated_minimum, seek_in_range};
use vibox::app::{Columns, Repeat};
use vibox::excmd::{
    decide, list_options, option, parse, parse_delta, parse_seek, seek_request, volume_change, Action,
    Delta, Options, Reply, SeekTo, Session, VolumeChange,
};
use vibox::library::SortKey;

fn session() -> Session {
    Session { editing: false, dirty: false, repeat: Repeat::Off, shuffle: false }
}

fn options() -> Options {
    Options { columns: Columns::default(), lyrics: true }
}

#[test]
fn a_line_comes_apart_into_name_bang_and_arguments() {
    let p = parse("  e!   /m/jazz  ").unwrap();
    assert_eq!(p.name, "e");
    assert!(p.bang);
    assert_eq!(p.args, "/m/jazz");
    assert!(parse("   ").is_none());
}

#[test]
fn numbers_are_settings_or_steps() {
    assert_eq!(parse_delta("70"), Some(Delta::Absolute(70)));
    assert_eq!(parse_delta(" +5 "), Some(Delta::Relative(5)));
    assert_eq!(parse_delta("-5"), Some(Delta::Relative(-5)));
    assert_eq!(parse_delta("loud"), None);
}

#[test]
fn a_position_can_be_minutes_and_seconds() {
    assert_eq!(parse_seek("1:30"), Some(Delta::Absolute(90)));
    assert_eq!(parse_seek("+30"), Some(Delta::Relative(30)));
    assert_eq!(parse_seek("-1:00"), Some(Delta::Absolute(-60)));
    assert_eq!(parse_seek("soon"), None);
    assert_eq!(seek_request("1:30"), Ok(SeekTo::At(90)));
    assert_eq!(seek_request("x"), Err("bad position `x` - use `:seek 1:30`, `:seek +30`".to_string()));
}

#[test]
fn volume_is_held_to_a_hundred() {
    assert!(matches!(volume_change(""), VolumeChange::Show));
    assert!(matches!(volume_change("150"), VolumeChange::Level(100)));
    assert!(matches!(volume_change("-5"), VolumeChange::Nudge(-5)));
    match volume_change("up") {
        VolumeChange::Bad(m) => assert_eq!(m, "bad volume `up` - use `:vol 70`, `:vol +5`"),
        _ => panic!("`up` is not a volume"),
    }
}

#[test]
fn set_turns_options_on_and_off_and_flips_them() {
    let mut o = options();
    assert!(matches!(vibox::excmd::set(&mut o, "noartist"), Reply::Info(_)));
    assert_eq!(option(&o, "artist"), Some(false));
    vibox::excmd::set(&mut o, "artist!");
    assert_eq!(option(&o, "artist"), Some(true));
    vibox::excmd::set(&mut o, "nolyrics title");
    assert!(!o.lyrics);
    assert!(o.columns.title);
    match vibox::excmd::set(&mut o, "title?") {
        Reply::Info(m) => assert_eq!(m, "title"),
        _ => panic!("asking is not an error"),
    }
    match vibox::excmd::set(&mut o, "nonsense") {
        Reply::Error(m) => assert_eq!(m, "unknown option `nonsense` - try file, title, artist, album, lyrics"),
        _ => panic!("an option vibox does not have has to say so"),
    }
}

#[test]
fn set_alone_lists_every_option() {
    let o = options();
    assert_eq!(list_options(&o), "file  notitle  artist  album  lyrics");
}

#[test]
fn quitting_with_unsaved_names_needs_a_bang() {
    let dirty = Session { editing: true, dirty: true, ..session() };
    assert!(matches!(decide("q", dirty), Action::Fail(_)));
    assert!(matches!(decide("q!", dirty), Action::Quit));
    assert!(matches!(decide("q", session()), Action::Quit));
}

#[test]
fn a_number_goes_to_that_row() {
    assert!(matches!(decide("42", session()), Action::Goto(41)));
    assert!(matches!(decide("0", session()), Action::Goto(0)));
}

#[test]
fn commands_read_their_arguments() {
    assert!(matches!(decide("repeat", session()), Action::SetRepeat(Repeat::All)));
    assert!(matches!(decide("repeat one", session()), Action::SetRepeat(Repeat::One)));
    assert!(matches!(decide("shuffle", session()), Action::SetShuffle(true)));
    assert!(matches!(decide("sort title", session()), Action::Sort(SortKey::Title)));
    assert!(matches!(decide("sort nope", session()), Action::Fail(_)));
    match decide("frobnicate", session()) {
        Action::Fail(m) => assert_eq!(m, "not a vibox command: `frobnicate` - see :help"),
        _ => panic!("an unknown command is refused"),
    }
}

#[test]
fn w_writes_only_while_editing() {
    let editing = Session { editing: true, ..session() };
    assert!(matches!(decide("w", editing), Action::Write));
    assert!(matches!(decide("w", session()), Action::Fail(_)));
    assert!(matches!(decide("e!", editing), Action::DiscardEdits));
}

#[test]
fn seek_reads_every_delta_as_a_delta() {
    for s in ["70", "+5", "-5", " +30 ", "0"] {
        assert_eq!(parse_seek(s), parse_delta(s), "{s}");
    }
}

#[test]
fn file_commands_are_read_before_the_rest() {
    assert_eq!(file_command("  playlist  late night "), Some(FileCommand::Playlist("late night".to_string())));
    assert_eq!(file_command("mkdir live"), Some(FileCommand::Mkdir("live".to_string())));
    assert_eq!(file_command("changes"), Some(FileCommand::Changes));
    assert_eq!(file_command("set danger"), Some(FileCommand::Danger));
    assert_eq!(file_command("danger"), Some(FileCommand::Danger));
    assert_eq!(file_command("playlist"), None);
    assert_eq!(file_command("q"), None);
}

#[test]
fn the_inputs_a_caller_refuses_first() {
    assert!(is_negated_minimum(" --9223372036854775808"));
    assert!(!is_negated_minimum("-5"));
    assert!(seek_in_range("1:30"));
    assert!(!seek_in_range("153722867280912931:00"));
    assert!(seek_in_range("+30"));
}
