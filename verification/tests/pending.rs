//! What waits for `:w`: renames, their targets, and what `:changes` says.

use vibox::app::forget::forget;
use vibox::app::plan::Step;
use vibox::app::write::{check_write, wanted_of};
use vibox::app::snapshot::{copy_track, flags_at, move_track};
use vibox::app::queue::Queue;
use vibox::app::tabs::{Tabs, ViewTab};
use vibox::library::SortKey;
use vibox::app::pending::{
    begin_edit, commit_decision, copies_into, copy_yank_here, cut_folder, cut_from_playlist, cut_tracks, deepest_first, edit_dirty, follow_rows, is_doomed_dir, join,
    move_cut_here, move_problem, name_of, pairs_not_in, pending_changes, queued, rebase, remap_of,
    mkdir_decision, put_into_playlist, toggle_playlist_mark, yank_rows, rename_problem, rename_target, repaired, retain_kept, shown_name, targets, under_root, with_file_name,
    Commit, NameEdit, Pending, Renames, Renaming,
};
use vibox::library::Track;
use vibox::name::NameBuffer;

fn track(file: &str, path: &str) -> Track {
    Track {
        path: path.to_string(),
        in_library: true,
        file: file.to_string(),
        title: file.to_string(),
        artist: String::new(),
        album: String::new(),
        album_artist: String::new(),
        track_no: None,
        disc_no: None,
        year: None,
        genre: String::new(),
        duration_ms: 0,
    }
}

fn library() -> Vec<Track> {
    vec![
        track("a", "/m/a.mp3"),
        track("b", "/m/jazz/b.mp3"),
        track("c", "/m/jazz/deep/c.mp3"),
    ]
}

fn text(v: Vec<char>) -> String {
    v.into_iter().collect()
}

fn chars(s: &str) -> Vec<char> {
    s.chars().collect()
}

#[test]
fn paths_join_and_rename_the_way_std_does() {
    assert_eq!(text(join(&chars("/m"), &chars("a.mp3"))), "/m/a.mp3");
    assert_eq!(text(join(&chars("/m/"), &chars("a.mp3"))), "/m/a.mp3");
    assert_eq!(text(join(&chars("/m"), &chars("/x"))), "/x");
    assert_eq!(text(with_file_name(&chars("/m/jazz/b.mp3"), &chars("c.mp3"))), "/m/jazz/c.mp3");
    assert_eq!(text(with_file_name(&chars("a"), &chars("b"))), "b");
}

#[test]
fn a_queued_rename_reads_back_and_an_unchanged_name_forgets_it() {
    let tracks = library();
    let mut renames = Renames::new();
    renames.insert(Renaming::Track(1), "bee".to_string());
    renames.insert(Renaming::Playlist("mix".to_string()), "set".to_string());
    renames.insert(Renaming::Track(0), "ay".to_string());
    assert_eq!(renames.len(), 3);
    assert_eq!(renames.entry(0).1, "ay", "tracks come first, by index");
    assert_eq!(renames.get(&Renaming::Track(1)), Some("bee".to_string()));

    renames.insert(Renaming::Track(1), "b2".to_string());
    assert_eq!(renames.len(), 3, "a second name replaces the first");
    assert_eq!(renames.get(&Renaming::Track(1)), Some("b2".to_string()));

    let edit = NameEdit { buf: NameBuffer::new("  b  "), what: Renaming::Track(1) };
    assert!(matches!(commit_decision(&edit, &tracks), Commit::Forget));
    renames.remove(&Renaming::Track(1));
    assert_eq!(renames.get(&Renaming::Track(1)), None);

    let edit = NameEdit { buf: NameBuffer::new(" new "), what: Renaming::Track(2) };
    match commit_decision(&edit, &tracks) {
        Commit::Queue(n) => assert_eq!(n, "new"),
        _ => panic!("a changed name is queued, trimmed"),
    }
    let edit = NameEdit { buf: NameBuffer::new("   "), what: Renaming::Track(2) };
    assert!(matches!(commit_decision(&edit, &tracks), Commit::Keep));
}

#[test]
fn the_name_being_typed_shows_over_a_queued_one() {
    let tracks = library();
    let mut renames = Renames::new();
    renames.insert(Renaming::Track(0), "queued".to_string());
    let edit = Some(NameEdit { buf: NameBuffer::new("typing"), what: Renaming::Track(0) });
    assert_eq!(shown_name(&renames, &edit, &Renaming::Track(0)), Some("typing".to_string()));
    assert_eq!(shown_name(&renames, &None, &Renaming::Track(0)), Some("queued".to_string()));
    assert!(edit_dirty(&renames, &None, &tracks));
    let clean = Renames::new();
    let same = Some(NameEdit { buf: NameBuffer::new("a"), what: Renaming::Track(0) });
    assert!(!edit_dirty(&clean, &same, &tracks));
    assert_eq!(name_of(&Renaming::Folder("/m/jazz".to_string()), &tracks), "jazz");
}

#[test]
fn a_track_keeps_its_extension_through_a_rename() {
    let tracks = library();
    assert_eq!(rename_target(&Renaming::Track(0), "Mr. Blue Sky", &tracks, &None), Some("/m/Mr. Blue Sky.mp3".to_string()));
    assert_eq!(rename_target(&Renaming::Folder("/m/jazz".to_string()), "blues", &tracks, &None), Some("/m/blues".to_string()));
    assert_eq!(
        rename_target(&Renaming::Playlist("old".to_string()), "new", &tracks, &Some("/p".to_string())),
        Some("/p/new.m3u".to_string())
    );
    assert_eq!(rename_target(&Renaming::Playlist("old".to_string()), "new", &tracks, &None), None);
    assert_eq!(rename_target(&Renaming::Track(9), "x", &tracks, &None), None);
}

#[test]
fn a_bad_name_stops_the_write_before_anything_is_renamed() {
    let tracks = library();
    let none = Pending::new();
    let mut q = Renames::new();
    q.insert(Renaming::Track(0), "fine".to_string());
    q.insert(Renaming::Track(1), "a/b".to_string());
    assert_eq!(
        rename_problem(&q, &vec![false, false], &tracks, &none),
        Some("a name cannot contain `/`, this renames but never moves".to_string())
    );
    let mut q = Renames::new();
    q.insert(Renaming::Track(0), " taken ".to_string());
    assert_eq!(rename_problem(&q, &vec![true], &tracks, &none), Some("`taken` already exists here".to_string()));
    let mut q = Renames::new();
    q.insert(Renaming::Track(0), "  ".to_string());
    assert_eq!(rename_problem(&q, &vec![false], &tracks, &none), Some("a name cannot be empty".to_string()));
    assert_eq!(rename_problem(&Renames::new(), &vec![], &tracks, &none), None);
}

#[test]
fn a_name_the_same_write_frees_is_no_clash() {
    let tracks = library();
    // `a` becomes `dupe`, and `/m/dupe.mp3` is on disk.
    let mut q = Renames::new();
    q.insert(Renaming::Track(0), "dupe".to_string());
    let refused = Some("`dupe` already exists here".to_string());
    assert_eq!(rename_problem(&q, &vec![true], &tracks, &Pending::new()), refused);

    let mut deleting = Pending::new();
    deleting.doomed_files.push("/m/dupe.mp3".to_string());
    assert_eq!(rename_problem(&q, &vec![true], &tracks, &deleting), None, "the file `dd` marked goes first");

    let mut moving = Pending::new();
    moving.moves.push(("/m/dupe.mp3".to_string(), "/m/jazz/dupe.mp3".to_string()));
    assert_eq!(rename_problem(&q, &vec![true], &tracks, &moving), None, "a move takes it away");

    let mut in_folder = Pending::new();
    in_folder.doomed_dirs.push("/m/jazz".to_string());
    let mut into_jazz = Renames::new();
    into_jazz.insert(Renaming::Track(1), "c".to_string());
    assert_eq!(rename_problem(&into_jazz, &vec![true], &tracks, &in_folder), None, "inside a doomed folder");

    // `b` becomes `a` while `a` becomes `x`: the first rename frees the name.
    let mut swap = Renames::new();
    swap.insert(Renaming::Track(1), "a".to_string());
    swap.insert(Renaming::Track(0), "x".to_string());
    let mut flat = library();
    flat[1].path = "/m/b.mp3".to_string();
    let taken: Vec<bool> = (0..swap.len())
        .map(|i| {
            let (what, name) = swap.entry(i);
            rename_target(&what, &name, &flat, &None) == Some("/m/a.mp3".to_string())
        })
        .collect();
    assert_eq!(taken.iter().filter(|&&t| t).count(), 1);
    assert_eq!(rename_problem(&swap, &taken, &flat, &Pending::new()), None);

    // A folder's name is never excused.
    let mut folder = Renames::new();
    folder.insert(Renaming::Folder("/m/jazz".to_string()), "rock".to_string());
    let mut gone = Pending::new();
    gone.doomed_dirs.push("/m/rock".to_string());
    assert_eq!(
        rename_problem(&folder, &vec![true], &tracks, &gone),
        Some("`rock` already exists here".to_string())
    );
}

#[test]
fn the_tracks_of_a_renamed_folder_follow_it() {
    assert_eq!(rebase("/m/jazz/deep/c.mp3", "/m/jazz", "/m/blues"), Some("/m/blues/deep/c.mp3".to_string()));
    assert_eq!(rebase("/m/jazzier/x.mp3", "/m/jazz", "/m/blues"), None);
}

#[test]
fn a_playlist_naming_a_renamed_file_is_rewritten() {
    let paths = vec!["/m/a.mp3".to_string(), "/m/z.mp3".to_string()];
    let renamed = vec![("/m/a.mp3".to_string(), "/m/ay.mp3".to_string())];
    assert_eq!(repaired(&paths, &renamed), Some(vec!["/m/ay.mp3".to_string(), "/m/z.mp3".to_string()]));
    let untouched = vec![("/m/q.mp3".to_string(), "/m/r.mp3".to_string())];
    assert_eq!(repaired(&paths, &untouched), None);
}

#[test]
fn changes_read_as_one_line_each_under_the_root() {
    let tracks = library();
    let mut p = Pending::new();
    p.renames.insert(Renaming::Track(0), "ay".to_string());
    p.moves.push(("/m/a.mp3".to_string(), "/m/jazz/a.mp3".to_string()));
    p.doomed_files.push("/m/my song.mp3".to_string());
    p.doomed.push("/p/mix.m3u".to_string());
    let q = queued(&p.renames, &None, &tracks);
    let lines = pending_changes(&p, &q, &tracks, "/m", &Some(("set".to_string(), 3)), &vec![]);
    assert_eq!(
        lines,
        vec![
            "rename  root/a.mp3  ->  root/ay".to_string(),
            "save    playlist `set`, 3 tracks".to_string(),
            "delete  playlist `mix`, its tracks stay".to_string(),
            "move    root/a.mp3  ->  root/jazz/a.mp3".to_string(),
            "DELETE  'root/my song.mp3'".to_string(),
        ]
    );
    assert!(p.unsaved(false, false));
    assert!(!Pending::new().unsaved(false, false));
    assert_eq!(under_root("/elsewhere/x", "/m"), "/elsewhere/x");
}

#[test]
fn the_name_being_typed_is_part_of_what_would_be_written() {
    let tracks = library();
    let renames = Renames::new();
    let edit = Some(NameEdit { buf: NameBuffer::new("new"), what: Renaming::Track(2) });
    let q = queued(&renames, &edit, &tracks);
    assert_eq!(q.get(&Renaming::Track(2)), Some("new".to_string()));
    let back = Some(NameEdit { buf: NameBuffer::new("c"), what: Renaming::Track(2) });
    let q = queued(&q, &back, &tracks);
    assert_eq!(q.len(), 0);
}

#[test]
fn a_move_onto_an_existing_file_or_a_shared_name_is_refused() {
    let mut p = Pending::new();
    p.moves.push(("/m/a.mp3".to_string(), "/m/x/a.mp3".to_string()));
    p.copies.push(("/m/b.mp3".to_string(), "/m/x/a.mp3".to_string()));
    let t = targets(&p);
    assert_eq!(t, vec!["/m/x/a.mp3".to_string(), "/m/x/a.mp3".to_string()]);
    assert_eq!(
        move_problem(&t, &vec![false, false], "/m"),
        Some("two files would both become `root/x/a.mp3`, nothing written".to_string())
    );
    assert_eq!(
        move_problem(&t, &vec![true, false], "/m"),
        Some("`root/x/a.mp3` already exists, nothing written".to_string())
    );
    assert_eq!(move_problem(&t[..1].to_vec(), &vec![false], "/m"), None);
}

#[test]
fn p_after_dd_turns_the_deletions_into_moves() {
    let mut p = Pending::new();
    p.cut = vec!["/m/a.mp3".to_string(), "/m/b.mp3".to_string()];
    p.doomed_files = vec!["/m/a.mp3".to_string(), "/m/b.mp3".to_string(), "/m/c.mp3".to_string()];
    assert_eq!(move_cut_here(&mut p, "/m/jazz"), 2);
    assert!(p.cut.is_empty());
    assert_eq!(p.doomed_files, vec!["/m/c.mp3".to_string()]);
    assert_eq!(
        p.moves,
        vec![
            ("/m/a.mp3".to_string(), "/m/jazz/a.mp3".to_string()),
            ("/m/b.mp3".to_string(), "/m/jazz/b.mp3".to_string())
        ]
    );
}

#[test]
fn a_copy_onto_itself_is_skipped() {
    let yank = vec!["/m/jazz/b.mp3".to_string(), "/m/a.mp3".to_string()];
    assert_eq!(copies_into(&yank, "/m/jazz"), vec![("/m/a.mp3".to_string(), "/m/jazz/a.mp3".to_string())]);
}

#[test]
fn dd_on_a_folder_marks_everything_under_it_and_dd_again_takes_it_back() {
    let tracks = library();
    let mut p = Pending::new();
    assert_eq!(cut_folder(&mut p, true, Some("/m/jazz"), &tracks), Ok((false, 2)));
    assert_eq!(p.doomed_files, vec!["/m/jazz/b.mp3".to_string(), "/m/jazz/deep/c.mp3".to_string()]);
    assert!(is_doomed_dir(&p, "/m/jazz/deep"));
    assert!(!is_doomed_dir(&p, "/m/jazzier"));
    assert_eq!(cut_folder(&mut p, true, Some("/m/jazz"), &tracks), Ok((true, 0)));
    assert!(p.doomed_files.is_empty());
    assert!(p.doomed_dirs.is_empty());
}

#[test]
fn folders_are_deleted_deepest_first_in_the_order_they_were_marked() {
    let dirs = vec!["/m/a".to_string(), "/m/a/b/c".to_string(), "/m/z".to_string(), "/m/a/b".to_string()];
    assert_eq!(
        deepest_first(&dirs),
        vec!["/m/a/b/c".to_string(), "/m/a/b".to_string(), "/m/a".to_string(), "/m/z".to_string()]
    );
}

#[test]
fn deleting_a_track_repoints_the_rows_and_the_renames() {
    let gone = vec![false, true, false];
    let m = remap_of(&gone);
    assert_eq!(m, vec![Some(0), None, Some(1)]);
    assert_eq!(follow_rows(&vec![2, 1, 0], &m), vec![1, 0]);
    let kept = retain_kept(library(), &gone);
    assert_eq!(kept.len(), 2);
    assert_eq!(kept[1].file, "c");

    let mut renames = Renames::new();
    renames.insert(Renaming::Track(1), "gone".to_string());
    renames.insert(Renaming::Track(2), "see".to_string());
    let after = renames.remap_tracks(&m);
    assert_eq!(after.len(), 1);
    assert_eq!(after.get(&Renaming::Track(1)), Some("see".to_string()));
}

#[test]
fn stepping_between_snapshots_undoes_what_the_other_lacks() {
    let now = vec![("/a".to_string(), "/b".to_string()), ("/c".to_string(), "/d".to_string())];
    let then = vec![("/a".to_string(), "/b".to_string())];
    assert_eq!(pairs_not_in(&now, &then), vec![("/c".to_string(), "/d".to_string())]);
    assert!(pairs_not_in(&then, &now).is_empty());
}

#[test]
fn forgetting_tracks_leaves_no_index_dangling() {
    let mut tracks = library();
    let gone = vec![false, true, false];
    let mut rows = vec![2, 1, 0];
    let mut queue = Some(Queue::start(vec![0, 1, 2], 2, 7));
    let mut playing = Some(2);
    let mut renames = Renames::new();
    renames.insert(Renaming::Track(1), "gone".to_string());
    renames.insert(Renaming::Track(2), "kept".to_string());
    let tab = ViewTab { playlist: Some("mix".to_string()), folder: 0, cur: 0, top: 0, sort_key: SortKey::Path, rows: vec![1, 2], dirty: true };
    let mut tabs = Tabs::new(tab.copy());
    tabs.open_after(tab);
    forget(&mut tracks, &gone, &mut rows, &mut queue, &mut playing, &mut renames, &mut tabs);
    assert_eq!(tracks.len(), 2);
    assert_eq!(tracks[1].path, "/m/jazz/deep/c.mp3");
    assert_eq!(rows, vec![1, 0]);
    let q = queue.unwrap();
    assert_eq!(q.tracks, vec![0, 1]);
    assert_eq!(q.pos, 1);
    assert_eq!(playing, Some(1));
    assert_eq!(renames.len(), 1);
    assert_eq!(renames.get(&Renaming::Track(1)), Some("kept".to_string()));
    assert_eq!(tabs.dirty_others(), vec![("mix".to_string(), vec![1])]);
}

#[test]
fn stepping_over_moves_and_copies_moves_the_tracks() {
    let mut tracks = library();
    move_track(&mut tracks, "/m/a.mp3", "/m/jazz/a.mp3");
    assert_eq!(tracks[0].path, "/m/jazz/a.mp3");
    assert_eq!(tracks[0].file, "a");
    move_track(&mut tracks, "/m/none.mp3", "/m/x.mp3");
    assert_eq!(tracks.len(), 3);
    copy_track(&mut tracks, "/m/jazz/b.mp3", "/m/b copy.mp3");
    assert_eq!(tracks.len(), 4);
    assert_eq!(tracks[3].path, "/m/b copy.mp3");
    assert_eq!(tracks[3].file, "b copy");
    copy_track(&mut tracks, "/m/none.mp3", "/m/y.mp3");
    assert_eq!(tracks.len(), 4);
    assert_eq!(flags_at(&tracks, &vec!["/m/b copy.mp3".to_string()]), vec![false, false, false, true]);
}

#[test]
fn a_write_is_checked_whole_before_anything_runs() {
    let tracks = library();
    let mut p = Pending::new();
    p.doomed_files.push("/m/dupe.mp3".to_string());
    let mut q = Renames::new();
    q.insert(Renaming::Track(0), " dupe ".to_string());
    let w = wanted_of(&q, &tracks, &p);
    assert_eq!(w.renames, vec![("/m/a.mp3".to_string(), "/m/dupe.mp3".to_string())]);
    assert_eq!(w.deletes, vec!["/m/dupe.mp3".to_string()]);
    let disk = |s: &str| s == "/m/a.mp3" || s == "/m/dupe.mp3";
    let steps = check_write(&q, &vec![true], &tracks, &p, &vec![], "/m", &w, &disk).unwrap();
    assert_eq!(steps, vec![Step::Delete("/m/dupe.mp3".to_string()), Step::Rename("/m/a.mp3".to_string(), "/m/dupe.mp3".to_string())]);
    // Without the deletion the name is taken, and nothing is planned.
    let none = Pending::new();
    let w = wanted_of(&q, &tracks, &none);
    assert_eq!(check_write(&q, &vec![true], &tracks, &none, &vec![], "/m", &w, &disk), Err("`dupe` already exists here".to_string()));
}

// ---- danger mode -------------------------------------------------------

#[test]
fn with_danger_off_dd_on_tracks_marks_nothing() {
    let tracks = library();
    let view: Vec<usize> = (0..tracks.len()).collect();
    let mut p = Pending::new();
    assert_eq!(
        cut_tracks(&mut p, false, &view, &tracks, 0, 1),
        Err("`dd` here needs `:set danger`; it deletes files".to_string())
    );
    assert!(p.cut.is_empty());
    assert!(p.doomed_files.is_empty());
}

#[test]
fn with_danger_on_dd_on_tracks_cuts_and_marks_the_rows() {
    let tracks = library();
    let view: Vec<usize> = (0..tracks.len()).collect();
    let mut p = Pending::new();
    p.doomed_files = vec!["/m/old.mp3".to_string()];
    assert_eq!(cut_tracks(&mut p, true, &view, &tracks, 1, 99), Ok(tracks.len() - 1));
    let rest: Vec<String> = tracks[1..].iter().map(|t| t.path.clone()).collect();
    assert_eq!(p.cut, rest);
    let mut all = vec!["/m/old.mp3".to_string()];
    all.extend(rest);
    assert_eq!(p.doomed_files, all);
}

#[test]
fn dd_on_an_empty_view_marks_nothing() {
    let tracks = library();
    let mut p = Pending::new();
    assert_eq!(cut_tracks(&mut p, true, &vec![], &tracks, 0, 0), Ok(0));
    assert!(p.cut.is_empty());
}

#[test]
fn with_danger_off_dd_on_a_folder_marks_nothing() {
    let tracks = library();
    let mut p = Pending::new();
    assert_eq!(
        cut_folder(&mut p, false, Some("/m/jazz"), &tracks),
        Err("`dd` on a folder needs `:set danger`; it deletes the folder and its tracks".to_string())
    );
    assert!(p.doomed_dirs.is_empty());
    assert!(p.doomed_files.is_empty());
    assert_eq!(
        cut_folder(&mut p, true, None, &tracks),
        Err("that is the whole library, not a folder".to_string())
    );
}

#[test]
fn with_danger_off_put_copies_nothing() {
    let yank = vec!["/m/a.mp3".to_string()];
    let mut p = Pending::new();
    assert_eq!(
        copy_yank_here(&mut p, false, &yank, Some("/m/jazz")),
        Err("copying files here needs `:set danger`".to_string())
    );
    assert!(p.copies.is_empty());
    assert_eq!(copy_yank_here(&mut p, true, &yank, None), Err("no folder here to copy into".to_string()));
    assert_eq!(copy_yank_here(&mut p, true, &yank, Some("/m/jazz")), Ok(1));
    assert_eq!(p.copies, vec![("/m/a.mp3".to_string(), "/m/jazz/a.mp3".to_string())]);
}

#[test]
fn mkdir_needs_danger_a_name_and_a_free_place() {
    assert_eq!(
        mkdir_decision(false, "new", false),
        Err("`:mkdir` needs `:set danger`; it writes to your library".to_string())
    );
    assert_eq!(mkdir_decision(true, "", false), Err("`:mkdir` needs a name".to_string()));
    assert_eq!(mkdir_decision(true, "new", true), Err("`new` already exists".to_string()));
    assert_eq!(mkdir_decision(true, "new", false), Ok(()));
}

#[test]
fn a_folder_is_relabelled_and_rebased_by_components() {
    assert_eq!(rebase("/m//jazz/a.mp3", "/m/jazz", "/m/blues"), Some("/m/blues/a.mp3".to_string()));
    assert_eq!(under_root("/m//jazz/a.mp3", "/m"), "root/jazz/a.mp3".to_string());
}

// ---- playlists, yanks and the edit buffer ------------------------------

#[test]
fn yy_takes_the_selected_rows_paths() {
    let tracks = library();
    let view: Vec<usize> = vec![2, 0, 1];
    assert_eq!(yank_rows(&vec![], &tracks, 0, 0), Err("nothing here to yank".to_string()));
    assert_eq!(
        yank_rows(&view, &tracks, 0, 1),
        Ok(vec!["/m/jazz/deep/c.mp3".to_string(), "/m/a.mp3".to_string()])
    );
    assert_eq!(yank_rows(&view, &tracks, 2, 9), Ok(vec!["/m/jazz/b.mp3".to_string()]));
}

#[test]
fn dd_on_a_playlist_row_marks_it_and_dd_again_keeps_it() {
    let mut p = Pending::new();
    assert!(!toggle_playlist_mark(&mut p, "/m/.playlists/a.m3u"));
    assert_eq!(p.doomed, vec!["/m/.playlists/a.m3u".to_string()]);
    assert!(toggle_playlist_mark(&mut p, "/m/.playlists/a.m3u"));
    assert!(p.doomed.is_empty());
}

#[test]
fn dd_in_a_playlist_takes_the_rows_out_and_yanks_their_tracks() {
    let tracks = library();
    let mut p = Pending::new();
    p.playlist_rows = vec![0, 2, 1, 7];
    assert_eq!(
        cut_from_playlist(&mut p, &tracks, 1, 3),
        Some(vec!["/m/jazz/deep/c.mp3".to_string(), "/m/jazz/b.mp3".to_string()])
    );
    assert_eq!(p.playlist_rows, vec![0]);
    assert!(p.playlist_dirty);
    assert_eq!(cut_from_playlist(&mut p, &tracks, 5, 6), None);
    assert_eq!(p.playlist_rows, vec![0]);
}

#[test]
fn p_in_a_playlist_puts_the_yank_after_the_cursor() {
    let tracks = library();
    let mut p = Pending::new();
    p.playlist_rows = vec![0, 1];
    assert_eq!(put_into_playlist(&mut p, &tracks, &vec![], 0), Err("nothing yanked".to_string()));
    let yank = vec!["/m/jazz/deep/c.mp3".to_string(), "/m/nowhere.mp3".to_string()];
    assert_eq!(put_into_playlist(&mut p, &tracks, &yank, 0), Ok((1, 1)));
    assert_eq!(p.playlist_rows, vec![0, 2, 1]);
    assert!(p.playlist_dirty);
}

#[test]
fn c_opens_the_name_under_the_cursor_when_it_can() {
    assert!(matches!(begin_edit(&vec![], true, 0), Err(e) if e == "nothing here to rename"));
    assert!(matches!(
        begin_edit(&vec![4], false, 0),
        Err(e) if e == "the file column is hidden: `:set file` to edit names"
    ));
    assert!(matches!(begin_edit(&vec![4, 6], true, 1), Ok(Some(Renaming::Track(6)))));
    assert!(matches!(begin_edit(&vec![4, 6], true, 2), Ok(None)));
}

#[test]
fn a_folder_written_with_a_trailing_dot_is_named_by_its_last_real_component() {
    let tracks = library();
    assert_eq!(name_of(&Renaming::Folder("/m/jazz/.".to_string()), &tracks), "jazz");
    assert_eq!(tracks[1].dir(), "/m/jazz");
}
