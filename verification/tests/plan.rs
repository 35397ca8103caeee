//! The batch a `:w` would apply, checked as one thing.
//!
//! This is the code that touches somebody's music, and `std::fs::rename`
//! overwrites the destination without asking, so the interesting cases are the
//! ones where a wrong verdict costs a file rather than an error message.

use vibox::app::plan::{plan, plan_with, Step, Wanted};

fn p(s: &str) -> String {
    s.to_string()
}

/// A pretend disk: everything named here exists, nothing else does.
fn disk(names: &[&str]) -> impl Fn(&str) -> bool {
    let owned: Vec<String> = names.iter().map(|n| p(n)).collect();
    move |path: &str| owned.iter().any(|held| held == path)
}

fn renames(pairs: &[(&str, &str)]) -> Wanted {
    Wanted {
        renames: pairs.iter().map(|(a, b)| (p(a), p(b))).collect(),
        ..Wanted::default()
    }
}

// ---- what must be refused ----------------------------------------------

#[test]
fn a_name_already_on_disk_is_refused() {
    let wanted = renames(&[("/m/a.mp3", "/m/b.mp3")]);
    assert!(plan(&wanted, &disk(&["/m/a.mp3", "/m/b.mp3"])).is_err());
}

#[test]
fn two_things_claiming_one_name_are_refused() {
    let wanted = renames(&[("/m/a.mp3", "/m/same.mp3"), ("/m/b.mp3", "/m/same.mp3")]);
    assert!(
        plan(&wanted, &disk(&["/m/a.mp3", "/m/b.mp3"])).is_err(),
        "the second would overwrite the first, and `fs::rename` would not say so"
    );
}

/// The hole the old per-kind checks left: a rename and a move each looked only
/// at its own list, so both were allowed and the later one ate the earlier.
#[test]
fn a_rename_and_a_move_claiming_one_name_are_refused() {
    let wanted = Wanted {
        renames: vec![(p("/m/a.mp3"), p("/m/same.mp3"))],
        moves: vec![(p("/m/sub/c.mp3"), p("/m/same.mp3"))],
        ..Wanted::default()
    };
    assert!(plan(&wanted, &disk(&["/m/a.mp3", "/m/sub/c.mp3"])).is_err());
}

#[test]
fn a_copy_onto_an_occupied_name_is_refused() {
    let wanted = Wanted {
        copies: vec![(p("/m/a.mp3"), p("/m/b.mp3"))],
        ..Wanted::default()
    };
    assert!(plan(&wanted, &disk(&["/m/a.mp3", "/m/b.mp3"])).is_err());
}

#[test]
fn renaming_something_that_is_also_being_deleted_is_refused() {
    let wanted = Wanted {
        renames: vec![(p("/m/a.mp3"), p("/m/new.mp3"))],
        deletes: vec![p("/m/a.mp3")],
        ..Wanted::default()
    };
    assert!(
        plan(&wanted, &disk(&["/m/a.mp3"])).is_err(),
        "keeping it and losing it are not both possible"
    );
}

#[test]
fn a_swap_is_refused_rather_than_half_applied() {
    let wanted = renames(&[("/m/a.mp3", "/m/b.mp3"), ("/m/b.mp3", "/m/a.mp3")]);
    let refusal = plan(&wanted, &disk(&["/m/a.mp3", "/m/b.mp3"])).unwrap_err();
    assert!(
        refusal.0.contains("swap"),
        "the message has to say what to do instead, got `{}`",
        refusal.0
    );
}

// ---- what must be allowed ----------------------------------------------

/// The case this was built for: the name is taken by a file the same write is
/// about to delete, so it is free by the time the rename runs.
#[test]
fn a_name_freed_by_a_deletion_in_the_same_write_is_allowed() {
    let wanted = Wanted {
        renames: vec![(p("/m/a.mp3"), p("/m/b.mp3"))],
        deletes: vec![p("/m/b.mp3")],
        ..Wanted::default()
    };
    let steps = plan(&wanted, &disk(&["/m/a.mp3", "/m/b.mp3"])).expect("allowed");
    assert_eq!(
        steps,
        vec![
            Step::Delete(p("/m/b.mp3")),
            Step::Rename(p("/m/a.mp3"), p("/m/b.mp3")),
        ],
        "and the delete has to run first, or the rename lands on a file still there"
    );
}

#[test]
fn a_name_freed_by_a_move_in_the_same_write_is_allowed() {
    let wanted = Wanted {
        renames: vec![(p("/m/a.mp3"), p("/m/b.mp3"))],
        moves: vec![(p("/m/b.mp3"), p("/m/sub/b.mp3"))],
        ..Wanted::default()
    };
    assert!(
        plan(&wanted, &disk(&["/m/a.mp3", "/m/b.mp3"])).is_err(),
        "a rename and a move that depend on each other are refused, not guessed at"
    );
}

#[test]
fn a_name_freed_by_a_deleted_folder_is_allowed() {
    let wanted = Wanted {
        moves: vec![(p("/m/a.mp3"), p("/m/old/a.mp3"))],
        delete_dirs: vec![p("/m/old")],
        ..Wanted::default()
    };
    assert!(plan(&wanted, &disk(&["/m/a.mp3", "/m/old/a.mp3"])).is_ok());
}

#[test]
fn a_chain_of_renames_runs_in_an_order_that_works() {
    // b must move out before a takes its name.
    let wanted = renames(&[("/m/a.mp3", "/m/b.mp3"), ("/m/b.mp3", "/m/c.mp3")]);
    let steps = plan(&wanted, &disk(&["/m/a.mp3", "/m/b.mp3"])).expect("allowed");
    assert_eq!(
        steps,
        vec![
            Step::Rename(p("/m/b.mp3"), p("/m/c.mp3")),
            Step::Rename(p("/m/a.mp3"), p("/m/b.mp3")),
        ]
    );
}

#[test]
fn an_untouched_name_is_no_obstacle() {
    let wanted = renames(&[("/m/a.mp3", "/m/new.mp3")]);
    assert!(plan(&wanted, &disk(&["/m/a.mp3", "/m/unrelated.mp3"])).is_ok());
}

#[test]
fn an_empty_batch_is_allowed_and_does_nothing() {
    assert_eq!(plan(&Wanted::default(), &disk(&[])).unwrap(), vec![]);
}

// ---- the order the steps come out in ------------------------------------

#[test]
fn folders_are_deleted_deepest_first() {
    let wanted = Wanted {
        delete_dirs: vec![p("/m/a"), p("/m/a/b/c"), p("/m/a/b")],
        ..Wanted::default()
    };
    let steps = plan(&wanted, &disk(&[])).unwrap();
    assert_eq!(
        steps,
        vec![
            Step::DeleteDir(p("/m/a/b/c")),
            Step::DeleteDir(p("/m/a/b")),
            Step::DeleteDir(p("/m/a")),
        ],
        "a folder inside a marked folder has to be gone before its parent"
    );
}

#[test]
fn deletions_come_before_the_renames_they_make_room_for() {
    let wanted = Wanted {
        renames: vec![(p("/m/a.mp3"), p("/m/b.mp3"))],
        deletes: vec![p("/m/b.mp3")],
        copies: vec![(p("/m/a.mp3"), p("/m/copy.mp3"))],
        delete_dirs: vec![p("/m/old")],
        ..Wanted::default()
    };
    let steps = plan(&wanted, &disk(&["/m/a.mp3", "/m/b.mp3"])).unwrap();
    let kinds: Vec<&str> = steps
        .iter()
        .map(|s| match s {
            Step::Delete(_) => "delete",
            Step::Rename(..) => "rename",
            Step::Copy(..) => "copy",
            Step::DeleteDir(_) => "rmdir",
        })
        .collect();
    assert_eq!(kinds, vec!["delete", "rename", "copy", "rmdir"]);
}

// ---- what the disk is asked, and what its answers decide ------------------

/// The verdict on the disk's answers: the same batch is refused or allowed by
/// what the filesystem says about its one claim, and by nothing else.
#[test]
fn the_disk_alone_decides_whether_a_claim_is_free() {
    let wanted = renames(&[("/m/a.mp3", "/m/b.mp3")]);
    assert!(plan_with(&wanted, &vec![true]).is_err());
    assert_eq!(
        plan_with(&wanted, &vec![false]).unwrap(),
        vec![Step::Rename(p("/m/a.mp3"), p("/m/b.mp3"))]
    );
}

#[test]
fn each_refusal_names_the_file_it_is_about() {
    let wanted = renames(&[("/m/a.mp3", "/m/sub/b.mp3")]);
    let why = plan_with(&wanted, &vec![true]).unwrap_err().0;
    assert_eq!(why, "`b.mp3` already exists, nothing written");

    let twice = renames(&[("/m/a.mp3", "/m/same.mp3"), ("/m/b.mp3", "/m/same.mp3")]);
    assert_eq!(
        plan_with(&twice, &vec![false, false]).unwrap_err().0,
        "two files would both become `same.mp3`, nothing written"
    );

    let both = Wanted {
        renames: vec![(p("/m/a.mp3"), p("/m/new.mp3"))],
        deletes: vec![p("/m/a.mp3")],
        ..Wanted::default()
    };
    assert_eq!(
        plan_with(&both, &vec![false]).unwrap_err().0,
        "`a.mp3` is marked for deletion and for renaming, nothing written"
    );

    let swap = renames(&[("/m/a.mp3", "/m/b.mp3"), ("/m/b.mp3", "/m/a.mp3")]);
    assert_eq!(
        plan_with(&swap, &vec![true, true]).unwrap_err().0,
        "`a.mp3` and `b.mp3` would swap names, which needs two writes: rename one aside first"
    );
}

#[test]
fn a_move_onto_a_name_a_rename_frees_is_refused_with_its_own_words() {
    let wanted = Wanted {
        renames: vec![(p("/m/a.mp3"), p("/m/c.mp3"))],
        moves: vec![(p("/m/b.mp3"), p("/m/a.mp3"))],
        ..Wanted::default()
    };
    assert_eq!(
        plan(&wanted, &disk(&["/m/a.mp3", "/m/b.mp3"])).unwrap_err().0,
        "`a.mp3` is being renamed and moved onto in one write: do them one at a time"
    );
}

#[test]
fn a_folder_is_not_under_a_folder_whose_name_it_only_starts_with() {
    let wanted = Wanted {
        moves: vec![(p("/m/a.mp3"), p("/m/older/a.mp3"))],
        delete_dirs: vec![p("/m/old")],
        ..Wanted::default()
    };
    assert!(plan(&wanted, &disk(&["/m/a.mp3", "/m/older/a.mp3"])).is_err());
}

#[test]
fn a_rename_onto_itself_is_no_obstacle() {
    let wanted = renames(&[("/m/a.mp3", "/m/a.mp3")]);
    assert_eq!(
        plan(&wanted, &disk(&["/m/a.mp3"])).unwrap(),
        vec![Step::Rename(p("/m/a.mp3"), p("/m/a.mp3"))]
    );
}

#[test]
fn a_disk_with_fewer_files_gives_the_same_steps() {
    let wanted = Wanted {
        renames: vec![(p("/m/keep.mp3"), p("/m/dupe.mp3"))],
        deletes: vec![p("/m/dupe.mp3")],
        ..Wanted::default()
    };
    let full = plan(&wanted, &disk(&["/m/keep.mp3", "/m/dupe.mp3"])).unwrap();
    let empty = plan(&wanted, &disk(&[])).unwrap();
    assert_eq!(full, empty);
    assert_eq!(full, vec![Step::Delete(p("/m/dupe.mp3")), Step::Rename(p("/m/keep.mp3"), p("/m/dupe.mp3"))]);
}

/// Depth is counted in components, so a `.` in the middle of a path or a
/// doubled slash adds nothing to it.
#[test]
fn folder_depth_counts_components_not_slashes() {
    let wanted = Wanted {
        delete_dirs: vec![p("/m/a/./b"), p("/m/a/b/c")],
        ..Wanted::default()
    };
    assert_eq!(
        plan(&wanted, &disk(&[])).unwrap(),
        vec![Step::DeleteDir(p("/m/a/b/c")), Step::DeleteDir(p("/m/a/./b"))]
    );
}

/// A path written with a doubled slash is still inside the folder it names.
#[test]
fn a_source_under_a_doomed_folder_written_loosely_is_refused() {
    let wanted = Wanted {
        renames: vec![(p("/m//a/x.mp3"), p("/m/y.mp3"))],
        delete_dirs: vec![p("/m/a")],
        ..Wanted::default()
    };
    assert!(plan(&wanted, &disk(&["/m//a/x.mp3"])).is_err());
}
