use pacquet_package_manager::config::PackageImportMethod;
use pacquet_package_manager::link_file::{
    Attempt, AutoMethod, LinkFileError, LinkNext, create_cas_files, create_dir_error, link_next,
    link_start, needs_link, remember, target_dir,
};

fn s(text: &str) -> String {
    text.to_string()
}

fn pairs(list: &[(&str, &str)]) -> Vec<(String, String)> {
    list.iter().map(|(a, b)| (a.to_string(), b.to_string())).collect()
}

#[test]
fn fills_missing_files_even_when_target_dir_already_exists() {
    let files = pairs(&[("a.txt", "/tmp/store/a.txt"), ("b.txt", "/tmp/store/b.txt")]);

    let links = create_cas_files(PackageImportMethod::Auto, "/tmp/target", &files, false);
    assert_eq!(
        links,
        pairs(&[
            ("/tmp/store/a.txt", "/tmp/target/a.txt"),
            ("/tmp/store/b.txt", "/tmp/target/b.txt"),
        ])
    );

    // `a.txt` is there already from an earlier run, `b.txt` is not.
    assert!(!needs_link(false, true));
    assert!(needs_link(false, false));
}

fn refused() -> Result<(), String> {
    Err(s("not here"))
}

#[test]
fn automatic_import_tries_clone_then_hardlink_then_copy() {
    let state = link_start(PackageImportMethod::Auto, AutoMethod::Undecided, false);
    assert_eq!(state.attempt, Attempt::Clone);
    let LinkNext::Again { state, remove_target } = link_next(state, "/a", "/b", refused()) else {
        panic!("expected another attempt");
    };
    assert_eq!(state.attempt, Attempt::Hardlink);
    assert!(remove_target);
    let LinkNext::Again { state, remove_target } = link_next(state, "/a", "/b", refused()) else {
        panic!("expected another attempt");
    };
    assert_eq!(state.attempt, Attempt::Copy);
    assert!(!remove_target);
    let LinkNext::Failed { error } = link_next(state, "/a", "/b", refused()) else {
        panic!("expected a failure");
    };
    assert!(matches!(error, LinkFileError::CreateLink { from, to, error }
        if from == "/a" && to == "/b" && error == "not here"));
}

#[test]
fn windows_skips_the_clone() {
    let state = link_start(PackageImportMethod::Auto, AutoMethod::Undecided, true);
    assert_eq!(state.attempt, Attempt::Hardlink);
}

#[test]
fn what_worked_once_is_used_for_the_next_file() {
    let state = link_start(PackageImportMethod::Auto, AutoMethod::Undecided, true);
    let LinkNext::Done { learned } = link_next(state, "/a", "/b", Ok(())) else {
        panic!("expected success");
    };
    assert_eq!(learned, Some(AutoMethod::Hardlink));
    let known = remember(AutoMethod::Undecided, learned);
    assert_eq!(known, AutoMethod::Hardlink);

    let state = link_start(PackageImportMethod::Auto, known, false);
    assert_eq!(state.attempt, Attempt::Hardlink);
    let next = link_next(state, "/a", "/c", Ok(()));
    assert!(matches!(next, LinkNext::Done { learned: None }));
    assert_eq!(remember(known, None), AutoMethod::Hardlink);

    let state = link_start(PackageImportMethod::Auto, known, false);
    let next = link_next(state, "/a", "/c", refused());
    assert!(matches!(next, LinkNext::Failed { error: LinkFileError::CreateLink { .. } }));
}

#[test]
fn a_hardlink_falls_back_to_a_copy() {
    let state = link_start(PackageImportMethod::Hardlink, AutoMethod::Undecided, false);
    let LinkNext::Again { state, .. } = link_next(state, "/a", "/b", refused()) else {
        panic!("expected another attempt");
    };
    assert_eq!(state.attempt, Attempt::Copy);
    let LinkNext::Failed { error } = link_next(state, "/a", "/b", Err(s("full"))) else {
        panic!("expected a failure");
    };
    assert!(matches!(error, LinkFileError::CreateLink { error, .. }
        if error == "not here; fallback copy failed: full"));
}

#[test]
fn a_clone_does_not_fall_back() {
    let state = link_start(PackageImportMethod::Clone, AutoMethod::Copy, false);
    assert_eq!(state.attempt, Attempt::Clone);
    let next = link_next(state, "/a", "/b", refused());
    assert!(matches!(next, LinkNext::Failed {
        error: LinkFileError::CloneUnsupported { from, to, error },
    } if from == "/a" && to == "/b" && error == "not here"));

    let state = link_start(PackageImportMethod::CloneOrCopy, AutoMethod::Undecided, false);
    assert_eq!(state.attempt, Attempt::CloneOrCopy);
    let next = link_next(state, "/a", "/b", refused());
    assert!(matches!(next, LinkNext::Failed { error: LinkFileError::CreateLink { .. } }));

    let state = link_start(PackageImportMethod::Copy, AutoMethod::Undecided, false);
    let next = link_next(state, "/a", "/b", refused());
    assert!(matches!(next, LinkNext::Failed { error: LinkFileError::CreateLink { .. } }));
}

#[test]
fn the_directory_of_a_file_comes_first() {
    assert_eq!(target_dir("/a/b/c.txt", false), Some(s("/a/b")));
    assert_eq!(target_dir("/", false), None);
    assert!(matches!(create_dir_error("/a/b", "no room"),
        LinkFileError::CreateDir { dirname, error } if dirname == "/a/b" && error == "no room"));
    assert!(!needs_link(true, true));
    assert!(!needs_link(true, false));
}
