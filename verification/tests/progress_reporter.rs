use pacquet_package_manager::progress_reporter::{
    InstallReporter, Progress, ProgressStats, State, added, deprecation, downloaded, finish,
    format_deprecation_message, format_info, format_prefix_label, format_progress, format_warn,
    format_with_prefix, info, last_finished, log, pad, pad_left, resolved, reused, start, warn,
};

fn state(progress: &Progress) -> &State {
    progress.state.as_ref().expect("state")
}

#[test]
fn format_prefix_label_truncates_long_prefixes_from_the_left() {
    let formatted = format_prefix_label("loooooooooooooooooooooooooooooooooong-pkg-4");
    assert_eq!(formatted.len(), 41);
    assert!(formatted.starts_with("..."));
    assert!(formatted.ends_with("ong-pkg-4"));
}

#[test]
fn format_prefix_label_prefers_last_path_segment_for_long_paths() {
    let formatted = format_prefix_label("loooooooooooooooooooooooooooooooooong/pkg-3");
    assert_eq!(formatted, ".../pkg-3");
}

#[test]
fn deprecation_messages_are_deduped_per_run() {
    let mut progress = Progress::new();
    start(&mut progress, 0, false, InstallReporter::AppendOnly, None);
    let first = deprecation(&mut progress, "foo", "1.0.0", "old", false);
    let second = deprecation(&mut progress, "foo", "1.0.0", "old", false);
    assert_eq!(first, "WARN deprecated foo@1.0.0: old\n");
    assert_eq!(second, "");
    assert_eq!(state(&progress).deprecations.len(), 1);

    let _ = finish(&mut progress, true, false);
}

#[test]
fn deprecation_message_includes_reason_for_non_recursive_root_output() {
    assert_eq!(
        format_deprecation_message(false, "foo", "1.0.0", "old"),
        "WARN deprecated foo@1.0.0: old"
    );
}

#[test]
fn deprecation_message_omits_reason_for_prefixed_recursive_output() {
    assert_eq!(
        format_deprecation_message(true, "foo", "1.0.0", "old"),
        "WARN deprecated foo@1.0.0"
    );
}

#[test]
fn info_message_uses_pnpm_style_prefix() {
    assert_eq!(
        format_info("pkg@1.0.0 is an optional dependency and failed compatibility check."),
        "info: pkg@1.0.0 is an optional dependency and failed compatibility check."
    );
}

#[test]
fn warnings_are_collapsed_after_five_when_not_append_only() {
    let mut progress = Progress::new();
    start(&mut progress, 0, false, InstallReporter::Default, None);
    for idx in 0..7 {
        warn(&mut progress, &format!("issue {idx}"), false);
    }
    assert_eq!(state(&progress).shown_warnings, 5);
    assert_eq!(state(&progress).suppressed_warnings, 2);

    let _ = finish(&mut progress, true, false);
}

#[test]
fn info_does_not_increment_warning_counters() {
    let mut progress = Progress::new();
    start(&mut progress, 0, false, InstallReporter::Default, None);
    info(&mut progress, "something happened", false);
    assert_eq!(state(&progress).shown_warnings, 0);
    assert_eq!(state(&progress).suppressed_warnings, 0);

    let _ = finish(&mut progress, true, false);
}

#[test]
fn append_only_warnings_are_not_collapsed() {
    let mut progress = Progress::new();
    start(&mut progress, 0, false, InstallReporter::AppendOnly, None);
    for idx in 0..7 {
        warn(&mut progress, &format!("issue {idx}"), false);
    }
    assert_eq!(state(&progress).shown_warnings, 7);
    assert_eq!(state(&progress).suppressed_warnings, 0);

    let _ = finish(&mut progress, true, false);
}

#[test]
fn progress_is_drawn_on_a_terminal() {
    let mut progress = Progress::new();
    start(&mut progress, 1, false, InstallReporter::Default, Some("pkg"));
    assert_eq!(resolved(&mut progress, false, true), None);
    assert_eq!(reused(&mut progress, false, true), None);
    assert_eq!(downloaded(&mut progress, false, true), None);
    let label = format!("{:<41}", "pkg");
    assert_eq!(
        added(&mut progress, true, true),
        Some(format!(
            "\r\u{1b}[2K{label} | Progress: resolved 1, reused 1, downloaded 1, added 1"
        ))
    );
    assert!(state(&progress).rendered);
    assert_eq!(log(&mut progress, "hello", true), format!("\r\u{1b}[2K{label} | hello\n"));
    assert!(!state(&progress).rendered);
    let (stats, written) = finish(&mut progress, true, true);
    assert_eq!(
        stats,
        Some(ProgressStats { resolved: 1, reused: 1, downloaded: 1, added: 1 })
    );
    assert_eq!(written, "");
    assert_eq!(last_finished(&progress), stats);
    assert!(progress.state.is_none());
}

#[test]
fn progress_ends_with_a_last_line() {
    let mut progress = Progress::new();
    start(&mut progress, 1, false, InstallReporter::Default, None);
    resolved(&mut progress, true, true);
    let (_, written) = finish(&mut progress, true, true);
    assert_eq!(
        written,
        "\r\u{1b}[2KProgress: resolved 1, reused 0, downloaded 0, added 0, done\n"
    );

    start(&mut progress, 1, false, InstallReporter::Default, None);
    resolved(&mut progress, true, true);
    assert_eq!(finish(&mut progress, false, true).1, "\n");

    start(&mut progress, 1, false, InstallReporter::AppendOnly, None);
    assert_eq!(
        finish(&mut progress, false, false).1,
        "Progress: resolved 0, reused 0, downloaded 0, added 0, done\n"
    );
}

#[test]
fn nothing_is_told_in_silence() {
    let mut progress = Progress::new();
    start(&mut progress, 1, false, InstallReporter::Silent, None);
    assert_eq!(resolved(&mut progress, true, true), Some(String::new()));
    assert_eq!(log(&mut progress, "hello", true), "");
    assert_eq!(info(&mut progress, "hello", true), "");
    assert_eq!(warn(&mut progress, "hello", true), "");
    assert_eq!(finish(&mut progress, true, true).1, "");
}

#[test]
fn messages_are_told_without_an_installation() {
    let mut progress = Progress::new();
    assert_eq!(resolved(&mut progress, true, true), None);
    assert_eq!(log(&mut progress, "hello", true), "hello\n");
    assert_eq!(info(&mut progress, "hello", true), "info: hello\n");
    assert_eq!(warn(&mut progress, "hello", true), "WARN hello\n");
    assert_eq!(
        deprecation(&mut progress, "foo", "1.0.0", "old", true),
        "WARN deprecated foo@1.0.0: old\n"
    );
    assert_eq!(finish(&mut progress, true, true), (None, String::new()));
    assert_eq!(last_finished(&progress), None);
}

#[test]
fn collapsed_warnings_are_counted_at_the_end() {
    let mut progress = Progress::new();
    start(&mut progress, 0, false, InstallReporter::Default, None);
    for _ in 0..7 {
        warn(&mut progress, "issue", false);
    }
    assert_eq!(finish(&mut progress, true, false).1, "WARN 2 other warnings\n");
}

#[test]
fn messages_keep_the_counters() {
    let mut progress = Progress::new();
    start(&mut progress, 0, false, InstallReporter::Default, None);
    warn(&mut progress, "issue", false);
    added(&mut progress, false, false);
    log(&mut progress, "hello", false);
    info(&mut progress, "hello", false);
    assert_eq!(state(&progress).shown_warnings, 1);
    assert_eq!(state(&progress).suppressed_warnings, 0);
    assert_eq!(state(&progress).stats.added, 1);
}

#[test]
fn lines_are_formatted() {
    let stats = ProgressStats { resolved: 1, reused: 20, downloaded: 300, added: 4000 };
    assert_eq!(
        format_progress(stats, true),
        "Progress: resolved 1, reused 20, downloaded 300, added 4000, done"
    );
    assert_eq!(format_warn("late"), "WARN late");
    assert_eq!(format_with_prefix(None, "line"), "line");
    assert_eq!(format_with_prefix(Some("a"), "line"), format!("{:<41} | line", "a"));
    assert_eq!(pad("ab", 4), "ab  ");
    assert_eq!(pad("abcde", 4), "abcde");
    assert_eq!(pad_left("ab", 4), "  ab");
}

#[test]
fn a_deprecation_is_short_under_a_prefix() {
    let mut progress = Progress::new();
    start(&mut progress, 0, false, InstallReporter::AppendOnly, Some("pkg"));
    assert_eq!(
        deprecation(&mut progress, "foo", "1.0.0", "old", false),
        format!("{:<41} | WARN deprecated foo@1.0.0\n", "pkg")
    );
}

#[test]
fn a_silent_reporter_needs_no_label() {
    let prefix = "ü".repeat(30);
    let mut progress = Progress::new();
    start(&mut progress, 1, false, InstallReporter::Silent, Some(&format!("a{prefix}")));
    assert_eq!(log(&mut progress, "message", true), "");
    assert_eq!(warn(&mut progress, "message", true), "");
    assert_eq!(resolved(&mut progress, false, true), None);
    assert_eq!(finish(&mut progress, true, true).1, "");
}
