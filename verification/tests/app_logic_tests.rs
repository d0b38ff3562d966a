use deskemy::commands::{
    tag_to_add, gc_report, group_by_section, library_reconcile, root_path, thumbnails_to_remove, RootDto,
};
use deskemy::domain::{reconciled_status, status_from_text, ScanStatus};
use deskemy::error::DeskemyError;
use deskemy::player::{
    flag_or, no_prefs, remember_audio, remember_subtitle, remembered_tracks, split_tracks,
    track_info, EndAction, Playlist, PlaylistItem, SubtitleChoice,
};
use deskemy::search::fts_match_expr;
use deskemy::stats::{
    active_days_since, best_streak, courses_in_progress, current_streak, lectures_last_7, DayRecord,
};
use deskemy::watcher::{path_starts_with, rescan_targets, watch_paths, CourseFolder, LibraryRoot};

fn day(jd: i64, qualifies: bool, completed: i64) -> DayRecord {
    DayRecord { jd, qualifies, active: qualifies || completed > 0, completed }
}

#[test]
fn streaks() {
    let rows = vec![day(10, true, 1), day(11, true, 0), day(12, true, 2), day(14, true, 0), day(15, true, 1)];
    assert_eq!(current_streak(&rows, 15), 2);
    assert_eq!(current_streak(&rows, 16), 2);
    assert_eq!(current_streak(&rows, 17), 0);
    assert_eq!(current_streak(&rows, 12), 3);
    assert_eq!(best_streak(&rows), 3);
    assert_eq!(best_streak(&vec![]), 0);
    // a later row for the same day replaces the earlier one
    let rows = vec![day(5, true, 0), day(5, false, 0)];
    assert_eq!(current_streak(&rows, 5), 0);
    assert_eq!(best_streak(&rows), 0);
}

#[test]
fn windows_and_counts() {
    let rows = vec![day(1, false, 4), day(8, true, 2), day(9, false, 3), day(10, false, 0)];
    assert_eq!(lectures_last_7(&rows, 10), 5);
    assert_eq!(lectures_last_7(&rows, 7), 4);
    assert_eq!(active_days_since(&rows, 8), 2);
    assert_eq!(active_days_since(&rows, 0), 3);
    assert_eq!(courses_in_progress(5, 2), 3);
    assert_eq!(courses_in_progress(1, 4), 0);
}

fn items(ids: &[&str]) -> Vec<PlaylistItem> {
    ids.iter().map(|i| PlaylistItem { lecture_id: i.to_string(), path: format!("/v/{i}.mp4") }).collect()
}

#[test]
fn playlist_moves() {
    let mut pl = Playlist::new();
    assert!(pl.current().is_err());
    assert!(pl.remembered_course().is_none());
    pl.open("c1".to_string(), items(&["a", "b", "c"]), "b");
    assert_eq!(pl.index, 1);
    assert!(pl.step(1));
    assert_eq!(pl.current().unwrap().lecture_id, "c");
    assert!(!pl.step(1));
    assert_eq!(pl.index, 2);
    assert!(pl.step(-1));
    assert_eq!(pl.index, 1);
    assert_eq!(pl.on_ended(true), EndAction::Advanced);
    assert_eq!(pl.index, 2);
    assert_eq!(pl.on_ended(true), EndAction::Stopped);
    assert_eq!(pl.index, 2);
    pl.open("c2".to_string(), items(&["x"]), "missing");
    assert_eq!(pl.index, 0);
    assert_eq!(pl.on_ended(false), EndAction::Stopped);
    assert_eq!(pl.remembered_course().unwrap(), "c2");
    match Playlist::new().current() {
        Err(DeskemyError::Other(m)) => assert_eq!(m, "empty playlist"),
        _ => panic!("expected an error"),
    }
}

#[test]
fn track_preferences() {
    let p = remember_subtitle(no_prefs(), Some(3));
    assert_eq!(remembered_tracks(Some(p)), (None, SubtitleChoice::Select(3)));
    let p = remember_audio(p, Some(2));
    let p = remember_subtitle(p, None);
    assert_eq!(remembered_tracks(Some(p)), (Some(2), SubtitleChoice::Off));
    assert_eq!(p.subtitle_id, Some(3));
    assert_eq!(remembered_tracks(None), (None, SubtitleChoice::Keep));
}

#[test]
fn tracks_from_mpv() {
    let t = track_info(Some(2), Some("sub".into()), Some("en".into()), None, Some("subrip".into()),
        Some("yes".into()), Some("C:\\subs\\lesson.en.srt".into()));
    assert_eq!(t.id, 2);
    assert!(t.selected);
    assert_eq!(t.filename.as_deref(), Some("lesson.en.srt"));
    let a = track_info(None, Some("audio".into()), None, None, None, Some("no".into()), None);
    let v = track_info(Some(1), Some("video".into()), None, None, None, None, None);
    assert_eq!(a.id, 0);
    assert!(!a.selected);
    let (audio, subs) = split_tracks(vec![v, a.clone(), t.clone()]);
    assert_eq!(audio.len(), 1);
    assert_eq!(subs.len(), 1);
    assert_eq!(subs[0].id, 2);
    assert!(flag_or(&None, true));
    assert!(!flag_or(&Some("YES".into()), true));
}

#[test]
fn fts_expressions() {
    assert_eq!(fts_match_expr("rust  intro", "title"), Some("title : (\"rust\"* \"intro\"*)".to_string()));
    assert_eq!(fts_match_expr("say \"hi\" -- !!", "text"), Some("text : (\"say\"* \"\"\"hi\"\"\"*)".to_string()));
    assert_eq!(fts_match_expr("  -- ** ", "title"), None);
    assert_eq!(fts_match_expr("", "title"), None);
    assert_eq!(fts_match_expr("café", "t"), Some("t : (\"café\"*)".to_string()));
}

fn course(id: &str, folder: &str, root: Option<&str>) -> CourseFolder {
    CourseFolder { id: id.into(), folder: folder.into(), root_id: root.map(|r| r.to_string()) }
}

#[test]
fn rescan_targets_from_changes() {
    let courses = vec![
        course("c1", "D:\\Lib\\Rust", Some("r1")),
        course("c2", "E:\\Solo", None),
    ];
    let roots = vec![LibraryRoot { id: "r1".into(), path: "D:\\Lib".into() }];
    let paths: Vec<String> = vec![
        "D:\\Lib\\Rust\\01\\a.mp4".into(),
        "D:\\Lib\\Rust\\02\\b.mp4".into(),
        "D:\\Lib\\New Course\\x.mp4".into(),
        "E:\\Solo\\y.srt".into(),
        "F:\\Elsewhere\\z".into(),
        "D:\\Lib".into(),
    ];
    let t = rescan_targets(&paths, &courses, &roots, &None, true);
    let got: Vec<(String, Option<String>, bool)> =
        t.iter().map(|t| (t.folder.clone(), t.root_id.clone(), t.new_folder)).collect();
    assert_eq!(
        got,
        vec![
            ("D:\\Lib\\Rust".to_string(), Some("r1".to_string()), false),
            ("D:\\Lib\\New Course".to_string(), Some("r1".to_string()), true),
            ("E:\\Solo".to_string(), None, false),
        ]
    );
    let t = rescan_targets(&paths, &courses, &roots, &Some("c1".to_string()), true);
    assert_eq!(t.len(), 2);
    assert_eq!(t[0].folder, "D:\\Lib\\New Course");
    assert!(rescan_targets(&paths, &courses, &roots, &None, false).is_empty());
    assert!(path_starts_with("D:/Lib/Rust/x", "D:\\Lib\\Rust"));
    assert!(!path_starts_with("D:\\Lib\\Rusty", "D:\\Lib\\Rust"));
    assert!(!path_starts_with("/a/b/x", "a/b"));
    assert!(path_starts_with("/a/./b//x/", "\\a\\b"));
    assert!(!path_starts_with("./a/x", "a"));
    assert!(path_starts_with("./a/x", "."));
    assert!(!path_starts_with("C:a\\x", "C:\\a"));
    assert_eq!(watch_paths(&roots, &courses), vec!["D:\\Lib".to_string(), "E:\\Solo".to_string()]);
}

#[test]
fn reconcile_and_gc() {
    let entries = vec![
        ("a".to_string(), true),
        ("b".to_string(), false),
        ("a".to_string(), false),
        ("c".to_string(), true),
        ("b".to_string(), false),
    ];
    let plan = library_reconcile(&entries);
    assert_eq!(
        plan.flags,
        vec![("a".to_string(), true), ("b".to_string(), true), ("c".to_string(), false)]
    );
    assert_eq!(plan.report.courses_checked, 3);
    assert_eq!(plan.report.courses_missing, 2);
    assert_eq!(plan.report.files_missing, 3);

    let refs = vec!["/data/thumbnails/aa.png".to_string(), "/data/thumbnails/bb.jpg".to_string()];
    let cache = vec!["aa.png".to_string(), "cc.png".to_string(), "bb.jpg".to_string()];
    assert_eq!(thumbnails_to_remove(&refs, &cache), vec![false, true, false]);
    let r = gc_report(&vec![(true, 10), (false, 99), (true, 5)]);
    assert_eq!((r.removed, r.freed_bytes), (2, 15));

    assert_eq!(reconciled_status(ScanStatus::Ready, true), ScanStatus::Missing);
    assert_eq!(reconciled_status(ScanStatus::Missing, false), ScanStatus::Ready);
    assert_eq!(reconciled_status(ScanStatus::Importing, true), ScanStatus::Importing);
    assert_eq!(status_from_text("Missing"), Some(ScanStatus::Missing));
    assert_eq!(status_from_text("ready"), None);
    assert_eq!(ScanStatus::Scanning.as_str(), "Scanning");
}

#[test]
fn roots_and_sections() {
    let roots = vec![RootDto { id: "r1".into(), path: "/lib".into() }];
    assert_eq!(root_path(&roots, "r1").unwrap(), "/lib");
    match root_path(&roots, "r9") {
        Err(DeskemyError::NotFound(m)) => assert_eq!(m, "library root r9"),
        other => panic!("unexpected {other:?}"),
    }
    let lecture_sections = vec!["s2".to_string(), "s1".to_string(), "s2".to_string(), "zz".to_string()];
    let sections = vec!["s1".to_string(), "s2".to_string(), "s1".to_string()];
    assert_eq!(group_by_section(&lecture_sections, &sections), vec![vec![1], vec![0, 2], vec![]]);
}

#[test]
fn tags_are_trimmed() {
    assert_eq!(tag_to_add("  sql \t"), Some("sql".to_string()));
    assert_eq!(tag_to_add("   "), None);
    assert_eq!(tag_to_add(""), None);
}
