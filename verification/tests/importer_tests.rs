use deskemy::commands::relocated_path;
use deskemy::error::DeskemyError;
use deskemy::importer::{
    associate_resources, attachment_kind, check_plan, course_title, detect_thumbnail,
    hash_lecture_file, lecture_hash, plan_sections, remap, reuse_prior, section_sort_key,
    ImportPlan, Importer, PlannedSection,
};
use deskemy::media::{container_of, typed_tracks, MediaProber, RawTrack, StubProber};
use deskemy::scanner::{scanned_file, ScannedFile, ScannedTree};

fn file(root: &str, rel: &str) -> ScannedFile {
    let path = format!("{root}/{rel}");
    let name = rel.rsplit('/').next().unwrap().to_string();
    scanned_file(root, path, name, 1, Some(100))
}

fn titles(s: &PlannedSection) -> Vec<String> {
    s.lectures.iter().map(|l| l.title.clone()).collect()
}

#[test]
fn plan_orders_hierarchy_and_links_resources() {
    let root = "/lib/Awesome Course";
    let files = vec![
        file(root, "02 - Basics/001 Welcome.mp4"),
        file(root, "02 - Basics/001 Welcome.srt"),
        file(root, "02 - Basics/002 Setup.mp4"),
        file(root, "02 - Basics/002 setup-code.sql"),
        file(root, "01 - Intro/002 Second.mp4"),
        file(root, "01 - Intro/001 First.mp4"),
        file(root, "00 Promo.mp4"),
    ];
    let secs = plan_sections(&files);
    let section_titles: Vec<String> = secs.iter().map(|s| s.title.clone()).collect();
    assert_eq!(section_titles, vec!["Introduction", "Intro", "Basics"]);
    assert_eq!(titles(&secs[1]), vec!["First", "Second"]);
    assert_eq!(titles(&secs[2]), vec!["Welcome", "Setup"]);
    let total: usize = secs.iter().map(|s| s.lectures.len()).sum();
    assert_eq!(total, 5);

    let (subs, res) = associate_resources(&files, &secs);
    assert_eq!(subs.len(), 1);
    assert_eq!(subs[0].file, 1);
    assert_eq!(secs[subs[0].section].lectures[subs[0].lecture].title, "Welcome");
    assert_eq!(res.len(), 1);
    let sql = &res[0];
    assert_eq!(sql.file, 3);
    let lec = sql.lecture.expect("resource should bind to lecture 002");
    assert_eq!(secs[sql.section.unwrap()].lectures[lec].title, "Setup");
    assert_eq!(sql.kind, "code");

    let plan = ImportPlan { scan: ScannedTree { root: root.to_string(), files }, sections: secs };
    assert_eq!(plan.lecture_count(), 5);
    assert_eq!(plan.section_count(), 3);
    assert_eq!(plan.subtitle_count(), 1);
    assert_eq!(plan.resource_count(), 1);
    assert_eq!(plan.unplayable_count(), 0);
    assert!(check_plan(&plan, root).is_ok());
}

#[test]
fn plan_collapses_nested_folders_and_numbering_variants() {
    let root = "/lib/Variants";
    let files = vec![
        file(root, "02 - Advanced/1 - Basics.mp4"),
        file(root, "02 - Advanced/Deep Dive/2. Internals.mp4"),
        file(root, "02 - Advanced/Wrapup.mp4"),
        file(root, "02 - Advanced/cheatsheet.pdf"),
    ];
    let secs = plan_sections(&files);
    assert_eq!(secs.len(), 1);
    assert_eq!(secs[0].title, "Advanced");
    assert_eq!(titles(&secs[0]), vec!["Basics", "Internals", "Wrapup"]);
    let (_, res) = associate_resources(&files, &secs);
    assert_eq!(res.len(), 1);
    assert_eq!(res[0].kind, "pdf");
    assert_eq!(res[0].section, Some(0));
    assert_eq!(res[0].lecture, None);
}

#[test]
fn renamed_file_keeps_its_data_by_hash() {
    let root = "/lib/Rename Course";
    let one = b"the-actual-video-bytes-of-lecture-one";
    let two = b"different-bytes-for-lecture-two";
    let old_hash = hash_lecture_file(one.len() as u64, Some(&one[..])).unwrap();

    let files = vec![
        file(root, "01 - Intro/001 Renamed Lecture.mp4"),
        file(root, "01 - Intro/002 Second.mp4"),
    ];
    let mut secs = plan_sections(&files);
    secs[0].lectures[0].content_hash = hash_lecture_file(one.len() as u64, Some(&one[..]));
    secs[0].lectures[1].content_hash = hash_lecture_file(two.len() as u64, Some(&two[..]));

    let old_path = format!("{root}/01 - Intro/001 Old Title.mp4");
    let (s, l) = remap(&secs, &old_path, &Some(old_hash)).expect("renamed lecture found");
    assert_eq!(secs[s].lectures[l].title, "Renamed Lecture");

    // Same path wins over hash.
    let second_path = format!("{root}/01 - Intro/002 Second.mp4");
    assert_eq!(remap(&secs, &second_path, &None), Some((0, 1)));
    // Unknown path and hash maps nowhere.
    assert_eq!(remap(&secs, "/elsewhere.mp4", &Some("0".repeat(64))), None);
}

#[test]
fn relocating_keeps_relative_suffix() {
    let old_folder = "/lib/Old Name";
    let lec_path = "/lib/Old Name/01 - Intro/001 First.mp4";
    let new_folder = r"D:\Moved\New Name";
    let moved = relocated_path(lec_path, old_folder, new_folder);
    assert!(moved.starts_with(new_folder));
    assert_eq!(
        lec_path.strip_prefix(old_folder).unwrap(),
        moved.strip_prefix(new_folder).unwrap()
    );
    assert_eq!(relocated_path(&moved, new_folder, old_folder), lec_path);
}

#[test]
fn empty_plan_is_refused() {
    let plan = ImportPlan {
        scan: ScannedTree { root: "/x".to_string(), files: vec![] },
        sections: vec![],
    };
    match check_plan(&plan, "/x") {
        Err(DeskemyError::Import(m)) => assert_eq!(m, "no playable video files found in /x"),
        other => panic!("unexpected {other:?}"),
    }
}

#[test]
fn thumbnail_prefers_cover_image_in_root() {
    let root = "/lib/C";
    let files = vec![file(root, "a.png"), file(root, "Cover.JPG"), file(root, "s/poster.jpg")];
    assert_eq!(detect_thumbnail(&files), Some(format!("{root}/Cover.JPG")));
    let files = vec![file(root, "s/x.png"), file(root, "b.webp")];
    assert_eq!(detect_thumbnail(&files), Some(format!("{root}/b.webp")));
    assert_eq!(detect_thumbnail(&vec![file(root, "s/x.png")]), None);
}

#[test]
fn attachment_kinds_and_section_keys() {
    let root = "/lib/C";
    assert_eq!(attachment_kind(&file(root, "notes.PDF")), "pdf");
    assert_eq!(attachment_kind(&file(root, "code.zip")), "archive");
    assert_eq!(attachment_kind(&file(root, "README")), "other");
    assert_eq!(section_sort_key(""), (0, 0, String::new()));
    assert_eq!(section_sort_key("03 - Deep"), (1, 3, "03 - deep".to_string()));
    assert_eq!(section_sort_key("Extras"), (1, i64::MAX, "extras".to_string()));
}

#[test]
fn reuse_and_hash_decisions() {
    assert!(reuse_prior(Some(10), Some(5), true, 10, 5));
    assert!(!reuse_prior(Some(10), Some(5), false, 10, 5));
    assert!(!reuse_prior(Some(10), Some(6), true, 10, 5));
    assert_eq!(lecture_hash(Some("h".to_string()), 3, Some(&b"abc"[..])), Some("h".to_string()));
    assert_eq!(lecture_hash(None, 3, None), None);
    let fresh = lecture_hash(None, 3, Some(&b"abc"[..])).unwrap();
    assert_eq!(fresh.len(), 64);
    assert_ne!(fresh, lecture_hash(None, 4, Some(&b"abc"[..])).unwrap());
}

#[test]
fn stub_prober_and_importer() {
    let importer = Importer::new(StubProber);
    assert!(matches!(importer.probe_video("/a/b.MKV", true), Ok(None)));
    let meta = importer.probe_video("/a/b.MKV", false).unwrap().unwrap();
    assert_eq!(meta.container, "mkv");
    assert!(meta.playable);
    assert!(meta.duration.is_none());
    assert_eq!(container_of(&meta), Some("mkv".to_string()));
    let none = StubProber.probe("/a/README").unwrap();
    assert_eq!(none.container, "");
    assert_eq!(container_of(&none), None);
}

#[test]
fn course_titles() {
    assert_eq!(course_title("/lib/My Course"), "My Course");
    assert_eq!(course_title("C:\\lib\\Course\\"), "Course");
    assert_eq!(course_title("/"), "/");
}

#[test]
fn section_keys_are_top_level_folders() {
    let root = "/lib/C";
    assert_eq!(deskemy::importer::section_key(&file(root, "a/b/c.mp4")), "a");
    assert_eq!(deskemy::importer::section_key(&file(root, "c.mp4")), "");
}

#[test]
fn backend_tracks_are_typed() {
    let raw = |kind: &str, id: i64| RawTrack {
        kind: kind.to_string(),
        id,
        lang: Some("en".to_string()),
        title: None,
        codec: "c".to_string(),
        width: Some(1920),
        height: Some(-1),
        channels: Some(2),
    };
    let (v, a, s) = typed_tracks(vec![raw("video", 1), raw("audio", 2), raw("sub", 3), raw("data", 4), raw("audio", 5)]);
    assert_eq!(v.len(), 1);
    assert_eq!(v[0].width, Some(1920));
    assert_eq!(v[0].height, Some(u32::MAX));
    assert_eq!(a.iter().map(|t| t.id).collect::<Vec<_>>(), vec![2, 5]);
    assert_eq!(a[0].channels, Some(2));
    assert_eq!(s.len(), 1);
    assert_eq!(s[0].id, 3);
}
