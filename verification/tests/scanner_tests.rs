use deskemy::scanner::{classify, scanned_file, FileKind};

#[test]
fn classifies_by_extension() {
    assert_eq!(classify("a/01 Intro.mp4"), FileKind::Video);
    assert_eq!(classify("a/lesson.MKV"), FileKind::Video);
    assert_eq!(classify("a/lesson.en.srt"), FileKind::Subtitle);
    assert_eq!(classify("a/cover.jpg"), FileKind::Image);
    assert_eq!(classify("a/slides.pdf"), FileKind::Attachment);
    assert_eq!(classify("a/README"), FileKind::Attachment);
}

#[test]
fn classifies_hidden_and_windows_paths() {
    assert_eq!(classify("C:\\c\\.mp4"), FileKind::Attachment);
    assert_eq!(classify("C:\\c\\x.VTT"), FileKind::Subtitle);
    assert_eq!(classify("dir.mp4/notes"), FileKind::Attachment);
}

#[test]
fn scanned_file_records_relative_folder_and_time() {
    let f = scanned_file(
        "/lib/Course",
        "/lib/Course/02 - Basics/sub/001 Welcome.mp4".to_string(),
        "001 Welcome.mp4".to_string(),
        10,
        Some(1_700_000_000),
    );
    assert_eq!(f.kind, FileKind::Video);
    assert_eq!(f.rel_dir, vec!["02 - Basics".to_string(), "sub".to_string()]);
    assert_eq!(f.mtime, 1_700_000_000);
    assert_eq!(f.size, 10);

    let root_file = scanned_file("/lib/Course/", "/lib/Course/a.pdf".to_string(), "a.pdf".to_string(), 1, None);
    assert!(root_file.rel_dir.is_empty());
    assert_eq!(root_file.mtime, 0);

    let outside = scanned_file("/other", "/lib/x/a.pdf".to_string(), "a.pdf".to_string(), 1, Some(u64::MAX));
    assert!(outside.rel_dir.is_empty());
    assert_eq!(outside.mtime, -1);
}
