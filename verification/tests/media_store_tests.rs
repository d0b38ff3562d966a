use deskemy::backup::{accept_entry, check_schema, not_a_backup, staged_outcome, Manifest};
use deskemy::db::{migration_steps, now, unix_seconds, SCHEMA_VERSION};
use deskemy::error::DeskemyError;
use deskemy::hashing::{content_hash_of, sample_needs_more, to_hex, SAMPLE_BYTES};
use deskemy::thumbnails::{sanitize_ext, sniff_ext, thumbnail_name};

fn expected_hash(size: u64, sample: &[u8]) -> String {
    let mut h = blake3::Hasher::new();
    h.update(&size.to_le_bytes());
    h.update(sample);
    h.finalize().to_hex().to_string()
}

#[test]
fn content_hash_matches_incremental_blake3() {
    let sample = b"the-actual-video-bytes-of-lecture-one";
    assert_eq!(content_hash_of(12345, sample), expected_hash(12345, sample));
    assert_eq!(content_hash_of(0, b""), expected_hash(0, b""));
    assert_ne!(content_hash_of(1, sample), content_hash_of(2, sample));
}

#[test]
fn hex_is_lower_case_two_digits_per_byte() {
    let h: Vec<char> = to_hex(&vec![0x00, 0x0f, 0xa0, 0xff]);
    assert_eq!(h.into_iter().collect::<String>(), "000fa0ff");
}

#[test]
fn sample_is_one_mebibyte() {
    assert_eq!(SAMPLE_BYTES, 1024 * 1024);
    assert!(sample_needs_more(0));
    assert!(sample_needs_more(SAMPLE_BYTES - 1));
    assert!(!sample_needs_more(SAMPLE_BYTES));
}

#[test]
fn sniffs_image_types() {
    assert_eq!(sniff_ext(b"\x89PNG\r\n\x1a\nrest"), Some("png"));
    assert_eq!(sniff_ext(&[0xFF, 0xD8, 0xFF, 0xE0]), Some("jpg"));
    assert_eq!(sniff_ext(b"GIF89a..."), Some("gif"));
    assert_eq!(sniff_ext(b"GIF87a"), Some("gif"));
    assert_eq!(sniff_ext(b"RIFF\0\0\0\0WEBPVP8 "), Some("webp"));
    assert_eq!(sniff_ext(b"RIFF\0\0\0\0WEBP"), Some("webp"));
    assert_eq!(sniff_ext(b"RIFF\0\0\0\0WEB"), None);
    assert_eq!(sniff_ext(b"BMxx"), Some("bmp"));
    assert_eq!(sniff_ext(b"hello"), None);
    assert_eq!(sniff_ext(b""), None);
}

#[test]
fn sanitizes_extension_hints() {
    assert_eq!(sanitize_ext(".JPEG"), "jpg");
    assert_eq!(sanitize_ext("image/png"), "png");
    assert_eq!(sanitize_ext("..webp"), "webp");
    assert_eq!(sanitize_ext("image/GIF"), "gif");
    assert_eq!(sanitize_ext("bmp"), "bmp");
    assert_eq!(sanitize_ext("tiff"), "png");
    assert_eq!(sanitize_ext(""), "png");
}

#[test]
fn thumbnail_names_are_content_addressed() {
    let png = b"\x89PNG\r\n\x1a\npixels";
    let hex = blake3::hash(png).to_hex().to_string();
    let name = thumbnail_name(png, Some("jpeg")).unwrap();
    assert_eq!(name, format!("{}.png", &hex[..16]));
    assert_eq!(thumbnail_name(png, None).unwrap(), name);

    let raw = b"no magic here";
    let hex = blake3::hash(raw).to_hex().to_string();
    assert_eq!(thumbnail_name(raw, Some(".JPEG")).unwrap(), format!("{}.jpg", &hex[..16]));
    assert_eq!(thumbnail_name(raw, None).unwrap(), format!("{}.png", &hex[..16]));

    match thumbnail_name(b"", Some("png")) {
        Err(DeskemyError::Other(m)) => assert_eq!(m, "empty image data"),
        other => panic!("unexpected {other:?}"),
    }
}

#[test]
fn migrations_run_each_missing_step_once() {
    assert_eq!(SCHEMA_VERSION, 6);
    assert_eq!(migration_steps(0), vec![1, 2, 3, 4, 5, 6]);
    assert_eq!(migration_steps(4), vec![5, 6]);
    assert_eq!(migration_steps(6), Vec::<i64>::new());
    assert_eq!(migration_steps(9), Vec::<i64>::new());
    assert_eq!(migration_steps(-3), vec![1, 2, 3, 4, 5, 6]);
}

#[test]
fn clock_seconds() {
    assert_eq!(unix_seconds(None), 0);
    assert_eq!(unix_seconds(Some(5)), 5);
    assert_eq!(unix_seconds(Some(u64::MAX)), -1);
    assert!(now() > 1_600_000_000);
}

#[test]
fn backup_entries_filter() {
    assert!(accept_entry("deskemy.db"));
    assert!(accept_entry("config.json"));
    assert!(accept_entry("thumbnails/a.png"));
    assert!(!accept_entry("deskemy-backup.json"));
    assert!(!accept_entry("thumbnails/"));
    assert!(!accept_entry("thumbnails/sub/"));
    assert!(!accept_entry("thumbnails/../evil"));
    assert!(!accept_entry("/deskemy.db"));
    assert!(!accept_entry("other.txt"));
    assert!(!accept_entry("deskemy.db-wal"));
}

#[test]
fn backup_schema_and_outcome() {
    let m = Manifest { app_version: "1.1.0".to_string(), schema_version: 9, created_at: 0 };
    match check_schema(&m, 6) {
        Err(DeskemyError::Other(msg)) => assert_eq!(
            msg,
            "this backup is from a newer version of Deskemy (data format v9, this build supports v6). Update Deskemy and try again."
        ),
        other => panic!("unexpected {other:?}"),
    }
    let ok = Manifest { app_version: "1.0.0".to_string(), schema_version: 6, created_at: 0 };
    assert!(check_schema(&ok, 6).is_ok());
    let neg = Manifest { app_version: String::new(), schema_version: -1, created_at: 0 };
    match check_schema(&neg, -5) {
        Err(DeskemyError::Other(msg)) => assert!(msg.contains("v-1, this build supports v-5")),
        other => panic!("unexpected {other:?}"),
    }
    assert!(staged_outcome(true).is_ok());
    match staged_outcome(false) {
        Err(DeskemyError::Other(m)) => assert_eq!(m, "backup archive is missing its database"),
        other => panic!("unexpected {other:?}"),
    }
    match not_a_backup() {
        DeskemyError::Other(m) => assert_eq!(m, "not a Deskemy backup (no manifest)"),
        other => panic!("unexpected {other:?}"),
    }
}

#[test]
fn error_kinds() {
    assert_eq!(DeskemyError::Io("x".into()).kind(), "Io");
    assert_eq!(DeskemyError::NotFound("x".into()).kind(), "NotFound");
    assert_eq!(DeskemyError::Other("m".into()).kind(), "Other");
    assert_eq!(DeskemyError::Archive("m".into()).detail(), "m");
}
