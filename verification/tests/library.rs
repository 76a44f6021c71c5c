use zip_extract::encoding::decode_entry_name;
use zip_extract::errors::ExtractError;
use zip_extract::extract::get_zip_entry_file_name;
use zip_extract::extract::DirTimeAction;
use zip_extract::extract::EntryKind;
use zip_extract::extract::EntryStep;
use zip_extract::extract::Extractor;
use zip_extract::paths::join_under_root;
use zip_extract::paths::validate_entry_name;
use zip_extract::times::get_zip_entry_file_times;
use zip_extract::times::DosDateTime;

fn dos(year: u16, month: u8, day: u8, hour: u8, minute: u8, second: u8) -> DosDateTime {
    DosDateTime {
        year,
        month,
        day,
        hour,
        minute,
        second,
    }
}

fn components(name: &str) -> Vec<String> {
    validate_entry_name(name).unwrap().components
}

// --- EncodingResolver ---

#[test]
fn ascii_name_decodes_to_itself() {
    let decoded = decode_entry_name(b"hello-dir/file_1.txt").unwrap();
    assert_eq!(decoded, "hello-dir/file_1.txt");
}

#[test]
fn empty_name_is_rejected() {
    let err = decode_entry_name(b"").unwrap_err();
    assert_eq!(err, ExtractError::MalformedName);
}

#[test]
fn utf8_name_decodes_to_text() {
    let decoded = decode_entry_name("caf\u{e9}.txt".as_bytes()).unwrap();
    assert_eq!(decoded, "caf\u{e9}.txt");
}

#[test]
fn nul_in_name_is_rejected() {
    let err = decode_entry_name(b"evil\x00.txt").unwrap_err();
    assert_eq!(err, ExtractError::EmbeddedNul);
}

// --- PathValidator ---

#[test]
fn plain_nested_name_is_accepted() {
    assert_eq!(components("a/b/c.txt"), vec!["a", "b", "c.txt"]);
}

#[test]
fn cur_dir_and_empty_pieces_are_dropped() {
    assert_eq!(components("./a//b/./c"), vec!["a", "b", "c"]);
}

#[test]
fn trailing_separator_marks_no_component() {
    assert_eq!(components("dir/"), vec!["dir"]);
}

#[test]
fn non_escaping_parent_reference_is_kept() {
    assert_eq!(components("a/../b"), vec!["a", "..", "b"]);
}

#[test]
fn leading_parent_reference_escapes_root() {
    let err = validate_entry_name("../x").unwrap_err();
    assert_eq!(err, ExtractError::PathEscapesRoot);
}

#[test]
fn deep_backout_escaping_root_is_rejected() {
    let err = validate_entry_name("a/b/../../../x").unwrap_err();
    assert_eq!(err, ExtractError::PathEscapesRoot);
}

#[test]
fn absolute_name_is_rejected() {
    let err = validate_entry_name("/etc/passwd").unwrap_err();
    assert_eq!(err, ExtractError::AbsolutePathRejected);
}

#[test]
fn backslash_absolute_name_is_rejected() {
    let err = validate_entry_name("\\server\\share").unwrap_err();
    assert_eq!(err, ExtractError::AbsolutePathRejected);
}

#[test]
fn drive_prefix_is_rejected() {
    let err = validate_entry_name("C:/windows/system32").unwrap_err();
    assert_eq!(err, ExtractError::PrefixRejected);
}

#[test]
fn colon_inside_piece_is_rejected() {
    let err = validate_entry_name("a/b:c").unwrap_err();
    assert_eq!(err, ExtractError::PrefixRejected);
}

#[test]
fn join_appends_components_under_root() {
    let rel = validate_entry_name("a/b/c.txt").unwrap();
    assert_eq!(join_under_root("dest", &rel), "dest/a/b/c.txt");
}

// --- name pipeline ---

#[test]
fn safe_name_passes_the_whole_pipeline() {
    let name = get_zip_entry_file_name(b"docs/readme.md").unwrap();
    assert_eq!(name, "docs/readme.md");
}

#[test]
fn escaping_name_fails_the_whole_pipeline() {
    let err = get_zip_entry_file_name(b"../../etc/shadow").unwrap_err();
    assert_eq!(err, ExtractError::PathEscapesRoot);
}

// --- TimestampResolver ---

#[test]
fn missing_last_modified_yields_no_times() {
    let times = get_zip_entry_file_times(None).unwrap();
    assert!(!times.has_time());
    assert_eq!(times.accessed, None);
    assert_eq!(times.modified, None);
    assert_eq!(times.created, None);
}

#[test]
fn known_instant_converts_exactly() {
    let times = get_zip_entry_file_times(Some(dos(2018, 1, 1, 0, 0, 0))).unwrap();
    assert_eq!(times.modified, Some(1514764800));
}

#[test]
fn dos_epoch_converts_exactly() {
    let times = get_zip_entry_file_times(Some(dos(1980, 1, 1, 0, 0, 0))).unwrap();
    assert_eq!(times.modified, Some(315532800));
}

#[test]
fn unix_epoch_converts_exactly() {
    let times = get_zip_entry_file_times(Some(dos(1970, 1, 1, 0, 0, 0))).unwrap();
    assert_eq!(times.modified, Some(0));
}

#[test]
fn stored_time_collapses_to_all_three_fields() {
    let times = get_zip_entry_file_times(Some(dos(1999, 12, 31, 23, 59, 58))).unwrap();
    assert!(times.has_time());
    assert_eq!(times.accessed, times.modified);
    assert_eq!(times.created, times.modified);
}

#[test]
fn leap_day_is_a_valid_date() {
    let times = get_zip_entry_file_times(Some(dos(2020, 2, 29, 12, 0, 0))).unwrap();
    assert!(times.has_time());
}

#[test]
fn bad_leap_day_fails_conversion() {
    let err = get_zip_entry_file_times(Some(dos(2019, 2, 29, 0, 0, 0))).unwrap_err();
    assert_eq!(err, ExtractError::TimeConversionError);
}

#[test]
fn bad_month_fails_conversion() {
    let err = get_zip_entry_file_times(Some(dos(2000, 13, 1, 0, 0, 0))).unwrap_err();
    assert_eq!(err, ExtractError::TimeConversionError);
}

// --- ExtractionDriver ---

#[test]
fn leaf_file_names_its_missing_ancestors() {
    let mut driver = Extractor::new(String::from("dest"));
    let step = driver
        .process_entry(b"a/b/c.txt", EntryKind::File, None)
        .unwrap();
    match step {
        EntryStep::CreateFile {
            out_path,
            parent_dir,
            times,
        } => {
            assert_eq!(out_path, "dest/a/b/c.txt");
            assert_eq!(parent_dir.as_deref(), Some("dest/a/b"));
            assert!(!times.has_time());
        }
        _ => panic!("expected a file step"),
    }
    assert!(driver.finish().is_empty());
}

#[test]
fn dir_without_time_is_not_queued_and_file_carries_its_time() {
    let mut driver = Extractor::new(String::from("dest"));
    let dir_step = driver
        .process_entry(b"dir/", EntryKind::Dir, None)
        .unwrap();
    match dir_step {
        EntryStep::CreateDirectory { out_path } => assert_eq!(out_path, "dest/dir"),
        _ => panic!("expected a directory step"),
    }
    let file_step = driver
        .process_entry(
            b"dir/file.txt",
            EntryKind::File,
            Some(dos(2018, 1, 1, 0, 0, 0)),
        )
        .unwrap();
    match file_step {
        EntryStep::CreateFile {
            out_path, times, ..
        } => {
            assert_eq!(out_path, "dest/dir/file.txt");
            assert_eq!(times.modified, Some(1514764800));
            assert_eq!(times.accessed, Some(1514764800));
            assert_eq!(times.created, Some(1514764800));
        }
        _ => panic!("expected a file step"),
    }
    // The directory entry had no stored time, so the final pass touches
    // nothing and the directory keeps its creation-time defaults.
    assert!(driver.finish().is_empty());
}

#[test]
fn dir_times_are_applied_in_reverse_order_after_all_entries() {
    let mut driver = Extractor::new(String::from("out"));
    driver
        .process_entry(b"first/", EntryKind::Dir, Some(dos(2001, 1, 1, 0, 0, 0)))
        .unwrap();
    driver
        .process_entry(b"first/deep/", EntryKind::Dir, Some(dos(2002, 2, 2, 0, 0, 0)))
        .unwrap();
    driver
        .process_entry(b"first/deep/file", EntryKind::File, None)
        .unwrap();
    let actions = driver.finish();
    assert_eq!(actions.len(), 2);
    match &actions[0] {
        DirTimeAction::SetBoth {
            path,
            accessed,
            modified,
        } => {
            assert_eq!(path, "out/first/deep");
            assert_eq!(accessed, modified);
        }
        _ => panic!("expected both times for the deepest directory first"),
    }
    match &actions[1] {
        DirTimeAction::SetBoth { path, .. } => assert_eq!(path, "out/first"),
        _ => panic!("expected both times for the parent directory last"),
    }
}

#[test]
fn colliding_entries_plan_the_same_target_path() {
    let mut driver = Extractor::new(String::from("dest"));
    let first = driver
        .process_entry(b"dup.txt", EntryKind::File, None)
        .unwrap();
    let second = driver
        .process_entry(b"dup.txt", EntryKind::File, None)
        .unwrap();
    let first_path = match first {
        EntryStep::CreateFile { out_path, .. } => out_path,
        _ => panic!("expected a file step"),
    };
    let second_path = match second {
        EntryStep::CreateFile { out_path, .. } => out_path,
        _ => panic!("expected a file step"),
    };
    // Both entries resolve to one target; the exclusive create of the
    // second must then fail with FileAlreadyExists instead of overwriting.
    assert_eq!(first_path, second_path);
    assert_ne!(ExtractError::FileAlreadyExists, ExtractError::EmbeddedNul);
}

#[test]
fn two_roots_plan_the_same_relative_tree() {
    let mut one = Extractor::new(String::from("left"));
    let mut two = Extractor::new(String::from("right"));
    let entries: [(&[u8], EntryKind); 3] = [
        (b"d/", EntryKind::Dir),
        (b"d/a.txt", EntryKind::File),
        (b"d/b.txt", EntryKind::File),
    ];
    for (raw, kind) in entries {
        let left = one.process_entry(raw, kind, None).unwrap();
        let right = two.process_entry(raw, kind, None).unwrap();
        let (left_path, right_path) = match (left, right) {
            (
                EntryStep::CreateDirectory { out_path: a },
                EntryStep::CreateDirectory { out_path: b },
            ) => (a, b),
            (
                EntryStep::CreateFile { out_path: a, .. },
                EntryStep::CreateFile { out_path: b, .. },
            ) => (a, b),
            _ => panic!("the two runs planned different kinds"),
        };
        assert_eq!(left_path.strip_prefix("left"), right_path.strip_prefix("right"));
    }
}

#[test]
fn unsupported_entry_kind_is_rejected() {
    let mut driver = Extractor::new(String::from("dest"));
    let err = driver
        .process_entry(b"weird", EntryKind::Other, None)
        .unwrap_err();
    assert_eq!(err, ExtractError::UnsupportedEntryKind);
}

#[test]
fn rejected_entry_changes_nothing() {
    let mut driver = Extractor::new(String::from("dest"));
    driver
        .process_entry(b"keep/", EntryKind::Dir, Some(dos(2010, 5, 5, 5, 5, 4)))
        .unwrap();
    let err = driver
        .process_entry(b"../escape", EntryKind::File, None)
        .unwrap_err();
    assert_eq!(err, ExtractError::PathEscapesRoot);
    let actions = driver.finish();
    assert_eq!(actions.len(), 1);
}

#[test]
fn bad_time_aborts_the_entry() {
    let mut driver = Extractor::new(String::from("dest"));
    let err = driver
        .process_entry(b"ok.txt", EntryKind::File, Some(dos(2000, 0, 1, 0, 0, 0)))
        .unwrap_err();
    assert_eq!(err, ExtractError::TimeConversionError);
}
