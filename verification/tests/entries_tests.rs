use zaoai_types::entries::{classify_dir_entries, EntryKind, FileType, RawDirEntry};

fn raw(path: &str, file_type: FileType, is_empty_dir: bool) -> RawDirEntry {
    RawDirEntry { path: path.to_string(), file_type, is_empty_dir }
}

fn listing() -> Vec<RawDirEntry> {
    vec![
        raw("d/a.mkv", FileType::File, false),
        raw("d/empty", FileType::Directory, true),
        raw("d/full", FileType::Directory, false),
        raw("d/link", FileType::Other, false),
    ]
}

fn describe(v: &[EntryKind]) -> Vec<String> {
    v.iter()
        .map(|e| match e {
            EntryKind::File(p) => format!("F:{p}"),
            EntryKind::Directory(p) => format!("D:{p}"),
            EntryKind::Other(p) => format!("O:{p}"),
        })
        .collect()
}

#[test]
fn listing_without_cull_keeps_everything() {
    let out = classify_dir_entries(&listing(), false);
    assert_eq!(describe(&out), vec!["F:d/a.mkv", "D:d/empty", "D:d/full", "O:d/link"]);
}

#[test]
fn listing_with_cull_drops_empty_directories() {
    let out = classify_dir_entries(&listing(), true);
    assert_eq!(describe(&out), vec!["F:d/a.mkv", "D:d/full", "O:d/link"]);
}

#[test]
fn cull_never_adds_entries() {
    let l = listing();
    assert!(classify_dir_entries(&l, true).len() <= classify_dir_entries(&l, false).len());
    let no_empty = vec![raw("x", FileType::Directory, false), raw("y", FileType::File, true)];
    assert_eq!(describe(&classify_dir_entries(&no_empty, true)), describe(&classify_dir_entries(&no_empty, false)));
}

#[test]
fn empty_listing() {
    assert!(classify_dir_entries(&Vec::new(), true).is_empty());
}

#[test]
fn entry_path_and_duplicate() {
    let e = EntryKind::Other("dev/null".to_string());
    assert_eq!(e.path(), "dev/null");
    assert_eq!(e.duplicate().path(), "dev/null");
    assert!(matches!(EntryKind::File("f".to_string()).duplicate(), EntryKind::File(p) if p == "f"));
}

#[test]
fn cull_removes_exactly_the_empty_directories() {
    let l = listing();
    let kept: Vec<RawDirEntry> = l
        .iter()
        .filter(|e| !(matches!(e.file_type, FileType::Directory) && e.is_empty_dir))
        .map(|e| raw(&e.path, match e.file_type { FileType::File => FileType::File, FileType::Directory => FileType::Directory, FileType::Other => FileType::Other }, e.is_empty_dir))
        .collect();
    assert_eq!(describe(&classify_dir_entries(&l, true)), describe(&classify_dir_entries(&kept, false)));
}
