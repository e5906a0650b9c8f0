use zaoai_types::chapters::{new_chapter_atom, Chapters};
use zaoai_types::entries::EntryKind;
use zaoai_types::media::{
    all_files_have_chapters, chapters_verdict, check_mkv_entry, get_third_party_binary, mkv_entry_path,
    needs_chapter_read, path_exists_message, report_path, report_subdirectory, series_item_action, split_by_chapter_verdicts,
    top_level_dir, zaoai_labels_dir, MkvError, ProbedEntry, SeriesAction,
};

fn file(p: &str) -> EntryKind {
    EntryKind::File(p.to_string())
}

fn dir(p: &str) -> EntryKind {
    EntryKind::Directory(p.to_string())
}

fn paths(v: &[EntryKind]) -> Vec<String> {
    v.iter().map(|e| e.path().to_string()).collect()
}

#[test]
fn third_party_binary_path() {
    let p = get_third_party_binary("/home/user/zaohelper", "mkvextract.exe");
    let sep = std::path::MAIN_SEPARATOR;
    assert_eq!(p, format!("/home/user/zaohelper{sep}third_party/bin{sep}mkvextract.exe"));
    let q = get_third_party_binary("/proj/", "tool");
    assert_eq!(q, format!("/proj/third_party/bin{sep}tool"));
    let unc = get_third_party_binary("\\\\server\\share", "tool");
    assert_eq!(unc, format!("\\\\server\\share{sep}third_party/bin{sep}tool"));
    let trailing = get_third_party_binary("C:\\proj\\", "tool");
    let expected = if sep == '/' { "C:\\proj\\/third_party/bin/tool".to_string() } else { "C:\\proj\\third_party/bin\\tool".to_string() };
    assert_eq!(trailing, expected);
    let w = get_third_party_binary("C:\\proj", "tool.exe");
    assert_eq!(w, format!("C:\\proj{sep}third_party/bin{sep}tool.exe"));
}

#[test]
fn mkv_entries_with_drive_pass() {
    assert!(matches!(mkv_entry_path(&file("C:\\media\\ep01.mkv")), Ok(p) if p == "C:\\media\\ep01.mkv"));
}

#[test]
fn mkv_entries_pass() {
    match mkv_entry_path(&file("/films/show/ep1.mkv")) {
        Ok(p) => assert_eq!(p, "/films/show/ep1.mkv"),
        Err(e) => panic!("unexpected: {}", e.message()),
    }
}

#[test]
fn non_mkv_files_are_refused() {
    match mkv_entry_path(&file("/films/show/ep1.mp4")) {
        Err(e @ MkvError::NotMkv { .. }) => {
            assert_eq!(e.message(), "Only .mkv supported for now, /films/show/ep1.mp4")
        },
        _ => panic!("expected NotMkv"),
    }
    assert!(matches!(mkv_entry_path(&file("README")), Err(MkvError::NotMkv { .. })));
    assert!(matches!(mkv_entry_path(&file("/films/.mkv")), Err(MkvError::NotMkv { .. })));
    assert!(matches!(mkv_entry_path(&file("/films/x.MKV")), Err(MkvError::NotMkv { .. })));
    match mkv_entry_path(&file("notes.txt")) {
        Err(e) => assert_eq!(e.message(), "Only .mkv supported for now, notes.txt"),
        Ok(_) => panic!("expected NotMkv"),
    }
    match mkv_entry_path(&file("Episode01.MKV")) {
        Err(e) => assert_eq!(e.message(), "Only .mkv supported for now, Episode01.MKV"),
        Ok(_) => panic!("expected NotMkv"),
    }
}

#[test]
fn non_files_are_refused() {
    match mkv_entry_path(&dir("/films/show.mkv")) {
        Err(e @ MkvError::NotAFile) => assert_eq!(e.message(), "Only processes files"),
        _ => panic!("expected NotAFile"),
    }
    assert!(matches!(mkv_entry_path(&EntryKind::Other("x.mkv".to_string())), Err(MkvError::NotAFile)));
}

#[test]
fn check_entry_uses_given_extension() {
    assert!(matches!(check_mkv_entry(&file("a"), &Some("mkv".to_string())), Ok(p) if p == "a"));
    assert!(matches!(check_mkv_entry(&file("a.mkv"), &None), Err(MkvError::NotMkv { path }) if path == "a.mkv"));
    assert!(matches!(check_mkv_entry(&dir("a.mkv"), &Some("mkv".to_string())), Err(MkvError::NotAFile)));
}

#[test]
fn split_by_verdicts() {
    let list = vec![file("a"), dir("b"), EntryKind::Other("c".to_string()), file("d"), dir("e")];
    let verdicts = vec![true, false, true, false, true];
    let (with, without) = split_by_chapter_verdicts(&list, &verdicts);
    assert_eq!(paths(&with), vec!["a", "e"]);
    assert_eq!(paths(&without), vec!["b", "d"]);
    assert_eq!(with.len() + without.len(), 4);
}

fn probed_file(p: &str, ext: Option<&str>, has: Result<bool, &str>) -> ProbedEntry {
    ProbedEntry::File {
        path: p.to_string(),
        extension: ext.map(|e| e.to_string()),
        has_chapters: has.map_err(|m| m.to_string()),
    }
}

#[test]
fn all_files_have_chapters_true() {
    let tree = Ok(vec![
        probed_file("a.mkv", Some("mkv"), Ok(true)),
        probed_file("notes.txt", Some("txt"), Ok(false)),
        ProbedEntry::Other { path: "link".to_string() },
        ProbedEntry::Directory {
            path: "sub".to_string(),
            listing: Ok(vec![probed_file("sub/b.mkv", Some("mkv"), Ok(true)), probed_file("sub/c.txt", Some("txt"), Err("boom"))]),
        },
    ]);
    assert_eq!(all_files_have_chapters(&tree), Ok(true));
}

#[test]
fn all_files_have_chapters_false_in_subdirectory() {
    let tree = Ok(vec![
        probed_file("a.mkv", Some("mkv"), Ok(true)),
        ProbedEntry::Directory {
            path: "sub".to_string(),
            listing: Ok(vec![probed_file("sub/b.mp4", Some("mp4"), Ok(false))]),
        },
        probed_file("z.mkv", Some("mkv"), Err("later failure")),
    ]);
    assert_eq!(all_files_have_chapters(&tree), Ok(false));
}

#[test]
fn all_files_have_chapters_first_failure_wins() {
    let tree = Ok(vec![
        ProbedEntry::Directory { path: "sub".to_string(), listing: Err("cannot read sub".to_string()) },
        probed_file("a.mkv", Some("mkv"), Ok(false)),
    ]);
    assert_eq!(all_files_have_chapters(&tree), Err("cannot read sub".to_string()));
    assert_eq!(all_files_have_chapters(&Err("cannot read root".to_string())), Err("cannot read root".to_string()));
    assert_eq!(all_files_have_chapters(&Ok(Vec::new())), Ok(true));
    let no_ext = Ok(vec![probed_file("README", None, Ok(false))]);
    assert_eq!(all_files_have_chapters(&no_ext), Ok(false));
}

#[test]
fn chapter_probe_decisions() {
    assert!(needs_chapter_read("/media/show/ep1.mkv"));
    assert!(needs_chapter_read("C:\\media\\ep01.mkv"));
    assert!(!needs_chapter_read("/media/show/ep1.mp4"));
    assert!(!needs_chapter_read("/media/show/EP1.MKV"));
    assert!(!needs_chapter_read("/media/.mkv"));
    assert!(!needs_chapter_read("README"));
    assert!(!chapters_verdict(&Err("no chapters".to_string())));
    assert!(!chapters_verdict(&Ok(Chapters::new(Vec::new()))));
    assert!(chapters_verdict(&Ok(Chapters::new(vec![new_chapter_atom("0", "A")]))));
}

fn comps(v: &[&str]) -> Vec<String> {
    v.iter().map(|s| s.to_string()).collect()
}

#[test]
fn top_level_directory() {
    let base = comps(&["/", "media"]);
    assert_eq!(top_level_dir(&comps(&["/", "media", "Show", "S1", "e.mkv"]), &base), Some("Show".to_string()));
    assert_eq!(top_level_dir(&comps(&["/", "media", "Show", "e.mkv"]), &base), Some("Show".to_string()));
    assert_eq!(top_level_dir(&comps(&["/", "media", "e.mkv"]), &base), None);
    assert_eq!(top_level_dir(&comps(&["/", "other", "Show", "e.mkv"]), &base), None);
    match report_subdirectory(&comps(&["/", "media", "e.mkv"]), &base) {
        Err(e @ MkvError::DirectlyInBase) => {
            assert_eq!(e.message(), "File is directly in base_dir without subdirectory")
        },
        _ => panic!("expected DirectlyInBase"),
    }
    assert!(matches!(report_subdirectory(&comps(&["/", "media", "A", "e.mkv"]), &base), Ok(d) if d == "A"));
}

#[test]
fn series_actions() {
    assert!(matches!(series_item_action(&file("a")), SeriesAction::Process));
    assert!(matches!(series_item_action(&dir("a")), SeriesAction::ReportDirectory));
    assert!(matches!(series_item_action(&EntryKind::Other("a".to_string())), SeriesAction::Unsupported));
}

#[test]
fn messages() {
    assert_eq!(path_exists_message("/tmp", true), "✅ Path exists: /tmp");
    assert_eq!(path_exists_message("/nope", false), "❌ Path does NOT exist: /nope");
    assert_eq!(zaoai_labels_dir("output"), "output\\zaoai_labels");
}

#[test]
fn txt_files_and_empty_directories_never_change_the_verdict() {
    let base = vec![probed_file("a.mkv", Some("mkv"), Ok(true)), probed_file("b.mkv", Some("mkv"), Ok(false))];
    let expected = all_files_have_chapters(&Ok(base));
    let with_extra = vec![
        probed_file("notes.txt", Some("txt"), Err("never read")),
        probed_file("a.mkv", Some("mkv"), Ok(true)),
        ProbedEntry::Directory { path: "empty".to_string(), listing: Ok(Vec::new()) },
        probed_file("b.mkv", Some("mkv"), Ok(false)),
    ];
    assert_eq!(all_files_have_chapters(&Ok(with_extra)), expected);
    assert_eq!(expected, Ok(false));
}

#[test]
fn report_paths() {
    let sep = std::path::MAIN_SEPARATOR;
    assert_eq!(
        report_path("out", "Show", "/media/Show/S1/ep01.mkv"),
        Some(format!("out{sep}Show{sep}ep01.chapters.txt"))
    );
    assert_eq!(report_path("out/", "Show", "ep01"), Some(format!("out/Show{sep}ep01.chapters.txt")));
    assert_eq!(report_path("out", "Show", "/m/.hidden"), Some(format!("out{sep}Show{sep}.hidden.chapters.txt")));
    assert_eq!(report_path("out", "Show", "/m/a.b.mkv"), Some(format!("out{sep}Show{sep}a.b.chapters.txt")));
    assert_eq!(report_path("out", "Show", "/m/.."), None);
    let expected = std::path::Path::new("out")
        .join("Show")
        .join("ep01.mkv")
        .with_extension("chapters.txt")
        .to_string_lossy()
        .into_owned();
    assert_eq!(report_path("out", "Show", "/media/Show/ep01.mkv"), Some(expected));
}

#[test]
fn culled_tree_keeps_the_answer() {
    let full = Ok(vec![
        probed_file("a.mkv", Some("mkv"), Ok(true)),
        ProbedEntry::Directory {
            path: "sub".to_string(),
            listing: Ok(vec![ProbedEntry::Directory { path: "sub/empty".to_string(), listing: Ok(Vec::new()) }]),
        },
        ProbedEntry::Directory { path: "empty".to_string(), listing: Ok(Vec::new()) },
        probed_file("b.mkv", Some("mkv"), Ok(true)),
    ]);
    let culled = Ok(vec![
        probed_file("a.mkv", Some("mkv"), Ok(true)),
        ProbedEntry::Directory { path: "sub".to_string(), listing: Ok(Vec::new()) },
        probed_file("b.mkv", Some("mkv"), Ok(true)),
    ]);
    assert_eq!(all_files_have_chapters(&full), all_files_have_chapters(&culled));
    assert_eq!(all_files_have_chapters(&culled), Ok(true));
}
