use zaoai_types::entries::EntryKind;
use zaoai_types::scan::{ChapterScan, ScanAction};

fn file(p: &str) -> EntryKind {
    EntryKind::File(p.to_string())
}

fn dir(p: &str) -> EntryKind {
    EntryKind::Directory(p.to_string())
}

fn describe(a: &ScanAction) -> String {
    match a {
        ScanAction::ListDirectory(p) => format!("list {p}"),
        ScanAction::ProbeFile(p) => format!("probe {p}"),
        ScanAction::Finished(Ok(b)) => format!("done {b}"),
        ScanAction::Finished(Err(m)) => format!("failed {m}"),
    }
}

#[test]
fn scan_walks_depth_first_and_skips_txt_and_other() {
    let (mut scan, a) = ChapterScan::new("root");
    assert_eq!(describe(&a), "list root");
    let a = scan.on_listing(Ok(vec![
        file("root/a.mkv"),
        file("root/notes.txt"),
        dir("root/sub"),
        EntryKind::Other("root/link".to_string()),
        file("root/z.mkv"),
    ]));
    assert_eq!(describe(&a), "probe root/a.mkv");
    let a = scan.on_probe(Ok(true));
    assert_eq!(describe(&a), "list root/sub");
    let a = scan.on_listing(Ok(vec![file("root/sub/b.mkv")]));
    assert_eq!(describe(&a), "probe root/sub/b.mkv");
    let a = scan.on_probe(Ok(true));
    assert_eq!(describe(&a), "probe root/z.mkv");
    let a = scan.on_probe(Ok(true));
    assert_eq!(describe(&a), "done true");
}

#[test]
fn scan_stops_at_first_file_without_chapters() {
    let (mut scan, _) = ChapterScan::new("root");
    let a = scan.on_listing(Ok(vec![file("root/a.mkv"), file("root/b.mkv")]));
    assert_eq!(describe(&a), "probe root/a.mkv");
    let a = scan.on_probe(Ok(false));
    assert_eq!(describe(&a), "done false");
}

#[test]
fn scan_stops_at_first_failure() {
    let (mut scan, _) = ChapterScan::new("root");
    let a = scan.on_listing(Ok(vec![dir("root/sub"), file("root/b.mkv")]));
    assert_eq!(describe(&a), "list root/sub");
    let a = scan.on_listing(Err("cannot read root/sub".to_string()));
    assert_eq!(describe(&a), "failed cannot read root/sub");
    let (mut scan, _) = ChapterScan::new("root");
    let a = scan.on_listing(Ok(vec![file("root/a.mkv")]));
    assert_eq!(describe(&a), "probe root/a.mkv");
    let a = scan.on_probe(Err("copy failed".to_string()));
    assert_eq!(describe(&a), "failed copy failed");
}

#[test]
fn scan_of_empty_directory_has_chapters() {
    let (mut scan, _) = ChapterScan::new("root");
    let a = scan.on_listing(Ok(vec![dir("root/empty"), file("root/only.txt")]));
    assert_eq!(describe(&a), "list root/empty");
    let a = scan.on_listing(Ok(Vec::new()));
    assert_eq!(describe(&a), "done true");
}
