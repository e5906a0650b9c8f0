use zaoai_types::chapters::{
    chapter_report, chapter_report_line, chapter_summary_line, chapter_summary_lines, check_apply_status,
    check_extract_status, frame_chapters_xml, mkvextract_command, mkvpropedit_command, new_chapter_atom,
    ChapterAtom, ChapterDisplay, ChapterError, Chapters,
};

fn atom(start: &str, end: Option<&str>, title: &str) -> ChapterAtom {
    ChapterAtom {
        start_time: start.to_string(),
        end_time: end.map(|e| e.to_string()),
        display: ChapterDisplay { title: title.to_string() },
    }
}

#[test]
fn add_chapter_appends_at_the_end() {
    let mut chapters = Chapters::new(vec![atom("00:00:00.000", Some("00:01:30.000"), "Opening")]);
    chapters.add_chapter("00:01:30.000", "Part A");
    assert_eq!(chapters.len(), 2);
    assert_eq!(chapters.get(0).title(), "Opening");
    let added = chapters.get(1);
    assert_eq!(added.start_time, "00:01:30.000");
    assert_eq!(added.end_time, None);
    assert_eq!(added.display.title, "Part A");
}

#[test]
fn add_chapter_to_empty_list() {
    let mut chapters = Chapters::new(Vec::new());
    assert!(chapters.is_empty());
    chapters.add_chapter("00:00:05.000", "Cold open");
    assert!(!chapters.is_empty());
    assert_eq!(chapters.get(0).start_time, "00:00:05.000");
}

#[test]
fn new_chapter_has_no_end() {
    let a = new_chapter_atom("00:02:00.000", "Ending");
    assert_eq!(a.start_time, "00:02:00.000");
    assert!(a.end_time.is_none());
    assert_eq!(a.title(), "Ending");
}

#[test]
fn xml_framing_keeps_backslash_n() {
    let framed = frame_chapters_xml("<Chapters></Chapters>");
    assert_eq!(framed, "<?xml version=\"1.0\"?>\\n<Chapters></Chapters>");
    assert_eq!(frame_chapters_xml(""), "<?xml version=\"1.0\"?>\\n");
}

#[test]
fn summary_line_uses_debug_for_end() {
    let a = atom("00:00:00.000", Some("00:01:00.000"), "Intro");
    assert_eq!(chapter_summary_line(&a), "Start: 00:00:00.000, End: Some(\"00:01:00.000\"), Title: Intro");
    let b = atom("00:01:00.000", None, "Rest");
    assert_eq!(chapter_summary_line(&b), "Start: 00:01:00.000, End: None, Title: Rest");
    let c = atom("1", Some("a\"b"), "T");
    assert_eq!(chapter_summary_line(&c), "Start: 1, End: Some(\"a\\\"b\"), Title: T");
}

#[test]
fn summary_lines_follow_chapter_order() {
    let chapters = Chapters::new(vec![atom("1", None, "A"), atom("2", Some("3"), "B")]);
    let lines = chapter_summary_lines(&chapters);
    assert_eq!(lines, vec![
        "Start: 1, End: None, Title: A".to_string(),
        "Start: 2, End: Some(\"3\"), Title: B".to_string(),
    ]);
}

#[test]
fn report_line_pads_to_twelve() {
    let a = atom("00:00:00.000", Some("00:01:00.000"), "Intro");
    assert_eq!(chapter_report_line(&a), "Start: 00:00:00.000 End: 00:01:00.000 Title: Intro");
    let b = atom("0:00", None, "Rest");
    assert_eq!(chapter_report_line(&b), "Start: 0:00         End: ???          Title: Rest");
    let long = atom("00:00:00.000000", None, "X");
    assert_eq!(chapter_report_line(&long), "Start: 00:00:00.000000 End: ???          Title: X");
}

#[test]
fn report_matches_format_width() {
    let a = atom("é1", Some("ü"), "Ç");
    let expected = format!("Start: {:<12} End: {:<12} Title: {}", "é1", "ü", "Ç");
    assert_eq!(chapter_report_line(&a), expected);
}

#[test]
fn adding_a_chapter_extends_the_report() {
    let mut chapters = Chapters::new(vec![atom("1", Some("2"), "A")]);
    let before = chapter_report(&chapters);
    chapters.add_chapter("2", "B");
    let after = chapter_report(&chapters);
    assert_eq!(after.len(), before.len() + 1);
    assert_eq!(after[0], before[0]);
    assert_eq!(after[1], chapter_report_line(&new_chapter_atom("2", "B")));
}

#[test]
fn tool_commands() {
    let c = mkvextract_command("movie.mkv", "chapters.xml");
    assert_eq!(c.program, "third_party/bin/mkvextract.exe");
    assert_eq!(c.args, vec!["movie.mkv", "chapters", "chapters.xml"]);
    let p = mkvpropedit_command("movie.mkv", "chapters.xml");
    assert_eq!(p.program, "third_party/bin/mkvpropedit.exe");
    assert_eq!(p.args, vec!["movie.mkv", "--chapters", "chapters.xml"]);
}

#[test]
fn tool_status_errors() {
    assert!(check_extract_status(true, "a.mkv").is_ok());
    match check_extract_status(false, "a.mkv") {
        Err(e) => {
            assert!(matches!(&e, ChapterError::ExtractFailed { mkv_file } if mkv_file == "a.mkv"));
            assert_eq!(e.message(), "Failed to extract chapters from a.mkv");
        },
        Ok(()) => panic!("expected an error"),
    }
    assert!(check_apply_status(true).is_ok());
    match check_apply_status(false) {
        Err(e) => assert_eq!(e.message(), "Failed to apply chapters with mkvpropedit"),
        Ok(()) => panic!("expected an error"),
    }
}

#[test]
fn duplicate_copies_all_fields() {
    let a = atom("1", Some("2"), "T");
    let b = a.duplicate();
    assert_eq!(b.start_time, "1");
    assert_eq!(b.end_time.as_deref(), Some("2"));
    assert_eq!(b.display.title, "T");
}
