//! The chapter list of a Matroska file as `mkvextract` writes it in XML,
//! and what is computed around reading, reporting and appending chapters.
use vstd::prelude::*;
use vstd::string::*;
use crate::text::{padded, option_debug, opt_text, pad_right, option_debug_text};

verus! {

/// The displayed name of a chapter (`ChapterDisplay` in the XML).
pub struct ChapterDisplay {
    pub title: String,
}

/// One chapter (`ChapterAtom` in the XML): its start, its optional end and its title.
pub struct ChapterAtom {
    pub start_time: String,
    pub end_time: Option<String>,
    pub display: ChapterDisplay,
}

/// An edition (`EditionEntry` in the XML) holding the chapters in file order.
pub struct EditionEntry {
    pub chapters: Vec<ChapterAtom>,
}

/// The root of the chapter XML (`Chapters`).
pub struct Chapters {
    pub edition_entry: EditionEntry,
}

/// A chapter as plain text values.
pub struct AtomView {
    pub start: Seq<char>,
    pub end: Option<Seq<char>>,
    pub title: Seq<char>,
}

impl View for ChapterAtom {
    type V = AtomView;

    open spec fn view(&self) -> AtomView {
        AtomView { start: self.start_time@, end: opt_text(self.end_time), title: self.display.title@ }
    }
}

/// The chapters of a vector, in order, as plain values.
pub open spec fn atoms_view(v: Seq<ChapterAtom>) -> Seq<AtomView> {
    v.map_values(|a: ChapterAtom| a@)
}

impl View for Chapters {
    type V = Seq<AtomView>;

    open spec fn view(&self) -> Seq<AtomView> {
        atoms_view(self.edition_entry.chapters@)
    }
}

/// The chapter that `add_chapter_to_mkv` appends: it starts at `timestamp`,
/// has no end and is titled `title`.
pub open spec fn new_atom(timestamp: Seq<char>, title: Seq<char>) -> AtomView {
    AtomView { start: timestamp, end: None, title }
}

/// `Start: <start>, End: <end as {:?}>, Title: <title>`: the line printed for
/// each chapter read from a file.
pub open spec fn summary_line(a: AtomView) -> Seq<char> {
    "Start: "@ + a.start + ", End: "@ + option_debug(a.end) + ", Title: "@ + a.title
}

/// The end of a chapter as the report shows it: the time, or `???`.
pub open spec fn report_end(a: AtomView) -> Seq<char> {
    match a.end {
        Some(e) => e,
        None => "???"@,
    }
}

/// `Start: <start, 12 wide> End: <end or ???, 12 wide> Title: <title>`: one
/// line of a `.chapters.txt` report.
pub open spec fn report_line(a: AtomView) -> Seq<char> {
    "Start: "@ + padded(a.start, 12) + " End: "@ + padded(report_end(a), 12) + " Title: "@ + a.title
}

/// The report of a chapter list: one line per chapter, in order.
pub open spec fn report_lines(chs: Seq<AtomView>) -> Seq<Seq<char>> {
    chs.map_values(|a: AtomView| report_line(a))
}

/// The printed summary of a chapter list: one line per chapter, in order.
pub open spec fn summary_lines(chs: Seq<AtomView>) -> Seq<Seq<char>> {
    chs.map_values(|a: AtomView| summary_line(a))
}

/// The declaration written before the serialised chapters. It is written from
/// a raw string, so the two characters `\` and `n` end it, not a newline.
pub open spec fn xml_declaration() -> Seq<char> {
    "<?xml version=\"1.0\"?>\\n"@
}

impl ChapterAtom {
    /// A copy of this chapter.
    pub fn duplicate(&self) -> (res: ChapterAtom)
        ensures
            res@ == self@,
    {
        let end_time = match &self.end_time {
            Some(e) => Some(e.clone()),
            None => None,
        };
        ChapterAtom {
            start_time: self.start_time.clone(),
            end_time,
            display: ChapterDisplay { title: self.display.title.clone() },
        }
    }

    /// The title shown for this chapter.
    pub fn title(&self) -> (res: &str)
        ensures
            res@ == self@.title,
    {
        self.display.title.as_str()
    }
}

/// Builds the chapter that `add_chapter_to_mkv` appends.
pub fn new_chapter_atom(timestamp: &str, title: &str) -> (res: ChapterAtom)
    ensures
        res@ == new_atom(timestamp@, title@),
{
    ChapterAtom {
        start_time: String::from_str(timestamp),
        end_time: None,
        display: ChapterDisplay { title: String::from_str(title) },
    }
}

impl Chapters {
    /// Chapters of one edition holding `chapters` in order.
    pub fn new(chapters: Vec<ChapterAtom>) -> (res: Chapters)
        ensures
            res@ == atoms_view(chapters@),
    {
        Chapters { edition_entry: EditionEntry { chapters } }
    }

    /// Number of chapters.
    pub fn len(&self) -> (res: usize)
        ensures
            res == self@.len(),
    {
        self.edition_entry.chapters.len()
    }

    /// Whether there is no chapter.
    pub fn is_empty(&self) -> (res: bool)
        ensures
            res == (self@.len() == 0),
    {
        self.edition_entry.chapters.len() == 0
    }

    /// The chapter at `index`.
    pub fn get(&self, index: usize) -> (res: &ChapterAtom)
        requires
            index < self@.len(),
        ensures
            res@ == self@[index as int],
    {
        &self.edition_entry.chapters[index]
    }

    /// Appends a chapter that starts at `timestamp`, has no end and is titled
    /// `title`, after all existing chapters.
    pub fn add_chapter(&mut self, timestamp: &str, title: &str)
        ensures
            final(self)@ == old(self)@.push(new_atom(timestamp@, title@)),
    {
        let atom = new_chapter_atom(timestamp, title);
        self.edition_entry.chapters.push(atom);
        proof {
            assert(atoms_view(self.edition_entry.chapters@) =~= atoms_view(
                old(self).edition_entry.chapters@,
            ).push(new_atom(timestamp@, title@)));
        }
    }
}

/// Puts the XML declaration in front of serialised chapters
/// (`chapters_to_xml` without the serialisation).
pub fn frame_chapters_xml(inner: &str) -> (res: String)
    ensures
        res@ == xml_declaration() + inner@,
{
    let mut out = String::from_str("<?xml version=\"1.0\"?>\\n");
    out.append(inner);
    out
}

/// The line printed for one chapter by `read_chapters_from_mkv`.
pub fn chapter_summary_line(atom: &ChapterAtom) -> (res: String)
    ensures
        res@ == summary_line(atom@),
{
    let mut out = String::from_str("Start: ");
    out.append(atom.start_time.as_str());
    out.append(", End: ");
    let end = option_debug_text(&atom.end_time);
    out.append(end.as_str());
    out.append(", Title: ");
    out.append(atom.display.title.as_str());
    out
}

/// The lines printed by `read_chapters_from_mkv`, one per chapter in order.
pub fn chapter_summary_lines(chapters: &Chapters) -> (res: Vec<String>)
    ensures
        res@.len() == chapters@.len(),
        forall|i: int| 0 <= i < res@.len() ==> #[trigger] res@[i]@ == summary_lines(chapters@)[i],
{
    let v = &chapters.edition_entry.chapters;
    let mut out: Vec<String> = Vec::new();
    let mut i: usize = 0;
    while i < v.len()
        invariant
            i <= v.len(),
            chapters@ == atoms_view(v@),
            out@.len() == i,
            forall|j: int| 0 <= j < i ==> #[trigger] out@[j]@ == summary_lines(chapters@)[j],
        decreases v.len() - i,
    {
        let line = chapter_summary_line(&v[i]);
        out.push(line);
        i = i + 1;
    }
    out
}

/// One line of the `.chapters.txt` report that `process_mkv_file` writes.
pub fn chapter_report_line(atom: &ChapterAtom) -> (res: String)
    ensures
        res@ == report_line(atom@),
{
    let mut out = String::from_str("Start: ");
    let start = pad_right(atom.start_time.as_str(), 12);
    out.append(start.as_str());
    out.append(" End: ");
    let end = match &atom.end_time {
        Some(e) => pad_right(e.as_str(), 12),
        None => pad_right("???", 12),
    };
    out.append(end.as_str());
    out.append(" Title: ");
    out.append(atom.display.title.as_str());
    out
}

/// The lines of the `.chapters.txt` report, one per chapter in order.
pub fn chapter_report(chapters: &Chapters) -> (res: Vec<String>)
    ensures
        res@.len() == chapters@.len(),
        forall|i: int| 0 <= i < res@.len() ==> #[trigger] res@[i]@ == report_lines(chapters@)[i],
{
    let v = &chapters.edition_entry.chapters;
    let mut out: Vec<String> = Vec::new();
    let mut i: usize = 0;
    while i < v.len()
        invariant
            i <= v.len(),
            chapters@ == atoms_view(v@),
            out@.len() == i,
            forall|j: int| 0 <= j < i ==> #[trigger] out@[j]@ == report_lines(chapters@)[j],
        decreases v.len() - i,
    {
        let line = chapter_report_line(&v[i]);
        out.push(line);
        i = i + 1;
    }
    out
}

/// Appending a chapter appends its report line and leaves every earlier line
/// of the report as it was.
pub proof fn lemma_add_chapter_extends_report(chs: Seq<AtomView>, timestamp: Seq<char>, title: Seq<char>)
    ensures
        report_lines(chs.push(new_atom(timestamp, title))) == report_lines(chs).push(
            report_line(new_atom(timestamp, title)),
        ),
        summary_lines(chs.push(new_atom(timestamp, title))) == summary_lines(chs).push(
            summary_line(new_atom(timestamp, title)),
        ),
{
    assert(report_lines(chs.push(new_atom(timestamp, title))) =~= report_lines(chs).push(
        report_line(new_atom(timestamp, title)),
    ));
    assert(summary_lines(chs.push(new_atom(timestamp, title))) =~= summary_lines(chs).push(
        summary_line(new_atom(timestamp, title)),
    ));
}

/// An outside program to run and its arguments.
pub struct ToolCommand {
    pub program: String,
    pub args: Vec<String>,
}

/// A tool command as plain values.
pub open spec fn command_view(c: ToolCommand) -> (Seq<char>, Seq<Seq<char>>) {
    (c.program@, c.args@.map_values(|a: String| a@))
}

/// `mkvextract <mkv_file> chapters <out_xml>`, which writes the chapters of
/// `mkv_file` as XML to `out_xml`.
pub open spec fn extract_command_spec(mkv_file: Seq<char>, out_xml: Seq<char>) -> (Seq<char>, Seq<Seq<char>>) {
    ("third_party/bin/mkvextract.exe"@, seq![mkv_file, "chapters"@, out_xml])
}

/// `mkvpropedit <mkv_file> --chapters <xml_file>`, which replaces the chapters
/// of `mkv_file` by those in `xml_file`.
pub open spec fn apply_command_spec(mkv_file: Seq<char>, xml_file: Seq<char>) -> (Seq<char>, Seq<Seq<char>>) {
    ("third_party/bin/mkvpropedit.exe"@, seq![mkv_file, "--chapters"@, xml_file])
}

/// The command that `extract_chapters` runs.
pub fn mkvextract_command(mkv_file: &str, out_xml: &str) -> (res: ToolCommand)
    ensures
        command_view(res) == extract_command_spec(mkv_file@, out_xml@),
{
    let mut args: Vec<String> = Vec::new();
    args.push(String::from_str(mkv_file));
    args.push(String::from_str("chapters"));
    args.push(String::from_str(out_xml));
    let res = ToolCommand { program: String::from_str("third_party/bin/mkvextract.exe"), args };
    assert(command_view(res).1 =~= extract_command_spec(mkv_file@, out_xml@).1);
    res
}

/// The command that `add_chapter_to_mkv` runs to write the chapters back.
pub fn mkvpropedit_command(mkv_file: &str, xml_file: &str) -> (res: ToolCommand)
    ensures
        command_view(res) == apply_command_spec(mkv_file@, xml_file@),
{
    let mut args: Vec<String> = Vec::new();
    args.push(String::from_str(mkv_file));
    args.push(String::from_str("--chapters"));
    args.push(String::from_str(xml_file));
    let res = ToolCommand { program: String::from_str("third_party/bin/mkvpropedit.exe"), args };
    assert(command_view(res).1 =~= apply_command_spec(mkv_file@, xml_file@).1);
    res
}

/// Why reading or writing chapters through the MKV tools failed.
pub enum ChapterError {
    /// `mkvextract` exited unsuccessfully on this file.
    ExtractFailed { mkv_file: String },
    /// `mkvpropedit` exited unsuccessfully.
    ApplyFailed,
}

/// The message of a chapter error.
pub open spec fn chapter_error_message(e: ChapterError) -> Seq<char> {
    match e {
        ChapterError::ExtractFailed { mkv_file } => "Failed to extract chapters from "@ + mkv_file@,
        ChapterError::ApplyFailed => "Failed to apply chapters with mkvpropedit"@,
    }
}

impl ChapterError {
    /// The message the error is reported with.
    pub fn message(&self) -> (res: String)
        ensures
            res@ == chapter_error_message(*self),
    {
        match self {
            ChapterError::ExtractFailed { mkv_file } => {
                let mut out = String::from_str("Failed to extract chapters from ");
                out.append(mkv_file.as_str());
                out
            },
            ChapterError::ApplyFailed => String::from_str("Failed to apply chapters with mkvpropedit"),
        }
    }
}

/// What `extract_chapters` returns once `mkvextract` has exited, `success`
/// telling whether it exited successfully.
pub fn check_extract_status(success: bool, mkv_file: &str) -> (res: Result<(), ChapterError>)
    ensures
        success <==> res is Ok,
        res matches Err(e) ==> (e matches ChapterError::ExtractFailed { mkv_file: f } && f@ == mkv_file@),
{
    if success {
        Ok(())
    } else {
        Err(ChapterError::ExtractFailed { mkv_file: String::from_str(mkv_file) })
    }
}

/// What `add_chapter_to_mkv` returns once `mkvpropedit` has exited.
pub fn check_apply_status(success: bool) -> (res: Result<(), ChapterError>)
    ensures
        success <==> res is Ok,
        res matches Err(e) ==> e is ApplyFailed,
{
    if success {
        Ok(())
    } else {
        Err(ChapterError::ApplyFailed)
    }
}

} // verus!
