# zaoai_types

Chapter metadata of Matroska (MKV) files and directory scans for media with
chapters, as a Verus-verified library with a thin command-line program around it.

- `src/chapters.rs`: the chapter list (`Chapters`, `EditionEntry`, `ChapterAtom`),
  appending a chapter, the printed summary and the `.chapters.txt` report, the
  XML declaration, and the MKVToolNix commands with their exit-status checks.
- `src/entries.rs`: entries by kind and which entries a directory listing keeps.
- `src/media.rs`: which entries are processed as MKV files, the tool binaries'
  path, the split of a scan by chapters, and whether all files of a probed
  directory tree have chapters.
- `src/scan.rs`: the depth-first walk of a directory for files without chapters,
  as steps that name the next directory to list or file to probe.
- `src/paths.rs`, `src/text.rs`: the std path and formatting calls behind
  wrappers, padding and text equality.
- `src/audio.rs`: the set-up of the audio engine and the steps of the preview.
- `app/`: the program: running the tools, reading and writing files, XML and
  JSON through serde, the audio engine and the plots.
