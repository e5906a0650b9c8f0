//! Chapter metadata of MKV media files, directory scans for files with
//! chapters, and the decisions of the audio preview.
use vstd::prelude::*;

pub mod text;
pub mod chapters;
pub mod entries;
pub mod paths;
pub mod media;
pub mod audio;
pub mod scan;
