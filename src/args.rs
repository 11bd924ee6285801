//! The configuration a server is started with.
use vstd::prelude::*;

use crate::dir::{FileGrouping, FileSort};

verus! {

/// What the server serves and how listings are shown; fixed at start-up.
#[derive(Clone, Debug)]
pub struct Opt {
    /// The directory that is served.
    pub dir: String,
    /// The port that is listened on.
    pub port: u32,
    /// Whether entries whose names start with `.` are listed.
    pub show_dotfiles: bool,
    /// Which kind of entry is listed first.
    pub group_by: FileGrouping,
    /// How names are ordered.
    pub sort: FileSort,
}

} // verus!
