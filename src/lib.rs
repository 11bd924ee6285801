//! Browsable directory listings: resolving request paths, ordering entries and
//! rendering the listing page.
pub mod args;
pub mod dir;
pub mod laws;
pub mod page;
pub mod path;
pub mod text;
