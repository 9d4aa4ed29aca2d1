//! The logic behind the race-file organiser: the text rules it applies to
//! user input and file contents, the list of imported files, the import
//! screen's suggestion and keyboard handling, and the race configuration.

pub mod text;
pub mod csv;
pub mod files;
pub mod import;
pub mod races;
