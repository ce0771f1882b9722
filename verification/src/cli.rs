//! The decisions of the command-line front end: which requests are
//! accepted, what each command reports, and in which form. Reading
//! files, parsing and printing are done by the program around them.

pub mod bundle_cmd;
pub mod formats;
pub mod options;
pub mod outline;
pub mod graph_cmd;
pub mod graph_scan;
pub mod context_cmd;
