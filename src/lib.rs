//! A registry of named TOTP credentials: parsing and dumping of the
//! `name=secret` line format, a name-sorted registry with a selection cursor,
//! the time-window computations of each credential, and the key dispatch of
//! the interactive viewer.

pub mod args;
pub mod control;
pub mod entry;
pub mod oracle;
pub mod registry;
