//! Filesystem usage by mount: reading the mount table, choosing the mounts
//! to show, finding the mount of a path, totals, human-readable numbers and
//! the layout of the table.

pub mod args;
pub mod decimal;
pub mod listing;
pub mod mount;
pub mod number;
pub mod paint;
pub mod path;
pub mod percentage;
pub mod table;
pub mod text;
pub mod theme;
pub mod util;
pub mod words;
