//! Keeps the lyrics of a music library in step with its audio files: the rules of the lyrics sync
//! worker, apart from the file system, the database and the network that they work on.
pub mod config;
pub mod db;
pub mod encoding;
pub mod grouping;
pub mod lrclib;
pub mod names;
pub mod paths;
pub mod pattern;
pub mod scan;
pub mod tags;
pub mod text;
pub mod track;
pub mod watch;
