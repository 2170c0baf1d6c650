//! Batch renaming by swapping the two halves of a file's base name.
//!
//! A file such as `song-title.mp3` is split at the last `-` of its base name,
//! the two pieces are trimmed, exchanged and joined again, giving
//! `title-song.mp3`.
//!
//! - `text`: searching, trimming and stripping sequences of characters;
//! - `name`: the base name and the extension of a file name;
//! - `config`: the settings of a run and their validation;
//! - `swap`: what becomes of one file name;
//! - `walk`: what to do with each entry of a directory, and how the count of
//!   renamed files adds up;
//! - `tree`: the whole run, over a directory tree held in memory.
//!
//! Every function states what it returns over sequences of characters, and
//! the laws of the renaming are proved beside the functions they speak of.

pub mod config;
pub mod name;
pub mod swap;
pub mod text;
pub mod tree;
pub mod walk;
