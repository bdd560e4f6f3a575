//! A reader for the discussions of The Philosophy Forum.
//!
//! The library turns the markup of the forum's pages into threads and
//! comments, turns the text of a comment into display lines, and keeps track
//! of what has been fetched and of where the reader is. It does no fetching
//! and no drawing of its own: it says which page it needs, and takes the
//! text of that page when it is handed in.
//!
//! - [`xml`] reads markup text into tokens, with the `quick_xml` crate.
//! - [`tree`] builds elements and text from tokens.
//! - [`decode`], [`thread`] and [`overview`] decode fragments of markup into
//!   trees, comments and summaries.
//! - [`flatten`] and [`lines`] turn a tree into display lines.
//! - [`api`] finds the records on a page and names the pages' addresses.
//! - [`model`] is one collection of threads with the reader's place in it.
//! - [`browser`] is the controller that carries out the reader's actions on
//!   the home collection and on the bookmarks.
//! - [`walk`] states where steps forward end in a forum that answers every
//!   request.

pub mod api;
pub mod browser;
pub mod decode;
pub mod error;
pub mod flatten;
pub mod lines;
pub mod model;
pub mod overview;
pub mod text;
pub mod thread;
pub mod tree;
pub mod walk;
pub mod xml;
