//! Normalization of slash-delimited paths, such as the path of a URL or a
//! reference from one document to another.
//!
//! A path is resolved purely as text: nothing is looked up on any file
//! system, and the target need not exist. Empty segments and `.` vanish,
//! `..` removes the segment before it, and a reference that carries its own
//! `http:` or `https:` scheme passes through untouched. So
//! `src/md/./../../README.md` and `./README.md` both normalize to
//! `README.md`.
//!
//! [`UrlPath`] is the value that callers work with. Its contracts are stated
//! over sequences of characters: [`segments`] says how a text breaks into
//! segments, [`resolve`] how the segments resolve, [`path`] what a parsed
//! path holds and how it is written out, and [`laws`] what follows for
//! every path.
pub mod laws;
pub mod path;
pub mod resolve;
pub mod segments;
pub mod text;

pub use path::PathView;
pub use path::UrlPath;
pub use segments::SegmentKind;
