//! Identity, naming and freshness of the tags files of a project and of the
//! libraries it depends on.
//!
//! A tags file is kept for every root: the project itself and each distinct
//! library that can be reached from it. This crate decides which roots exist,
//! what their tags files are called and whether a tags file found from an
//! earlier run can still be used. It touches no file itself: whoever calls it
//! looks at the disk and hands over what was seen.

pub mod artifact;
pub mod composition;
pub mod composition_laws;
pub mod format;
pub mod packages;
pub mod roots;
pub mod source;
