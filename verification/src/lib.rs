//! Core logic of an interactive conventional-commit helper: the defaults
//! cache (encode, decode, fallback), the fixed commit-type taxonomy and its
//! display labels, the staged-changes detection on status output, and the
//! assembly of the final commit message.

pub mod codec;
pub mod commit_type;
pub mod defaults;
pub mod session;
pub mod status;
