//! Verified core of a cloud-drive walkthrough: the text, size, listing and
//! naming rules that the demo programs apply around their storage calls.

pub mod auth;
pub mod clock;
pub mod entry;
pub mod json;
pub mod laws;
pub mod listing;
pub mod report;
pub mod size_text;
pub mod text;
pub mod tree_walk;
pub mod walk;
