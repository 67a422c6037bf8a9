//! The merge engine: page operations, outlines, document information,
//! renumbering and the merge itself.

pub mod bookmarks;
pub mod closure;
pub mod compact;
pub mod counting;
pub mod keeping;
pub mod laws;
pub mod merger;
pub mod metadata;
pub mod outline;
pub mod owed;
pub mod pages;
pub mod paging;
pub mod renumber;
pub mod turning;
