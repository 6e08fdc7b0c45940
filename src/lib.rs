//! Picks the latest release tag of a repository under semantic-version
//! precedence.
//!
//! Two filtering modes are offered. The canonical one is pattern mode
//! ([`select::get_latest_tag`]): every candidate must match the tag grammar
//! of [`pattern::TagPattern`] exactly, with the prefix and the prerelease
//! suffix taken as literal text. In glob mode
//! ([`select::get_latest_prefiltered`]) the candidates were already narrowed
//! by a shell glob ([`pattern::glob_pattern`]) and are only ranked.
pub mod version;
pub mod pattern;
pub mod select;

pub use pattern::{get_tag_pattern, glob_pattern, TagPattern};
pub use select::{get_latest_prefiltered, get_latest_tag, TagError};
pub use version::{parse_version, Prerelease, Version};
