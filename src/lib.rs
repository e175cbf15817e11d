mod decimal;
mod fields;
pub mod lemmas;
mod tags;
mod version;

pub use decimal::{parse_u64, push_decimal};
pub use tags::{first_unreadable_tag, latest_version, requested_version, tag_exists, TagError};
pub use version::{DwVersion, VersionView, VERSION_PATTERN};
