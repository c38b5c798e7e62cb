//! Strongly typed identifiers: a fixed-width value written in a sortable
//! base-32 form, optionally preceded by a validated lowercase prefix and an
//! underscore (`user_0343`), compatible with the TypeID format.
use vstd::prelude::*;

pub mod base32;
pub mod dynamic;
pub mod fixed;
pub mod id;
pub mod text;
pub mod uuid_id;

pub use base32::Base32Error;
pub use dynamic::{assert_prefix_valid, map_prefix, DynamicStrongId, Prefix};
pub use fixed::{format_fixed, parse_fixed};
pub use id::{Error, Id, StrongId};
pub use uuid_id::{StrongUuid, Timestamp, Uuid};
