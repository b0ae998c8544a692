//! A pluggable garbage-collection engine core: page accounting, spaces,
//! the object forwarding protocol, stop-the-world coordination, collection
//! plans and the Immix mark-region policy.
use vstd::prelude::*;

pub mod address;
pub mod layout;
pub mod page_resource;
pub mod controller;
pub mod collector_group;
pub mod plan;
pub mod word_table;
pub mod forwarding;
pub mod space;
pub mod immix;
pub mod phase;
pub mod side_metadata;
pub mod policies;
pub mod mutators;
