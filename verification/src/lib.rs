//! Verified core of the comic-translation repository adapters.

pub mod error;
pub mod chain;
pub mod clock;
pub mod unit;
pub mod numeric;
pub mod pattern;
pub mod member;
pub mod term;
pub mod page;
pub mod resource;
pub mod avatar;
pub mod receipt;
pub mod model;
pub mod fixture;
pub mod mock;
pub mod subtree;
pub mod paged;
pub mod writes;
pub mod readback;
