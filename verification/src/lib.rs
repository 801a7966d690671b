//! The core of a file browser: volumes, directory listings, recursive name
//! search, on a whole tree or one read at a time, and the navigation session,
//! as functions on plain values.
//!
//! Nothing here touches the disk. The caller reads the platform and hands the
//! answers over; every decision taken on them is made, and proved, here.

pub mod launch;
pub mod listing;
pub mod path;
pub mod search;
pub mod session;
pub mod volume;
pub mod walk;
