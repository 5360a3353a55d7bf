//! Follower-count tracking: reading one number out of a profile page and
//! minting the sortable identifier under which each reading is stored.

pub mod extract;
pub mod id;
pub mod radix;
pub mod record;

pub use extract::twitter;
pub use id::Id;
