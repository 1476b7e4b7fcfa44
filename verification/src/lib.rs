//! Safe shuffling of the names in an ordered set of uniquely named items.
//!
//! The remote service that owns the items keeps names unique at every
//! instant, so a permutation of the names cannot be applied in arbitrary
//! order.  The planner decomposes the permutation into cycles and emits a
//! sequence of single renames that never collides; the executor drains that
//! sequence one operation at a time at a bounded rate and stops on the first
//! failure.

pub mod executor;
pub mod model;
pub mod planner;
pub mod util;
