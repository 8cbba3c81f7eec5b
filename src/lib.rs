//! Compact, human-typeable identifiers: random bytes rendered in Crockford
//! Base32 and followed by one mod-37 check symbol.

mod external;

pub mod model;
pub mod codec;
pub mod uuid;
pub mod natural;
pub mod laws;
pub mod tamper;
