//! The claim set of a signed token: seven registered claims with fixed names
//! and types, any number of private claims, and the codec between a claim set
//! and its transport text (JSON, then UTF-8, then base64).
//!
//! JSON and base64 are those of `rustc_serialize`. What the library takes on
//! trust of them stands in the modules `json` and `transport`; the rest is
//! proved: the split of an object into registered and private claims, the
//! reading and writing of the registered claims, the merge of both into one
//! object, and the test that keeps the JSON reader within its limits.

pub mod claims;
pub mod entries;
pub mod error;
pub mod guard;
pub mod json;
pub mod laws;
pub mod transport;

pub use claims::{Claims, Registered};
pub use error::Error;
