//! What the command line front end shares with the library: its options,
//! its validation rules and the error type.

pub mod cfg;
pub mod clipboard;
pub mod error;
pub mod opt;
pub mod paths;
pub mod validate;

pub use error::{Error, VResult};
