pub mod catalog;
pub mod error;
pub mod events;
pub mod laws;
pub mod metastore;
pub mod scheduler;

pub use error::{CubeError, CubeErrorCauseType};
