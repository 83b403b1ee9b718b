//! Decoded asset definitions the runtime keeps after loading.

pub mod object;
pub mod validate;
