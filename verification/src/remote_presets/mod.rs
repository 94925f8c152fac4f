pub mod config;
pub mod manifest;
pub mod versions;
pub mod sync;
pub mod select;
