pub mod file;
pub mod group;
pub mod tag;
