pub mod file_service;
pub mod group_service;
pub mod tag_service;
pub mod walk;
