pub mod database;
pub mod links;
pub mod hierarchy;
pub mod file_repo;
pub mod group_repo;
pub mod tag_repo;
pub mod schema;
pub mod rows;
