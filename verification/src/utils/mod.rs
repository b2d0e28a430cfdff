pub mod text;
pub mod time;
pub mod print;
