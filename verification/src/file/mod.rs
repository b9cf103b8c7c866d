pub mod operations;
pub mod repository;
pub mod search_replace;
pub mod syntax_checker;
