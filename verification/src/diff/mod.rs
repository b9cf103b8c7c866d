pub mod checkpoint;
pub mod edit;
pub mod fuzzy_search;
pub mod git;
pub mod large_file;
pub mod operations;
pub mod search_replace;
pub mod search_replace_enhanced;
