pub mod index_manager;
pub mod stat_manager;
