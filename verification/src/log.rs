pub mod record;
pub mod manager;
