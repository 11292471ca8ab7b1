pub mod ids;
pub mod laws;
pub mod store;
pub mod user;

