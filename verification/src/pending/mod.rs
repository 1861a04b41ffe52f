pub mod blocks;
pub mod compose;
pub mod pre_confirmed;
pub mod cache;
pub mod data;
pub mod poll;
pub mod watcher;
pub mod pending_laws;
