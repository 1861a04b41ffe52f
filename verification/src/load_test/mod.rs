pub mod requests;
pub mod body;
