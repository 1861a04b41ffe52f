pub mod validators;
pub mod validator_cache;
pub mod selection;
pub mod consensus_laws;
