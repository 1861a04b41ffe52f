pub mod error;
pub mod labels;
pub mod messages;
pub mod websocket;
pub mod compiler;
pub mod rpc_laws;
