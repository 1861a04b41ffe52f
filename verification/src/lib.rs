pub mod bytes;
pub mod felt;
pub mod felt_map;
pub mod pending;
pub mod storage;
pub mod text;
pub mod shared;
pub mod state_update;
pub mod state_apply;
pub mod sync;
pub mod rpc;
pub mod consensus;
pub mod feeder;
pub mod p2p;
pub mod load_test;
