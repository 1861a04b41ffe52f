pub mod bootnodes;
