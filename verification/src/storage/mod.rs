pub mod columns;
pub mod store;
pub mod codec;
pub mod markers;
pub mod codec_laws;
pub mod trie;
pub mod trie_shape;
pub mod tail_search;
pub mod tail_laws;
pub mod keys;
pub mod reconcile;
pub mod reconcile_laws;
pub mod orphan_laws;
pub mod trie_laws;
pub mod walk_laws;
pub mod roots;
pub mod transaction;
pub mod trie_pruning;
pub mod history_laws;
pub mod runs;
pub mod state_hashes;
pub mod block_pruning;
pub mod pruning_laws;
pub mod state_merge;
pub mod merge_laws;
pub mod migrations;
pub mod migration_laws;
pub mod event_filter;
pub mod options;
pub mod option_laws;
pub mod fd_limit;
