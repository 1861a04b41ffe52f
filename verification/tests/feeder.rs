//! The simulated progress of a chain, recorded responses, bootnodes and load test requests.
use std::sync::Arc;

use pathfinder::feeder::clock::tick;
use pathfinder::feeder::preconfirmed::{
    resolve_preconfirmed_response, ResolveError,
};
use pathfinder::feeder::progress::Progress;
use pathfinder::feeder::records::{
    LoadError, Playback, PlaybackError, RecordState, RecordedBlock,
};
use pathfinder::felt::Felt;
use pathfinder::load_test::requests;
use pathfinder::load_test::requests::{BlockId, EventFilter, Request};
use pathfinder::p2p::bootnodes::{
    dial_outcome, ensure_peer_id_in_multiaddr, group_by_peer, MissingPeerId, Multiaddr, Protocol,
};
use pathfinder::pending::blocks::{BlockHeader, Receipt, Status, Transaction, TxnReceiptAndEvents};

const SECOND: u128 = 1_000_000_000;

#[test]
fn the_clock_ticks_once_per_period() {
    let mut since = None;
    assert!(tick(&mut since, 2, 10 * SECOND + 5));
    assert_eq!(since, Some(10 * SECOND));
    assert!(!tick(&mut since, 2, 11 * SECOND));
    assert!(tick(&mut since, 2, 13 * SECOND));
    assert_eq!(since, Some(12 * SECOND));
    assert!(!tick(&mut since, 2, 9 * SECOND));
}

#[test]
fn blocks_come_every_two_seconds() {
    let mut progress = Progress::new(Some(100));
    assert_eq!(progress.timed_latest_at(20 * SECOND), Some(101));
    assert_eq!(progress.timed_latest_at(21 * SECOND), Some(101));
    assert_eq!(progress.timed_latest_at(23 * SECOND), Some(102));
    assert_eq!(Progress::new(None).timed_latest_at(20 * SECOND), None);
    assert_eq!(Progress::default().timed_latest(), None);
    let mut real = Progress::new(Some(7));
    assert_eq!(real.timed_latest(), Some(8));
}

#[test]
fn the_block_being_built_is_sent_once_per_identifier() {
    let mut progress = Progress::new(Some(100));
    let (number, identifier) = progress.timed_preconfirmed_at("", 20 * SECOND).unwrap();
    assert_eq!(number, 103);
    assert!(progress.timed_preconfirmed_at(&identifier, 20 * SECOND).is_none());
    let (number, second) = progress.timed_preconfirmed_at(&identifier, 23 * SECOND).unwrap();
    assert_eq!(number, 104);
    assert_ne!(identifier, second);
    assert!(Progress::new(None).timed_preconfirmed("").is_none());
}

#[test]
fn each_response_has_an_identifier_of_its_own() {
    let mut progress = Progress::new(Some(100));
    let mut seen: Vec<String> = vec![];
    for _ in 0..17 {
        let (_, identifier) = progress.timed_preconfirmed_at("", 20 * SECOND).unwrap();
        assert!(!seen.contains(&identifier));
        seen.push(identifier);
    }
    assert_eq!(seen[0], "0x1");
    assert_eq!(seen[9], "0xa");
    assert_eq!(seen[15], "0x10");
    assert_eq!(seen[16], "0x11");
}

#[test]
fn records_are_played_in_order() {
    let mut state = RecordState::new();
    state.load(&vec![Some(10), Some(11), Some(12)]).unwrap();
    assert_eq!(state.base_block_number, 10);
    assert_eq!(
        state.get_next_at(RecordedBlock::Latest, 50 * SECOND),
        Ok(Playback::Response { index: 0, timestamp: Some(50) })
    );
    assert_eq!(
        state.get_next_at(RecordedBlock::Latest, 50 * SECOND),
        Ok(Playback::Unchanged)
    );
    assert_eq!(
        state.get_next_at(RecordedBlock::Number(10), 50 * SECOND),
        Ok(Playback::Response { index: 0, timestamp: Some(50) })
    );
    assert_eq!(
        state.get_next_at(RecordedBlock::Number(13), 50 * SECOND),
        Err(PlaybackError::OutOfRange)
    );
    assert_eq!(
        state.get_next_at(RecordedBlock::Other, 50 * SECOND),
        Err(PlaybackError::NotImplemented)
    );
    assert_eq!(PlaybackError::NoMoreRecords.message(), "no more records");
    let mut empty = RecordState::new();
    assert_eq!(empty.get_next(RecordedBlock::Latest), Err(PlaybackError::NoMoreRecords));
}

#[test]
fn records_are_consecutive() {
    assert_eq!(RecordState::new().load(&vec![]), Err(LoadError::NoRecords));
    assert_eq!(RecordState::new().load(&vec![None]), Err(LoadError::MissingBlockNumber));
    assert_eq!(
        RecordState::new().load(&vec![Some(1), Some(3)]),
        Err(LoadError::NotConsecutive)
    );
    assert_eq!(LoadError::NoRecords.message(), "no records");
}

#[test]
fn a_stored_block_is_handed_out_as_pre_confirmed() {
    let header = BlockHeader { number: 9, timestamp: 3, ..BlockHeader::default() };
    let transaction = Arc::new(Transaction { hash: Felt::from_u64(1), content: vec![] });
    let receipt = Arc::new(TxnReceiptAndEvents {
        receipt: Receipt {
            transaction_hash: Felt::from_u64(1),
            transaction_index: 0,
            content: vec![],
        },
        events: vec![],
    });
    let data = vec![(transaction, receipt)];
    let response =
        resolve_preconfirmed_response(Some(header), Some(data), "id".to_string()).unwrap();
    assert_eq!(response.block_number, 9);
    assert_eq!(response.status, Status::PreConfirmed);
    assert_eq!(response.block_identifier, "id");
    assert_eq!((response.transactions.len(), response.transaction_receipts.len()), (1, 1));
    assert!(response.changed);
    let e = resolve_preconfirmed_response(None, None, String::new()).unwrap_err();
    assert_eq!(e, ResolveError::HeaderMissing);
    let e = resolve_preconfirmed_response(Some(header), None, String::new()).unwrap_err();
    assert_eq!(e.message(), "Transaction data missing");
}

fn address(host: u8, peer: Option<u8>) -> Multiaddr {
    let mut parts = vec![Protocol::Other(vec![host])];
    if let Some(id) = peer {
        parts.push(Protocol::P2p(vec![id]));
    }
    Multiaddr { parts }
}

#[test]
fn addresses_are_grouped_by_peer() {
    let addresses =
        vec![address(1, Some(7)), address(2, Some(8)), address(3, None), address(4, Some(7))];
    assert_eq!(ensure_peer_id_in_multiaddr(&addresses[0]), Ok(vec![7]));
    assert_eq!(ensure_peer_id_in_multiaddr(&addresses[2]), Err(MissingPeerId));
    let groups = group_by_peer(&addresses);
    assert_eq!(groups.len(), 2);
    let seven = groups.iter().find(|g| g.peer_id == vec![7]).unwrap();
    assert_eq!(seven.addresses, vec![address(1, Some(7)), address(4, Some(7))]);
    let relay = addresses[0].relay_listener();
    assert_eq!(relay.parts.last(), Some(&Protocol::P2pCircuit));
    assert_eq!(relay.parts.len(), 3);
}

#[test]
fn one_dialed_bootnode_is_enough() {
    assert!(dial_outcome(0, &vec![]));
    assert!(dial_outcome(2, &vec![false, true]));
    assert!(!dial_outcome(2, &vec![false, false]));
}

#[test]
fn requests_name_their_methods_and_blocks() {
    let request = requests::get_block_by_number(5);
    assert_eq!(request.method(), "starknet_getBlockWithTxHashes");
    assert!(matches!(
        request,
        Request::GetBlockWithTxHashes { block_id: BlockId::Number(5) }
    ));
    let request = requests::get_events(EventFilter {
        from_block: Some(1),
        to_block: None,
        address: None,
        keys: vec![],
        chunk_size: 10,
    });
    assert_eq!(request.method(), "starknet_getEvents");
    assert!(matches!(
        request,
        Request::GetEvents { from_block: Some(BlockId::Number(1)), to_block: None, .. }
    ));
    let hash = Felt::from_u64(1);
    assert_eq!(requests::block_number().method(), "starknet_blockNumber");
    assert_eq!(requests::syncing().method(), "starknet_syncing");
    assert_eq!(requests::chain_id().method(), "starknet_chainId");
    assert_eq!(requests::get_nonce(hash).method(), "starknet_getNonce");
    assert_eq!(requests::call(hash, vec![], String::new()).method(), "starknet_call");
    assert!(matches!(
        requests::estimate_fee_for_invoke(hash, vec![], hash, hash),
        Request::EstimateFee { block_id: BlockId::Number(499999), .. }
    ));
}

fn texts(list: &[&str]) -> Vec<String> {
    list.iter().map(|text| text.to_string()).collect()
}

#[test]
fn records_are_loaded_from_their_texts() {
    let mut state = RecordState::new();
    let records = texts(&["{\"block_number\": 7, \"x\": [1]}", "{\"block_number\":8}"]);
    assert_eq!(state.load_texts(&records), Ok(()));
    assert_eq!(state.base_block_number, 7);
    assert_eq!(state.timestamps, vec![None, None]);
}

#[test]
fn the_first_record_that_is_not_taken_decides() {
    let mut state = RecordState::new();
    let records = texts(&["{\"block_number\": 7}", "{\"block_number\": 9}", "{"]);
    assert_eq!(state.load_texts(&records), Err(LoadError::NotConsecutive));
    assert_eq!(state.timestamps.len(), 1);
    assert_eq!(state.base_block_number, 0);

    let mut state = RecordState::new();
    let records = texts(&["{\"block_number\": 7}", "{", "{\"block_number\": 9}"]);
    assert_eq!(state.load_texts(&records), Err(LoadError::NotJson));
    assert_eq!(state.timestamps.len(), 1);
    assert_eq!(LoadError::NotJson.message(), "not JSON");

    for text in ["{}", "[7]", "{\"block_number\": -7}", "{\"block_number\": \"7\"}"] {
        let mut state = RecordState::new();
        assert_eq!(state.load_texts(&texts(&[text])), Err(LoadError::MissingBlockNumber));
    }
    assert_eq!(RecordState::new().load_texts(&vec![]), Err(LoadError::NoRecords));
    assert_eq!(RecordState::new().load_parsed(&vec![None]), Err(LoadError::NotJson));
    assert_eq!(RecordState::new().load_parsed(&vec![Some(Some(3))]), Ok(()));
}
