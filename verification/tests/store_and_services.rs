//! The in-memory store, the retry policy, the settlement decisions and
//! the routing relations.

use std::str::FromStr;

use ilp_stream::addr::Address;
use ilp_stream::retry::{AttemptError, IoHandler, RetryPolicy};
use ilp_stream::routing::{CcpRoutingAccount, RoutingRelation};
use ilp_stream::settle::{
    bearer_token, classify_engine_response, is_se_address, should_handle_settlement_message,
};
use ilp_stream::store::{AccountBuilder, InMemoryStore};

#[test]
fn query_by_btp() {
    let account = AccountBuilder::new()
        .btp_incoming_token("test_token".to_string())
        .build();
    let store = InMemoryStore::from_accounts(vec![account]);
    store
        .get_account_from_auth(&"test_token".to_string(), None)
        .unwrap();
    assert!(store
        .get_account_from_auth(&"bad_token".to_string(), None)
        .is_err());
}

#[test]
fn store_lookups() {
    let a = AccountBuilder::new()
        .id(1)
        .ilp_address(b"example.alice".to_vec())
        .asset_code("USD".to_string())
        .asset_scale(2)
        .http_incoming_authorization("alice-auth".to_string())
        .build();
    let b = AccountBuilder::new()
        .id(2)
        .ilp_address(b"example.bob".to_vec())
        .btp_incoming_token("bob-token".to_string())
        .btp_incoming_username(Some("bob".to_string()))
        .build();
    let store = InMemoryStore::from_accounts(vec![a, b]);

    let found = store.get_accounts(vec![2, 1]).unwrap();
    assert_eq!(found.len(), 2);
    assert_eq!(found[0].id, 2);
    assert_eq!(found[1].id, 1);
    assert!(store.get_accounts(vec![1, 99]).is_err());

    let alice = store
        .get_account_from_authorization(&"alice-auth".to_string())
        .unwrap();
    assert_eq!(alice.id, 1);
    assert!(store
        .get_account_from_authorization(&"unknown".to_string())
        .is_err());

    let bob = store
        .get_account_from_auth(&"bob-token".to_string(), Some(&"bob".to_string()))
        .unwrap();
    assert_eq!(bob.id, 2);
    assert!(store
        .get_account_from_auth(&"bob-token".to_string(), None)
        .is_err(), "username must match");

    let routes = store.routing_table();
    assert!(routes
        .iter()
        .any(|(addr, id)| addr == b"example.alice" && *id == 1));
}

#[test]
fn store_creates_btp_accounts() {
    let mut store = InMemoryStore::default();
    let account = store
        .create_btp_account(
            b"example.carol".to_vec(),
            "carol-token".to_string(),
            None,
            "EUR".to_string(),
            4,
        )
        .unwrap();
    assert_eq!(account.id, 1);
    let found = store
        .get_account_from_auth(&"carol-token".to_string(), None)
        .unwrap();
    assert_eq!(found.id, account.id);
    let routes = store.routing_table();
    assert!(routes
        .iter()
        .any(|(addr, id)| addr == b"example.carol" && *id == account.id));
}

#[test]
fn duplicate_ids_keep_the_last() {
    let a = AccountBuilder::new()
        .id(7)
        .asset_code("OLD".to_string())
        .build();
    let b = AccountBuilder::new()
        .id(7)
        .asset_code("NEW".to_string())
        .build();
    let store = InMemoryStore::from_accounts(vec![a, b]);
    let found = store.get_accounts(vec![7]).unwrap();
    assert_eq!(found.len(), 1);
    assert_eq!(found[0].asset_code, "NEW");
}

#[test]
fn retry_gives_up_after_max_attempts() {
    let mut handler = IoHandler::new(2, "engine".to_string());
    let timeout = AttemptError { is_timeout: true, status: None };
    assert_eq!(handler.handle(timeout), RetryPolicy::WaitRetry(5000));
    assert_eq!(handler.handle(timeout), RetryPolicy::WaitRetry(5000));
    assert_eq!(handler.handle(timeout), RetryPolicy::ForwardError);
    assert_eq!(handler.handle(timeout), RetryPolicy::ForwardError);
}

#[test]
fn retry_policy_by_failure_kind() {
    let mut handler = IoHandler::new(10, "engine".to_string());
    assert_eq!(
        handler.handle(AttemptError { is_timeout: false, status: Some(404) }),
        RetryPolicy::ForwardError,
        "client errors are not retried"
    );
    assert_eq!(
        handler.handle(AttemptError { is_timeout: false, status: Some(503) }),
        RetryPolicy::WaitRetry(5000)
    );
    assert_eq!(
        handler.handle(AttemptError { is_timeout: false, status: Some(302) }),
        RetryPolicy::WaitRetry(1000)
    );
    assert_eq!(
        handler.handle(AttemptError { is_timeout: false, status: None }),
        RetryPolicy::WaitRetry(1000)
    );
}

#[test]
fn settlement_decisions() {
    let engine = Address::try_from(b"peer.settle".to_vec()).unwrap();
    let other = Address::try_from(b"example.some.address".to_vec()).unwrap();
    assert!(is_se_address(&engine));
    assert!(!is_se_address(&other));
    assert!(should_handle_settlement_message(true, &engine));
    assert!(!should_handle_settlement_message(false, &engine));
    assert!(!should_handle_settlement_message(true, &other));
}

#[test]
fn settlement_engine_replies() {
    let body = vec![1u8; 32];
    let ok = classify_engine_response(200, &vec![], body.clone()).unwrap();
    assert_eq!(ok.fulfillment, vec![0u8; 32]);
    assert_eq!(ok.data, body);

    let client_err = classify_engine_response(404, &b"Not Found".to_vec(), vec![]).unwrap_err();
    assert_eq!((client_err.code.b0, client_err.code.b1, client_err.code.b2), (b'F', b'0', b'0'));
    assert_eq!(client_err.triggered_by.as_ref().unwrap().as_bytes(), b"peer.settle");
    assert_eq!(
        client_err.message,
        b"Settlement engine rejected request with error code: 404 Not Found"
    );

    let server_err =
        classify_engine_response(500, &b"Internal Server Error".to_vec(), vec![]).unwrap_err();
    assert_eq!((server_err.code.b0, server_err.code.b1, server_err.code.b2), (b'T', b'0', b'0'));
    assert_eq!(server_err.triggered_by.as_ref().unwrap().as_bytes(), b"peer.settle");
    assert_eq!(
        server_err.message,
        b"Settlement engine rejected request with error code: 500 Internal Server Error"
    );

    let bare = classify_engine_response(503, &vec![], vec![]).unwrap_err();
    assert_eq!(bare.message, b"Settlement engine rejected request with error code: 503");
}

#[test]
fn bearer_tokens() {
    assert_eq!(bearer_token(&b"Bearer hunter2".to_vec()), Some(b"hunter2".to_vec()));
    assert_eq!(bearer_token(&b"Bearer ".to_vec()), Some(vec![]));
    assert_eq!(bearer_token(&b"short".to_vec()), None);
}

#[test]
fn routing_relation_names() {
    assert_eq!(RoutingRelation::from_str("parent"), Ok(RoutingRelation::Parent));
    assert_eq!(RoutingRelation::from_str("Peer"), Ok(RoutingRelation::Peer));
    assert_eq!(RoutingRelation::from_str("CHILD"), Ok(RoutingRelation::Child));
    assert_eq!(
        RoutingRelation::from_str("NonRoutingAccount"),
        Ok(RoutingRelation::NonRoutingAccount)
    );
    assert_eq!(RoutingRelation::from_str("sibling"), Err(()));
    assert_eq!(RoutingRelation::Peer.as_ref(), "Peer");
    assert_eq!(RoutingRelation::Parent.as_ref(), "Parent");
}

struct TestRoutingAccount {
    relation: RoutingRelation,
}

impl CcpRoutingAccount for TestRoutingAccount {
    fn routing_relation(&self) -> RoutingRelation {
        self.relation
    }
}

#[test]
fn route_update_directions() {
    let peer = TestRoutingAccount { relation: RoutingRelation::Peer };
    assert!(peer.should_send_routes());
    assert!(peer.should_receive_routes());
    let parent = TestRoutingAccount { relation: RoutingRelation::Parent };
    assert!(!parent.should_send_routes());
    assert!(parent.should_receive_routes());
    let child = TestRoutingAccount { relation: RoutingRelation::Child };
    assert!(child.should_send_routes());
    assert!(!child.should_receive_routes());
    let non = TestRoutingAccount { relation: RoutingRelation::NonRoutingAccount };
    assert!(!non.should_send_routes());
    assert!(!non.should_receive_routes());
}
