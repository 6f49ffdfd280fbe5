use viewstamped_replication::client_table::{ClientRecord, ClientTable};
use viewstamped_replication::replica::{Replica, ReplicaError};

fn three_addresses() -> Vec<String> {
    vec![
        "127.0.0.1:7000".to_string(),
        "127.0.0.1:7001".to_string(),
        "127.0.0.1:7002".to_string(),
    ]
}

#[test]
fn admitted_result_is_marker() {
    let mut replica = Replica::new(three_addresses(), 0);
    let result = replica.process_request("client-1".to_string(), 1, b"SET k v".to_vec());
    assert_eq!(result.unwrap(), b"EXECUTED".to_vec());
    let entry = &replica.log[0];
    assert_eq!(entry.client_id, "client-1");
    assert_eq!(entry.request_number, 1);
    assert_eq!(entry.operation, b"SET k v".to_vec());
    assert_eq!(entry.result, Some(b"EXECUTED".to_vec()));
}

#[test]
fn distinct_admissions_advance_numbering() {
    let mut replica = Replica::new(three_addresses(), 0);
    assert!(replica.process_request("client-1".to_string(), 1, b"a".to_vec()).is_ok());
    assert!(replica.process_request("client-2".to_string(), 1, b"b".to_vec()).is_ok());
    assert!(replica.process_request("client-1".to_string(), 2, b"c".to_vec()).is_ok());
    assert_eq!(replica.op_number, 3);
    assert_eq!(replica.log.len(), 3);
    assert_eq!(replica.log[0].client_id, "client-1");
    assert_eq!(replica.log[1].client_id, "client-2");
    assert_eq!(replica.log[2].client_id, "client-1");
    // one client's request numbers strictly increase along the log
    assert!(replica.log[0].request_number < replica.log[2].request_number);
}

#[test]
fn stale_request_rejected() {
    let mut replica = Replica::new(three_addresses(), 0);
    assert!(replica.process_request("client-1".to_string(), 5, b"a".to_vec()).is_ok());
    let stale = replica.process_request("client-1".to_string(), 3, b"b".to_vec());
    assert_eq!(stale, Err(ReplicaError::OpNumberMismatch { expected: 6, actual: 3 }));
    // the refusal changed nothing
    assert_eq!(replica.op_number, 1);
    assert_eq!(replica.log.len(), 1);
    // the exact duplicate of the completed request is still answered
    let cached = replica.process_request("client-1".to_string(), 5, b"a".to_vec());
    assert_eq!(cached.unwrap(), b"EXECUTED".to_vec());
    assert_eq!(replica.op_number, 1);
}

#[test]
fn backup_rejects_without_mutation() {
    let mut replica = Replica::new(three_addresses(), 1);
    let first = replica.process_request("client-1".to_string(), 1, b"a".to_vec());
    assert_eq!(first, Err(ReplicaError::NotPrimary(0)));
    let second = replica.process_request("client-2".to_string(), 7, b"b".to_vec());
    assert_eq!(second, Err(ReplicaError::NotPrimary(0)));
    assert_eq!(replica.op_number, 0);
    assert_eq!(replica.log.len(), 0);
    assert_eq!(replica.commit_number, 0);
}

#[test]
fn primary_rotates_with_view() {
    let mut replica = Replica::new(three_addresses(), 1);
    assert!(!replica.is_primary());
    replica.view_number = 1;
    assert!(replica.is_primary());
    assert_eq!(replica.get_primary_address(), "127.0.0.1:7001");
    replica.view_number = 2;
    assert!(!replica.is_primary());
    assert_eq!(replica.get_primary_address(), "127.0.0.1:7002");
    replica.view_number = 4;
    assert!(replica.is_primary());
}

#[test]
fn exactly_one_primary_per_view() {
    for view in 0..6u64 {
        let mut primaries: u32 = 0;
        for number in 0..3usize {
            let mut replica = Replica::new(three_addresses(), number);
            replica.view_number = view;
            if replica.is_primary() {
                primaries += 1;
                assert_eq!(number as u64, view % 3);
            }
        }
        assert_eq!(primaries, 1);
    }
}

#[test]
fn incomplete_result_falls_into_mismatch() {
    // A recorded request whose result never completed is not answered from
    // the cache: resubmitting the same number lands in the mismatch branch.
    let mut replica = Replica::new(three_addresses(), 0);
    replica
        .client_table
        .insert("client-1".to_string(), ClientRecord { request_number: 1, result: None });
    let result = replica.process_request("client-1".to_string(), 1, b"a".to_vec());
    assert_eq!(result, Err(ReplicaError::OpNumberMismatch { expected: 2, actual: 1 }));
    assert_eq!(replica.op_number, 0);
}

#[test]
fn table_records_clients_independently() {
    let mut table = ClientTable::new();
    assert!(table.get(&"client-1".to_string()).is_none());
    table.insert("client-1".to_string(), ClientRecord { request_number: 3, result: None });
    table.insert(
        "client-2".to_string(),
        ClientRecord { request_number: 9, result: Some(b"r".to_vec()) },
    );
    let first = table.get(&"client-1".to_string()).unwrap();
    assert_eq!(first.request_number, 3);
    assert_eq!(first.result, None);
    // overwriting replaces the old record
    table.insert(
        "client-1".to_string(),
        ClientRecord { request_number: 4, result: Some(b"s".to_vec()) },
    );
    let replaced = table.get(&"client-1".to_string()).unwrap();
    assert_eq!(replaced.request_number, 4);
    assert_eq!(replaced.result, Some(b"s".to_vec()));
    let other = table.get(&"client-2".to_string()).unwrap();
    assert_eq!(other.request_number, 9);
    assert_eq!(other.result, Some(b"r".to_vec()));
}
