use atom_profiles::backend::decode_entries;
use atom_profiles::backend::plan_update;
use atom_profiles::directory::gate_service;
use atom_profiles::directory::ExistsRes;
use atom_profiles::errors::StoreError;

#[test]
fn plan_update_partitions_entries() {
    let entries = vec![
        ("a.b".to_string(), "1".to_string()),
        ("x".to_string(), "".to_string()),
        ("c$d".to_string(), "2".to_string()),
    ];
    let (sets, unsets) = plan_update("bucket.", &entries);
    assert_eq!(
        sets,
        vec![
            ("bucket.a$pb".to_string(), "1".to_string()),
            ("bucket.c$dd".to_string(), "2".to_string()),
        ]
    );
    assert_eq!(unsets, vec!["bucket.x".to_string()]);
}

#[test]
fn plan_update_empty_prefix_keeps_keys_encoded() {
    let entries = vec![("k.1".to_string(), "v".to_string())];
    let (sets, unsets) = plan_update("", &entries);
    assert_eq!(sets, vec![("k$p1".to_string(), "v".to_string())]);
    assert!(unsets.is_empty());
}

#[test]
fn decode_entries_round_trips_encoded_keys() {
    let pairs = vec![("a$pb".to_string(), "1".to_string()), ("c$dd".to_string(), "2".to_string())];
    assert_eq!(
        decode_entries(&pairs),
        Ok(vec![("a.b".to_string(), "1".to_string()), ("c$d".to_string(), "2".to_string())])
    );
}

#[test]
fn decode_entries_rejects_foreign_keys() {
    let pairs = vec![("bad$z".to_string(), "1".to_string())];
    assert_eq!(decode_entries(&pairs), Err(StoreError::Validation));
}

#[test]
fn gate_service_rule() {
    assert_eq!(gate_service(&ExistsRes::Exists { value: true }), Ok(()));
    assert_eq!(
        gate_service(&ExistsRes::Exists { value: false }),
        Err(StoreError::ServiceNotFound)
    );
    assert_eq!(
        gate_service(&ExistsRes::Error { reason: "down".to_string() }),
        Err(StoreError::Internal { reason: "down".to_string() })
    );
}
