use shipwright::protocol::TemplateId;
use shipwright::state_serialization::{StateManager, StateManagerConfig, StateSerializationError};

fn config(compress: bool, validate: bool, max: usize) -> StateManagerConfig {
    let mut c = StateManagerConfig::defaults(false);
    c.compress_state = compress;
    c.validate_integrity = validate;
    c.max_states = max;
    c
}

fn id() -> TemplateId {
    TemplateId::new("test.rs".to_string(), 1, 1)
}

#[test]
fn test_state_serialization_and_restoration() {
    for (compress, validate) in [(true, true), (false, true), (true, false), (false, false)] {
        let mut m = StateManager::new(config(compress, validate, 10));
        let data = b"{\"count\":42,\"name\":\"test\"}".to_vec();
        m.preserve_state("instance1".to_string(), id(), "Counter".to_string(), data.clone(), 1).unwrap();
        assert_eq!(m.restore_state("instance1", 1).unwrap(), Some(data));
        assert_eq!(m.restore_state("other", 1).unwrap(), None);
    }
}

#[test]
fn version_mismatch_is_reported() {
    let mut m = StateManager::new(config(true, true, 10));
    m.preserve_state("i".to_string(), id(), "T".to_string(), vec![1, 2, 3], 1).unwrap();
    match m.restore_state("i", 2) {
        Err(StateSerializationError::IncompatibleVersion { version }) => assert_eq!(version, 1),
        _ => panic!("expected incompatible version"),
    }
}

#[test]
fn test_state_removal() {
    let mut m = StateManager::new(config(true, true, 10));
    m.preserve_state("i".to_string(), id(), "T".to_string(), vec![1], 1).unwrap();
    assert!(m.remove_state("i"));
    assert!(!m.remove_state("i"));
    assert!(m.restore_state("i", 1).unwrap().is_none());
}

#[test]
fn oldest_states_go_first() {
    let mut m = StateManager::new(config(false, false, 2));
    m.preserve_state("a".to_string(), id(), "T".to_string(), vec![1], 1).unwrap();
    m.preserve_state("b".to_string(), id(), "T".to_string(), vec![2], 1).unwrap();
    m.preserve_state("a".to_string(), id(), "T".to_string(), vec![3], 1).unwrap();
    m.preserve_state("c".to_string(), id(), "U".to_string(), vec![4], 1).unwrap();
    assert_eq!(m.get_all_instances(), vec!["a".to_string(), "c".to_string()]);
    assert_eq!(m.restore_state("a", 1).unwrap(), Some(vec![3]));
    let stats = m.get_statistics(2);
    assert_eq!(stats.total_states, 2);
    assert_eq!(stats.total_size_bytes, 2);
    assert_eq!(stats.registered_serializers, 2);
    assert_eq!(stats.states_by_type, vec![("T".to_string(), 1), ("U".to_string(), 1)]);
    m.clear_all_states();
    assert!(m.get_all_instances().is_empty());
}

#[test]
fn metadata_records_sizes_and_checksum() {
    let mut m = StateManager::new(config(true, true, 10));
    let data = vec![7u8; 1000];
    m.preserve_state("i".to_string(), id(), "T".to_string(), data, 1).unwrap();
    let meta = m.get_state_metadata("i").unwrap();
    assert_eq!(meta.original_size, 1000);
    assert!(meta.compressed_size.unwrap() < 1000);
    assert_eq!(meta.checksum.unwrap().len(), 64);
    assert!(m.get_state_metadata("none").is_none());
}

#[test]
fn error_messages() {
    assert_eq!(StateSerializationError::IntegrityValidationFailed.message(), "Integrity validation failed");
    assert_eq!(StateSerializationError::IncompatibleVersion { version: 3 }.message(), "Format version incompatible: 3");
    assert_eq!(
        StateSerializationError::TypeMismatch { expected: "A".to_string(), actual: "B".to_string() }.message(),
        "Type mismatch: expected A, got B"
    );
}
