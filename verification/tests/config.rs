use atom_profiles::config::ConnectionType;
use atom_profiles::config::MasterConfig;
use atom_profiles::config::MongoConfig;
use atom_profiles::strmap::StrMap;

#[test]
fn default_master_config() {
    let c = MasterConfig::default();
    assert_eq!(c.port, 8080);
    match c.services_connection {
        ConnectionType::Http { address } => assert_eq!(address, "localhost:8080".to_string()),
        ConnectionType::Native { .. } => panic!("default connection should be http"),
    }
}

#[test]
fn default_mongo_config() {
    let c = MongoConfig::default();
    assert_eq!(c.address, "mongodb://localhost:27017".to_string());
    assert_eq!(c.username, "bob".to_string());
    assert_eq!(c.password, "cratchit".to_string());
    assert_eq!(c.auth_db, "admin".to_string());
    assert_eq!(c.master_db, "atomics".to_string());
}

#[test]
fn default_services_connection() {
    match ConnectionType::services() {
        ConnectionType::Http { address } => assert_eq!(address, "localhost:8080".to_string()),
        ConnectionType::Native { .. } => panic!("default connection should be http"),
    }
}

#[test]
fn strmap_basics() {
    let mut m: StrMap<String> = StrMap::new();
    assert!(!m.contains_key(&"k".to_string()));
    m.insert("k".to_string(), "1".to_string());
    m.insert("k".to_string(), "2".to_string());
    assert_eq!(m.get(&"k".to_string()), Some(&"2".to_string()));
    assert_eq!(m.entries().len(), 1);
    assert_eq!(m.remove(&"k".to_string()), Some("2".to_string()));
    assert_eq!(m.get(&"k".to_string()), None);
    assert_eq!(m.remove(&"k".to_string()), None);
}
