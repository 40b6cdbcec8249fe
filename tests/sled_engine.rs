use kvs::{KvsError, SledKvsEngine};

fn temporary() -> SledKvsEngine {
    let config = sled::ConfigBuilder::new().temporary(true).build();
    SledKvsEngine::new(sled::Db::start(config).unwrap())
}

#[test]
fn sled_set_get_remove() {
    let mut e = temporary();
    e.set("k".to_string(), "v".to_string()).unwrap();
    assert_eq!(e.get("k".to_string()).unwrap(), Some("v".to_string()));
    e.remove("k".to_string()).unwrap();
    assert_eq!(e.get("k".to_string()).unwrap(), None);
    assert!(matches!(e.remove("k".to_string()), Err(KvsError::KeyNotFoundError)));
}

#[test]
fn sled_read_your_writes() {
    let mut e = temporary();
    for i in 0..20 {
        e.set("a".to_string(), format!("{}", i)).unwrap();
    }
    assert_eq!(e.get("a".to_string()).unwrap(), Some("19".to_string()));
    assert_eq!(e.get("b".to_string()).unwrap(), None);
}

#[test]
fn sled_non_ascii_values() {
    let mut e = temporary();
    e.set("ключ".to_string(), "値".to_string()).unwrap();
    assert_eq!(e.get("ключ".to_string()).unwrap(), Some("値".to_string()));
}
