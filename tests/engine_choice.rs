use kvs::{choose_engine, Engine, KvsError};

#[test]
fn engine_names() {
    assert_eq!(Engine::Kvs.name(), b"kvs".to_vec());
    assert_eq!(Engine::Sled.name(), b"sled".to_vec());
    assert_eq!(Engine::parse(&b"kvs".to_vec()), Some(Engine::Kvs));
    assert_eq!(Engine::parse(&b"sled".to_vec()), Some(Engine::Sled));
    assert_eq!(Engine::parse(&b"other".to_vec()), None);
    assert_eq!(Engine::parse(&b"kvs\n".to_vec()), None);
    assert_eq!(Engine::parse(&b"KVS".to_vec()), Some(Engine::Kvs));
    assert_eq!(Engine::parse(&b"Sled".to_vec()), Some(Engine::Sled));
}

#[test]
fn stored_engine_must_match_request() {
    assert!(matches!(
        choose_engine(Some(Engine::Sled), Some(Engine::Kvs)),
        Err(KvsError::StringError(_))
    ));
    assert_eq!(choose_engine(Some(Engine::Kvs), Some(Engine::Kvs)).unwrap(), Engine::Kvs);
}

#[test]
fn engine_defaults() {
    assert_eq!(choose_engine(None, None).unwrap(), Engine::Kvs);
    assert_eq!(choose_engine(None, Some(Engine::Sled)).unwrap(), Engine::Sled);
    assert_eq!(choose_engine(Some(Engine::Sled), None).unwrap(), Engine::Sled);
}
