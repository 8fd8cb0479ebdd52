use ducklake::{Dialect, DucklakeError, ServerCatalogKey, ServerEndpoint};

#[test]
fn connection_urls_name_their_engine() {
    assert_eq!(Dialect::from_url("postgresql://user@host/db").unwrap(), Dialect::Postgres);
    assert_eq!(Dialect::from_url("postgres://host/db").unwrap(), Dialect::Postgres);
    assert_eq!(Dialect::from_url("mysql://host/db").unwrap(), Dialect::MySql);
    assert_eq!(Dialect::from_url("sqlite://:memory:").unwrap(), Dialect::Sqlite);
    assert!(matches!(Dialect::from_url("redis://host"), Err(DucklakeError::UnsupportedDatabase(u)) if u == "redis://host"));
    assert!(matches!(Dialect::from_url("postgres:/host"), Err(DucklakeError::UnsupportedDatabase(_))));
}

#[test]
fn pool_sizes_per_engine() {
    assert_eq!(Dialect::Sqlite.pool_size(), 1);
    assert_eq!(Dialect::Postgres.pool_size(), 8);
    assert_eq!(Dialect::MySql.pool_size(), 8);
}

#[test]
fn server_keys_ignore_host_case() {
    let a = ServerCatalogKey::new("DB.Example.COM", 5432, None, Some("lake".to_string()));
    assert_eq!(a.endpoint, ServerEndpoint::Host("db.example.com".to_string()));
    let b = ServerCatalogKey::new("db.example.com", 5432, None, Some("lake".to_string()));
    assert!(a.same_catalog(&b));
    let other_port = ServerCatalogKey::new("db.example.com", 5433, None, Some("lake".to_string()));
    assert!(!a.same_catalog(&other_port));
    let other_db = ServerCatalogKey::new("db.example.com", 5432, None, None);
    assert!(!a.same_catalog(&other_db));
}

#[test]
fn server_keys_prefer_sockets() {
    let by_host = ServerCatalogKey::new("/var/run/postgresql", 5432, None, None);
    assert_eq!(by_host.endpoint, ServerEndpoint::Socket("/var/run/postgresql".to_string()));
    let by_socket = ServerCatalogKey::new("localhost", 5432, Some("/var/run/postgresql".to_string()), None);
    assert!(by_host.same_catalog(&by_socket));
    let by_name = ServerCatalogKey::new("localhost", 5432, None, None);
    assert!(!by_host.same_catalog(&by_name));
}
