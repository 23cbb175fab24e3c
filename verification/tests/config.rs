//! Configuration, its validation and its defaults.
use macro_bus::config::{
    build_registry, ClusterConfig, ClusterSection, Config, ConfigError, Limits, PeerConfig,
    ServerConfig, TlsConfig, DEFAULT_RECONNECT_BASE_MS, DEFAULT_RECONNECT_MAX_MS, DEFAULT_SOCKET_PATH,
};
use macro_bus::server::{check_parent, clear_path, Found, SOCKET_MODE};

fn text(table: &toml::Table, key: &str) -> Option<String> {
    table.get(key).and_then(|v| v.as_str()).map(|s| s.to_string())
}

/// Read a configuration file's text into the library's types.
fn read(source: &str) -> Config {
    let table: toml::Table = toml::from_str(source).unwrap();
    let mut cfg = Config::default();
    if let Some(server) = table.get("server").and_then(|v| v.as_table()) {
        cfg.override_server(text(server, "daemon_id"), text(server, "socket_path"));
    }
    if let Some(cluster) = table.get("cluster").and_then(|v| v.as_table()) {
        cfg.cluster = ClusterConfig {
            listen: text(cluster, "listen"),
            peers: Vec::new(),
            reconnect_base_ms: DEFAULT_RECONNECT_BASE_MS,
            reconnect_max_ms: DEFAULT_RECONNECT_MAX_MS,
        };
        if let Some(peers) = cluster.get("peers").and_then(|v| v.as_array()) {
            for p in peers {
                let p = p.as_table().unwrap();
                cfg.cluster.peers.push(PeerConfig {
                    id: text(p, "id").unwrap(),
                    addr: text(p, "addr").unwrap(),
                });
            }
        }
    }
    if let Some(tls) = table.get("tls").and_then(|v| v.as_table()) {
        cfg.tls = Some(TlsConfig {
            cert: text(tls, "cert").unwrap(),
            key: text(tls, "key").unwrap(),
            ca: text(tls, "ca").unwrap(),
        });
    }
    cfg
}

#[test]
fn defaults_are_standalone() {
    let cfg = Config::default();
    assert!(!cfg.federation_enabled());
    assert_eq!(cfg.server.socket_path, DEFAULT_SOCKET_PATH);
    assert_eq!(cfg.limits.queue_depth, 1024);
    cfg.validate().unwrap();
}

#[test]
fn parses_minimal_toml() {
    let cfg = read(
        r#"
            [server]
            daemon_id = "d1"
            socket_path = "/tmp/mb.sock"
        "#,
    );
    assert_eq!(cfg.server.daemon_id, "d1");
    assert_eq!(cfg.limits.max_message_bytes, 1 << 20);
}

#[test]
fn parses_cluster_toml() {
    let cfg = read(
        r#"
            [server]
            daemon_id = "d1"

            [cluster]
            listen = "0.0.0.0:9440"
            [[cluster.peers]]
            id = "d2"
            addr = "127.0.0.1:9441"

            [tls]
            cert = "/etc/mb/cert.pem"
            key = "/etc/mb/key.pem"
            ca = "/etc/mb/ca.pem"
        "#,
    );
    assert!(cfg.federation_enabled());
    assert_eq!(cfg.cluster.peers.len(), 1);
    assert_eq!(cfg.cluster.peers[0].id, "d2");
    cfg.validate().unwrap();
}

#[test]
fn federation_without_tls_is_rejected() {
    let cfg = read(
        r#"
            [cluster]
            listen = "0.0.0.0:9440"
        "#,
    );
    assert!(cfg.validate().is_err());
}

#[test]
fn faults_are_reported_in_order() {
    let mut cfg = read(
        r#"
            [server]
            daemon_id = ""
            [[cluster.peers]]
            id = "d2"
            addr = "h:1"
        "#,
    );
    cfg.limits.queue_depth = 0;
    assert_eq!(cfg.validate(), Err(ConfigError::EmptyDaemonId));
    cfg.override_server(Some("d1".into()), None);
    assert_eq!(cfg.validate(), Err(ConfigError::TlsRequired));
    cfg.tls = Some(TlsConfig { cert: "c".into(), key: "k".into(), ca: "a".into() });
    assert_eq!(cfg.validate(), Err(ConfigError::ZeroQueueDepth));
    cfg.limits.queue_depth = 1;
    assert_eq!(cfg.validate(), Ok(()));
    assert_eq!(
        ConfigError::EmptyDaemonId.to_text(),
        "server.daemon_id must not be empty"
    );
    assert_eq!(
        ConfigError::TlsRequired.to_text(),
        "cluster federation requires a [tls] section (cert/key/ca)"
    );
    assert_eq!(
        ConfigError::ZeroQueueDepth.to_text(),
        "limits.queue_depth must be >= 1"
    );
}

/// The outcome of a configuration file with a given `[cluster]` section.
fn assembled(cluster: Option<ClusterSection>, tls: bool) -> Result<Config, ConfigError> {
    let material = TlsConfig { cert: "c".into(), key: "k".into(), ca: "a".into() };
    Config::assemble(
        ServerConfig::default(),
        Limits::default(),
        cluster,
        if tls { Some(material) } else { None },
    )
}

#[test]
fn any_cluster_field_requires_tls() {
    let none = ClusterSection {
        listen: None,
        peers: None,
        reconnect_base_ms: None,
        reconnect_max_ms: None,
    };
    let backoff = |cfg: &Config| (cfg.cluster.reconnect_base_ms, cfg.cluster.reconnect_max_ms);
    // No section, and one that gives nothing: standalone.
    let cfg = assembled(None, false).unwrap();
    assert!(!cfg.federation_enabled());
    assert_eq!(backoff(&cfg), (0, 0));
    let cfg = assembled(Some(none.clone()), false).unwrap();
    assert!(!cfg.federation_enabled());
    assert_eq!(backoff(&cfg), (500, 30_000));
    assert_eq!(cfg.validate(), Ok(()));

    let base = ClusterSection { reconnect_base_ms: Some(100), ..none.clone() };
    assert_eq!(assembled(Some(base.clone()), false).unwrap_err(), ConfigError::TlsRequired);
    let cfg = assembled(Some(base), true).unwrap();
    assert_eq!(backoff(&cfg), (100, 30_000));

    for section in [
        ClusterSection { listen: Some("0.0.0.0:9440".into()), ..none.clone() },
        ClusterSection { peers: Some(Vec::new()), ..none.clone() },
        ClusterSection { reconnect_base_ms: Some(0), ..none.clone() },
        ClusterSection { reconnect_base_ms: Some(500), ..none.clone() },
        ClusterSection { reconnect_max_ms: Some(0), ..none.clone() },
    ] {
        let section = Some(section);
        assert_eq!(assembled(section.clone(), false).unwrap_err(), ConfigError::TlsRequired);
        assert!(assembled(section, true).is_ok());
    }

    // The settings themselves show it too, wherever a backoff was set.
    let mut cfg = Config::default();
    cfg.cluster.reconnect_base_ms = 100;
    assert_eq!(cfg.validate(), Err(ConfigError::TlsRequired));
}

#[test]
fn default_values() {
    let l = Limits::default();
    assert_eq!(
        (l.max_message_bytes, l.max_command_line_bytes, l.max_body_line_bytes, l.seen_capacity),
        (1048576, 4096, 65536, 65536)
    );
    let s = ServerConfig::default();
    assert_eq!(s.daemon_id, "macro-busd");
    assert_eq!(s.socket_path, "/var/run/macro-bus.sock");
    let c = ClusterConfig::default();
    assert!(c.listen.is_none() && c.peers.is_empty());
    assert_eq!((c.reconnect_base_ms, c.reconnect_max_ms), (0, 0));
    assert_eq!((DEFAULT_RECONNECT_BASE_MS, DEFAULT_RECONNECT_MAX_MS), (500, 30_000));
}

#[test]
fn the_command_line_overrides_the_file() {
    let mut cfg = Config::default();
    cfg.override_server(Some("d7".into()), Some("/tmp/x.sock".into()));
    assert_eq!(cfg.server.daemon_id, "d7");
    assert_eq!(cfg.server.socket_path, "/tmp/x.sock");
    cfg.override_server(None, None);
    assert_eq!(cfg.server.daemon_id, "d7");
    assert_eq!(build_registry(&cfg).daemon_id(), "d7");
}

#[test]
fn binding_replaces_stale_sockets_only() {
    assert_eq!(clear_path("/tmp/s", Found::Nothing), Ok(false));
    assert_eq!(clear_path("/tmp/s", Found::Socket), Ok(true));
    assert_eq!(
        clear_path("/tmp/s", Found::Other),
        Err("refusing to bind: /tmp/s exists and is not a socket".to_string())
    );
    assert_eq!(check_parent("", false), Ok(()));
    assert_eq!(check_parent("/tmp", true), Ok(()));
    assert_eq!(
        check_parent("/nope", false),
        Err("socket directory /nope does not exist".to_string())
    );
    assert_eq!(SOCKET_MODE, 0o600);
}
