//! Daemon configuration.
//!
//! Everything has a sensible default so a bare daemon (no config file) runs as
//! a standalone local bus. A config file overrides fields; the command line
//! overrides the config file for a few common knobs.
use vstd::prelude::*;

use crate::registry::Registry;
use crate::registry::RegistryView;
pub use crate::DEFAULT_SOCKET_PATH;

verus! {

broadcast use vstd::string::group_string_axioms;

/// The daemon id of a daemon that is not given one.
pub const DEFAULT_DAEMON_ID: &'static str = "macro-busd";

/// Default for [`Limits::max_message_bytes`]: 1 MiB.
pub const DEFAULT_MAX_MESSAGE_BYTES: usize = 1048576;

/// Default for [`Limits::max_command_line_bytes`].
pub const DEFAULT_MAX_COMMAND_LINE_BYTES: usize = 4096;

/// Default for [`Limits::max_body_line_bytes`].
pub const DEFAULT_MAX_BODY_LINE_BYTES: usize = 65536;

/// Default for [`Limits::queue_depth`].
pub const DEFAULT_QUEUE_DEPTH: usize = 1024;

/// Default for [`Limits::seen_capacity`].
pub const DEFAULT_SEEN_CAPACITY: usize = 65536;

/// Backoff base of a `[cluster]` section that gives none, in milliseconds.
pub const DEFAULT_RECONNECT_BASE_MS: u64 = 500;

/// Backoff ceiling of a `[cluster]` section that gives none, in milliseconds.
pub const DEFAULT_RECONNECT_MAX_MS: u64 = 30000;

/// Top-level daemon configuration.
#[derive(Debug, Clone)]
pub struct Config {
    /// Local socket server settings.
    pub server: ServerConfig,
    /// Bounds on messages, lines and queues.
    pub limits: Limits,
    /// Optional federation / cluster settings. Absent: standalone.
    pub cluster: ClusterConfig,
    /// Optional TLS material for federation links.
    pub tls: Option<TlsConfig>,
}

/// Local socket server settings.
#[derive(Debug, Clone)]
pub struct ServerConfig {
    /// This daemon's cluster-unique identifier. It has to be unique across a
    /// cluster (it tags message ids and breaks registration ties).
    pub daemon_id: String,
    /// Path to the Unix domain socket local apps connect to.
    pub socket_path: String,
}

/// Bounds enforced by the daemon.
#[derive(Debug, Clone, Copy, PartialEq, Eq, Structural)]
pub struct Limits {
    /// Maximum total body size of a single message, in octets.
    pub max_message_bytes: usize,
    /// Maximum length of a command line, in octets (excluding CRLF).
    pub max_command_line_bytes: usize,
    /// Maximum length of a single DATA body line, in octets (excluding CRLF).
    pub max_body_line_bytes: usize,
    /// Depth of each subscriber's bounded outbound queue (tail-drop beyond this).
    pub queue_depth: usize,
    /// Capacity of the per-daemon seen-message set used for loop prevention.
    pub seen_capacity: usize,
}

/// Federation / cluster settings.
#[derive(Debug, Clone)]
pub struct ClusterConfig {
    /// Address to listen on for inbound peer (federation) connections. When
    /// `None`, this daemon does not accept peer links.
    pub listen: Option<String>,
    /// Static list of peers to dial. Empty: standalone.
    pub peers: Vec<PeerConfig>,
    /// Base reconnect backoff in milliseconds (doubles up to `reconnect_max_ms`).
    pub reconnect_base_ms: u64,
    /// Maximum reconnect backoff in milliseconds.
    pub reconnect_max_ms: u64,
}

/// The `[cluster]` section of a configuration file: what it gives, and what it
/// leaves out.
#[derive(Debug, Clone)]
pub struct ClusterSection {
    /// The address to listen on.
    pub listen: Option<String>,
    /// The peers to dial.
    pub peers: Option<Vec<PeerConfig>>,
    /// The base reconnect backoff in milliseconds.
    pub reconnect_base_ms: Option<u64>,
    /// The maximum reconnect backoff in milliseconds.
    pub reconnect_max_ms: Option<u64>,
}

/// A single configured peer.
#[derive(Debug, Clone)]
pub struct PeerConfig {
    /// The peer's expected daemon id (used for logging and its cert name).
    pub id: String,
    /// `host:port` to dial.
    pub addr: String,
}

/// TLS material for federation. Mutual TLS is used: every peer presents a
/// client/server certificate signed by a CA in `ca`.
#[derive(Debug, Clone)]
pub struct TlsConfig {
    /// Path to this daemon's certificate chain (PEM).
    pub cert: String,
    /// Path to this daemon's private key (PEM).
    pub key: String,
    /// Path to the CA bundle used to verify peers (PEM).
    pub ca: String,
}

/// What makes a configuration invalid.
#[derive(Debug, Clone, Copy, PartialEq, Eq, Structural)]
pub enum ConfigError {
    /// `server.daemon_id` is empty.
    EmptyDaemonId,
    /// There are cluster settings, and no TLS material.
    TlsRequired,
    /// `limits.queue_depth` is zero.
    ZeroQueueDepth,
}

impl ConfigError {
    /// The error in words.
    pub open spec fn text(self) -> Seq<char> {
        match self {
            ConfigError::EmptyDaemonId => "server.daemon_id must not be empty"@,
            ConfigError::TlsRequired =>
                "cluster federation requires a [tls] section (cert/key/ca)"@,
            ConfigError::ZeroQueueDepth => "limits.queue_depth must be >= 1"@,
        }
    }

    /// The error in words.
    pub fn to_text(&self) -> (s: String)
        ensures
            s@ == self.text(),
    {
        match self {
            ConfigError::EmptyDaemonId => "server.daemon_id must not be empty".to_string(),
            ConfigError::TlsRequired =>
                "cluster federation requires a [tls] section (cert/key/ca)".to_string(),
            ConfigError::ZeroQueueDepth => "limits.queue_depth must be >= 1".to_string(),
        }
    }
}

impl Default for ServerConfig {
    fn default() -> (c: Self)
        ensures
            c.daemon_id@ == DEFAULT_DAEMON_ID@,
            c.socket_path@ == DEFAULT_SOCKET_PATH@,
    {
        ServerConfig {
            daemon_id: DEFAULT_DAEMON_ID.to_string(),
            socket_path: DEFAULT_SOCKET_PATH.to_string(),
        }
    }
}

impl Default for Limits {
    fn default() -> (l: Self)
        ensures
            l == (Limits {
                max_message_bytes: DEFAULT_MAX_MESSAGE_BYTES,
                max_command_line_bytes: DEFAULT_MAX_COMMAND_LINE_BYTES,
                max_body_line_bytes: DEFAULT_MAX_BODY_LINE_BYTES,
                queue_depth: DEFAULT_QUEUE_DEPTH,
                seen_capacity: DEFAULT_SEEN_CAPACITY,
            }),
    {
        Limits {
            max_message_bytes: DEFAULT_MAX_MESSAGE_BYTES,
            max_command_line_bytes: DEFAULT_MAX_COMMAND_LINE_BYTES,
            max_body_line_bytes: DEFAULT_MAX_BODY_LINE_BYTES,
            queue_depth: DEFAULT_QUEUE_DEPTH,
            seen_capacity: DEFAULT_SEEN_CAPACITY,
        }
    }
}

impl Default for ClusterConfig {
    /// No federation: nothing to listen on, nobody to dial, no backoff.
    fn default() -> (c: Self)
        ensures
            c.listen is None,
            c.peers@.len() == 0,
            c.reconnect_base_ms == 0,
            c.reconnect_max_ms == 0,
    {
        ClusterConfig {
            listen: None,
            peers: Vec::new(),
            reconnect_base_ms: 0,
            reconnect_max_ms: 0,
        }
    }
}

impl Default for Config {
    fn default() -> (c: Self)
        ensures
            c.server.daemon_id@ == DEFAULT_DAEMON_ID@,
            c.server.socket_path@ == DEFAULT_SOCKET_PATH@,
            c.limits.max_message_bytes == DEFAULT_MAX_MESSAGE_BYTES,
            c.limits.max_command_line_bytes == DEFAULT_MAX_COMMAND_LINE_BYTES,
            c.limits.max_body_line_bytes == DEFAULT_MAX_BODY_LINE_BYTES,
            c.limits.queue_depth == DEFAULT_QUEUE_DEPTH,
            c.limits.seen_capacity == DEFAULT_SEEN_CAPACITY,
            c.cluster.listen is None,
            c.cluster.peers@.len() == 0,
            c.cluster.reconnect_base_ms == 0,
            c.cluster.reconnect_max_ms == 0,
            c.tls is None,
    {
        Config {
            server: ServerConfig::default(),
            limits: Limits::default(),
            cluster: ClusterConfig::default(),
            tls: None,
        }
    }
}

impl ClusterSection {
    /// Whether the section gives anything.
    pub open spec fn given(&self) -> bool {
        ||| self.listen is Some
        ||| self.peers is Some
        ||| self.reconnect_base_ms is Some
        ||| self.reconnect_max_ms is Some
    }

    /// Whether these are the settings that the section stands for: what it leaves
    /// out has its default.
    pub open spec fn stands_for(&self, c: ClusterConfig) -> bool {
        &&& c.listen == self.listen
        &&& c.peers@ == (match self.peers {
            Some(peers) => peers@,
            None => Seq::empty(),
        })
        &&& c.reconnect_base_ms == (match self.reconnect_base_ms {
            Some(ms) => ms,
            None => DEFAULT_RECONNECT_BASE_MS,
        })
        &&& c.reconnect_max_ms == (match self.reconnect_max_ms {
            Some(ms) => ms,
            None => DEFAULT_RECONNECT_MAX_MS,
        })
    }

    /// Whether the section gives anything.
    pub fn is_given(&self) -> (b: bool)
        ensures
            b == self.given(),
    {
        self.listen.is_some() || self.peers.is_some() || self.reconnect_base_ms.is_some()
            || self.reconnect_max_ms.is_some()
    }

    /// The settings that the section stands for.
    pub fn resolve(self) -> (c: ClusterConfig)
        ensures
            self.stands_for(c),
    {
        ClusterConfig {
            listen: self.listen,
            peers: match self.peers {
                Some(peers) => peers,
                None => Vec::new(),
            },
            reconnect_base_ms: match self.reconnect_base_ms {
                Some(ms) => ms,
                None => DEFAULT_RECONNECT_BASE_MS,
            },
            reconnect_max_ms: match self.reconnect_max_ms {
                Some(ms) => ms,
                None => DEFAULT_RECONNECT_MAX_MS,
            },
        }
    }
}

/// Whether these are the settings of a configuration file: those that its
/// `[cluster]` section stands for, and none where it has no such section.
pub open spec fn cluster_settings(section: Option<ClusterSection>, c: ClusterConfig) -> bool {
    match section {
        Some(s) => s.stands_for(c),
        None => c.listen is None && c.peers@.len() == 0 && c.reconnect_base_ms == 0
            && c.reconnect_max_ms == 0,
    }
}

/// The first thing that makes the sections of a configuration file invalid: TLS
/// material is required as soon as the `[cluster]` section gives anything.
pub open spec fn sections_fault(
    server: ServerConfig,
    limits: Limits,
    cluster: Option<ClusterSection>,
    tls: Option<TlsConfig>,
) -> Option<ConfigError> {
    if server.daemon_id@.len() == 0 {
        Some(ConfigError::EmptyDaemonId)
    } else if cluster is Some && cluster->0.given() && tls is None {
        Some(ConfigError::TlsRequired)
    } else if limits.queue_depth == 0 {
        Some(ConfigError::ZeroQueueDepth)
    } else {
        None
    }
}

impl Config {
    /// Put together the sections of a configuration file, and validate them.
    pub fn assemble(
        server: ServerConfig,
        limits: Limits,
        cluster: Option<ClusterSection>,
        tls: Option<TlsConfig>,
    ) -> (r: Result<Config, ConfigError>)
        ensures
            match r {
                Ok(c) => {
                    &&& sections_fault(server, limits, cluster, tls) is None
                    &&& c.server == server
                    &&& c.limits == limits
                    &&& cluster_settings(cluster, c.cluster)
                    &&& c.tls == tls
                    &&& c.fault() is None
                },
                Err(e) => sections_fault(server, limits, cluster, tls) == Some(e),
            },
    {
        let (given, cluster) = match cluster {
            Some(section) => (section.is_given(), section.resolve()),
            None => (false, ClusterConfig::default()),
        };
        let cfg = Config { server, limits, cluster, tls };
        if cfg.server.daemon_id.as_str().is_empty() {
            return Err(ConfigError::EmptyDaemonId);
        }
        if given && cfg.tls.is_none() {
            return Err(ConfigError::TlsRequired);
        }
        match cfg.validate() {
            Ok(_) => Ok(cfg),
            Err(e) => Err(e),
        }
    }

    /// Whether any federation (listener or peers) is configured.
    pub open spec fn federated(&self) -> bool {
        self.cluster.listen is Some || self.cluster.peers@.len() > 0
    }

    /// Whether the backoff is one that nobody has set: zero without a `[cluster]`
    /// section, the defaults with one.
    pub open spec fn backoff_unset(&self) -> bool {
        ||| self.cluster.reconnect_base_ms == 0 && self.cluster.reconnect_max_ms == 0
        ||| self.cluster.reconnect_base_ms == DEFAULT_RECONNECT_BASE_MS
            && self.cluster.reconnect_max_ms == DEFAULT_RECONNECT_MAX_MS
    }

    /// Whether there are cluster settings: a listener, peers, or a backoff that was
    /// set.
    pub open spec fn clustered(&self) -> bool {
        self.federated() || !self.backoff_unset()
    }

    /// The first thing that makes the configuration invalid.
    pub open spec fn fault(&self) -> Option<ConfigError> {
        if self.server.daemon_id@.len() == 0 {
            Some(ConfigError::EmptyDaemonId)
        } else if self.clustered() && self.tls is None {
            Some(ConfigError::TlsRequired)
        } else if self.limits.queue_depth == 0 {
            Some(ConfigError::ZeroQueueDepth)
        } else {
            None
        }
    }

    /// Validate cross-field invariants.
    pub fn validate(&self) -> (r: Result<(), ConfigError>)
        ensures
            match r {
                Ok(_) => self.fault() is None,
                Err(e) => self.fault() == Some(e),
            },
    {
        if self.server.daemon_id.as_str().is_empty() {
            return Err(ConfigError::EmptyDaemonId);
        }
        let base = self.cluster.reconnect_base_ms;
        let max = self.cluster.reconnect_max_ms;
        let backoff_unset = (base == 0 && max == 0) || (base == DEFAULT_RECONNECT_BASE_MS && max
            == DEFAULT_RECONNECT_MAX_MS);
        if (self.federation_enabled() || !backoff_unset) && self.tls.is_none() {
            return Err(ConfigError::TlsRequired);
        }
        if self.limits.queue_depth == 0 {
            return Err(ConfigError::ZeroQueueDepth);
        }
        Ok(())
    }

    /// True iff any federation (listener or peers) is configured.
    pub fn federation_enabled(&self) -> (b: bool)
        ensures
            b == self.federated(),
    {
        self.cluster.listen.is_some() || self.cluster.peers.len() > 0
    }

    /// Put a daemon id and a socket path from the command line in place of the
    /// configured ones.
    pub fn override_server(&mut self, id: Option<String>, socket: Option<String>)
        ensures
            final(self).server.daemon_id == (match id {
                Some(s) => s,
                None => old(self).server.daemon_id,
            }),
            final(self).server.socket_path == (match socket {
                Some(s) => s,
                None => old(self).server.socket_path,
            }),
            final(self).limits == old(self).limits,
            final(self).cluster == old(self).cluster,
            final(self).tls == old(self).tls,
    {
        if let Some(s) = id {
            self.server.daemon_id = s;
        }
        if let Some(s) = socket {
            self.server.socket_path = s;
        }
    }
}

/// Build the registry for a config.
pub fn build_registry(cfg: &Config) -> (r: Registry)
    ensures
        r.wf(),
        r@ == RegistryView::fresh(cfg.server.daemon_id@, cfg.limits.seen_capacity as nat),
{
    Registry::new(cfg.server.daemon_id.as_str(), cfg.limits.seen_capacity)
}

/// Federation links are always encrypted: a valid configuration with any cluster
/// setting, and so every one that federates, has TLS material.
pub proof fn federation_has_tls(cfg: Config)
    requires
        cfg.fault() is None,
        cfg.federated() || cfg.clustered(),
    ensures
        cfg.tls is Some,
{
}

} // verus!
