//! What makes a configuration valid, what TLS material is taken, and what the
//! command-line client shows.
use std::sync::Arc;

use rustls::ClientConfig as TlsClient;
use rustls::ServerConfig as TlsServer;
use vstd::prelude::*;

use crate::cli;
use crate::client::ClientErrorView;
use crate::client::EventView;
use crate::config;
use crate::config::ClusterConfig;
use crate::config::ClusterSection;
use crate::config::Config;
use crate::config::ConfigError;
use crate::config::Limits;
use crate::config::ServerConfig;
use crate::config::TlsConfig;
use crate::number;
use crate::server;
use crate::server::Found;
use crate::text;
use crate::text_laws;
use crate::tls;
use crate::tls::BuildError;
use crate::tls::Files;
use crate::tls::KeyView;

verus! {

broadcast use vstd::string::group_string_axioms;

// --- configuration ----------------------------------------------------------------------------

/// A configuration is valid exactly where the daemon has an id, queues hold something,
/// and there is TLS material wherever there is a listener, a peer, or a backoff that
/// was set. Of several faults the missing id is told first, then the missing TLS
/// material.
pub proof fn valid_configurations(cfg: Config)
    ensures
        ({
            let base = cfg.cluster.reconnect_base_ms;
            let max = cfg.cluster.reconnect_max_ms;
            let set = !(base == 0 && max == 0) && !(base == 500 && max == 30000);
            let bare = cfg.tls is None && (cfg.cluster.listen is Some || cfg.cluster.peers@.len()
                > 0 || set);
            let anonymous = cfg.server.daemon_id@.len() == 0;
            &&& cfg.fault() is None <==> !anonymous && !bare && cfg.limits.queue_depth >= 1
            &&& anonymous ==> cfg.fault() == Some(ConfigError::EmptyDaemonId)
            &&& !anonymous && bare ==> cfg.fault() == Some(ConfigError::TlsRequired)
            &&& !anonymous && !bare && cfg.limits.queue_depth == 0 ==> cfg.fault() == Some(
                ConfigError::ZeroQueueDepth,
            )
            &&& cfg.federated() <==> cfg.cluster.listen is Some || cfg.cluster.peers@.len() > 0
        }),
{
}

/// The sections of a file are valid exactly where the daemon has an id, queues hold
/// something, and there is TLS material wherever the `[cluster]` section gives
/// anything at all.
pub proof fn valid_sections(
    server: ServerConfig,
    limits: Limits,
    cluster: Option<ClusterSection>,
    material: Option<TlsConfig>,
)
    ensures
        ({
            let given = cluster is Some && (cluster->0.listen is Some || cluster->0.peers is Some
                || cluster->0.reconnect_base_ms is Some || cluster->0.reconnect_max_ms is Some);
            let bare = given && material is None;
            let anonymous = server.daemon_id@.len() == 0;
            let fault = config::sections_fault(server, limits, cluster, material);
            &&& fault is None <==> !anonymous && !bare && limits.queue_depth >= 1
            &&& anonymous ==> fault == Some(ConfigError::EmptyDaemonId)
            &&& !anonymous && bare ==> fault == Some(ConfigError::TlsRequired)
            &&& !anonymous && !bare && limits.queue_depth == 0 ==> fault == Some(
                ConfigError::ZeroQueueDepth,
            )
        }),
{
}

/// What a `[cluster]` section gives is what holds; what it leaves out is no listener,
/// no peer, a base of half a second and a ceiling of half a minute. Without the
/// section there is no federation, and no backoff.
pub proof fn cluster_settings_of_a_section(section: ClusterSection, c: ClusterConfig)
    ensures
        config::cluster_settings(Some(section), c) <==> {
            &&& c.listen == section.listen
            &&& section.peers is Some ==> c.peers@ == section.peers->0@
            &&& section.peers is None ==> c.peers@.len() == 0
            &&& section.reconnect_base_ms is Some ==> c.reconnect_base_ms
                == section.reconnect_base_ms->0
            &&& section.reconnect_base_ms is None ==> c.reconnect_base_ms == 500
            &&& section.reconnect_max_ms is Some ==> c.reconnect_max_ms
                == section.reconnect_max_ms->0
            &&& section.reconnect_max_ms is None ==> c.reconnect_max_ms == 30000
        },
        config::cluster_settings(None, c) <==> c.listen is None && c.peers@.len() == 0
            && c.reconnect_base_ms == 0 && c.reconnect_max_ms == 0,
{
    if c.peers@.len() == 0 {
        assert(c.peers@ =~= Seq::empty());
    }
}

/// The defaults, and the constants that others rely on.
pub proof fn default_settings()
    ensures
        config::DEFAULT_DAEMON_ID@ == "macro-busd"@,
        crate::DEFAULT_SOCKET_PATH@ == "/var/run/macro-bus.sock"@,
        crate::PROTOCOL_ID@ == "MBP/1.0"@,
        config::DEFAULT_MAX_MESSAGE_BYTES == 1048576,
        config::DEFAULT_MAX_COMMAND_LINE_BYTES == 4096,
        config::DEFAULT_MAX_BODY_LINE_BYTES == 65536,
        config::DEFAULT_QUEUE_DEPTH == 1024,
        config::DEFAULT_SEEN_CAPACITY == 65536,
        config::DEFAULT_RECONNECT_BASE_MS == 500,
        config::DEFAULT_RECONNECT_MAX_MS == 30000,
        crate::federation::MAX_GREETING == 4096,
        crate::server::SOCKET_MODE == 0o600,
{
}

/// A configuration that is put together has the sections that it was put together
/// from, and is valid; it is refused exactly where the sections are.
pub proof fn assembled_configuration_has_its_sections(
    server: ServerConfig,
    limits: Limits,
    cluster: Option<ClusterSection>,
    material: Option<TlsConfig>,
    r: Result<Config, ConfigError>,
)
    requires
        call_ensures(Config::assemble, (server, limits, cluster, material), r),
    ensures
        r is Ok <==> config::sections_fault(server, limits, cluster, material) is None,
        r is Err ==> config::sections_fault(server, limits, cluster, material) == Some(r->Err_0),
        r matches Ok(cfg) ==> {
            &&& cfg.server == server
            &&& cfg.limits == limits
            &&& cfg.tls == material
            &&& config::cluster_settings(cluster, cfg.cluster)
            &&& cfg.fault() is None
        },
{
}

/// Faults of a configuration in words.
pub proof fn config_errors_in_words()
    ensures
        ConfigError::EmptyDaemonId.text() == "server.daemon_id must not be empty"@,
        ConfigError::TlsRequired.text()
            == "cluster federation requires a [tls] section (cert/key/ca)"@,
        ConfigError::ZeroQueueDepth.text() == "limits.queue_depth must be >= 1"@,
{
}

// --- TLS material ----------------------------------------------------------------------------

/// Certificates are taken from a file exactly where it could be read, was parsed and
/// holds one at least; they are then all that it holds. Otherwise the error says
/// what is wrong with which file.
pub proof fn certificates_of_a_file(path: Seq<char>, data: Seq<u8>, why: Seq<char>)
    ensures
        tls::certs_of(path, Err(why)) == Err::<Seq<Seq<u8>>, Seq<char>>(
            "reading cert "@ + path + ": "@ + why,
        ),
        tls::certs_of(path, Ok(data)) == tls::certs_outcome(path, tls::pem_certs(data)),
        tls::certs_outcome(path, Err(why)) == Err::<Seq<Seq<u8>>, Seq<char>>(
            "parsing certs "@ + path + ": "@ + why,
        ),
        forall|certs: Seq<Seq<u8>>|
            certs.len() > 0 ==> #[trigger] tls::certs_outcome(path, Ok(certs)) == Ok::<
                Seq<Seq<u8>>,
                Seq<char>,
            >(certs),
        forall|certs: Seq<Seq<u8>>|
            certs.len() == 0 ==> #[trigger] tls::certs_outcome(path, Ok(certs)) == Err::<
                Seq<Seq<u8>>,
                Seq<char>,
            >("no certificates found in "@ + path),
{
}

/// A private key is taken from a file exactly where it could be read, was parsed and
/// holds one. Otherwise the error says what is wrong with which file.
pub proof fn private_key_of_a_file(path: Seq<char>, data: Seq<u8>, why: Seq<char>, key: KeyView)
    ensures
        tls::key_of(path, Err(why)) == Err::<KeyView, Seq<char>>(
            "reading key "@ + path + ": "@ + why,
        ),
        tls::key_of(path, Ok(data)) == tls::key_outcome(path, tls::pem_key(data)),
        tls::key_outcome(path, Err(why)) == Err::<KeyView, Seq<char>>(
            "parsing key "@ + path + ": "@ + why,
        ),
        tls::key_outcome(path, Ok(Some(key))) == Ok::<KeyView, Seq<char>>(key),
        tls::key_outcome(path, Ok(None)) == Err::<KeyView, Seq<char>>(
            "no private key found in "@ + path,
        ),
{
}

/// Certificates are trusted exactly where none of them is refused; otherwise the fault
/// is that of the first that is.
pub proof fn first_refused_anchor_is_the_fault(certs: Seq<Seq<u8>>)
    ensures
        tls::first_fault(certs) is None <==> forall|i: int|
            0 <= i < certs.len() ==> tls::anchor_fault(#[trigger] certs[i]) is None,
        tls::first_fault(certs) is Some ==> exists|i: int|
            0 <= i < certs.len() && tls::anchor_fault(#[trigger] certs[i]) == tls::first_fault(
                certs,
            ) && forall|j: int| 0 <= j < i ==> tls::anchor_fault(#[trigger] certs[j]) is None,
    decreases certs.len(),
{
    if certs.len() > 0 {
        let head = certs.drop_last();
        first_refused_anchor_is_the_fault(head);
        let last = certs.len() - 1;
        assert(forall|i: int| 0 <= i < last ==> head[i] == #[trigger] certs[i]);
        assert(certs[last] == certs.last());
        if tls::first_fault(head) is Some {
            let i = choose|i: int|
                0 <= i < head.len() && tls::anchor_fault(#[trigger] head[i]) == tls::first_fault(
                    head,
                ) && forall|j: int| 0 <= j < i ==> tls::anchor_fault(#[trigger] head[j]) is None;
            assert(tls::anchor_fault(certs[i]) == tls::first_fault(certs));
            assert forall|j: int| 0 <= j < i implies tls::anchor_fault(
                #[trigger] certs[j],
            ) is None by {
                assert(head[j] == certs[j]);
            }
        } else {
            assert forall|j: int| 0 <= j < last implies tls::anchor_fault(
                #[trigger] certs[j],
            ) is None by {
                assert(head[j] == certs[j]);
            }
            assert(tls::first_fault(certs) == tls::anchor_fault(certs[last]));
        }
    }
}

/// The trust anchors of a file are its certificates, all of them, in order, where none
/// is refused.
pub proof fn trust_anchors_of_a_file(path: Seq<char>, read: Result<Seq<u8>, Seq<char>>)
    ensures
        tls::certs_of(path, read) matches Err(e) ==> tls::roots_of(path, read) == Err::<
            Seq<Seq<u8>>,
            Seq<char>,
        >(e),
        tls::certs_of(path, read) matches Ok(certs) ==> {
            &&& tls::first_fault(certs) is None ==> tls::roots_of(path, read) == Ok::<
                Seq<Seq<u8>>,
                Seq<char>,
            >(certs)
            &&& tls::first_fault(certs) is Some ==> tls::roots_of(path, read) == Err::<
                Seq<Seq<u8>>,
                Seq<char>,
            >("adding CA cert from "@ + path + ": "@ + tls::first_fault(certs)->0)
        },
{
}

/// TLS material is the certificate chain, the key and the trust anchors, each from the
/// file that the configuration names for it, exactly where all three are in order;
/// otherwise the fault is that of the first that is not, in this order.
pub proof fn material_is_chain_key_and_anchors(cfg: TlsConfig, files: Files)
    ensures
        ({
            let certs = tls::certs_of(cfg.cert@, tls::file_view(files.cert));
            let key = tls::key_of(cfg.key@, tls::file_view(files.key));
            let roots = tls::roots_of(cfg.ca@, tls::file_view(files.ca));
            let all = tls::material_of(cfg, files);
            &&& all is Ok <==> certs is Ok && key is Ok && roots is Ok
            &&& all is Ok ==> all->Ok_0.certs == certs->Ok_0 && all->Ok_0.key == key->Ok_0
                && all->Ok_0.roots == roots->Ok_0 && all->Ok_0.certs.len() > 0
                && all->Ok_0.roots.len() > 0
            &&& certs is Err ==> all->Err_0 == certs->Err_0
            &&& certs is Ok && key is Err ==> all->Err_0 == key->Err_0
            &&& certs is Ok && key is Ok && roots is Err ==> all->Err_0 == roots->Err_0
        }),
{
}

/// What was built is handed on; what could not be built is told, with the reason.
pub proof fn built_configurations_are_handed_on(
    server: Result<TlsServer, BuildError>,
    client: Result<TlsClient, String>,
    s: Result<Arc<TlsServer>, String>,
    c: Result<Arc<TlsClient>, String>,
)
    requires
        call_ensures(tls::check_server, (server,), s),
        call_ensures(tls::check_client, (client,), c),
    ensures
        s is Ok <==> server is Ok,
        c is Ok <==> client is Ok,
        server matches Ok(cfg) ==> *s->Ok_0 == cfg,
        client matches Ok(cfg) ==> *c->Ok_0 == cfg,
        server matches Err(BuildError::Verifier(why)) ==> s->Err_0@
            == "building client verifier: "@ + why@,
        server matches Err(BuildError::Config(why)) ==> s->Err_0@
            == "building server tls config: "@ + why@,
        client matches Err(why) ==> c->Err_0@ == "building client tls config: "@ + why@,
{
}

/// Without TLS material there is no configuration, and the fault of the material is
/// the error.
pub proof fn no_configuration_without_material(
    cfg: &TlsConfig,
    files: &Files,
    s: Result<Arc<TlsServer>, String>,
    c: Result<Arc<TlsClient>, String>,
)
    requires
        call_ensures(tls::server_config, (cfg, files), s),
        call_ensures(tls::client_config, (cfg, files), c),
    ensures
        s is Ok || c is Ok ==> tls::material_of(*cfg, *files) is Ok,
        tls::material_of(*cfg, *files) matches Err(e) ==> s is Err && s->Err_0@ == e && c is Err
            && c->Err_0@ == e,
{
}

// --- the socket ----------------------------------------------------------------------------

/// Only a socket is removed before binding, and anything else that stands there is
/// refused; a directory that is named has to exist.
pub proof fn only_stale_sockets_are_removed(
    path: &str,
    found: Found,
    cleared: Result<bool, String>,
    parent: &str,
    exists_there: bool,
    checked: Result<(), String>,
)
    requires
        call_ensures(server::clear_path, (path, found), cleared),
        call_ensures(server::check_parent, (parent, exists_there), checked),
    ensures
        cleared is Ok <==> found != Found::Other,
        cleared matches Ok(remove) ==> (remove <==> found == Found::Socket),
        cleared matches Err(why) ==> why@ == "refusing to bind: "@ + path@
            + " exists and is not a socket"@,
        checked is Ok <==> exists_there || parent@.len() == 0,
        checked matches Err(why) ==> why@ == "socket directory "@ + parent@
            + " does not exist"@,
{
}

// --- the command line ----------------------------------------------------------------------------

/// The body lines of a text are what stands between its line feeds; a line feed at
/// the very end ends the last line and begins no other.
pub proof fn lines_of_a_text(s: Seq<char>)
    ensures
        cli::lines_of(s + seq!['\n']) == text::split(s, '\n'),
        s.len() > 0 && s.last() != '\n' ==> cli::lines_of(s) == text::split(s, '\n'),
        s.len() == 0 ==> cli::lines_of(s).len() == 0,
{
    let none = Seq::<char>::empty();
    text_laws::split_parts_at_each_separator(s, '\n', none);
    text_laws::split_parts_at_each_separator(none, '\n', none);
    assert(s + seq!['\n'] + none =~= s + seq!['\n']);
    let more = text::split(s + seq!['\n'], '\n');
    assert(more.last() == none);
    assert(more.drop_last() =~= text::split(s, '\n'));
    if s.len() > 0 && s.last() != '\n' {
        lemma_last_piece(s);
    }
    if s.len() == 0 {
        assert(s =~= none);
    }
}

/// A text that does not end with a line feed has a last line.
proof fn lemma_last_piece(s: Seq<char>)
    requires
        s.len() > 0,
        s.last() != '\n',
    ensures
        text::split(s, '\n').len() > 0,
        text::split(s, '\n').last().len() > 0,
    decreases s.len(),
{
    text::lemma_find(s, '\n');
    let k = text::find(s, '\n') as int;
    if k < s.len() {
        let tail = s.skip(k + 1);
        assert(tail.len() > 0 && tail.last() == s.last());
        lemma_last_piece(tail);
        let all = text::split(s, '\n');
        assert(all == seq![s.take(k)] + text::split(tail, '\n'));
        assert(all.last() == text::split(tail, '\n').last());
    }
}

/// A message is shown with a title and then its lines, all of them, in order; a drop
/// notice, a note and the end of the connection are told apart from messages; and
/// any other error ends the wait with it.
pub proof fn events_as_shown(
    m: crate::message::MessageView,
    msg_type: Seq<char>,
    count: u64,
    note: Seq<char>,
    e: ClientErrorView,
)
    ensures
        ({
            let s = cli::shown(Ok(EventView::Message(m)));
            &&& s.out.len() == 1 + m.body.len()
            &&& s.out[0] == "--- "@ + m.msg_type + " ["@ + m.msg_id + "] from "@ + m.origin
            &&& forall|i: int| 0 <= i < m.body.len() ==> s.out[i + 1] == #[trigger] m.body[i]
            &&& s.err.len() == 0
            &&& s.end is None
        }),
        ({
            let s = cli::shown(Ok(EventView::Drop { msg_type, count }));
            &&& s.out.len() == 0
            &&& s.err.len() == 1
            &&& s.err[0] == "[dropped "@ + number::decimal(count as nat) + " message(s) on "@
                + msg_type + " — consumer fell behind]"@
            &&& s.end is None
        }),
        ({
            let s = cli::shown(Ok(EventView::Note(note)));
            s.out.len() == 0 && s.err.len() == 1 && s.err[0] == "[note] "@ + note && s.end is None
        }),
        ({
            let s = cli::shown(Err(e));
            &&& s.out.len() == 0
            &&& e is Closed ==> s.err.len() == 1 && s.err[0] == "connection closed by daemon"@
                && s.end == Some(Ok::<(), ClientErrorView>(()))
            &&& !(e is Closed) ==> s.err.len() == 0 && s.end == Some(
                Err::<(), ClientErrorView>(e),
            )
        }),
{
}

/// Names are joined by a comma and a space, in order.
pub proof fn names_are_joined_in_order(names: Seq<Seq<char>>, name: Seq<char>)
    ensures
        cli::joined(seq![name]) == name,
        names.len() > 0 ==> cli::joined(names.push(name)) == cli::joined(names) + ", "@ + name,
        names.len() == 0 ==> cli::joined(names).len() == 0,
{
    assert(names.push(name).drop_last() =~= names);
}

/// What is shown once a command was granted.
pub proof fn grants_as_shown(
    msg_type: &str,
    lines: usize,
    types: &Vec<String>,
    daemon_id: &str,
    registered: String,
    published: String,
    subscribed: String,
)
    requires
        call_ensures(cli::registered_text, (msg_type,), registered),
        call_ensures(cli::published_text, (msg_type, lines), published),
        call_ensures(cli::subscribed_text, (types, daemon_id), subscribed),
    ensures
        registered@ == "registered "@ + msg_type@,
        published@ == "published to "@ + msg_type@ + " ("@ + number::decimal(lines as nat)
            + " line(s))"@,
        subscribed@ == "subscribed to ["@ + cli::joined(text::views(types@)) + "] on "@
            + daemon_id@ + " — waiting for messages (Ctrl-C to stop)"@,
{
}

} // verus!
