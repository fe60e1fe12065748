//! Settings: from the command line, else from the file, else the usual ones.
use vstd::prelude::*;
use vstd::string::*;
use crate::net::{IpAddr, SocketAddr};

verus! {

/// The network section of the file.
#[derive(Debug)]
pub struct NetworkConfig {
    pub tcp_addr: Option<SocketAddr>,
    pub udp_addr: Option<SocketAddr>,
    pub max_connections: Option<usize>,
    pub skip_nat: Option<bool>,
}

impl Default for NetworkConfig {
    fn default() -> (r: Self)
        ensures
            r == (NetworkConfig { tcp_addr: None, udp_addr: None, max_connections: None, skip_nat: None }),
    {
        NetworkConfig { tcp_addr: None, udp_addr: None, max_connections: None, skip_nat: None }
    }
}

/// The bootstrap section of the file.
#[derive(Debug)]
pub struct BootstrapConfig {
    pub seeds: Option<Vec<SocketAddr>>,
}

impl Default for BootstrapConfig {
    fn default() -> (r: Self)
        ensures
            r == (BootstrapConfig { seeds: None }),
    {
        BootstrapConfig { seeds: None }
    }
}

/// The node section of the file.
#[derive(Debug)]
pub struct NodeInfoConfig {
    /// A path.
    pub key_file: Option<String>,
    pub log_level: Option<String>,
}

impl Default for NodeInfoConfig {
    fn default() -> (r: Self)
        ensures
            r == (NodeInfoConfig { key_file: None, log_level: None }),
    {
        NodeInfoConfig { key_file: None, log_level: None }
    }
}

/// The file.
#[derive(Debug)]
pub struct ConfigFile {
    pub network: Option<NetworkConfig>,
    pub bootstrap: Option<BootstrapConfig>,
    pub node: Option<NodeInfoConfig>,
}

impl Default for ConfigFile {
    fn default() -> (r: Self)
        ensures
            r == (ConfigFile { network: None, bootstrap: None, node: None }),
    {
        ConfigFile { network: None, bootstrap: None, node: None }
    }
}

/// The settings that hold.
#[derive(Debug)]
pub struct ResolvedConfig {
    pub tcp_addr: SocketAddr,
    pub udp_addr: SocketAddr,
    /// A path.
    pub key_file: String,
    pub seeds: Vec<SocketAddr>,
    pub max_connections: usize,
    pub log_level: String,
    pub skip_nat: bool,
}

/// The first that is given, else the fallback.
pub open spec fn first_of<T>(a: Option<T>, b: Option<T>, fallback: T) -> T {
    match a {
        Some(x) => x,
        None => match b {
            Some(y) => y,
            None => fallback,
        },
    }
}

fn pick<T>(a: Option<T>, b: Option<T>, fallback: T) -> (r: T)
    ensures
        r == first_of(a, b, fallback),
{
    match a {
        Some(x) => x,
        None => match b {
            Some(y) => y,
            None => fallback,
        },
    }
}

impl ConfigFile {
    /// The network settings of the file.
    pub open spec fn network_part(self) -> NetworkConfig {
        match self.network {
            Some(n) => n,
            None => NetworkConfig { tcp_addr: None, udp_addr: None, max_connections: None, skip_nat: None },
        }
    }

    /// The seeds that the file names.
    pub open spec fn seeds_part(self) -> Option<Vec<SocketAddr>> {
        match self.bootstrap {
            Some(b) => b.seeds,
            None => None,
        }
    }

    /// The node settings of the file.
    pub open spec fn node_part(self) -> NodeInfoConfig {
        match self.node {
            Some(n) => n,
            None => NodeInfoConfig { key_file: None, log_level: None },
        }
    }
}

/// A text that may be given in two places, as its characters.
pub open spec fn text_of(a: Option<String>, b: Option<String>, fallback: Seq<char>) -> Seq<char> {
    match a {
        Some(x) => x@,
        None => match b {
            Some(y) => y@,
            None => fallback,
        },
    }
}

impl ResolvedConfig {
    /// What is given on the command line goes before what the file says, and that before
    /// the usual settings. The switch that skips the look for address translators is on if
    /// either turns it on.
    pub fn merge(
        cli_tcp: Option<SocketAddr>,
        cli_udp: Option<SocketAddr>,
        cli_key: Option<String>,
        cli_seeds: Option<Vec<SocketAddr>>,
        cli_max_conn: Option<usize>,
        cli_log: Option<String>,
        cli_skip_nat: bool,
        file: ConfigFile,
    ) -> (r: Self)
        ensures
            r.tcp_addr == first_of(cli_tcp, file.network_part().tcp_addr, SocketAddr::spec_new(IpAddr::V4(0), 9741)),
            r.udp_addr == first_of(cli_udp, file.network_part().udp_addr, SocketAddr::spec_new(IpAddr::V4(0), 9742)),
            r.key_file@ == text_of(cli_key, file.node_part().key_file, "identity.key"@),
            match (cli_seeds, file.seeds_part()) {
                (Some(s), _) => r.seeds == s,
                (None, Some(s)) => r.seeds == s,
                (None, None) => r.seeds@.len() == 0,
            },
            r.max_connections == first_of(cli_max_conn, file.network_part().max_connections, 1024),
            r.log_level@ == text_of(cli_log, file.node_part().log_level, "info"@),
            r.skip_nat == (cli_skip_nat || file.network_part().skip_nat == Some(true)),
    {
        let network = match file.network {
            Some(n) => n,
            None => NetworkConfig::default(),
        };
        let bootstrap = match file.bootstrap {
            Some(b) => b,
            None => BootstrapConfig::default(),
        };
        let node = match file.node {
            Some(n) => n,
            None => NodeInfoConfig::default(),
        };
        let tcp_addr = pick(cli_tcp, network.tcp_addr, SocketAddr::new(IpAddr::V4(0), 9741));
        let udp_addr = pick(cli_udp, network.udp_addr, SocketAddr::new(IpAddr::V4(0), 9742));
        let key_file = pick(cli_key, node.key_file, String::from_str("identity.key"));
        let seeds = pick(cli_seeds, bootstrap.seeds, Vec::new());
        let max_connections: usize = pick(cli_max_conn, network.max_connections, 1024);
        let log_level = pick(cli_log, node.log_level, String::from_str("info"));
        let skip_nat = if cli_skip_nat {
            true
        } else {
            match network.skip_nat {
                Some(b) => b,
                None => false,
            }
        };
        ResolvedConfig { tcp_addr, udp_addr, key_file, seeds, max_connections, log_level, skip_nat }
    }
}

/// What is given on the command line goes before what the file says, and that before what holds
/// where nothing is said.
pub proof fn law_command_line_goes_first(
    x: usize,
    y: Option<usize>,
    fallback: usize,
    a: SocketAddr,
    b: Option<SocketAddr>,
    rest: SocketAddr,
)
    ensures
        first_of(Some(x), y, fallback) == x,
        y is Some ==> first_of(None, y, fallback) == y->0,
        first_of(None, None, fallback) == fallback,
        first_of(Some(a), b, rest) == a,
        b is Some ==> first_of(None, b, rest) == b->0,
        first_of(None, None, rest) == rest,
{
}

/// So it is with texts.
pub proof fn law_texts_on_the_command_line_go_first(x: String, y: Option<String>, fallback: Seq<char>)
    ensures
        text_of(Some(x), y, fallback) == x@,
        y is Some ==> text_of(None, y, fallback) == y->0@,
        text_of(None, None, fallback) == fallback,
{
}

/// A part that the file leaves out says nothing.
pub proof fn law_parts_of_the_file(file: ConfigFile)
    ensures
        file.network is Some ==> file.network_part() == file.network->0,
        file.network is None ==> file.network_part().tcp_addr is None && file.network_part().udp_addr is None
            && file.network_part().max_connections is None && file.network_part().skip_nat is None,
        file.bootstrap is Some ==> file.seeds_part() == file.bootstrap->0.seeds,
        file.bootstrap is None ==> file.seeds_part() is None,
        file.node is Some ==> file.node_part() == file.node->0,
        file.node is None ==> file.node_part().key_file is None && file.node_part().log_level is None,
{
}

/// What the node goes by: what the command line says, else what the file says, else the ports 9741
/// and 9742 on all addresses, 1024 connections and no seeds. The search for a translator is left
/// out if either of the two says so.
pub proof fn law_what_the_node_goes_by(
    tcp: Option<SocketAddr>,
    udp: Option<SocketAddr>,
    key: Option<String>,
    seeds: Option<Vec<SocketAddr>>,
    max: Option<usize>,
    log: Option<String>,
    skip: bool,
    file: ConfigFile,
    r: ResolvedConfig,
)
    requires
        call_ensures(ResolvedConfig::merge, (tcp, udp, key, seeds, max, log, skip, file), r),
    ensures
        tcp is Some ==> r.tcp_addr == tcp->0,
        tcp is None && file.network is Some && file.network->0.tcp_addr is Some ==> r.tcp_addr == file.network->0.tcp_addr->0,
        tcp is None && file.network is None ==> r.tcp_addr.ip == IpAddr::V4(0) && r.tcp_addr.port == 9741,
        udp is Some ==> r.udp_addr == udp->0,
        udp is None && file.network is Some && file.network->0.udp_addr is Some ==> r.udp_addr == file.network->0.udp_addr->0,
        udp is None && file.network is None ==> r.udp_addr.ip == IpAddr::V4(0) && r.udp_addr.port == 9742,
        key is Some ==> r.key_file@ == key->0@,
        key is None && file.node is Some && file.node->0.key_file is Some ==> r.key_file@ == file.node->0.key_file->0@,
        key is None && file.node is None ==> r.key_file@ == "identity.key"@,
        seeds is Some ==> r.seeds == seeds->0,
        seeds is None && file.bootstrap is Some && file.bootstrap->0.seeds is Some ==> r.seeds == file.bootstrap->0.seeds->0,
        seeds is None && file.bootstrap is None ==> r.seeds@.len() == 0,
        max is Some ==> r.max_connections == max->0,
        max is None && file.network is Some && file.network->0.max_connections is Some ==> r.max_connections
            == file.network->0.max_connections->0,
        max is None && file.network is None ==> r.max_connections == 1024,
        log is Some ==> r.log_level@ == log->0@,
        log is None && file.node is Some && file.node->0.log_level is Some ==> r.log_level@ == file.node->0.log_level->0@,
        log is None && file.node is None ==> r.log_level@ == "info"@,
        skip ==> r.skip_nat,
        !skip && file.network is None ==> !r.skip_nat,
        !skip && file.network is Some ==> r.skip_nat == (file.network->0.skip_nat == Some(true)),
{
}

} // verus!
