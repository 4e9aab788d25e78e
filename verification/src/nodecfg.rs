//! Configuration of a full node.
use vstd::prelude::*;

verus! {

/// Configuration of a full node.
#[derive(Clone, Debug)]
pub struct NodeConfig {
    /// Port of the HTTP interface.
    pub api_port: u16,
    /// Port of the peer network.
    pub p2p_port: u16,
    /// Address to listen on.
    pub bind_address: String,
    /// Directory the node stores its data under.
    pub data_dir: String,
    /// Addresses of the first peers to contact.
    pub bootstrap_nodes: Vec<String>,
    /// Whether debug output is enabled.
    pub debug: bool,
}

impl Default for NodeConfig {
    /// The default configuration: interface on 8080, peers on 9000,
    /// listening everywhere, data under ./data, no bootstrap peers, debug
    /// off.
    fn default() -> (r: Self)
        ensures
            r.api_port == 8080,
            r.p2p_port == 9000,
            r.bootstrap_nodes@.len() == 0,
            r.debug == false,
    {
        NodeConfig {
            api_port: 8080,
            p2p_port: 9000,
            bind_address: "0.0.0.0".to_owned(),
            data_dir: "./data".to_owned(),
            bootstrap_nodes: Vec::new(),
            debug: false,
        }
    }
}

} // verus!
