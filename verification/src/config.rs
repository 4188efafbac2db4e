//! Node configuration as plain data. Loading it from a file is I/O and
//! lives outside the verified library; the values themselves, and what a
//! fresh configuration holds, are specified here.

use vstd::prelude::*;

verus! {

/// The settings a node runs under.
pub struct NodeConfig {
    pub chain_name: String,
    pub version: String,
    pub db_path: String,
    pub node_role: String,
    pub server_port: u16,
}

impl NodeConfig {
    /// A configuration from explicit values.
    pub fn new(
        chain_name: String,
        version: String,
        db_path: String,
        node_role: String,
        server_port: u16,
    ) -> (c: NodeConfig)
        ensures
            c.chain_name@ == chain_name@,
            c.version@ == version@,
            c.db_path@ == db_path@,
            c.node_role@ == node_role@,
            c.server_port == server_port,
    {
        NodeConfig { chain_name, version, db_path, node_role, server_port }
    }
}

} // verus!
