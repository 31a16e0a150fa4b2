//! Which node the program reads the chain from.
use vstd::prelude::*;

verus! {

/// The node configuration: whether to use the local node, and the URLs of
/// the Alchemy and local nodes where given.
pub struct Config {
    pub use_local_node: bool,
    pub alchemy_url: Option<String>,
    pub local_node_url: Option<String>,
}

impl Config {
    /// A configuration with the given settings.
    pub fn new(use_local_node: bool, alchemy_url: Option<String>, local_node_url: Option<String>) -> (r:
        Config)
        ensures
            r.use_local_node == use_local_node,
            r.alchemy_url == alchemy_url,
            r.local_node_url == local_node_url,
    {
        Config { use_local_node, alchemy_url, local_node_url }
    }
}

} // verus!
