//! Process-wide node configuration, shared between all libraries.

use vstd::prelude::*;
use crate::ids::generate_library_id;

verus! {

/// The name of the file which stores the node configuration inside the data
/// directory.
pub fn node_state_config_name() -> (r: String)
    ensures
        r@ == "node_state.sdconfig"@,
{
    let mut r = String::new();
    r.append("node_state.sdconfig");
    r
}

/// The configuration of this node, persisted as one small file in the data
/// directory. The node's p2p keypair is owned by the peer-transport
/// subsystem and is kept beside this record by the driver.
#[derive(Debug)]
pub struct NodeConfig {
    /// The node's globally unique identifier, stable across restarts.
    pub id: u128,
    /// The display name of this node, shown in the UI.
    pub name: String,
    /// The port used for peer-to-peer communication; `None` picks a random
    /// free port at startup.
    pub p2p_port: Option<u32>,
    pub p2p_email: Option<String>,
    pub p2p_img_url: Option<String>,
}

/// Relies on `hostname::get`: the machine's hostname, which depends on the
/// environment, so nothing is promised of the value.
#[verifier::external_body]
fn machine_hostname() -> (r: Option<String>) {
    match hostname::get() {
        Ok(h) => Some(h.to_string_lossy().into_owned()),
        Err(_) => None,
    }
}

/// The display name a fresh node starts with: the machine's hostname, or a
/// fixed fallback when it cannot be read.
pub fn default_node_name() -> (r: String) {
    match machine_hostname() {
        Some(h) => h,
        None => {
            let mut r = String::new();
            r.append("my-spacedrive");
            r
        },
    }
}

impl NodeConfig {
    /// A fresh configuration: a newly generated id, the machine's hostname
    /// as display name, and no p2p settings yet.
    pub fn generate() -> (r: NodeConfig)
        ensures
            r.p2p_port is None,
            r.p2p_email is None,
            r.p2p_img_url is None,
    {
        NodeConfig {
            id: generate_library_id(),
            name: default_node_name(),
            p2p_port: None,
            p2p_email: None,
            p2p_img_url: None,
        }
    }

    /// An owned copy with the same contents.
    pub fn duplicate(&self) -> (r: NodeConfig)
        ensures
            r.id == self.id,
            r.name@ == self.name@,
            r.p2p_port == self.p2p_port,
    {
        NodeConfig {
            id: self.id,
            name: self.name.clone(),
            p2p_port: self.p2p_port,
            p2p_email: match &self.p2p_email {
                Some(e) => Some(e.clone()),
                None => None,
            },
            p2p_img_url: match &self.p2p_img_url {
                Some(u) => Some(u.clone()),
                None => None,
            },
        }
    }
}

/// Holds the current node configuration and the path of the data directory
/// it is persisted in; the driver's lock around it serialises updates.
#[derive(Debug)]
pub struct NodeConfigManager {
    pub config: NodeConfig,
    pub data_path: String,
}

impl NodeConfigManager {
    /// A manager over a loaded (migrated) configuration.
    pub fn new(config: NodeConfig, data_path: String) -> (r: NodeConfigManager)
        ensures
            r.config == config,
            r.data_path@ == data_path@,
    {
        NodeConfigManager { config, data_path }
    }

    /// A copy of the current configuration.
    pub fn get(&self) -> (r: NodeConfig)
        ensures
            r.id == self.config.id,
            r.name@ == self.config.name@,
            r.p2p_port == self.config.p2p_port,
    {
        self.config.duplicate()
    }

    /// The directory the configuration data lives in.
    pub fn data_directory(&self) -> (r: String)
        ensures
            r@ == self.data_path@,
    {
        self.data_path.clone()
    }

    /// Replaces the configuration and returns a copy for the caller to
    /// persist.
    pub fn write(&mut self, config: NodeConfig) -> (r: NodeConfig)
        ensures
            final(self).config == config,
            final(self).data_path == old(self).data_path,
            r.id == config.id,
            r.name@ == config.name@,
            r.p2p_port == config.p2p_port,
    {
        self.config = config;
        self.config.duplicate()
    }
}

} // verus!
