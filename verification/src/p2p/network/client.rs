//! The node as its users see it.
use crate::error::{outcome, Failure, GuardianError};
use crate::p2p::messaging::one_on_one_channel::{channel_id, channel_id_of};
use crate::p2p::network::backend::blobs::BlobStore;
use crate::p2p::network::backend::data_directory;
use crate::p2p::network::backend::docs::WillowDocs;
use crate::p2p::network::config::{
    config_fault, default_config, development_config, production_config, testing_config,
    ClientConfig, ConfigModel,
};
use crate::p2p::node::NodeId;
use crate::text;
use vstd::prelude::*;

verus! {

/// A node that was set up, with its documents and contents once they are there.
#[derive(Debug)]
pub struct IrohClient {
    config: ClientConfig,
    node_id: NodeId,
    docs: Option<WillowDocs>,
    blobs: Option<BlobStore>,
}

/// Why no node can be set up with a configuration, if so.
pub open spec fn setup_fault(config: ConfigModel) -> Option<Seq<char>> {
    match config_fault(config) {
        Some(fault) => Some("Invalid configuration: "@ + fault),
        None => match config.data_store_path {
            Some(_) => None,
            None => Some("Data directory not configured for the Iroh backend"@),
        },
    }
}

/// Whether setting up a node with a configuration gives a result: a node whose contents are
/// there and can be fetched from the network, and whose documents are not there yet.
pub open spec fn sets_up(
    config: ConfigModel,
    node: Seq<u8>,
    r: Result<IrohClient, GuardianError>,
) -> bool {
    match setup_fault(config) {
        None => {
            &&& r is Ok
            &&& r->Ok_0.settings()@ == config
            &&& r->Ok_0.own() == node
            &&& r->Ok_0.contents() is Some
            &&& r->Ok_0.contents()->0.networked()
            &&& r->Ok_0.documents() is None
        },
        Some(fault) => outcome(r) == Err::<IrohClient, Failure>(Failure::Other(fault)),
    }
}

impl IrohClient {
    /// What the node was set up with.
    pub closed spec fn settings(self) -> ClientConfig {
        self.config
    }

    /// The node itself.
    pub closed spec fn own(self) -> Seq<u8> {
        self.node_id@
    }

    /// The node's documents, if they are there.
    pub closed spec fn documents(self) -> Option<WillowDocs> {
        self.docs
    }

    /// The node's contents, if they are there.
    pub closed spec fn contents(self) -> Option<BlobStore> {
        self.blobs
    }

    /// A node with a valid configuration.
    pub fn new(config: ClientConfig, node_id: NodeId) -> (r: Result<IrohClient, GuardianError>)
        ensures
            sets_up(config@, node_id@, r),
    {
        match config.validate() {
            Ok(_) => {},
            Err(fault) => {
                return Err(
                    GuardianError::Other(text::join2("Invalid configuration: ", fault.as_str())),
                );
            },
        }
        match data_directory(&config) {
            Ok(_) => {},
            Err(e) => {
                return Err(e);
            },
        }
        let mut client: IrohClient = IrohClient { config, node_id, docs: None, blobs: None };
        client.init_blobs(true);
        Ok(client)
    }

    /// A node with the default configuration.
    pub fn default(node_id: NodeId) -> (r: Result<IrohClient, GuardianError>)
        ensures
            sets_up(default_config(), node_id@, r),
    {
        Self::new(ClientConfig::default(), node_id)
    }

    /// A node for development.
    pub fn development(node_id: NodeId) -> (r: Result<IrohClient, GuardianError>)
        ensures
            sets_up(development_config(), node_id@, r),
    {
        Self::new(ClientConfig::development(), node_id)
    }

    /// A node for production.
    pub fn production(node_id: NodeId) -> (r: Result<IrohClient, GuardianError>)
        ensures
            sets_up(production_config(), node_id@, r),
    {
        Self::new(ClientConfig::production(), node_id)
    }

    /// A node for tests. It has no directory, and so cannot be set up.
    pub fn testing(node_id: NodeId) -> (r: Result<IrohClient, GuardianError>)
        ensures
            sets_up(testing_config(), node_id@, r),
    {
        Self::new(ClientConfig::testing(), node_id)
    }

    /// A node that others set up, with the default configuration.
    pub fn new_with_backend(node_id: NodeId) -> (r: IrohClient)
        ensures
            r.settings()@ == default_config(),
            r.own() == node_id@,
            r.documents() is None,
            r.contents() is None,
    {
        IrohClient { config: ClientConfig::default(), node_id, docs: None, blobs: None }
    }

    /// The name of the channel with a peer.
    pub fn get_channel_id(&self, other_peer: &NodeId) -> (r: String)
        ensures
            r@ == channel_id(self.own(), other_peer@),
    {
        channel_id_of(&self.node_id, other_peer)
    }

    /// What the node was set up with.
    pub fn config(&self) -> (r: &ClientConfig)
        ensures
            *r == self.settings(),
    {
        &self.config
    }

    /// The node itself.
    pub fn node_id(&self) -> (r: NodeId)
        ensures
            r@ == self.own(),
    {
        self.node_id
    }

    /// Takes the node's documents up, once they have their author. This may be done again.
    pub fn init_docs(&mut self, docs: WillowDocs)
        ensures
            final(self).documents() == Some(docs),
            final(self).contents() == old(self).contents(),
            final(self).settings() == old(self).settings(),
            final(self).own() == old(self).own(),
    {
        self.docs = Some(docs);
    }

    /// The node's documents, if they are there.
    pub fn docs_client(&self) -> (r: Option<&WillowDocs>)
        ensures
            match self.documents() {
                Some(docs) => r is Some && *r->0 == docs,
                None => r is None,
            },
    {
        self.docs.as_ref()
    }

    /// Whether the node's documents are there.
    pub fn has_docs_client(&self) -> (r: bool)
        ensures
            r == self.documents() is Some,
    {
        self.docs.is_some()
    }

    /// Takes the node's contents up; with an endpoint they can be fetched from the network.
    /// This may be done again.
    pub fn init_blobs(&mut self, has_endpoint: bool)
        ensures
            final(self).contents() is Some,
            final(self).contents()->0.networked() == has_endpoint,
            final(self).documents() == old(self).documents(),
            final(self).settings() == old(self).settings(),
            final(self).own() == old(self).own(),
    {
        let blobs: BlobStore = if has_endpoint {
            BlobStore::new_with_endpoint()
        } else {
            BlobStore::new()
        };
        self.blobs = Some(blobs);
    }

    /// The node's contents, if they are there.
    pub fn blobs_client(&self) -> (r: Option<&BlobStore>)
        ensures
            match self.contents() {
                Some(blobs) => r is Some && *r->0 == blobs,
                None => r is None,
            },
    {
        self.blobs.as_ref()
    }

    /// Whether the node's contents are there.
    pub fn has_blobs_client(&self) -> (r: bool)
        ensures
            r == self.contents() is Some,
    {
        self.blobs.is_some()
    }
}

} // verus!
