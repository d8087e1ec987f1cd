//! Core logic of a seed node for a peer-to-peer code-collaboration network.
//!
//! A seed keeps a local store synchronized with a changing set of remote
//! projects and classifies every locally held project as tracked (merely
//! replicated) or contributed (locally advanced).  This crate holds the
//! verified core: the tracking work-queue scheduler with its retry policy,
//! the project classifier with its partial-failure accounting, and the
//! parsing of bootstrap peer lists.  Networked peers, key files and process
//! plumbing live outside, and hand these functions plain values.

pub mod bootstrap;
pub mod config;
pub mod project;
pub mod scheduler;

use vstd::prelude::*;

verus! {

/// Identity of a network participant, derived from its public key.
#[derive(Debug)]
pub struct PeerId {
    /// Canonical textual form of the identity.
    pub id: String,
}

impl PeerId {
    /// Wrap the textual form of a peer identity.
    pub fn new(id: String) -> (r: PeerId)
        ensures
            r.id == id,
    {
        PeerId { id }
    }
}

/// Globally unique identifier of a project.
#[derive(Debug)]
pub struct Urn {
    /// Canonical textual form of the identifier.
    pub id: String,
}

impl Urn {
    /// Wrap the textual form of a project identifier.
    pub fn new(id: String) -> (r: Urn)
        ensures
            r.id == id,
    {
        Urn { id }
    }
}

impl Clone for Urn {
    fn clone(&self) -> (r: Self)
        ensures
            r == *self,
    {
        Urn { id: self.id.clone() }
    }
}

impl View for Urn {
    type V = Seq<char>;

    open spec fn view(&self) -> Seq<char> {
        self.id@
    }
}

impl PartialEq for Urn {
    fn eq(&self, other: &Self) -> (r: bool) {
        self.id == other.id
    }
}

impl vstd::std_specs::cmp::PartialEqSpecImpl for Urn {
    open spec fn obeys_eq_spec() -> bool {
        true
    }

    open spec fn eq_spec(&self, other: &Urn) -> bool {
        self.id@ == other.id@
    }
}

/// Everything the seed process is configured with, as plain values: the
/// CLI and key layers fill it, the orchestration reads it.
pub struct Options {
    /// Root of the persisted profile and key storage.
    pub rad_home: String,
    /// Path of the secret key file.
    pub key_path: String,
    /// Bootstrap peers to connect to at startup.
    pub bootstrap: Vec<bootstrap::BootstrapPeer>,
    /// Host the peer listens on.
    pub listen_host: String,
    /// Port the peer listens on.
    pub listen_port: u16,
    /// Projects that seed the initial tracking queue.
    pub projects: Vec<Urn>,
}

} // verus!
