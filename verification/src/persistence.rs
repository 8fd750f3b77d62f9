//! Where the link topology is persisted across restarts of the hub and of
//! the applications.

use vstd::prelude::*;
use crate::graph::links_view;
use crate::protocol::{LinkInfo, LinkInfoView};

verus! {

/// The persisted form of the link registry.
#[derive(Debug)]
pub struct RegistrySnapshot {
    pub links: Vec<LinkInfo>,
}

impl RegistrySnapshot {
    /// A snapshot holding `links`.
    pub fn new(links: Vec<LinkInfo>) -> (s: RegistrySnapshot)
        ensures
            links_view(s.links@) == links_view(links@),
    {
        RegistrySnapshot { links }
    }

    /// The links of the snapshot.
    pub fn into_links(self) -> (links: Vec<LinkInfo>)
        ensures
            links_view(links@) == links_view(self.links@),
    {
        self.links
    }
}

impl Default for RegistrySnapshot {
    /// An empty snapshot.
    fn default() -> (s: RegistrySnapshot)
        ensures
            links_view(s.links@) == Seq::<LinkInfoView>::empty(),
    {
        let s = RegistrySnapshot { links: Vec::new() };
        assert(links_view(s.links@) =~= Seq::<LinkInfoView>::empty());
        s
    }
}

/// Persistence of link topologies: names the file the registry is kept in.
#[derive(Debug)]
pub struct LinkStore {
    storage_path: String,
}

impl LinkStore {
    /// A store kept at `path`.
    pub fn new(path: &str) -> (store: LinkStore)
        ensures
            store.storage_path()@ == path@,
    {
        LinkStore { storage_path: path.to_owned() }
    }

    /// The path of the registry file.
    pub closed spec fn storage_path(&self) -> String {
        self.storage_path
    }

    /// The path of the registry file.
    pub fn path(&self) -> (p: &str)
        ensures
            p@ == self.storage_path()@,
    {
        self.storage_path.as_str()
    }
}

} // verus!
