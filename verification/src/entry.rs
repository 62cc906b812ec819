//! One discovered directory: its path, its size once measured, and its status.

use vstd::prelude::*;

use crate::format::{format_size, size_text};
use crate::status::DirStatus;

verus! {

/// One row of the results, as the contracts see it.
pub struct DiscoveredEntry {
    pub path: Seq<char>,
    pub bytes: Option<u64>,
    pub status: DirStatus,
}

impl DiscoveredEntry {
    /// An entry has a size exactly when it has been measured.
    pub open spec fn wf(self) -> bool {
        self.status.measured() <==> self.bytes is Some
    }

    /// The entry made for a path that was just discovered.
    pub open spec fn loading(path: Seq<char>) -> DiscoveredEntry {
        DiscoveredEntry { path, bytes: None, status: DirStatus::Loading }
    }

    /// `Loading` becomes `Ready` with the measured size; any other entry stays.
    pub open spec fn with_size(self, bytes: u64) -> DiscoveredEntry {
        if self.status is Loading {
            DiscoveredEntry { bytes: Some(bytes), status: DirStatus::Ready, ..self }
        } else {
            self
        }
    }

    /// `Loading` becomes `Error`; any other entry stays.
    pub open spec fn failed(self) -> DiscoveredEntry {
        if self.status is Loading {
            DiscoveredEntry { status: DirStatus::Error, ..self }
        } else {
            self
        }
    }

    /// `Ready` becomes `Deleting`; any other entry stays.
    pub open spec fn removing(self) -> DiscoveredEntry {
        if self.status is Ready {
            DiscoveredEntry { status: DirStatus::Deleting, ..self }
        } else {
            self
        }
    }

    /// `Deleting` becomes `Deleted`; any other entry stays.
    pub open spec fn removed(self) -> DiscoveredEntry {
        if self.status is Deleting {
            DiscoveredEntry { status: DirStatus::Deleted, ..self }
        } else {
            self
        }
    }

    /// The bytes that `removed` sets free: the size of an entry that is being
    /// deleted, nothing for any other.
    pub open spec fn released(self) -> u64 {
        match self.bytes {
            Some(bytes) if self.status is Deleting => bytes,
            _ => 0,
        }
    }

    /// What the entry adds to the total of measured bytes.
    pub open spec fn contribution(self) -> nat {
        match self.bytes {
            Some(bytes) if self.status is Ready => bytes as nat,
            _ => 0,
        }
    }

    /// The size as shown in a row: two underscores until it is known.
    pub open spec fn size_label(self) -> Seq<char> {
        match self.bytes {
            Some(bytes) => size_text(bytes),
            None => "__"@,
        }
    }
}

/// A discovered `node_modules` directory with what is known of its size.
pub struct NodeModulePath {
    bytes: Option<u64>,
    path: String,
    status: DirStatus,
}

impl View for NodeModulePath {
    type V = DiscoveredEntry;

    closed spec fn view(&self) -> DiscoveredEntry {
        DiscoveredEntry { path: self.path@, bytes: self.bytes, status: self.status }
    }
}

impl Clone for NodeModulePath {
    fn clone(&self) -> (copy: NodeModulePath)
        ensures
            copy@ == self@,
    {
        NodeModulePath { bytes: self.bytes, path: self.path.clone(), status: self.status }
    }
}

impl NodeModulePath {
    pub fn new(path: String) -> (entry: NodeModulePath)
        ensures
            entry@ == DiscoveredEntry::loading(path@),
            entry@.wf(),
    {
        NodeModulePath { bytes: None, path, status: DirStatus::Loading }
    }

    /// Records the measured size of an entry that is still loading.
    pub fn update_size(&mut self, byte: u64)
        ensures
            final(self)@ == old(self)@.with_size(byte),
            old(self)@.wf() ==> final(self)@.wf(),
    {
        if let DirStatus::Loading = self.status {
            self.bytes = Some(byte);
            self.status = DirStatus::Ready;
        }
    }

    /// Marks an entry that is still loading as failed.
    pub fn error(&mut self)
        ensures
            final(self)@ == old(self)@.failed(),
            old(self)@.wf() ==> final(self)@.wf(),
    {
        if let DirStatus::Loading = self.status {
            self.status = DirStatus::Error;
        }
    }

    /// Starts the deletion of a measured entry.
    pub fn deleting(&mut self)
        ensures
            final(self)@ == old(self)@.removing(),
            old(self)@.wf() ==> final(self)@.wf(),
    {
        if let DirStatus::Ready = self.status {
            self.status = DirStatus::Deleting;
        }
    }

    /// Ends the deletion of an entry and returns the bytes set free.
    pub fn deleted(&mut self) -> (freed: u64)
        ensures
            final(self)@ == old(self)@.removed(),
            freed == old(self)@.released(),
            old(self)@.wf() ==> final(self)@.wf(),
    {
        if let DirStatus::Deleting = self.status {
            self.status = DirStatus::Deleted;
            match self.bytes {
                Some(value) => value,
                None => 0,
            }
        } else {
            0
        }
    }

    /// The size as shown in a row.
    pub fn get_size(&self) -> (text: String)
        ensures
            text@ == self@.size_label(),
    {
        match self.bytes {
            Some(bytes) => format_size(bytes),
            None => "__".to_owned(),
        }
    }

    pub fn path(&self) -> (path: &String)
        ensures
            path@ == self@.path,
    {
        &self.path
    }

    pub fn bytes(&self) -> (bytes: Option<u64>)
        ensures
            bytes == self@.bytes,
    {
        self.bytes
    }

    pub fn status(&self) -> (status: DirStatus)
        ensures
            status == self@.status,
    {
        self.status
    }
}

} // verus!
