//! The parts of a group message that a complaint about it refers to.
use vstd::prelude::*;

verus! {

/// A ciphertext under a public key.
#[derive(Debug)]
pub struct HPKECiphertext {
    /// Encapsulated key: the sender's ephemeral public key.
    pub kem_output: Vec<u8>,
    /// The encrypted bytes.
    pub ciphertext: Vec<u8>,
}

/// What a commit sends for one node of the committer's direct path.
#[derive(Debug)]
pub struct DirectPathNode {
    /// The path secret of the node, encrypted for each receiver below the node.
    pub encrypted_path_secret: Vec<HPKECiphertext>,
}

/// New secrets along the direct path of the committer, from the lowest parent up.
#[derive(Debug)]
pub struct DirectPath {
    pub nodes: Vec<DirectPathNode>,
}

/// A commit. Only one that removes or updates a member comes with a path.
#[derive(Debug)]
pub struct Commit {
    pub path: Option<DirectPath>,
}

/// A signed handshake message.
#[derive(Debug)]
pub struct MLSPlaintext {
    /// Leaf of the sender.
    pub sender: u32,
    /// The commit, if the message carries one.
    pub commit: Option<Commit>,
    /// The whole message as it was sent.
    pub encoding: Vec<u8>,
}

impl MLSPlaintext {
    /// The path that the message carries, if any.
    pub open spec fn path(self) -> Option<DirectPath> {
        match self.commit {
            Some(commit) => commit.path,
            None => None,
        }
    }

    /// The commit that the message carries, if any.
    pub fn get_commit(&self) -> (commit: Option<&Commit>)
        ensures
            match commit {
                Some(commit) => self.commit == Some(*commit),
                None => self.commit is None,
            },
    {
        self.commit.as_ref()
    }
}

} // verus!
