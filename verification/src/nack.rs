//! Complaints about a commit, and their verification.
//!
//! The member that sends a commit may put bogus ciphertext into it, which keeps the members
//! on the affected path from the new state of the group. An affected member then reveals the
//! shared secret under which its path secret was sent, together with a proof that the secret
//! is the right one. Any other member can decrypt the path secret with it and see whether the
//! update was bad.
use crate::codec::{encode_digest, encode_u32};
use crate::constant_time::ct_eq;
use crate::message::{HPKECiphertext, MLSPlaintext};
use crate::secret::PathSecret;
use crate::tree::{CipherSuite, KeyPackage, TreePublicKey};
use crate::tree_math::{LeafSize, ParentSize};
use vstd::prelude::*;

verus! {

/// A time at which certificates are checked.
pub type Timespec = u64;

/// Proof that the disclosed shared secret belongs to a public key and to an encapsulated key.
/// It is held as its SCALE encoding.
#[derive(Debug)]
pub struct NackDleqProof {
    pub encoded: Vec<u8>,
}

/// What a complaint says.
#[derive(Debug)]
pub struct NackMsgContent {
    /// The leaf that complains: the affected receiver of the commit.
    pub sender: u32,
    /// SHA-2 hash of the message that carries the commit.
    pub commit_id: [u8; 32],
    /// Which of the encrypted path secrets is affected.
    pub path_secret_index: u32,
    /// Proof with the disclosed shared secret.
    pub proof: NackDleqProof,
}

/// A signed complaint.
#[derive(Debug)]
pub struct NackMsg {
    pub content: NackMsgContent,
    /// ECDSA signature over the encoded content.
    pub signature: Vec<u8>,
}

/// Why a complaint is turned down.
#[derive(Debug)]
pub enum NackError {
    /// No member is at the leaf that complains.
    InvalidSender,
    /// The commit is not the one complained about, or holds no such path secret.
    InvalidCommit,
    /// The complaining leaf has no key at the given index.
    InvalidPath,
    /// The proof does not hold.
    InvalidProof,
    /// The sender is not attested to, or has not signed the content.
    InvalidSignature,
    /// No problem was found.
    ValidPath,
}

/// What is wrong with the commit.
#[derive(Debug)]
pub enum NackResult {
    /// The path secret could not possibly be decrypted by the receiver.
    CannotDecrypt,
    /// The path secret does not correspond to the public node key.
    PathSecretMismatch,
}

/// The cryptography of a group, one call each.
pub struct GroupCrypto<H, P, K, S, D, E, V> {
    /// Hash of some bytes in a cipher suite.
    pub hash: H,
    /// Whether a proof holds for a public key and an encapsulated key.
    pub verify_proof: P,
    /// Identity key of a package that is attested to at the given time.
    pub verify_package: K,
    /// Whether a signature under an identity key is one over the given bytes.
    pub verify_signature: S,
    /// The path secret that the shared secret in a proof decrypts, for a public key, a
    /// ciphertext and an encoded group context.
    pub decrypt_after_proof: D,
    /// A secret of the given length that is derived, in a cipher suite, from a secret, a hash
    /// of the group context, a label and a context.
    pub expand_label: E,
    /// Whether the key pair derived from a path secret is the one that a tree has at a parent.
    pub verify_node_private_key: V,
}

/// What the calls of one verification have returned. Where a call was not made, its entry
/// means nothing.
pub struct Answers {
    /// Hash of the message with the commit.
    pub commit_hash: Vec<u8>,
    /// Whether the proof holds.
    pub proof_holds: bool,
    /// Identity key of the sender, if its package is attested to.
    pub identity: Option<Vec<u8>>,
    /// Whether the signature is the sender's.
    pub signature_holds: bool,
    /// The decrypted path secret.
    pub path_secret: Option<Vec<u8>>,
    /// What the calls on the decrypted path secret have returned.
    pub path: PathAnswers,
}

/// What the calls on a decrypted path secret have returned.
pub struct PathAnswers {
    /// The path secret of the common ancestor.
    pub overlap_secret: PathSecret,
    /// The path secrets above the common ancestor, each derived from the one before.
    pub secrets: Seq<PathSecret>,
    /// Whether the path secret fits the common ancestor.
    pub overlap_matches: bool,
    /// Whether the derived secrets fit their parents, as far as they were held against them.
    pub parents_match: Seq<bool>,
}

impl PathAnswers {
    /// Whether every secret fits the node that it was held against.
    pub open spec fn all_match(self) -> bool {
        self.overlap_matches && all_hold(self.parents_match)
    }
}

/// Whether all of the answers are yes.
pub open spec fn all_hold(answers: Seq<bool>) -> bool {
    forall|i: int| 0 <= i < answers.len() ==> #[trigger] answers[i] == true
}

impl NackMsgContent {
    /// The encoding of the content: its fields one after the other.
    pub open spec fn encoding(self) -> Seq<u8> {
        crate::codec::u32_bytes(self.sender) + self.commit_id@ + crate::codec::u32_bytes(
            self.path_secret_index,
        ) + self.proof.encoded@
    }

    /// The encoding of the content, over which it is signed.
    pub fn encode(&self) -> (bytes: Vec<u8>)
        ensures
            bytes@ == self.encoding(),
    {
        let mut bytes = encode_u32(self.sender);
        let mut commit_id = encode_digest(&self.commit_id);
        let mut path_secret_index = encode_u32(self.path_secret_index);
        bytes.append(&mut commit_id);
        bytes.append(&mut path_secret_index);
        bytes.extend_from_slice(self.proof.encoded.as_slice());
        bytes
    }
}

/// Where a node comes on a path.
fn position(path: &Vec<ParentSize>, node: ParentSize) -> (place: Option<usize>)
    requires
        crate::tree_math::node_numbers(path@).no_duplicates(),
    ensures
        match place {
            Some(place) => {
                &&& crate::tree_math::node_numbers(path@).contains(node.0 as nat)
                &&& crate::tree_math::node_numbers(path@).index_of(node.0 as nat) == place
                &&& place < path@.len()
            },
            None => !crate::tree_math::node_numbers(path@).contains(node.0 as nat),
        },
{
    let ghost numbers = crate::tree_math::node_numbers(path@);
    let mut i: usize = 0;
    while i < path.len()
        invariant
            i <= path@.len(),
            numbers == crate::tree_math::node_numbers(path@),
            numbers.no_duplicates(),
            forall|j: int| 0 <= j < i ==> numbers[j] != node.0,
        decreases path@.len() - i,
    {
        if path[i].0 == node.0 {
            assert(numbers[i as int] == node.0 as nat);
            return Some(i);
        }
        i = i + 1;
    }
    None
}

impl NackMsg {
    /// The encrypted path secret that the complaint is about, if the commit has it: the one
    /// of the given index among those sent for the common ancestor of committer and sender.
    pub open spec fn affected_secret(
        self,
        tree: TreePublicKey,
        commit: MLSPlaintext,
    ) -> Option<HPKECiphertext> {
        let above = crate::tree_math::direct_path(commit.sender as nat, tree.leaves());
        match (
            commit.path(),
            crate::tree_math::common_ancestor(commit.sender as nat, self.content.sender as nat),
        ) {
            (Some(path), Some(node)) => {
                let place = above.index_of(node);
                if above.contains(node) && place < path.nodes@.len()
                    && self.content.path_secret_index
                    < path.nodes@[place].encrypted_path_secret@.len() {
                    Some(
                        path.nodes@[place].encrypted_path_secret@[self.content.path_secret_index as int],
                    )
                } else {
                    None
                }
            },
            _ => None,
        }
    }

    /// The public key to which the affected path secret was encrypted: the one of the given
    /// index in the resolution of the sender.
    pub open spec fn affected_key(self, tree: TreePublicKey) -> Option<Vec<u8>> {
        let nodes = tree.resolution(self.content.sender as nat);
        if self.content.path_secret_index < nodes.len() {
            tree.nodes()[nodes[self.content.path_secret_index as int] as int].key()
        } else {
            None
        }
    }

    /// The parents above the common ancestor of committer and sender.
    pub open spec fn overlap_path(self, tree: TreePublicKey, commit: MLSPlaintext) -> Seq<nat> {
        let above = crate::tree_math::direct_path(self.content.sender as nat, tree.leaves());
        let node = crate::tree_math::common_ancestor(
            commit.sender as nat,
            self.content.sender as nat,
        )->0;
        above.skip(above.index_of(node) + 1)
    }

    /// Whether the complaint names a path secret that the commit has sent and a key to which
    /// it was sent, so that its proof can be looked at.
    pub open spec fn names_path_secret(
        self,
        tree: TreePublicKey,
        commit: MLSPlaintext,
        commit_hash: Seq<u8>,
    ) -> bool {
        &&& tree.package(self.content.sender as nat) is Some
        &&& commit_hash == self.content.commit_id@
        &&& self.affected_secret(tree, commit) is Some
        &&& self.affected_key(tree) is Some
    }

    /// The outcome of verifying the complaint, given what the calls have returned.
    pub open spec fn outcome(
        self,
        tree: TreePublicKey,
        commit: MLSPlaintext,
        answers: Answers,
    ) -> Result<NackResult, NackError> {
        if tree.package(self.content.sender as nat) is None {
            Err(NackError::InvalidSender)
        } else if answers.commit_hash@ != self.content.commit_id@ || self.affected_secret(
            tree,
            commit,
        ) is None {
            Err(NackError::InvalidCommit)
        } else if self.affected_key(tree) is None {
            Err(NackError::InvalidPath)
        } else if !answers.proof_holds {
            Err(NackError::InvalidProof)
        } else if answers.identity is None || !answers.signature_holds {
            Err(NackError::InvalidSignature)
        } else if answers.path_secret is None {
            Ok(NackResult::CannotDecrypt)
        } else if answers.path.all_match() {
            Err(NackError::ValidPath)
        } else {
            Ok(NackResult::PathSecretMismatch)
        }
    }

    /// The encrypted path secret that the complaint is about, given the hash of the message
    /// with the commit.
    pub fn affected_path_secret<'a>(
        &self,
        tree: &TreePublicKey,
        commit: &'a MLSPlaintext,
        commit_hash: &Vec<u8>,
    ) -> (secret: Result<&'a HPKECiphertext, NackError>)
        ensures
            match secret {
                Ok(secret) => {
                    &&& commit_hash@ == self.content.commit_id@
                    &&& self.affected_secret(*tree, *commit) == Some(*secret)
                },
                Err(NackError::InvalidCommit) => {
                    ||| commit_hash@ != self.content.commit_id@
                    ||| self.affected_secret(*tree, *commit) is None
                },
                Err(_) => false,
            },
    {
        if !ct_eq(commit_hash.as_slice(), self.content.commit_id.as_slice()) {
            return Err(NackError::InvalidCommit);
        }
        let content = match commit.get_commit() {
            Some(content) => content,
            None => return Err(NackError::InvalidCommit),
        };
        let path = match &content.path {
            Some(path) => path,
            None => return Err(NackError::InvalidCommit),
        };
        let ancestor = match ParentSize::common_ancestor(
            LeafSize(commit.sender),
            LeafSize(self.content.sender),
        ) {
            Some(ancestor) => ancestor,
            None => return Err(NackError::InvalidCommit),
        };
        let leaf_len = tree.leaf_len();
        let above = LeafSize(commit.sender).direct_path(leaf_len);
        proof {
            if commit.sender < leaf_len.0 {
                crate::tree_math::law_direct_path_holds_parents(
                    commit.sender as nat,
                    leaf_len.0 as nat,
                );
            }
        }
        let index = self.content.path_secret_index as usize;
        match position(&above, ancestor) {
            Some(place) if place < path.nodes.len() => {
                let node = &path.nodes[place];
                if index < node.encrypted_path_secret.len() {
                    Ok(&node.encrypted_path_secret[index])
                } else {
                    Err(NackError::InvalidCommit)
                }
            },
            _ => Err(NackError::InvalidCommit),
        }
    }

    /// The public key to which the affected path secret was encrypted.
    pub fn affected_node_key<'a>(&self, tree: &'a TreePublicKey) -> (key: Result<
        &'a Vec<u8>,
        NackError,
    >)
        ensures
            match key {
                Ok(key) => self.affected_key(*tree) == Some(*key),
                Err(NackError::InvalidPath) => self.affected_key(*tree) is None,
                Err(_) => false,
            },
    {
        let nodes = tree.resolve(LeafSize(self.content.sender));
        let index = self.content.path_secret_index as usize;
        if index < nodes.len() {
            match tree.node_key(nodes[index]) {
                Some(key) => Ok(key),
                None => Err(NackError::InvalidPath),
            }
        } else {
            Err(NackError::InvalidPath)
        }
    }
}

impl<H, P, K, S, D, E, V> GroupCrypto<H, P, K, S, D, E, V> where
    H: Fn(&CipherSuite, &Vec<u8>) -> Vec<u8>,
    P: Fn(&NackDleqProof, &Vec<u8>, &Vec<u8>) -> bool,
    K: Fn(&KeyPackage, Timespec) -> Option<Vec<u8>>,
    S: Fn(&Vec<u8>, &Vec<u8>, &Vec<u8>) -> bool,
    D: Fn(&NackDleqProof, &Vec<u8>, &HPKECiphertext, &[u8]) -> Option<Vec<u8>>,
    E: Fn(&CipherSuite, &PathSecret, &Vec<u8>, &str, &Vec<u8>, usize) -> PathSecret,
    V: Fn(&TreePublicKey, &PathSecret, ParentSize) -> bool,
 {
    /// Whether each call can be made on any arguments.
    pub open spec fn total(self) -> bool {
        &&& forall|cs: &CipherSuite, bytes: &Vec<u8>| #[trigger]
            call_requires(self.hash, (cs, bytes))
        &&& forall|proof: &NackDleqProof, key: &Vec<u8>, kem_output: &Vec<u8>| #[trigger]
            call_requires(self.verify_proof, (proof, key, kem_output))
        &&& forall|package: &KeyPackage, now: Timespec| #[trigger]
            call_requires(self.verify_package, (package, now))
        &&& forall|key: &Vec<u8>, bytes: &Vec<u8>, signature: &Vec<u8>| #[trigger]
            call_requires(self.verify_signature, (key, bytes, signature))
        &&& forall|
            proof: &NackDleqProof,
            key: &Vec<u8>,
            secret: &HPKECiphertext,
            encoded_ctx: &[u8],
        | #[trigger]
            call_requires(self.decrypt_after_proof, (proof, key, secret, encoded_ctx))
        &&& forall|
            cs: &CipherSuite,
            secret: &PathSecret,
            context_hash: &Vec<u8>,
            label: &str,
            context: &Vec<u8>,
            length: usize,
        | #[trigger]
            call_requires(self.expand_label, (cs, secret, context_hash, label, context, length))
        &&& forall|tree: &TreePublicKey, secret: &PathSecret, parent: ParentSize| #[trigger]
            call_requires(self.verify_node_private_key, (tree, secret, parent))
    }

    /// Whether `holds` is what the check of the signature under an identity key, over the
    /// encoded content, has returned.
    pub open spec fn signature_answer(
        self,
        identity: Vec<u8>,
        nack: NackMsg,
        holds: bool,
    ) -> bool {
        exists|bytes: Vec<u8>|
            bytes@ == nack.content.encoding() && #[trigger] call_ensures(
                self.verify_signature,
                (&identity, &bytes, &nack.signature),
                holds,
            )
    }

    /// Whether `to` is what the derivation of the next path secret has returned for `from`:
    /// in the cipher suite, under the label "path", with nothing else added, and of the length
    /// of the suite's secrets.
    pub open spec fn next_secret(self, cs: CipherSuite, from: PathSecret, to: PathSecret) -> bool {
        exists|context_hash: Vec<u8>, context: Vec<u8>|
            {
                &&& context_hash@.len() == 0
                &&& context@.len() == 0
                &&& #[trigger] call_ensures(
                    self.expand_label,
                    (&cs, &from, &context_hash, "path", &context, cs.secret_size),
                    to,
                )
            }
    }

    /// Whether the answers are what the calls on a decrypted path secret have returned.
    ///
    /// From the secret, one further secret is derived for each parent above the common
    /// ancestor. The secret is held against the ancestor, and then each derived secret against
    /// the parent that it was derived for, until one does not fit.
    pub open spec fn path_answers(
        self,
        tree: TreePublicKey,
        path_secret: Seq<u8>,
        node: nat,
        overlap_path: Seq<nat>,
        answers: PathAnswers,
    ) -> bool {
        &&& answers.overlap_secret@ == path_secret
        &&& answers.secrets.len() == overlap_path.len()
        &&& self.secret_chain(tree.suite(), answers.overlap_secret, answers.secrets)
        &&& call_ensures(
            self.verify_node_private_key,
            (&tree, &answers.overlap_secret, ParentSize(node as u64)),
            answers.overlap_matches,
        )
        &&& answers.overlap_matches ==> self.parent_answers(
            tree,
            answers.secrets,
            overlap_path,
            answers.parents_match,
        )
    }

    /// Whether the answers are what the calls have returned in the verification of a
    /// complaint. A call is made once the checks before it have gone well.
    pub open spec fn answers(
        self,
        nack: NackMsg,
        tree: TreePublicKey,
        commit: MLSPlaintext,
        now: Timespec,
        encoded_ctx: &[u8],
        answers: Answers,
    ) -> bool {
        let sender = nack.content.sender as nat;
        let key = nack.affected_key(tree)->0;
        let secret = nack.affected_secret(tree, commit)->0;
        &&& tree.package(sender) is Some ==> call_ensures(
            self.hash,
            (&tree.suite(), &commit.encoding),
            answers.commit_hash,
        )
        &&& nack.names_path_secret(tree, commit, answers.commit_hash@) ==> {
            &&& call_ensures(
                self.verify_proof,
                (&nack.content.proof, &key, &secret.kem_output),
                answers.proof_holds,
            )
            &&& answers.proof_holds ==> call_ensures(
                self.verify_package,
                (&tree.package(sender)->0, now),
                answers.identity,
            )
            &&& answers.proof_holds && answers.identity is Some ==> self.signature_answer(
                answers.identity->0,
                nack,
                answers.signature_holds,
            )
            &&& answers.proof_holds && answers.identity is Some && answers.signature_holds ==> {
                &&& call_ensures(
                    self.decrypt_after_proof,
                    (&nack.content.proof, &key, &secret, encoded_ctx),
                    answers.path_secret,
                )
                &&& answers.path_secret is Some ==> self.path_answers(
                    tree,
                    answers.path_secret->0@,
                    crate::tree_math::common_ancestor(commit.sender as nat, sender)->0,
                    nack.overlap_path(tree, commit),
                    answers.path,
                )
            }
        }
    }

    /// Whether the secrets are derived one after the other, the first from `start`.
    pub open spec fn secret_chain(
        self,
        cs: CipherSuite,
        start: PathSecret,
        secrets: Seq<PathSecret>,
    ) -> bool {
        &&& secrets.len() > 0 ==> self.next_secret(cs, start, secrets[0])
        &&& forall|i: int, j: int|
            0 <= i && j == i + 1 && j < secrets.len() ==> self.next_secret(
                cs,
                #[trigger] secrets[i],
                #[trigger] secrets[j],
            )
    }

    /// Whether the answers are what holding each derived secret against its own parent has
    /// returned, for one parent after the other, until one did not fit.
    pub open spec fn parent_answers(
        self,
        tree: TreePublicKey,
        secrets: Seq<PathSecret>,
        overlap_path: Seq<nat>,
        parents_match: Seq<bool>,
    ) -> bool {
        &&& parents_match.len() <= secrets.len()
        &&& forall|i: int|
            0 <= i < parents_match.len() ==> call_ensures(
                self.verify_node_private_key,
                (&tree, &secrets[i], ParentSize(overlap_path[i] as u64)),
                #[trigger] parents_match[i],
            )
        &&& parents_match.len() < secrets.len() ==> {
            &&& parents_match.len() > 0
            &&& !parents_match.last()
        }
    }

    /// Derives `count` path secrets one after the other.
    fn derive_secrets(&self, cs: &CipherSuite, start: &PathSecret, count: usize) -> (secrets: Vec<
        PathSecret,
    >)
        requires
            self.total(),
        ensures
            secrets@.len() == count,
            self.secret_chain(*cs, *start, secrets@),
    {
        let mut secrets: Vec<PathSecret> = Vec::new();
        while secrets.len() < count
            invariant
                self.total(),
                secrets@.len() <= count,
                self.secret_chain(*cs, *start, secrets@),
            decreases count - secrets@.len(),
        {
            let context_hash: Vec<u8> = Vec::new();
            let context: Vec<u8> = Vec::new();
            let previous = if secrets.len() == 0 {
                start
            } else {
                &secrets[secrets.len() - 1]
            };
            let next = (self.expand_label)(
                cs,
                previous,
                &context_hash,
                "path",
                &context,
                cs.secret_size,
            );
            assert(self.next_secret(*cs, *previous, next));
            secrets.push(next);
        }
        secrets
    }

    /// Holds each derived path secret against the key of its parent above the common ancestor.
    /// Returns whether all fit.
    fn parents_fit(
        &self,
        tree: &TreePublicKey,
        secrets: &Vec<PathSecret>,
        overlap_path: &Vec<ParentSize>,
    ) -> (fits: (bool, Ghost<Seq<bool>>))
        requires
            self.total(),
            secrets@.len() == overlap_path@.len(),
        ensures
            fits.0 == all_hold(fits.1@),
            self.parent_answers(
                *tree,
                secrets@,
                crate::tree_math::node_numbers(overlap_path@),
                fits.1@,
            ),
    {
        let ghost numbers = crate::tree_math::node_numbers(overlap_path@);
        let ghost mut parents_match: Seq<bool> = seq![];
        let mut i: usize = 0;
        while i < secrets.len()
            invariant
                self.total(),
                numbers == crate::tree_math::node_numbers(overlap_path@),
                secrets@.len() == overlap_path@.len(),
                i <= secrets@.len(),
                parents_match.len() == i,
                forall|j: int|
                    0 <= j < parents_match.len() ==> call_ensures(
                        self.verify_node_private_key,
                        (tree, &secrets@[j], ParentSize(numbers[j] as u64)),
                        #[trigger] parents_match[j],
                    ),
                all_hold(parents_match),
            decreases secrets@.len() - i,
        {
            let fits = (self.verify_node_private_key)(tree, &secrets[i], overlap_path[i]);
            proof {
                assert(ParentSize(numbers[i as int] as u64) == overlap_path@[i as int]);
                parents_match = parents_match.push(fits);
            }
            if !fits {
                assert(parents_match[i as int] == false);
                return (false, Ghost(parents_match));
            }
            i = i + 1;
        }
        (true, Ghost(parents_match))
    }

    /// Holds a decrypted path secret, and those derived from it, against the keys of the
    /// common ancestor and of the parents above it. Returns whether all fit.
    fn path_secret_fits(
        &self,
        tree: &TreePublicKey,
        path_secret: Vec<u8>,
        ancestor: ParentSize,
        overlap_path: &Vec<ParentSize>,
    ) -> (fits: (bool, Ghost<PathAnswers>))
        requires
            self.total(),
        ensures
            fits.0 == fits.1@.all_match(),
            self.path_answers(
                *tree,
                path_secret@,
                ancestor.0 as nat,
                crate::tree_math::node_numbers(overlap_path@),
                fits.1@,
            ),
    {
        let overlap_secret = PathSecret::new(path_secret);
        let secrets = self.derive_secrets(tree.cipher_suite(), &overlap_secret, overlap_path.len());
        let overlap_matches = (self.verify_node_private_key)(tree, &overlap_secret, ancestor);
        if !overlap_matches {
            let ghost answers = PathAnswers {
                overlap_secret,
                secrets: secrets@,
                overlap_matches,
                parents_match: seq![],
            };
            return (false, Ghost(answers));
        }
        let (fits, Ghost(parents_match)) = self.parents_fit(tree, &secrets, overlap_path);
        let ghost answers = PathAnswers {
            overlap_secret,
            secrets: secrets@,
            overlap_matches,
            parents_match,
        };
        (fits, Ghost(answers))
    }
}

impl NackMsg {
    /// The common ancestor of committer and sender, and the parents above it. The ancestor is
    /// on the direct path of the sender, since it is on that of the committer.
    fn overlap(&self, tree: &TreePublicKey, commit: &MLSPlaintext) -> (overlap: (
        ParentSize,
        Vec<ParentSize>,
    ))
        requires
            tree.package(self.content.sender as nat) is Some,
            self.affected_secret(*tree, *commit) is Some,
        ensures
            crate::tree_math::common_ancestor(commit.sender as nat, self.content.sender as nat)
                == Some(overlap.0.0 as nat),
            crate::tree_math::node_numbers(overlap.1@) == self.overlap_path(*tree, *commit),
    {
        let leaf_len = tree.leaf_len();
        let ancestor = ParentSize::common_ancestor(
            LeafSize(commit.sender),
            LeafSize(self.content.sender),
        ).unwrap();
        let above = LeafSize(self.content.sender).direct_path(leaf_len);
        proof {
            crate::tree_math::law_direct_path_holds_parents(
                self.content.sender as nat,
                leaf_len.0 as nat,
            );
            crate::tree_math::law_paths_meet_at_common_ancestor(
                commit.sender as nat,
                self.content.sender as nat,
                leaf_len.0 as nat,
            );
        }
        let place = position(&above, ancestor).unwrap();
        let mut overlap_path: Vec<ParentSize> = Vec::new();
        let mut i: usize = place + 1;
        while i < above.len()
            invariant
                place < i <= above@.len(),
                overlap_path@ == above@.subrange(place + 1, i as int),
            decreases above@.len() - i,
        {
            overlap_path.push(above[i]);
            i = i + 1;
        }
        assert(crate::tree_math::node_numbers(overlap_path@) =~= self.overlap_path(
            *tree,
            *commit,
        ));
        (ancestor, overlap_path)
    }

    /// Verifies the complaint against a commit that was sent before.
    ///
    /// `Ok` says what is wrong with the commit. `Err` says why the complaint is turned down.
    pub fn verify<H, P, K, S, D, E, V>(
        &self,
        tree: &TreePublicKey,
        commit: &MLSPlaintext,
        crypto: &GroupCrypto<H, P, K, S, D, E, V>,
        now: Timespec,
        encoded_ctx: &[u8],
    ) -> (result: Result<NackResult, NackError>) where
        H: Fn(&CipherSuite, &Vec<u8>) -> Vec<u8>,
        P: Fn(&NackDleqProof, &Vec<u8>, &Vec<u8>) -> bool,
        K: Fn(&KeyPackage, Timespec) -> Option<Vec<u8>>,
        S: Fn(&Vec<u8>, &Vec<u8>, &Vec<u8>) -> bool,
        D: Fn(&NackDleqProof, &Vec<u8>, &HPKECiphertext, &[u8]) -> Option<Vec<u8>>,
        E: Fn(&CipherSuite, &PathSecret, &Vec<u8>, &str, &Vec<u8>, usize) -> PathSecret,
        V: Fn(&TreePublicKey, &PathSecret, ParentSize) -> bool,

        requires
            crypto.total(),
        ensures
            exists|answers: Answers|
                {
                    &&& #[trigger] crypto.answers(
                        *self,
                        *tree,
                        *commit,
                        now,
                        encoded_ctx,
                        answers,
                    )
                    &&& result == self.outcome(*tree, *commit, answers)
                },
    {
        let ghost mut answers: Answers = arbitrary();
        let package = match tree.get_package(LeafSize(self.content.sender)) {
            Some(package) => package,
            None => {
                assert(crypto.answers(*self, *tree, *commit, now, encoded_ctx, answers));
                return Err(NackError::InvalidSender);
            },
        };
        let commit_hash = (crypto.hash)(tree.cipher_suite(), &commit.encoding);
        proof {
            answers.commit_hash = commit_hash;
        }
        let secret = match self.affected_path_secret(tree, commit, &commit_hash) {
            Ok(secret) => secret,
            Err(error) => {
                assert(crypto.answers(*self, *tree, *commit, now, encoded_ctx, answers));
                return Err(error);
            },
        };
        let key = match self.affected_node_key(tree) {
            Ok(key) => key,
            Err(error) => {
                assert(crypto.answers(*self, *tree, *commit, now, encoded_ctx, answers));
                return Err(error);
            },
        };
        let proof_holds = (crypto.verify_proof)(&self.content.proof, key, &secret.kem_output);
        proof {
            answers.proof_holds = proof_holds;
        }
        if !proof_holds {
            assert(crypto.answers(*self, *tree, *commit, now, encoded_ctx, answers));
            return Err(NackError::InvalidProof);
        }
        let identity = (crypto.verify_package)(package, now);
        proof {
            answers.identity = identity;
        }
        let identity_key = match &identity {
            Some(identity_key) => identity_key,
            None => {
                assert(crypto.answers(*self, *tree, *commit, now, encoded_ctx, answers));
                return Err(NackError::InvalidSignature);
            },
        };
        let bytes = self.content.encode();
        let signature_holds = (crypto.verify_signature)(identity_key, &bytes, &self.signature);
        proof {
            answers.signature_holds = signature_holds;
            assert(crypto.signature_answer(*identity_key, *self, signature_holds));
        }
        if !signature_holds {
            assert(crypto.answers(*self, *tree, *commit, now, encoded_ctx, answers));
            return Err(NackError::InvalidSignature);
        }
        let path_secret = (crypto.decrypt_after_proof)(
            &self.content.proof,
            key,
            secret,
            encoded_ctx,
        );
        proof {
            answers.path_secret = path_secret;
        }
        match path_secret {
            Some(path_secret) => {
                let (ancestor, overlap_path) = self.overlap(tree, commit);
                let (fits, Ghost(path)) = crypto.path_secret_fits(
                    tree,
                    path_secret,
                    ancestor,
                    &overlap_path,
                );
                proof {
                    answers.path = path;
                }
                assert(crypto.answers(*self, *tree, *commit, now, encoded_ctx, answers));
                if fits {
                    Err(NackError::ValidPath)
                } else {
                    Ok(NackResult::PathSecretMismatch)
                }
            },
            None => {
                assert(crypto.answers(*self, *tree, *commit, now, encoded_ctx, answers));
                Ok(NackResult::CannotDecrypt)
            },
        }
    }
}

} // verus!
