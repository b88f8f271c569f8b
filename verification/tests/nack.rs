use mls_nack::message::{Commit, DirectPath, DirectPathNode, HPKECiphertext, MLSPlaintext};
use mls_nack::nack::{
    GroupCrypto, NackDleqProof, NackError, NackMsg, NackMsgContent, NackResult,
};
use mls_nack::secret::PathSecret;
use mls_nack::tree::{CipherSuite, KeyPackage, Node, TreePublicKey};
use mls_nack::tree_math::{LeafSize, NodeSize, ParentSize};
use parity_scale_codec::Encode;
use std::cell::RefCell;

const CONTEXT: &[u8] = b"context";
const SECRET_SIZE: usize = 32;
const SUITE: CipherSuite = CipherSuite {
    id: 2,
    secret_size: SECRET_SIZE,
};

/// A digest that is good enough to tell test values apart.
fn digest(parts: &[&[u8]]) -> Vec<u8> {
    let mut out = Vec::new();
    for lane in 0..4u64 {
        let mut state: u64 = 0xcbf2_9ce4_8422_2325 ^ lane.wrapping_mul(0x9e37_79b9_7f4a_7c15);
        for part in parts {
            for byte in part.iter() {
                state = (state ^ u64::from(*byte)).wrapping_mul(0x0100_0000_01b3);
            }
            state = (state ^ 0xff ^ part.len() as u64).wrapping_mul(0x0100_0000_01b3);
        }
        out.extend_from_slice(&state.to_le_bytes());
    }
    out
}

fn public_key(secret: &[u8]) -> Vec<u8> {
    digest(&[b"public", secret])
}

fn next_secret(secret: &[u8]) -> Vec<u8> {
    digest(&[&SUITE.id.to_le_bytes(), secret, b"", b"path", b"", &SECRET_SIZE.to_le_bytes()])
}

fn shared_secret(key: &[u8], kem_output: &[u8]) -> Vec<u8> {
    digest(&[b"shared", key, kem_output])
}

fn encrypt(plaintext: &[u8], key: &[u8]) -> HPKECiphertext {
    let kem_output = digest(&[b"ephemeral", plaintext, key]);
    let shared = shared_secret(key, &kem_output);
    let mut ciphertext: Vec<u8> = plaintext
        .iter()
        .zip(shared.iter())
        .map(|(a, b)| a ^ b)
        .collect();
    ciphertext.extend_from_slice(&digest(&[b"tag", &shared, plaintext, CONTEXT]));
    HPKECiphertext {
        kem_output,
        ciphertext,
    }
}

fn sign(identity: &[u8], bytes: &[u8]) -> Vec<u8> {
    digest(&[b"signature", identity, bytes])
}

fn identity_of(leaf: u32) -> Vec<u8> {
    vec![leaf as u8; 5]
}

fn leaf_key(leaf: u32) -> Vec<u8> {
    public_key(&[leaf as u8])
}

struct Group {
    leaves: u32,
    blank: Option<u32>,
    /// Public keys of the parents, by node number.
    parent_keys: Vec<(u64, Vec<u8>)>,
    attested: bool,
    now: u64,
}

impl Group {
    fn tree(&self) -> TreePublicKey {
        let mut nodes = Vec::new();
        for node in 0..u64::from(2 * self.leaves - 1) {
            let leaf = (node / 2) as u32;
            nodes.push(if node % 2 == 1 {
                let key = self.parent_keys.iter().find(|(n, _)| *n == node);
                Node::Parent(key.map(|(_, key)| key.clone()))
            } else if self.blank == Some(leaf) {
                Node::Leaf(None)
            } else {
                Node::Leaf(Some(KeyPackage {
                    init_key: leaf_key(leaf),
                    encoding: identity_of(leaf),
                }))
            });
        }
        TreePublicKey::new(nodes, SUITE).expect("tree")
    }
}

fn encode_commit(sender: u32, path: &Option<DirectPath>) -> Vec<u8> {
    let mut out = sender.to_le_bytes().to_vec();
    if let Some(path) = path {
        for node in &path.nodes {
            for secret in &node.encrypted_path_secret {
                out.extend_from_slice(&secret.kem_output);
                out.extend_from_slice(&secret.ciphertext);
            }
        }
    }
    out
}

fn seal(sender: u32, path: Option<DirectPath>) -> MLSPlaintext {
    MLSPlaintext {
        sender,
        encoding: encode_commit(sender, &path),
        commit: Some(Commit { path }),
    }
}

/// A self update of `committer` that sends each path secret to `receiver` once.
fn update(leaves: u32, committer: u32, receiver: u32) -> (Group, DirectPath) {
    let mut secret = vec![9u8; SECRET_SIZE];
    let mut parent_keys = Vec::new();
    let mut nodes = Vec::new();
    for parent in LeafSize(committer).direct_path(LeafSize(leaves)) {
        parent_keys.push((parent.0, public_key(&secret)));
        nodes.push(DirectPathNode {
            encrypted_path_secret: vec![encrypt(&secret, &leaf_key(receiver))],
        });
        secret = next_secret(&secret);
    }
    let group = Group {
        leaves,
        blank: None,
        parent_keys,
        attested: true,
        now: 0,
    };
    (group, DirectPath { nodes })
}

fn complaint(commit: &MLSPlaintext, sender: u32, index: u32, kem_output: &[u8]) -> NackMsg {
    let mut commit_id = [0u8; 32];
    commit_id.copy_from_slice(&digest(&[&SUITE.id.to_le_bytes(), &commit.encoding]));
    signed(NackMsgContent {
        sender,
        commit_id,
        path_secret_index: index,
        proof: NackDleqProof {
            encoded: shared_secret(&leaf_key(sender), kem_output),
        },
    })
}

fn signed(content: NackMsgContent) -> NackMsg {
    let signature = sign(&identity_of(content.sender), &content.encode());
    NackMsg { content, signature }
}

fn verify(group: &Group, nack: &NackMsg, commit: &MLSPlaintext) -> Result<NackResult, NackError> {
    verify_in(group, nack, commit, CONTEXT)
}

fn verify_in(
    group: &Group,
    nack: &NackMsg,
    commit: &MLSPlaintext,
    context: &[u8],
) -> Result<NackResult, NackError> {
    let crypto = GroupCrypto {
        hash: |cs: &CipherSuite, bytes: &Vec<u8>| digest(&[&cs.id.to_le_bytes(), bytes]),
        verify_proof: |proof: &NackDleqProof, key: &Vec<u8>, kem_output: &Vec<u8>| {
            proof.encoded == shared_secret(key, kem_output)
        },
        verify_package: |package: &KeyPackage, now: u64| {
            if group.attested && now == group.now {
                Some(package.encoding.clone())
            } else {
                None
            }
        },
        verify_signature: |key: &Vec<u8>, bytes: &Vec<u8>, signature: &Vec<u8>| {
            *signature == sign(key, bytes)
        },
        decrypt_after_proof: |proof: &NackDleqProof,
                              key: &Vec<u8>,
                              secret: &HPKECiphertext,
                              context: &[u8]| {
            let shared = &proof.encoded;
            let split = secret.ciphertext.len().checked_sub(32)?;
            let plaintext: Vec<u8> = secret.ciphertext[..split]
                .iter()
                .zip(shared.iter())
                .map(|(a, b)| a ^ b)
                .collect();
            let tag = digest(&[b"tag", shared, &plaintext, context]);
            if *shared == shared_secret(key, &secret.kem_output) && tag == secret.ciphertext[split..]
            {
                Some(plaintext)
            } else {
                None
            }
        },
        expand_label: |cs: &CipherSuite,
                       secret: &PathSecret,
                       context_hash: &Vec<u8>,
                       label: &str,
                       context: &Vec<u8>,
                       length: usize| {
            PathSecret::new(digest(&[
                &cs.id.to_le_bytes(),
                secret.expose_secret(),
                context_hash,
                label.as_bytes(),
                context,
                &length.to_le_bytes(),
            ]))
        },
        verify_node_private_key: |tree: &TreePublicKey, secret: &PathSecret, parent: ParentSize| {
            tree.node_key(NodeSize(parent.0)) == Some(&public_key(secret.expose_secret()))
        },
    };
    nack.verify(&group.tree(), commit, &crypto, 0, context)
}

/// Three members, of which the second updates itself and the first complains.
fn three_member_setup() -> (Group, DirectPath) {
    update(3, 1, 0)
}

#[test]
fn test_nack_verify_fail_valid() {
    let (group, path) = three_member_setup();
    let kem_output = path.nodes[0].encrypted_path_secret[0].kem_output.clone();
    let commit = seal(1, Some(path));
    let nack = complaint(&commit, 0, 0, &kem_output);
    assert!(matches!(
        verify(&group, &nack, &commit),
        Err(NackError::ValidPath)
    ));
}

#[test]
fn test_nack_verify_decrypt_fail() {
    let (group, mut path) = three_member_setup();
    // member 1 -- affected
    // member 2 -- malicious / unaffected
    // member 3 -- honest / unaffected (verifying member1 claim)
    assert_ne!(path.nodes[0].encrypted_path_secret[0].ciphertext[0], 0);
    path.nodes[0].encrypted_path_secret[0].ciphertext[0] = 0;
    let kem_output = path.nodes[0].encrypted_path_secret[0].kem_output.clone();
    let commit = seal(1, Some(path));
    let nack = complaint(&commit, 0, 0, &kem_output);
    assert!(matches!(
        verify(&group, &nack, &commit),
        Ok(NackResult::CannotDecrypt)
    ));
}

#[test]
fn test_nack_verify_path_fail() {
    let (group, mut path) = three_member_setup();
    // member 1 -- affected
    // member 2 -- malicious / unaffected
    // member 3 -- honest / unaffected (verifying member1 claim)
    path.nodes[0].encrypted_path_secret[0] = encrypt(&vec![0u8; 32], &leaf_key(0));
    let kem_output = path.nodes[0].encrypted_path_secret[0].kem_output.clone();
    let commit = seal(1, Some(path));
    let nack = complaint(&commit, 0, 0, &kem_output);
    assert!(matches!(
        verify(&group, &nack, &commit),
        Ok(NackResult::PathSecretMismatch)
    ));
}

/// A complaint of leaf 0 about an update of leaf 1 that holds up in every respect.
fn sound_complaint() -> (Group, MLSPlaintext, NackMsg) {
    let (group, mut path) = three_member_setup();
    path.nodes[0].encrypted_path_secret[0] = encrypt(&vec![0u8; 32], &leaf_key(0));
    let kem_output = path.nodes[0].encrypted_path_secret[0].kem_output.clone();
    let commit = seal(1, Some(path));
    let nack = complaint(&commit, 0, 0, &kem_output);
    (group, commit, nack)
}

#[test]
fn sender_outside_tree_is_invalid() {
    let (group, commit, _) = sound_complaint();
    let nack = complaint(&commit, 3, 0, b"");
    assert!(matches!(
        verify(&group, &nack, &commit),
        Err(NackError::InvalidSender)
    ));
    let nack = complaint(&commit, u32::MAX, 0, b"");
    assert!(matches!(
        verify(&group, &nack, &commit),
        Err(NackError::InvalidSender)
    ));
}

#[test]
fn blank_sender_is_invalid() {
    let (mut group, commit, nack) = sound_complaint();
    group.blank = Some(0);
    assert!(matches!(
        verify(&group, &nack, &commit),
        Err(NackError::InvalidSender)
    ));
}

#[test]
fn other_commit_is_invalid() {
    let (group, commit, mut nack) = sound_complaint();
    nack.content.commit_id[31] ^= 1;
    let nack = signed(nack.content);
    assert!(matches!(
        verify(&group, &nack, &commit),
        Err(NackError::InvalidCommit)
    ));
}

#[test]
fn message_without_commit_is_invalid() {
    let (group, mut commit, nack) = sound_complaint();
    commit.commit = None;
    assert!(matches!(
        verify(&group, &nack, &commit),
        Err(NackError::InvalidCommit)
    ));
}

#[test]
fn commit_without_path_is_invalid() {
    let (group, _, _) = sound_complaint();
    let commit = seal(1, None);
    let nack = complaint(&commit, 0, 0, b"");
    assert!(matches!(
        verify(&group, &nack, &commit),
        Err(NackError::InvalidCommit)
    ));
}

#[test]
fn complaint_about_own_commit_is_invalid() {
    let (group, path) = update(3, 0, 0);
    let kem_output = path.nodes[0].encrypted_path_secret[0].kem_output.clone();
    let commit = seal(0, Some(path));
    let nack = complaint(&commit, 0, 0, &kem_output);
    assert!(matches!(
        verify(&group, &nack, &commit),
        Err(NackError::InvalidCommit)
    ));
}

#[test]
fn committer_outside_tree_is_invalid() {
    let (group, path) = three_member_setup();
    let commit = seal(4_000_000_000, Some(path));
    let nack = complaint(&commit, 0, 0, b"");
    assert!(matches!(
        verify(&group, &nack, &commit),
        Err(NackError::InvalidCommit)
    ));
}

#[test]
fn path_that_ends_below_ancestor_is_invalid() {
    // Leaves 1 and 2 meet at the root, the second node on the path of leaf 1.
    let (group, mut path) = update(3, 1, 2);
    let kem_output = path.nodes[1].encrypted_path_secret[0].kem_output.clone();
    path.nodes.truncate(1);
    let commit = seal(1, Some(path));
    let nack = complaint(&commit, 2, 0, &kem_output);
    assert!(matches!(
        verify(&group, &nack, &commit),
        Err(NackError::InvalidCommit)
    ));
}

#[test]
fn missing_path_secret_is_invalid() {
    let (group, commit, nack) = sound_complaint();
    let nack = signed(NackMsgContent {
        path_secret_index: 1,
        ..nack.content
    });
    assert!(matches!(
        verify(&group, &nack, &commit),
        Err(NackError::InvalidCommit)
    ));
}

#[test]
fn path_secret_of_another_key_is_invalid_path() {
    let (group, mut path) = three_member_setup();
    path.nodes[0]
        .encrypted_path_secret
        .push(encrypt(&[5u8; 32], &leaf_key(0)));
    let kem_output = path.nodes[0].encrypted_path_secret[1].kem_output.clone();
    let commit = seal(1, Some(path));
    let nack = complaint(&commit, 0, 1, &kem_output);
    assert!(matches!(
        verify(&group, &nack, &commit),
        Err(NackError::InvalidPath)
    ));
}

#[test]
fn wrong_proof_is_invalid() {
    let (group, commit, mut nack) = sound_complaint();
    nack.content.proof.encoded[0] ^= 1;
    let nack = signed(nack.content);
    assert!(matches!(
        verify(&group, &nack, &commit),
        Err(NackError::InvalidProof)
    ));
}

#[test]
fn unattested_sender_has_invalid_signature() {
    let (mut group, commit, nack) = sound_complaint();
    group.attested = false;
    assert!(matches!(
        verify(&group, &nack, &commit),
        Err(NackError::InvalidSignature)
    ));
    group.attested = true;
    group.now = 1;
    assert!(matches!(
        verify(&group, &nack, &commit),
        Err(NackError::InvalidSignature)
    ));
}

#[test]
fn wrong_signature_is_invalid() {
    let (group, commit, mut nack) = sound_complaint();
    nack.signature[0] ^= 1;
    assert!(matches!(
        verify(&group, &nack, &commit),
        Err(NackError::InvalidSignature)
    ));
}

#[test]
fn signature_of_another_member_is_invalid() {
    let (group, commit, mut nack) = sound_complaint();
    nack.signature = sign(&identity_of(2), &nack.content.encode());
    assert!(matches!(
        verify(&group, &nack, &commit),
        Err(NackError::InvalidSignature)
    ));
}

#[test]
fn context_decides_among_judgements_only() {
    let (group, commit, nack) = sound_complaint();
    assert!(matches!(
        verify_in(&group, &nack, &commit, b"other"),
        Ok(NackResult::CannotDecrypt)
    ));
    let wrong = complaint(&commit, 0, 0, b"other");
    assert!(matches!(
        verify_in(&group, &wrong, &commit, b"other"),
        Err(NackError::InvalidProof)
    ));
}

#[test]
fn verifiers_agree() {
    let (group, commit, nack) = sound_complaint();
    for _ in 0..2 {
        assert!(matches!(
            verify(&group, &nack, &commit),
            Ok(NackResult::PathSecretMismatch)
        ));
    }
}

#[test]
fn no_parent_above_root() {
    // Leaves 1 and 2 meet at the root: nothing is derived.
    let (group, path) = update(3, 1, 2);
    let kem_output = path.nodes[1].encrypted_path_secret[0].kem_output.clone();
    let commit = seal(1, Some(path));
    let nack = complaint(&commit, 2, 0, &kem_output);
    assert!(matches!(
        verify(&group, &nack, &commit),
        Err(NackError::ValidPath)
    ));
}

/// A complaint of leaf 0 about an honest update of leaf 1 among five members. The leaves meet
/// at node 1, with nodes 3 and 7 above.
fn five_member_setup() -> (Group, MLSPlaintext, NackMsg) {
    let (group, path) = update(5, 1, 0);
    let kem_output = path.nodes[0].encrypted_path_secret[0].kem_output.clone();
    let commit = seal(1, Some(path));
    let nack = complaint(&commit, 0, 0, &kem_output);
    (group, commit, nack)
}

#[test]
fn honest_update_of_five_members_is_valid() {
    let (group, commit, nack) = five_member_setup();
    let parents: Vec<u64> = group.parent_keys.iter().map(|(n, _)| *n).collect();
    assert_eq!(parents, vec![1, 3, 7]);
    assert!(matches!(
        verify(&group, &nack, &commit),
        Err(NackError::ValidPath)
    ));
}

#[test]
fn unfit_secret_at_any_node_is_blamed() {
    for i in 0..3 {
        let (mut group, commit, nack) = five_member_setup();
        group.parent_keys[i].1[0] ^= 1;
        assert!(matches!(
            verify(&group, &nack, &commit),
            Ok(NackResult::PathSecretMismatch)
        ));
    }
}

#[test]
fn unfit_secret_at_root_of_three_members_is_blamed() {
    let (mut group, path) = three_member_setup();
    let kem_output = path.nodes[0].encrypted_path_secret[0].kem_output.clone();
    let commit = seal(1, Some(path));
    let nack = complaint(&commit, 0, 0, &kem_output);
    assert_eq!(group.parent_keys[1].0, 3);
    group.parent_keys[1].1 = public_key(&[8u8; 32]);
    assert!(matches!(
        verify(&group, &nack, &commit),
        Ok(NackResult::PathSecretMismatch)
    ));
}

#[test]
fn secret_of_another_parent_does_not_fit() {
    let (mut group, commit, nack) = five_member_setup();
    let top = group.parent_keys[2].1.clone();
    group.parent_keys[1].1 = top;
    assert!(matches!(
        verify(&group, &nack, &commit),
        Ok(NackResult::PathSecretMismatch)
    ));
}

#[test]
fn signature_time_and_attestation_cause_invalid_signature_only() {
    let (group, commit, nack) = sound_complaint();
    let refuse = |nack: &NackMsg| {
        let (mut group, commit, _) = sound_complaint();
        group.now = 1;
        verify(&group, nack, &commit)
    };
    assert!(matches!(
        verify(&group, &nack, &commit),
        Ok(NackResult::PathSecretMismatch)
    ));
    assert!(matches!(refuse(&nack), Err(NackError::InvalidSignature)));
    // An earlier reason for refusal stays the same, whatever the signature and the time.
    let mut wrong = complaint(&commit, 0, 0, b"other");
    assert!(matches!(
        verify(&group, &wrong, &commit),
        Err(NackError::InvalidProof)
    ));
    wrong.signature = vec![];
    assert!(matches!(
        verify(&group, &wrong, &commit),
        Err(NackError::InvalidProof)
    ));
    assert!(matches!(refuse(&wrong), Err(NackError::InvalidProof)));
}

#[test]
fn calls_get_what_the_complaint_is_about() {
    let (group, path) = update(5, 1, 0);
    let kem_output = path.nodes[0].encrypted_path_secret[0].kem_output.clone();
    let commit = seal(1, Some(path));
    let nack = complaint(&commit, 0, 0, &kem_output);
    let log: RefCell<Vec<Vec<u8>>> = RefCell::new(Vec::new());
    let crypto = GroupCrypto {
        hash: |cs: &CipherSuite, bytes: &Vec<u8>| {
            assert_eq!(*cs, SUITE);
            log.borrow_mut().push(bytes.clone());
            digest(&[&cs.id.to_le_bytes(), bytes])
        },
        verify_proof: |proof: &NackDleqProof, key: &Vec<u8>, kem: &Vec<u8>| {
            log.borrow_mut().push([&proof.encoded[..], &key[..], &kem[..]].concat());
            true
        },
        verify_package: |package: &KeyPackage, now: u64| {
            log.borrow_mut().push([&package.encoding[..], &[now as u8]].concat());
            Some(vec![42u8])
        },
        verify_signature: |key: &Vec<u8>, bytes: &Vec<u8>, signature: &Vec<u8>| {
            log.borrow_mut().push([&key[..], &bytes[..], &signature[..]].concat());
            true
        },
        decrypt_after_proof: |_: &NackDleqProof, key: &Vec<u8>, _: &HPKECiphertext, context: &[u8]| {
            log.borrow_mut().push([&key[..], context].concat());
            Some(vec![1u8, 2, 3])
        },
        expand_label: |cs: &CipherSuite,
                       secret: &PathSecret,
                       hash: &Vec<u8>,
                       label: &str,
                       context: &Vec<u8>,
                       length: usize| {
            assert_eq!(*cs, SUITE);
            assert!(hash.is_empty() && context.is_empty());
            assert_eq!(length, SECRET_SIZE);
            assert_eq!(label, "path");
            let mut next = secret.expose_secret().clone();
            next[0] += 1;
            PathSecret::new(next)
        },
        verify_node_private_key: |tree: &TreePublicKey, secret: &PathSecret, parent: ParentSize| {
            let key = group.parent_keys.iter().find(|(n, _)| *n == parent.0);
            assert_eq!(tree.node_key(NodeSize(parent.0)), key.map(|(_, key)| key));
            log.borrow_mut().push([&secret.expose_secret()[..], &[parent.0 as u8]].concat());
            true
        },
    };
    let result = nack.verify(&group.tree(), &commit, &crypto, 9, CONTEXT);
    assert!(matches!(result, Err(NackError::ValidPath)));
    let key = leaf_key(0);
    assert_eq!(
        *log.borrow(),
        vec![
            commit.encoding.clone(),
            [&nack.content.proof.encoded[..], &key[..], &kem_output[..]].concat(),
            [&identity_of(0)[..], &[9u8]].concat(),
            [&[42u8][..], &nack.content.encode()[..], &nack.signature[..]].concat(),
            [&key[..], CONTEXT].concat(),
            vec![1, 2, 3, 1],
            vec![2, 2, 3, 3],
            vec![3, 2, 3, 7],
        ]
    );
}

#[test]
fn content_is_encoded_field_by_field() {
    let content = NackMsgContent {
        sender: 0x0102_0304,
        commit_id: [7u8; 32],
        path_secret_index: 0xa0b0_c0d0,
        proof: NackDleqProof {
            encoded: vec![1, 2, 3],
        },
    };
    let mut expected = vec![4, 3, 2, 1];
    expected.extend_from_slice(&[7u8; 32]);
    expected.extend_from_slice(&[0xd0, 0xc0, 0xb0, 0xa0, 1, 2, 3]);
    assert_eq!(content.encode(), expected);
    let fields = (
        content.sender,
        content.commit_id,
        content.path_secret_index,
        [1u8, 2, 3],
    );
    assert_eq!(content.encode(), fields.encode());
}

#[test]
fn encodings_of_different_contents_differ() {
    let content = |sender: u32, id: u8, index: u32, proof: u8| {
        NackMsgContent {
            sender,
            commit_id: [id; 32],
            path_secret_index: index,
            proof: NackDleqProof {
                encoded: vec![proof],
            },
        }
        .encode()
    };
    let all = vec![
        content(0, 0, 0, 0),
        content(1, 0, 0, 0),
        content(0, 1, 0, 0),
        content(0, 0, 1, 0),
        content(0, 0, 0, 1),
    ];
    for (i, a) in all.iter().enumerate() {
        for (j, b) in all.iter().enumerate() {
            assert_eq!(a == b, i == j);
        }
    }
}

#[test]
fn commit_hash_of_another_length_does_not_match() {
    let (group, commit, nack) = sound_complaint();
    let hash = nack.content.commit_id.to_vec();
    let tree = group.tree();
    assert!(nack
        .affected_path_secret(&tree, &commit, &hash)
        .is_ok());
    assert!(matches!(
        nack.affected_path_secret(&tree, &commit, &hash[..31].to_vec()),
        Err(NackError::InvalidCommit)
    ));
    let key = nack.affected_node_key(&tree).expect("key");
    assert_eq!(*key, leaf_key(0));
}

#[test]
fn secret_gives_back_its_bytes() {
    let secret = PathSecret::new(vec![3, 1, 4]);
    assert_eq!(*secret.expose_secret(), vec![3, 1, 4]);
}
