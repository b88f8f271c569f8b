//! What holds of every verification of a complaint.
use crate::message::{HPKECiphertext, MLSPlaintext};
use crate::nack::{
    Answers, GroupCrypto, NackDleqProof, NackError, NackMsg, NackMsgContent, NackResult,
    PathAnswers, Timespec,
};
use crate::secret::PathSecret;
use crate::tree::{CipherSuite, KeyPackage, Node, TreePublicKey};
use crate::tree_math::ParentSize;
use vstd::prelude::*;

verus! {

/// Whether everything that a complaint rests on has been found in order: the sender is a
/// member, the commit is the one complained about and has sent the named path secret to a key
/// of the sender, the proof holds, and the sender is attested to and has signed the content.
pub open spec fn well_founded(
    nack: NackMsg,
    tree: TreePublicKey,
    commit: MLSPlaintext,
    answers: Answers,
) -> bool {
    &&& nack.names_path_secret(tree, commit, answers.commit_hash@)
    &&& answers.proof_holds
    &&& answers.identity is Some
    &&& answers.signature_holds
}

/// A complaint is judged on the disclosed secret if and only if everything that it rests on
/// is in order. It is then upheld, unless the secret decrypts and fits.
pub proof fn law_only_well_founded_complaints_are_judged(
    nack: NackMsg,
    tree: TreePublicKey,
    commit: MLSPlaintext,
    answers: Answers,
)
    ensures
        ({
            let outcome = nack.outcome(tree, commit, answers);
            let judged = well_founded(nack, tree, commit, answers);
            &&& (outcome is Ok || outcome == Err::<NackResult, NackError>(NackError::ValidPath))
                <==> judged
            &&& outcome == Ok::<NackResult, NackError>(NackResult::CannotDecrypt) <==> judged
                && answers.path_secret is None
            &&& outcome == Ok::<NackResult, NackError>(NackResult::PathSecretMismatch) <==> judged
                && answers.path_secret is Some && !answers.path.all_match()
            &&& outcome == Err::<NackResult, NackError>(NackError::ValidPath) <==> judged
                && answers.path_secret is Some && answers.path.all_match()
        }),
{
}

/// A complaint is turned down for the first of these reasons that there is: no member is at
/// the complaining leaf; the commit is another one or has not sent the named path secret; the
/// sender has no key of the given index; the proof does not hold; the sender is not attested
/// to or has not signed the content.
pub proof fn law_reasons_for_refusal(
    nack: NackMsg,
    tree: TreePublicKey,
    commit: MLSPlaintext,
    answers: Answers,
)
    ensures
        ({
            let outcome = nack.outcome(tree, commit, answers);
            let member = tree.package(nack.content.sender as nat) is Some;
            let commit_fits = answers.commit_hash@ == nack.content.commit_id@
                && nack.affected_secret(tree, commit) is Some;
            let key_found = nack.affected_key(tree) is Some;
            let signed = answers.identity is Some && answers.signature_holds;
            &&& outcome == Err::<NackResult, NackError>(NackError::InvalidSender) <==> !member
            &&& outcome == Err::<NackResult, NackError>(NackError::InvalidCommit) <==> member
                && !commit_fits
            &&& outcome == Err::<NackResult, NackError>(NackError::InvalidPath) <==> member
                && commit_fits && !key_found
            &&& outcome == Err::<NackResult, NackError>(NackError::InvalidProof) <==> member
                && commit_fits && key_found && !answers.proof_holds
            &&& outcome == Err::<NackResult, NackError>(NackError::InvalidSignature) <==> member
                && commit_fits && key_found && answers.proof_holds && !signed
        }),
{
}

/// A committer cannot complain about its own commit.
pub proof fn law_no_complaint_about_own_commit(
    nack: NackMsg,
    tree: TreePublicKey,
    commit: MLSPlaintext,
    answers: Answers,
)
    requires
        commit.sender == nack.content.sender,
    ensures
        nack.outcome(tree, commit, answers) == Err::<NackResult, NackError>(
            if tree.package(nack.content.sender as nat) is None {
                NackError::InvalidSender
            } else {
                NackError::InvalidCommit
            },
        ),
{
}

/// Nobody can complain about a commit that comes without a path.
pub proof fn law_no_complaint_without_path(
    nack: NackMsg,
    tree: TreePublicKey,
    commit: MLSPlaintext,
    answers: Answers,
)
    requires
        commit.path() is None,
    ensures
        nack.outcome(tree, commit, answers) == Err::<NackResult, NackError>(
            if tree.package(nack.content.sender as nat) is None {
                NackError::InvalidSender
            } else {
                NackError::InvalidCommit
            },
        ),
{
}

/// A member can complain about the first path secret sent for the common ancestor only, and
/// the proof is then held against the key in its own package.
pub proof fn law_complaint_is_about_own_key(
    nack: NackMsg,
    tree: TreePublicKey,
    commit: MLSPlaintext,
    answers: Answers,
)
    requires
        crate::tree::is_tree(tree.nodes()),
        nack.names_path_secret(tree, commit, answers.commit_hash@),
    ensures
        nack.content.path_secret_index == 0,
        nack.affected_key(tree) == Some(tree.package(nack.content.sender as nat)->0.init_key),
{
}

/// The signed bytes belong to one content only, so that a signature binds every field.
pub proof fn law_encoding_is_injective(a: NackMsgContent, b: NackMsgContent)
    requires
        a.encoding() == b.encoding(),
    ensures
        a.sender == b.sender,
        a.commit_id@ == b.commit_id@,
        a.path_secret_index == b.path_secret_index,
        a.proof.encoded@ == b.proof.encoded@,
{
    let x = a.encoding();
    let y = b.encoding();
    assert(a.commit_id@.len() == 32);
    assert(b.commit_id@.len() == 32);
    assert(crate::codec::u32_bytes(a.sender) =~= x.subrange(0, 4));
    assert(crate::codec::u32_bytes(b.sender) =~= y.subrange(0, 4));
    assert(a.commit_id@ =~= x.subrange(4, 36));
    assert(b.commit_id@ =~= y.subrange(4, 36));
    assert(crate::codec::u32_bytes(a.path_secret_index) =~= x.subrange(36, 40));
    assert(crate::codec::u32_bytes(b.path_secret_index) =~= y.subrange(36, 40));
    assert(a.proof.encoded@ =~= x.skip(40));
    assert(b.proof.encoded@ =~= y.skip(40));
    crate::codec::lemma_u32_bytes_injective(a.sender, b.sender);
    crate::codec::lemma_u32_bytes_injective(a.path_secret_index, b.path_secret_index);
}

/// Whether the check of a path secret against the key that a tree has at a parent may return
/// `holds`.
pub open spec fn may_say<H, P, K, S, D, E, V>(
    crypto: GroupCrypto<H, P, K, S, D, E, V>,
    tree: TreePublicKey,
    secret: PathSecret,
    parent: nat,
    holds: bool,
) -> bool where
    H: Fn(&CipherSuite, &Vec<u8>) -> Vec<u8>,
    P: Fn(&NackDleqProof, &Vec<u8>, &Vec<u8>) -> bool,
    K: Fn(&KeyPackage, Timespec) -> Option<Vec<u8>>,
    S: Fn(&Vec<u8>, &Vec<u8>, &Vec<u8>) -> bool,
    D: Fn(&NackDleqProof, &Vec<u8>, &HPKECiphertext, &[u8]) -> Option<Vec<u8>>,
    E: Fn(&CipherSuite, &PathSecret, &Vec<u8>, &str, &Vec<u8>, usize) -> PathSecret,
    V: Fn(&TreePublicKey, &PathSecret, ParentSize) -> bool,
 {
    call_ensures(
        crypto.verify_node_private_key,
        (&tree, &secret, ParentSize(parent as u64)),
        holds,
    )
}

/// Whether the check of every path secret against the key of its own node may return yes: of
/// the decrypted secret at the common ancestor, and of each derived secret at its parent.
pub open spec fn every_secret_fits<H, P, K, S, D, E, V>(
    crypto: GroupCrypto<H, P, K, S, D, E, V>,
    nack: NackMsg,
    tree: TreePublicKey,
    commit: MLSPlaintext,
    path: PathAnswers,
) -> bool where
    H: Fn(&CipherSuite, &Vec<u8>) -> Vec<u8>,
    P: Fn(&NackDleqProof, &Vec<u8>, &Vec<u8>) -> bool,
    K: Fn(&KeyPackage, Timespec) -> Option<Vec<u8>>,
    S: Fn(&Vec<u8>, &Vec<u8>, &Vec<u8>) -> bool,
    D: Fn(&NackDleqProof, &Vec<u8>, &HPKECiphertext, &[u8]) -> Option<Vec<u8>>,
    E: Fn(&CipherSuite, &PathSecret, &Vec<u8>, &str, &Vec<u8>, usize) -> PathSecret,
    V: Fn(&TreePublicKey, &PathSecret, ParentSize) -> bool,
 {
    &&& may_say(
        crypto,
        tree,
        path.overlap_secret,
        crate::tree_math::common_ancestor(
                commit.sender as nat,
                nack.content.sender as nat,
            )->0,
        true,
    )
    &&& forall|i: int|
        0 <= i < path.secrets.len() ==> may_say(
            crypto,
            tree,
            #[trigger] path.secrets[i],
            nack.overlap_path(tree, commit)[i],
            true,
        )
}

/// No problem is found in a well-founded complaint, whose path secret decrypts, if and only if
/// every path secret fits its own node. Otherwise the commit is blamed. This takes a check of
/// a secret against a node that does not return both yes and no.
pub proof fn law_valid_path_iff_every_secret_fits<H, P, K, S, D, E, V>(
    crypto: GroupCrypto<H, P, K, S, D, E, V>,
    nack: NackMsg,
    tree: TreePublicKey,
    commit: MLSPlaintext,
    now: Timespec,
    encoded_ctx: &[u8],
    answers: Answers,
) where
    H: Fn(&CipherSuite, &Vec<u8>) -> Vec<u8>,
    P: Fn(&NackDleqProof, &Vec<u8>, &Vec<u8>) -> bool,
    K: Fn(&KeyPackage, Timespec) -> Option<Vec<u8>>,
    S: Fn(&Vec<u8>, &Vec<u8>, &Vec<u8>) -> bool,
    D: Fn(&NackDleqProof, &Vec<u8>, &HPKECiphertext, &[u8]) -> Option<Vec<u8>>,
    E: Fn(&CipherSuite, &PathSecret, &Vec<u8>, &str, &Vec<u8>, usize) -> PathSecret,
    V: Fn(&TreePublicKey, &PathSecret, ParentSize) -> bool,

    requires
        crypto.answers(nack, tree, commit, now, encoded_ctx, answers),
        well_founded(nack, tree, commit, answers),
        answers.path_secret is Some,
        forall|secret: PathSecret, parent: nat|
            !(#[trigger] may_say(crypto, tree, secret, parent, true) && may_say(
                crypto,
                tree,
                secret,
                parent,
                false,
            )),
    ensures
        every_secret_fits(crypto, nack, tree, commit, answers.path) <==> nack.outcome(tree, commit, answers)
            == Err::<NackResult, NackError>(NackError::ValidPath),
        !every_secret_fits(crypto, nack, tree, commit, answers.path) <==> nack.outcome(tree, commit, answers)
            == Ok::<NackResult, NackError>(NackResult::PathSecretMismatch),
{
    let path = answers.path;
    let parents = nack.overlap_path(tree, commit);
    if path.all_match() {
        assert forall|i: int| 0 <= i < path.secrets.len() implies may_say(
            crypto,
            tree,
            #[trigger] path.secrets[i],
            parents[i],
            true,
        ) by {
            assert(path.parents_match[i] == true);
        }
    } else if path.overlap_matches {
        let i = choose|i: int| 0 <= i < path.parents_match.len() && path.parents_match[i] != true;
        assert(may_say(crypto, tree, path.secrets[i], parents[i], false));
        assert(!may_say(crypto, tree, path.secrets[i], parents[i], true));
    } else {
        assert(may_say(
            crypto,
            tree,
            path.overlap_secret,
            crate::tree_math::common_ancestor(
                commit.sender as nat,
                nack.content.sender as nat,
            )->0,
            false,
        ));
    }
}

/// A commit is not blamed where no check says no: not that of the decrypted path secret at the
/// common ancestor, nor that of a derived secret at its parent.
pub proof fn law_fitting_secrets_are_not_blamed<H, P, K, S, D, E, V>(
    crypto: GroupCrypto<H, P, K, S, D, E, V>,
    nack: NackMsg,
    tree: TreePublicKey,
    commit: MLSPlaintext,
    now: Timespec,
    encoded_ctx: &[u8],
    answers: Answers,
) where
    H: Fn(&CipherSuite, &Vec<u8>) -> Vec<u8>,
    P: Fn(&NackDleqProof, &Vec<u8>, &Vec<u8>) -> bool,
    K: Fn(&KeyPackage, Timespec) -> Option<Vec<u8>>,
    S: Fn(&Vec<u8>, &Vec<u8>, &Vec<u8>) -> bool,
    D: Fn(&NackDleqProof, &Vec<u8>, &HPKECiphertext, &[u8]) -> Option<Vec<u8>>,
    E: Fn(&CipherSuite, &PathSecret, &Vec<u8>, &str, &Vec<u8>, usize) -> PathSecret,
    V: Fn(&TreePublicKey, &PathSecret, ParentSize) -> bool,

    requires
        crypto.answers(nack, tree, commit, now, encoded_ctx, answers),
        answers.path_secret is Some,
        !may_say(
            crypto,
            tree,
            answers.path.overlap_secret,
            crate::tree_math::common_ancestor(
                commit.sender as nat,
                nack.content.sender as nat,
            )->0,
            false,
        ),
        forall|i: int|
            0 <= i < answers.path.secrets.len() ==> !may_say(
                crypto,
                tree,
                #[trigger] answers.path.secrets[i],
                nack.overlap_path(tree, commit)[i],
                false,
            ),
    ensures
        nack.outcome(tree, commit, answers) is Err,
        well_founded(nack, tree, commit, answers) ==> nack.outcome(tree, commit, answers) == Err::<
            NackResult,
            NackError,
        >(NackError::ValidPath),
{
    if well_founded(nack, tree, commit, answers) {
        assert forall|i: int| 0 <= i < answers.path.parents_match.len() implies
            #[trigger] answers.path.parents_match[i] == true by {
            assert(!may_say(
                crypto,
                tree,
                answers.path.secrets[i],
                nack.overlap_path(tree, commit)[i],
                false,
            ));
        }
    }
}

/// Where the common ancestor is the root, a commit whose decrypted path secret fits the root
/// is not blamed.
pub proof fn law_fitting_root_is_enough<H, P, K, S, D, E, V>(
    crypto: GroupCrypto<H, P, K, S, D, E, V>,
    nack: NackMsg,
    tree: TreePublicKey,
    commit: MLSPlaintext,
    now: Timespec,
    encoded_ctx: &[u8],
    answers: Answers,
) where
    H: Fn(&CipherSuite, &Vec<u8>) -> Vec<u8>,
    P: Fn(&NackDleqProof, &Vec<u8>, &Vec<u8>) -> bool,
    K: Fn(&KeyPackage, Timespec) -> Option<Vec<u8>>,
    S: Fn(&Vec<u8>, &Vec<u8>, &Vec<u8>) -> bool,
    D: Fn(&NackDleqProof, &Vec<u8>, &HPKECiphertext, &[u8]) -> Option<Vec<u8>>,
    E: Fn(&CipherSuite, &PathSecret, &Vec<u8>, &str, &Vec<u8>, usize) -> PathSecret,
    V: Fn(&TreePublicKey, &PathSecret, ParentSize) -> bool,

    requires
        crypto.answers(nack, tree, commit, now, encoded_ctx, answers),
        nack.overlap_path(tree, commit).len() == 0,
        answers.path_secret is Some,
        !may_say(
            crypto,
            tree,
            answers.path.overlap_secret,
            crate::tree_math::common_ancestor(
                commit.sender as nat,
                nack.content.sender as nat,
            )->0,
            false,
        ),
    ensures
        nack.outcome(tree, commit, answers) is Err,
        well_founded(nack, tree, commit, answers) ==> nack.outcome(tree, commit, answers) == Err::<
            NackResult,
            NackError,
        >(NackError::ValidPath),
{
}

/// A commit is blamed where a path secret does not fit its own node, be it the decrypted secret
/// at the common ancestor or a derived secret at any parent up to the root.
pub proof fn law_unfit_secret_is_blamed<H, P, K, S, D, E, V>(
    crypto: GroupCrypto<H, P, K, S, D, E, V>,
    nack: NackMsg,
    tree: TreePublicKey,
    commit: MLSPlaintext,
    now: Timespec,
    encoded_ctx: &[u8],
    answers: Answers,
) where
    H: Fn(&CipherSuite, &Vec<u8>) -> Vec<u8>,
    P: Fn(&NackDleqProof, &Vec<u8>, &Vec<u8>) -> bool,
    K: Fn(&KeyPackage, Timespec) -> Option<Vec<u8>>,
    S: Fn(&Vec<u8>, &Vec<u8>, &Vec<u8>) -> bool,
    D: Fn(&NackDleqProof, &Vec<u8>, &HPKECiphertext, &[u8]) -> Option<Vec<u8>>,
    E: Fn(&CipherSuite, &PathSecret, &Vec<u8>, &str, &Vec<u8>, usize) -> PathSecret,
    V: Fn(&TreePublicKey, &PathSecret, ParentSize) -> bool,

    requires
        crypto.answers(nack, tree, commit, now, encoded_ctx, answers),
        well_founded(nack, tree, commit, answers),
        answers.path_secret is Some,
        !every_secret_fits(crypto, nack, tree, commit, answers.path),
    ensures
        nack.outcome(tree, commit, answers) == Ok::<NackResult, NackError>(
            NackResult::PathSecretMismatch,
        ),
{
    let path = answers.path;
    if path.all_match() {
        assert forall|i: int| 0 <= i < path.secrets.len() implies may_say(
            crypto,
            tree,
            #[trigger] path.secrets[i],
            nack.overlap_path(tree, commit)[i],
            true,
        ) by {
            assert(path.parents_match[i] == true);
        }
    }
}

/// Whether two optional byte strings are the same.
pub open spec fn same_bytes(a: Option<Vec<u8>>, b: Option<Vec<u8>>) -> bool {
    match (a, b) {
        (Some(a), Some(b)) => a@ == b@,
        (None, None) => true,
        _ => false,
    }
}

/// Whether the calls on the commit, the proof and the secrets return the same whenever they
/// are made on the same bytes.
pub open spec fn repeatable<H, P, K, S, D, E, V>(
    crypto: GroupCrypto<H, P, K, S, D, E, V>,
) -> bool where
    H: Fn(&CipherSuite, &Vec<u8>) -> Vec<u8>,
    P: Fn(&NackDleqProof, &Vec<u8>, &Vec<u8>) -> bool,
    K: Fn(&KeyPackage, Timespec) -> Option<Vec<u8>>,
    S: Fn(&Vec<u8>, &Vec<u8>, &Vec<u8>) -> bool,
    D: Fn(&NackDleqProof, &Vec<u8>, &HPKECiphertext, &[u8]) -> Option<Vec<u8>>,
    E: Fn(&CipherSuite, &PathSecret, &Vec<u8>, &str, &Vec<u8>, usize) -> PathSecret,
    V: Fn(&TreePublicKey, &PathSecret, ParentSize) -> bool,
 {
    &&& forall|cs: &CipherSuite, bytes: &Vec<u8>, a: Vec<u8>, b: Vec<u8>|
        #![trigger call_ensures(crypto.hash, (cs, bytes), a), call_ensures(crypto.hash, (cs, bytes), b)]
        call_ensures(crypto.hash, (cs, bytes), a) && call_ensures(crypto.hash, (cs, bytes), b)
            ==> a@ == b@
    &&& forall|proof: &NackDleqProof, key: &Vec<u8>, kem_output: &Vec<u8>|
        !(#[trigger] call_ensures(crypto.verify_proof, (proof, key, kem_output), true)
            && #[trigger] call_ensures(crypto.verify_proof, (proof, key, kem_output), false))
    &&& forall|
        proof: &NackDleqProof,
        key: &Vec<u8>,
        secret: &HPKECiphertext,
        ctx_a: &[u8],
        a: Option<Vec<u8>>,
        ctx_b: &[u8],
        b: Option<Vec<u8>>,
    |
        #![trigger call_ensures(crypto.decrypt_after_proof, (proof, key, secret, ctx_a), a), call_ensures(crypto.decrypt_after_proof, (proof, key, secret, ctx_b), b)]
        call_ensures(crypto.decrypt_after_proof, (proof, key, secret, ctx_a), a) && call_ensures(
            crypto.decrypt_after_proof,
            (proof, key, secret, ctx_b),
            b,
        ) && ctx_a@ == ctx_b@ ==> same_bytes(a, b)
    &&& forall|
        cs: CipherSuite,
        from_a: PathSecret,
        to_a: PathSecret,
        from_b: PathSecret,
        to_b: PathSecret,
    |
        #![trigger crypto.next_secret(cs, from_a, to_a), crypto.next_secret(cs, from_b, to_b)]
        crypto.next_secret(cs, from_a, to_a) && crypto.next_secret(cs, from_b, to_b)
            && from_a@ == from_b@ ==> to_a@ == to_b@
    &&& forall|
        tree: &TreePublicKey,
        secret_a: &PathSecret,
        a: bool,
        secret_b: &PathSecret,
        b: bool,
        parent: ParentSize,
    |
        #![trigger call_ensures(crypto.verify_node_private_key, (tree, secret_a, parent), a), call_ensures(crypto.verify_node_private_key, (tree, secret_b, parent), b)]
        call_ensures(crypto.verify_node_private_key, (tree, secret_a, parent), a) && call_ensures(
            crypto.verify_node_private_key,
            (tree, secret_b, parent),
            b,
        ) && secret_a@ == secret_b@ ==> a == b
}

/// Whether each call returns the same whenever it is made on the same bytes.
pub open spec fn deterministic<H, P, K, S, D, E, V>(
    crypto: GroupCrypto<H, P, K, S, D, E, V>,
) -> bool where
    H: Fn(&CipherSuite, &Vec<u8>) -> Vec<u8>,
    P: Fn(&NackDleqProof, &Vec<u8>, &Vec<u8>) -> bool,
    K: Fn(&KeyPackage, Timespec) -> Option<Vec<u8>>,
    S: Fn(&Vec<u8>, &Vec<u8>, &Vec<u8>) -> bool,
    D: Fn(&NackDleqProof, &Vec<u8>, &HPKECiphertext, &[u8]) -> Option<Vec<u8>>,
    E: Fn(&CipherSuite, &PathSecret, &Vec<u8>, &str, &Vec<u8>, usize) -> PathSecret,
    V: Fn(&TreePublicKey, &PathSecret, ParentSize) -> bool,
 {
    &&& repeatable(crypto)
    &&& forall|package: &KeyPackage, now: Timespec, a: Option<Vec<u8>>, b: Option<Vec<u8>>|
        #![trigger call_ensures(crypto.verify_package, (package, now), a), call_ensures(crypto.verify_package, (package, now), b)]
        call_ensures(crypto.verify_package, (package, now), a) && call_ensures(
            crypto.verify_package,
            (package, now),
            b,
        ) ==> same_bytes(a, b)
    &&& forall|
        key_a: &Vec<u8>,
        bytes_a: &Vec<u8>,
        a: bool,
        key_b: &Vec<u8>,
        bytes_b: &Vec<u8>,
        b: bool,
        signature: &Vec<u8>,
    |
        #![trigger call_ensures(crypto.verify_signature, (key_a, bytes_a, signature), a), call_ensures(crypto.verify_signature, (key_b, bytes_b, signature), b)]
        {
            &&& call_ensures(crypto.verify_signature, (key_a, bytes_a, signature), a)
            &&& call_ensures(crypto.verify_signature, (key_b, bytes_b, signature), b)
            &&& key_a@ == key_b@
            &&& bytes_a@ == bytes_b@
        } ==> a == b
}

/// Whether two verifiers make the same calls on the commit, the proof and the secrets. They may
/// check packages and signatures in different ways.
pub open spec fn share_calls<H, P, K1, K2, S1, S2, D, E, V>(
    first: GroupCrypto<H, P, K1, S1, D, E, V>,
    second: GroupCrypto<H, P, K2, S2, D, E, V>,
) -> bool where
    H: Fn(&CipherSuite, &Vec<u8>) -> Vec<u8>,
    P: Fn(&NackDleqProof, &Vec<u8>, &Vec<u8>) -> bool,
    K1: Fn(&KeyPackage, Timespec) -> Option<Vec<u8>>,
    K2: Fn(&KeyPackage, Timespec) -> Option<Vec<u8>>,
    S1: Fn(&Vec<u8>, &Vec<u8>, &Vec<u8>) -> bool,
    S2: Fn(&Vec<u8>, &Vec<u8>, &Vec<u8>) -> bool,
    D: Fn(&NackDleqProof, &Vec<u8>, &HPKECiphertext, &[u8]) -> Option<Vec<u8>>,
    E: Fn(&CipherSuite, &PathSecret, &Vec<u8>, &str, &Vec<u8>, usize) -> PathSecret,
    V: Fn(&TreePublicKey, &PathSecret, ParentSize) -> bool,
 {
    &&& first.hash == second.hash
    &&& first.verify_proof == second.verify_proof
    &&& first.decrypt_after_proof == second.decrypt_after_proof
    &&& first.expand_label == second.expand_label
    &&& first.verify_node_private_key == second.verify_node_private_key
}

/// Two chains of secrets that start from the same bytes stay the same.
proof fn lemma_same_chain<H, P, K1, K2, S1, S2, D, E, V>(
    first: GroupCrypto<H, P, K1, S1, D, E, V>,
    second: GroupCrypto<H, P, K2, S2, D, E, V>,
    cs: CipherSuite,
    start_a: PathSecret,
    a: Seq<PathSecret>,
    start_b: PathSecret,
    b: Seq<PathSecret>,
    i: int,
) where
    H: Fn(&CipherSuite, &Vec<u8>) -> Vec<u8>,
    P: Fn(&NackDleqProof, &Vec<u8>, &Vec<u8>) -> bool,
    K1: Fn(&KeyPackage, Timespec) -> Option<Vec<u8>>,
    K2: Fn(&KeyPackage, Timespec) -> Option<Vec<u8>>,
    S1: Fn(&Vec<u8>, &Vec<u8>, &Vec<u8>) -> bool,
    S2: Fn(&Vec<u8>, &Vec<u8>, &Vec<u8>) -> bool,
    D: Fn(&NackDleqProof, &Vec<u8>, &HPKECiphertext, &[u8]) -> Option<Vec<u8>>,
    E: Fn(&CipherSuite, &PathSecret, &Vec<u8>, &str, &Vec<u8>, usize) -> PathSecret,
    V: Fn(&TreePublicKey, &PathSecret, ParentSize) -> bool,

    requires
        repeatable(first),
        share_calls(first, second),
        first.secret_chain(cs, start_a, a),
        second.secret_chain(cs, start_b, b),
        start_a@ == start_b@,
        0 <= i < a.len(),
        a.len() == b.len(),
    ensures
        a[i]@ == b[i]@,
    decreases i,
{
    if i > 0 {
        lemma_same_chain(first, second, cs, start_a, a, start_b, b, i - 1);
    }
    let from_a = if i == 0 {
        start_a
    } else {
        a[i - 1]
    };
    let from_b = if i == 0 {
        start_b
    } else {
        b[i - 1]
    };
    assert(first.next_secret(cs, from_a, a[i]));
    assert(second.next_secret(cs, from_b, b[i]));
    assert(first.next_secret(cs, from_b, b[i]));
}

/// Two checks of one path secret come out the same.
proof fn lemma_same_path_outcome<H, P, K1, K2, S1, S2, D, E, V>(
    first: GroupCrypto<H, P, K1, S1, D, E, V>,
    second: GroupCrypto<H, P, K2, S2, D, E, V>,
    tree: TreePublicKey,
    path_secret: Seq<u8>,
    node: nat,
    overlap_path: Seq<nat>,
    a: PathAnswers,
    b: PathAnswers,
) where
    H: Fn(&CipherSuite, &Vec<u8>) -> Vec<u8>,
    P: Fn(&NackDleqProof, &Vec<u8>, &Vec<u8>) -> bool,
    K1: Fn(&KeyPackage, Timespec) -> Option<Vec<u8>>,
    K2: Fn(&KeyPackage, Timespec) -> Option<Vec<u8>>,
    S1: Fn(&Vec<u8>, &Vec<u8>, &Vec<u8>) -> bool,
    S2: Fn(&Vec<u8>, &Vec<u8>, &Vec<u8>) -> bool,
    D: Fn(&NackDleqProof, &Vec<u8>, &HPKECiphertext, &[u8]) -> Option<Vec<u8>>,
    E: Fn(&CipherSuite, &PathSecret, &Vec<u8>, &str, &Vec<u8>, usize) -> PathSecret,
    V: Fn(&TreePublicKey, &PathSecret, ParentSize) -> bool,

    requires
        repeatable(first),
        share_calls(first, second),
        first.path_answers(tree, path_secret, node, overlap_path, a),
        second.path_answers(tree, path_secret, node, overlap_path, b),
    ensures
        a.all_match() == b.all_match(),
{
    assert forall|i: int|
        0 <= i < a.parents_match.len() && i < b.parents_match.len() && a.overlap_matches
            && b.overlap_matches implies #[trigger] a.parents_match[i] == b.parents_match[i] by {
        lemma_same_chain(
            first,
            second,
            tree.suite(),
            a.overlap_secret,
            a.secrets,
            b.overlap_secret,
            b.secrets,
            i,
        );
        assert(call_ensures(
            second.verify_node_private_key,
            (&tree, &b.secrets[i], ParentSize(overlap_path[i] as u64)),
            b.parents_match[i],
        ));
    }
    if a.overlap_matches && b.overlap_matches {
        let n = a.parents_match.len();
        let m = b.parents_match.len();
        if n < m {
            assert(a.parents_match[n - 1] == false);
            assert(b.parents_match[n - 1] == false);
        } else if m < n {
            assert(b.parents_match[m - 1] == false);
            assert(a.parents_match[m - 1] == false);
        } else {
            assert(a.parents_match =~= b.parents_match);
        }
    }
}

/// Signature, attestation and time can cause `InvalidSignature` and nothing else, and the group
/// context can only decide among the judgements on the disclosed secret.
///
/// Of two complaints of the same content about one commit, let neither be turned down for its
/// signature, whatever the signatures, the ways to check packages and signatures, the times and
/// the contexts. If one is turned down for another reason, then so is the other. If the
/// contexts are the same, then so are the outcomes.
pub proof fn law_signature_and_context_decide_nothing_else<H, P, K1, K2, S1, S2, D, E, V>(
    first: GroupCrypto<H, P, K1, S1, D, E, V>,
    second: GroupCrypto<H, P, K2, S2, D, E, V>,
    a: NackMsg,
    b: NackMsg,
    tree: TreePublicKey,
    commit: MLSPlaintext,
    now_a: Timespec,
    now_b: Timespec,
    ctx_a: &[u8],
    ctx_b: &[u8],
    answers_a: Answers,
    answers_b: Answers,
) where
    H: Fn(&CipherSuite, &Vec<u8>) -> Vec<u8>,
    P: Fn(&NackDleqProof, &Vec<u8>, &Vec<u8>) -> bool,
    K1: Fn(&KeyPackage, Timespec) -> Option<Vec<u8>>,
    K2: Fn(&KeyPackage, Timespec) -> Option<Vec<u8>>,
    S1: Fn(&Vec<u8>, &Vec<u8>, &Vec<u8>) -> bool,
    S2: Fn(&Vec<u8>, &Vec<u8>, &Vec<u8>) -> bool,
    D: Fn(&NackDleqProof, &Vec<u8>, &HPKECiphertext, &[u8]) -> Option<Vec<u8>>,
    E: Fn(&CipherSuite, &PathSecret, &Vec<u8>, &str, &Vec<u8>, usize) -> PathSecret,
    V: Fn(&TreePublicKey, &PathSecret, ParentSize) -> bool,

    requires
        repeatable(first),
        share_calls(first, second),
        a.content == b.content,
        first.answers(a, tree, commit, now_a, ctx_a, answers_a),
        second.answers(b, tree, commit, now_b, ctx_b, answers_b),
        a.outcome(tree, commit, answers_a) != Err::<NackResult, NackError>(
            NackError::InvalidSignature,
        ),
        b.outcome(tree, commit, answers_b) != Err::<NackResult, NackError>(
            NackError::InvalidSignature,
        ),
    ensures
        ({
            let outcome_a = a.outcome(tree, commit, answers_a);
            let outcome_b = b.outcome(tree, commit, answers_b);
            let valid = Err::<NackResult, NackError>(NackError::ValidPath);
            &&& outcome_a is Err && outcome_a != valid ==> outcome_b == outcome_a
            &&& outcome_b is Err && outcome_b != valid ==> outcome_a == outcome_b
            &&& ctx_a@ == ctx_b@ ==> outcome_a == outcome_b
        }),
{
    if a.names_path_secret(tree, commit, answers_a.commit_hash@) && answers_a.path_secret is Some
        && answers_b.path_secret is Some && ctx_a@ == ctx_b@ && answers_a.proof_holds
        && answers_b.proof_holds {
        lemma_same_path_outcome(
            first,
            second,
            tree,
            answers_a.path_secret->0@,
            crate::tree_math::common_ancestor(commit.sender as nat, a.content.sender as nat)->0,
            a.overlap_path(tree, commit),
            answers_a.path,
            answers_b.path,
        );
    }
}

/// Members that hold the same tree, commit and group context come to the same outcome about a
/// complaint at the same time, if the calls depend on nothing but their arguments.
pub proof fn law_verifiers_agree<H, P, K, S, D, E, V>(
    crypto: GroupCrypto<H, P, K, S, D, E, V>,
    nack: NackMsg,
    tree: TreePublicKey,
    commit: MLSPlaintext,
    now: Timespec,
    encoded_ctx: &[u8],
    a: Answers,
    b: Answers,
) where
    H: Fn(&CipherSuite, &Vec<u8>) -> Vec<u8>,
    P: Fn(&NackDleqProof, &Vec<u8>, &Vec<u8>) -> bool,
    K: Fn(&KeyPackage, Timespec) -> Option<Vec<u8>>,
    S: Fn(&Vec<u8>, &Vec<u8>, &Vec<u8>) -> bool,
    D: Fn(&NackDleqProof, &Vec<u8>, &HPKECiphertext, &[u8]) -> Option<Vec<u8>>,
    E: Fn(&CipherSuite, &PathSecret, &Vec<u8>, &str, &Vec<u8>, usize) -> PathSecret,
    V: Fn(&TreePublicKey, &PathSecret, ParentSize) -> bool,

    requires
        deterministic(crypto),
        crypto.answers(nack, tree, commit, now, encoded_ctx, a),
        crypto.answers(nack, tree, commit, now, encoded_ctx, b),
    ensures
        nack.outcome(tree, commit, a) == nack.outcome(tree, commit, b),
{
    if well_founded(nack, tree, commit, a) && well_founded(nack, tree, commit, b)
        && a.path_secret is Some && b.path_secret is Some {
        lemma_same_path_outcome(
            crypto,
            crypto,
            tree,
            a.path_secret->0@,
            crate::tree_math::common_ancestor(
                commit.sender as nat,
                nack.content.sender as nat,
            )->0,
            nack.overlap_path(tree, commit),
            a.path,
            b.path,
        );
    }
}

/// The layout of the signed bytes, whatever the length of the proof: the sender in the first
/// four bytes, the lowest first, then the 32 bytes of the commit's hash, then the index in four
/// bytes, the lowest first, and then the proof.
pub proof fn law_encoding_layout(content: NackMsgContent)
    ensures
        ({
            let bytes = content.encoding();
            &&& bytes.len() == 40 + content.proof.encoded@.len()
            &&& content.sender == bytes[0] + 0x100 * bytes[1] + 0x1_0000 * bytes[2] + 0x100_0000
                * bytes[3]
            &&& bytes.subrange(4, 36) == content.commit_id@
            &&& content.path_secret_index == bytes[36] + 0x100 * bytes[37] + 0x1_0000 * bytes[38]
                + 0x100_0000 * bytes[39]
            &&& bytes.skip(40) == content.proof.encoded@
        }),
{
    crate::codec::law_u32_bytes_add_up(content.sender);
    crate::codec::law_u32_bytes_add_up(content.path_secret_index);
    let bytes = content.encoding();
    assert(content.commit_id@.len() == 32);
    assert(bytes.subrange(4, 36) =~= content.commit_id@);
    assert(bytes.skip(40) =~= content.proof.encoded@);
}

/// The affected path secret is found where the common ancestor comes on the committer's direct
/// path within the tree: the commit has one entry for each node of that path, and the index
/// counts the secrets in the entry. There is none without a path, nor about the committer's own
/// leaf, nor where the entry or the index is out of range.
pub proof fn law_affected_secret_place(
    nack: NackMsg,
    tree: TreePublicKey,
    commit: MLSPlaintext,
    leaves: nat,
    secret: HPKECiphertext,
)
    requires
        tree.nodes().len() == 2 * leaves - 1,
        leaves <= u32::MAX,
    ensures
        nack.affected_secret(tree, commit) == Some(secret) <==> {
            let above = crate::tree_math::direct_path(commit.sender as nat, leaves);
            &&& commit.commit is Some
            &&& commit.commit->0.path is Some
            &&& exists|i: int|
                {
                    &&& 0 <= i < above.len()
                    &&& Some(#[trigger] above[i]) == crate::tree_math::common_ancestor(
                        commit.sender as nat,
                        nack.content.sender as nat,
                    )
                    &&& i < commit.commit->0.path->0.nodes@.len()
                    &&& nack.content.path_secret_index
                        < commit.commit->0.path->0.nodes@[i].encrypted_path_secret@.len()
                    &&& secret
                        == commit.commit->0.path->0.nodes@[i].encrypted_path_secret@[nack.content.path_secret_index as int]
                }
        },
{
    let above = crate::tree_math::direct_path(commit.sender as nat, leaves);
    if commit.sender < leaves {
        crate::tree_math::law_direct_path_holds_parents(commit.sender as nat, leaves);
    }
    if nack.affected_secret(tree, commit) == Some(secret) {
        let node = crate::tree_math::common_ancestor(
            commit.sender as nat,
            nack.content.sender as nat,
        )->0;
        assert(above[above.index_of(node)] == node);
    }
}

/// A complaint names a key if and only if its index is the first and its sender is a member:
/// the key in the package at the sender's own leaf.
pub proof fn law_affected_key_is_senders_own(nack: NackMsg, tree: TreePublicKey, key: Vec<u8>)
    ensures
        nack.affected_key(tree) == Some(key) <==> {
            let node = 2 * nack.content.sender;
            &&& nack.content.path_secret_index == 0
            &&& node < tree.nodes().len()
            &&& tree.nodes()[node] matches Node::Leaf(Some(package))
            &&& package.init_key == key
        },
{
}

/// The direct path of the sender consists of a part below the common ancestor, the ancestor,
/// and the parents that derived secrets are held against. Nothing above the ancestor is left
/// out, up to the root, on whichever side of the committer the sender is.
pub proof fn law_overlap_goes_up_to_root(
    nack: NackMsg,
    tree: TreePublicKey,
    commit: MLSPlaintext,
    leaves: nat,
)
    requires
        tree.nodes().len() == 2 * leaves - 1,
        leaves <= u32::MAX,
        commit.sender < leaves,
        nack.content.sender < leaves,
        commit.sender != nack.content.sender,
    ensures
        ({
            let above = crate::tree_math::direct_path(nack.content.sender as nat, leaves);
            let checked = nack.overlap_path(tree, commit);
            exists|place: int|
                {
                    &&& 0 <= place < above.len()
                    &&& Some(#[trigger] above[place]) == crate::tree_math::common_ancestor(
                        commit.sender as nat,
                        nack.content.sender as nat,
                    )
                    &&& above == above.take(place) + seq![above[place]] + checked
                    &&& checked.len() == 0 <==> above[place] == above.last()
                    &&& checked.len() > 0 ==> checked.last() == above.last()
                }
        }),
{
    let x = commit.sender as nat;
    let y = nack.content.sender as nat;
    let above = crate::tree_math::direct_path(y, leaves);
    crate::tree_math::law_direct_path_holds_parents(y, leaves);
    crate::tree_math::law_paths_meet_at_common_ancestor(x, y, leaves);
    let node = crate::tree_math::common_ancestor(x, y)->0;
    let place = above.index_of(node);
    assert(above[place] == node);
    assert(above =~= above.take(place) + seq![above[place]] + nack.overlap_path(tree, commit));
}

/// A complaint comes from no member if and only if its leaf's node is outside the tree or is
/// blank.
pub proof fn law_sender_is_refused_outside_tree(
    nack: NackMsg,
    tree: TreePublicKey,
    commit: MLSPlaintext,
    answers: Answers,
)
    ensures
        nack.outcome(tree, commit, answers) == Err::<NackResult, NackError>(
            NackError::InvalidSender,
        ) <==> {
            let node = 2 * nack.content.sender;
            ||| node >= tree.nodes().len()
            ||| tree.nodes()[node] is Parent
            ||| tree.nodes()[node] == Node::Leaf(None)
        },
{
    if tree.package(nack.content.sender as nat) is Some {
        crate::tree::law_package_is_at_leaf_node(
            tree,
            nack.content.sender as nat,
            tree.package(nack.content.sender as nat)->0,
        );
    }
}

/// The complaint of a member is turned down as one about another commit where the message
/// carries no commit, or no path, or no path secret of the given index for the common ancestor.
pub proof fn law_commit_without_secret_is_refused(
    nack: NackMsg,
    tree: TreePublicKey,
    commit: MLSPlaintext,
    answers: Answers,
    leaves: nat,
    package: KeyPackage,
)
    requires
        tree.nodes().len() == 2 * leaves - 1,
        leaves <= u32::MAX,
        nack.content.sender < leaves,
        tree.nodes()[2 * nack.content.sender] == Node::Leaf(Some(package)),
        ({
            let above = crate::tree_math::direct_path(commit.sender as nat, leaves);
            ||| commit.commit is None
            ||| commit.commit->0.path is None
            ||| commit.sender == nack.content.sender
            ||| forall|i: int|
                0 <= i < above.len() && Some(#[trigger] above[i])
                    == crate::tree_math::common_ancestor(
                    commit.sender as nat,
                    nack.content.sender as nat,
                ) ==> i >= commit.commit->0.path->0.nodes@.len() || nack.content.path_secret_index
                    >= commit.commit->0.path->0.nodes@[i].encrypted_path_secret@.len()
        }),
    ensures
        nack.outcome(tree, commit, answers) == Err::<NackResult, NackError>(
            NackError::InvalidCommit,
        ),
{
    crate::tree::law_package_is_at_leaf_node(tree, nack.content.sender as nat, package);
    if nack.affected_secret(tree, commit) is Some {
        law_affected_secret_place(
            nack,
            tree,
            commit,
            leaves,
            nack.affected_secret(tree, commit)->0,
        );
    }
}

/// The complaint of a member about a path secret that the commit has, but of another index than
/// the first, is turned down: for its commit if the hash of the message is another one, and else
/// for its path.
pub proof fn law_other_index_is_refused(
    nack: NackMsg,
    tree: TreePublicKey,
    commit: MLSPlaintext,
    answers: Answers,
    leaves: nat,
    package: KeyPackage,
    place: int,
)
    requires
        tree.nodes().len() == 2 * leaves - 1,
        leaves <= u32::MAX,
        nack.content.sender < leaves,
        tree.nodes()[2 * nack.content.sender] == Node::Leaf(Some(package)),
        commit.commit is Some,
        commit.commit->0.path is Some,
        0 <= place < crate::tree_math::direct_path(commit.sender as nat, leaves).len(),
        Some(crate::tree_math::direct_path(commit.sender as nat, leaves)[place])
            == crate::tree_math::common_ancestor(commit.sender as nat, nack.content.sender as nat),
        place < commit.commit->0.path->0.nodes@.len(),
        0 < nack.content.path_secret_index
            < commit.commit->0.path->0.nodes@[place].encrypted_path_secret@.len(),
    ensures
        nack.outcome(tree, commit, answers) == Err::<NackResult, NackError>(
            if answers.commit_hash@ == nack.content.commit_id@ {
                NackError::InvalidPath
            } else {
                NackError::InvalidCommit
            },
        ),
{
    crate::tree::law_package_is_at_leaf_node(tree, nack.content.sender as nat, package);
    law_affected_secret_place(
        nack,
        tree,
        commit,
        leaves,
        commit.commit->0.path->0.nodes@[place].encrypted_path_secret@[nack.content.path_secret_index as int],
    );
    if nack.affected_key(tree) is Some {
        law_affected_key_is_senders_own(nack, tree, nack.affected_key(tree)->0);
    }
}

/// What a member complains about is held against the hash of the whole message that carries the
/// commit, in the suite of the tree. A commit of another hash is not the one complained about.
pub proof fn law_commit_is_told_by_its_hash<H, P, K, S, D, E, V>(
    crypto: GroupCrypto<H, P, K, S, D, E, V>,
    nack: NackMsg,
    tree: TreePublicKey,
    commit: MLSPlaintext,
    now: Timespec,
    encoded_ctx: &[u8],
    answers: Answers,
    package: KeyPackage,
) where
    H: Fn(&CipherSuite, &Vec<u8>) -> Vec<u8>,
    P: Fn(&NackDleqProof, &Vec<u8>, &Vec<u8>) -> bool,
    K: Fn(&KeyPackage, Timespec) -> Option<Vec<u8>>,
    S: Fn(&Vec<u8>, &Vec<u8>, &Vec<u8>) -> bool,
    D: Fn(&NackDleqProof, &Vec<u8>, &HPKECiphertext, &[u8]) -> Option<Vec<u8>>,
    E: Fn(&CipherSuite, &PathSecret, &Vec<u8>, &str, &Vec<u8>, usize) -> PathSecret,
    V: Fn(&TreePublicKey, &PathSecret, ParentSize) -> bool,

    requires
        crypto.answers(nack, tree, commit, now, encoded_ctx, answers),
        2 * nack.content.sender < tree.nodes().len(),
        tree.nodes()[2 * nack.content.sender] == Node::Leaf(Some(package)),
    ensures
        call_ensures(crypto.hash, (&tree.suite(), &commit.encoding), answers.commit_hash),
        answers.commit_hash@ != nack.content.commit_id@ ==> nack.outcome(tree, commit, answers)
            == Err::<NackResult, NackError>(NackError::InvalidCommit),
{
    crate::tree::law_package_is_at_leaf_node(tree, nack.content.sender as nat, package);
}

/// The steps in which the complaint of a member is verified, where the commit has a first path
/// secret for the common ancestor. Each call is made on the values in the messages and in the
/// tree, as long as the ones before have gone well, and the first that goes wrong decides:
///
/// - the hash of the whole message, in the suite of the tree, is the one complained about;
/// - the proof holds for the key in the sender's package and the encapsulated key of the secret;
/// - the sender's package is attested to at the given time;
/// - the signature under the attested key is one over the encoded content;
/// - the secret decrypts in the given context.
///
/// Only then do the keys of the tree decide.
pub proof fn law_verification_steps<H, P, K, S, D, E, V>(
    crypto: GroupCrypto<H, P, K, S, D, E, V>,
    nack: NackMsg,
    tree: TreePublicKey,
    commit: MLSPlaintext,
    now: Timespec,
    encoded_ctx: &[u8],
    answers: Answers,
    leaves: nat,
    package: KeyPackage,
    place: int,
) where
    H: Fn(&CipherSuite, &Vec<u8>) -> Vec<u8>,
    P: Fn(&NackDleqProof, &Vec<u8>, &Vec<u8>) -> bool,
    K: Fn(&KeyPackage, Timespec) -> Option<Vec<u8>>,
    S: Fn(&Vec<u8>, &Vec<u8>, &Vec<u8>) -> bool,
    D: Fn(&NackDleqProof, &Vec<u8>, &HPKECiphertext, &[u8]) -> Option<Vec<u8>>,
    E: Fn(&CipherSuite, &PathSecret, &Vec<u8>, &str, &Vec<u8>, usize) -> PathSecret,
    V: Fn(&TreePublicKey, &PathSecret, ParentSize) -> bool,

    requires
        crypto.answers(nack, tree, commit, now, encoded_ctx, answers),
        tree.nodes().len() == 2 * leaves - 1,
        leaves <= u32::MAX,
        nack.content.sender < leaves,
        tree.nodes()[2 * nack.content.sender] == Node::Leaf(Some(package)),
        commit.commit is Some,
        commit.commit->0.path is Some,
        0 <= place < crate::tree_math::direct_path(commit.sender as nat, leaves).len(),
        Some(crate::tree_math::direct_path(commit.sender as nat, leaves)[place])
            == crate::tree_math::common_ancestor(commit.sender as nat, nack.content.sender as nat),
        place < commit.commit->0.path->0.nodes@.len(),
        nack.content.path_secret_index == 0,
        0 < commit.commit->0.path->0.nodes@[place].encrypted_path_secret@.len(),
    ensures
        ({
            let secret = commit.commit->0.path->0.nodes@[place].encrypted_path_secret@[0];
            let outcome = nack.outcome(tree, commit, answers);
            let named = answers.commit_hash@ == nack.content.commit_id@;
            let proven = named && answers.proof_holds;
            let attested = proven && answers.identity is Some;
            let signed = attested && answers.signature_holds;
            &&& call_ensures(
                crypto.hash,
                (&tree.suite(), &commit.encoding),
                answers.commit_hash,
            )
            &&& !named ==> outcome == Err::<NackResult, NackError>(NackError::InvalidCommit)
            &&& named ==> call_ensures(
                crypto.verify_proof,
                (&nack.content.proof, &package.init_key, &secret.kem_output),
                answers.proof_holds,
            )
            &&& named && !proven ==> outcome == Err::<NackResult, NackError>(
                NackError::InvalidProof,
            )
            &&& proven ==> call_ensures(
                crypto.verify_package,
                (&package, now),
                answers.identity,
            )
            &&& attested ==> exists|bytes: Vec<u8>|
                bytes@ == nack.content.encoding() && #[trigger] call_ensures(
                    crypto.verify_signature,
                    (&answers.identity->0, &bytes, &nack.signature),
                    answers.signature_holds,
                )
            &&& proven && !signed ==> outcome == Err::<NackResult, NackError>(
                NackError::InvalidSignature,
            )
            &&& signed ==> call_ensures(
                crypto.decrypt_after_proof,
                (&nack.content.proof, &package.init_key, &secret, encoded_ctx),
                answers.path_secret,
            )
            &&& signed && answers.path_secret is None ==> outcome == Ok::<NackResult, NackError>(
                NackResult::CannotDecrypt,
            )
            &&& signed && answers.path_secret is Some ==> outcome == Err::<NackResult, NackError>(
                NackError::ValidPath,
            ) || outcome == Ok::<NackResult, NackError>(NackResult::PathSecretMismatch)
        }),
{
    crate::tree::law_package_is_at_leaf_node(tree, nack.content.sender as nat, package);
    law_affected_secret_place(
        nack,
        tree,
        commit,
        leaves,
        commit.commit->0.path->0.nodes@[place].encrypted_path_secret@[0],
    );
    law_affected_key_is_senders_own(nack, tree, package.init_key);
}

/// What comes after the common ancestor on the sender's direct path is the overlap.
proof fn lemma_overlap_is_the_rest(
    nack: NackMsg,
    tree: TreePublicKey,
    commit: MLSPlaintext,
    leaves: nat,
    place: int,
)
    requires
        tree.nodes().len() == 2 * leaves - 1,
        leaves <= u32::MAX,
        0 <= place < crate::tree_math::direct_path(nack.content.sender as nat, leaves).len(),
        Some(crate::tree_math::direct_path(nack.content.sender as nat, leaves)[place])
            == crate::tree_math::common_ancestor(commit.sender as nat, nack.content.sender as nat),
    ensures
        nack.overlap_path(tree, commit) == crate::tree_math::direct_path(
            nack.content.sender as nat,
            leaves,
        ).skip(place + 1),
{
    let above = crate::tree_math::direct_path(nack.content.sender as nat, leaves);
    if nack.content.sender < leaves {
        crate::tree_math::law_direct_path_holds_parents(nack.content.sender as nat, leaves);
    }
    assert(above.index_of(above[place]) == place);
}

/// What the answers about a decrypted path secret say of each node and its own secret.
proof fn lemma_path_answers_decide<H, P, K, S, D, E, V>(
    crypto: GroupCrypto<H, P, K, S, D, E, V>,
    tree: TreePublicKey,
    path_secret: Seq<u8>,
    above: Seq<nat>,
    place: int,
    path: PathAnswers,
) where
    H: Fn(&CipherSuite, &Vec<u8>) -> Vec<u8>,
    P: Fn(&NackDleqProof, &Vec<u8>, &Vec<u8>) -> bool,
    K: Fn(&KeyPackage, Timespec) -> Option<Vec<u8>>,
    S: Fn(&Vec<u8>, &Vec<u8>, &Vec<u8>) -> bool,
    D: Fn(&NackDleqProof, &Vec<u8>, &HPKECiphertext, &[u8]) -> Option<Vec<u8>>,
    E: Fn(&CipherSuite, &PathSecret, &Vec<u8>, &str, &Vec<u8>, usize) -> PathSecret,
    V: Fn(&TreePublicKey, &PathSecret, ParentSize) -> bool,

    requires
        0 <= place < above.len(),
        crypto.path_answers(tree, path_secret, above[place], above.skip(place + 1), path),
    ensures
        path.overlap_secret@ == path_secret,
        path.secrets.len() == above.len() - place - 1,
        path.all_match() ==> {
            &&& call_ensures(
                crypto.verify_node_private_key,
                (&tree, &path.overlap_secret, ParentSize(above[place] as u64)),
                true,
            )
            &&& forall|j: int|
                0 <= j < path.secrets.len() ==> call_ensures(
                    crypto.verify_node_private_key,
                    (&tree, &#[trigger] path.secrets[j], ParentSize(above[place + 1 + j] as u64)),
                    true,
                )
        },
        !path.all_match() ==> {
            ||| call_ensures(
                crypto.verify_node_private_key,
                (&tree, &path.overlap_secret, ParentSize(above[place] as u64)),
                false,
            )
            ||| exists|j: int|
                0 <= j < path.secrets.len() && call_ensures(
                    crypto.verify_node_private_key,
                    (&tree, &#[trigger] path.secrets[j], ParentSize(above[place + 1 + j] as u64)),
                    false,
                )
        },
{
    let parents = above.skip(place + 1);
    if path.all_match() {
        assert forall|j: int| 0 <= j < path.secrets.len() implies call_ensures(
            crypto.verify_node_private_key,
            (&tree, &#[trigger] path.secrets[j], ParentSize(above[place + 1 + j] as u64)),
            true,
        ) by {
            assert(path.parents_match[j] == true);
            assert(parents[j] == above[place + 1 + j]);
        }
    } else if path.overlap_matches {
        let j = choose|j: int| 0 <= j < path.parents_match.len() && path.parents_match[j] != true;
        assert(path.parents_match[j] == false);
        assert(parents[j] == above[place + 1 + j]);
        assert(call_ensures(
            crypto.verify_node_private_key,
            (&tree, &path.secrets[j], ParentSize(above[place + 1 + j] as u64)),
            false,
        ));
    }
}

/// How the keys of the tree decide on a path secret that has decrypted. The common ancestor is
/// held against the secret itself. Every node after it on the sender's direct path, up to the
/// root, is held against a secret of its own, derived in as many steps as the node is further
/// along. No problem is found only if all of them fit, and the commit is blamed only if one of
/// them does not.
pub proof fn law_every_node_up_to_root_decides<H, P, K, S, D, E, V>(
    crypto: GroupCrypto<H, P, K, S, D, E, V>,
    nack: NackMsg,
    tree: TreePublicKey,
    commit: MLSPlaintext,
    now: Timespec,
    encoded_ctx: &[u8],
    answers: Answers,
    leaves: nat,
    place: int,
) where
    H: Fn(&CipherSuite, &Vec<u8>) -> Vec<u8>,
    P: Fn(&NackDleqProof, &Vec<u8>, &Vec<u8>) -> bool,
    K: Fn(&KeyPackage, Timespec) -> Option<Vec<u8>>,
    S: Fn(&Vec<u8>, &Vec<u8>, &Vec<u8>) -> bool,
    D: Fn(&NackDleqProof, &Vec<u8>, &HPKECiphertext, &[u8]) -> Option<Vec<u8>>,
    E: Fn(&CipherSuite, &PathSecret, &Vec<u8>, &str, &Vec<u8>, usize) -> PathSecret,
    V: Fn(&TreePublicKey, &PathSecret, ParentSize) -> bool,

    requires
        crypto.answers(nack, tree, commit, now, encoded_ctx, answers),
        tree.nodes().len() == 2 * leaves - 1,
        leaves <= u32::MAX,
        0 <= place < crate::tree_math::direct_path(nack.content.sender as nat, leaves).len(),
        Some(crate::tree_math::direct_path(nack.content.sender as nat, leaves)[place])
            == crate::tree_math::common_ancestor(commit.sender as nat, nack.content.sender as nat),
        nack.outcome(tree, commit, answers) == Err::<NackResult, NackError>(NackError::ValidPath)
            || nack.outcome(tree, commit, answers) == Ok::<NackResult, NackError>(
            NackResult::PathSecretMismatch,
        ),
    ensures
        ({
            let above = crate::tree_math::direct_path(nack.content.sender as nat, leaves);
            let first = answers.path.overlap_secret;
            let secrets = answers.path.secrets;
            &&& answers.path_secret is Some
            &&& first@ == answers.path_secret->0@
            &&& secrets.len() == above.len() - place - 1
            &&& nack.outcome(tree, commit, answers) == Err::<NackResult, NackError>(
                NackError::ValidPath,
            ) ==> {
                &&& call_ensures(
                    crypto.verify_node_private_key,
                    (&tree, &first, ParentSize(above[place] as u64)),
                    true,
                )
                &&& forall|j: int|
                    0 <= j < secrets.len() ==> call_ensures(
                        crypto.verify_node_private_key,
                        (&tree, &#[trigger] secrets[j], ParentSize(above[place + 1 + j] as u64)),
                        true,
                    )
            }
            &&& nack.outcome(tree, commit, answers) == Ok::<NackResult, NackError>(
                NackResult::PathSecretMismatch,
            ) ==> {
                ||| call_ensures(
                    crypto.verify_node_private_key,
                    (&tree, &first, ParentSize(above[place] as u64)),
                    false,
                )
                ||| exists|j: int|
                    0 <= j < secrets.len() && call_ensures(
                        crypto.verify_node_private_key,
                        (&tree, &#[trigger] secrets[j], ParentSize(above[place + 1 + j] as u64)),
                        false,
                    )
            }
        }),
{
    lemma_overlap_is_the_rest(nack, tree, commit, leaves, place);
    lemma_path_answers_decide(
        crypto,
        tree,
        answers.path_secret->0@,
        crate::tree_math::direct_path(nack.content.sender as nat, leaves),
        place,
        answers.path,
    );
}

/// Each derived path secret comes from the one before it, and the first from the decrypted
/// secret: in the suite of the tree, under the label "path", with an empty hash and an empty
/// context, and of the length of the suite's secrets.
pub proof fn law_each_secret_comes_from_the_one_before<H, P, K, S, D, E, V>(
    crypto: GroupCrypto<H, P, K, S, D, E, V>,
    nack: NackMsg,
    tree: TreePublicKey,
    commit: MLSPlaintext,
    now: Timespec,
    encoded_ctx: &[u8],
    answers: Answers,
    from: PathSecret,
    j: int,
) where
    H: Fn(&CipherSuite, &Vec<u8>) -> Vec<u8>,
    P: Fn(&NackDleqProof, &Vec<u8>, &Vec<u8>) -> bool,
    K: Fn(&KeyPackage, Timespec) -> Option<Vec<u8>>,
    S: Fn(&Vec<u8>, &Vec<u8>, &Vec<u8>) -> bool,
    D: Fn(&NackDleqProof, &Vec<u8>, &HPKECiphertext, &[u8]) -> Option<Vec<u8>>,
    E: Fn(&CipherSuite, &PathSecret, &Vec<u8>, &str, &Vec<u8>, usize) -> PathSecret,
    V: Fn(&TreePublicKey, &PathSecret, ParentSize) -> bool,

    requires
        crypto.answers(nack, tree, commit, now, encoded_ctx, answers),
        nack.outcome(tree, commit, answers) == Err::<NackResult, NackError>(NackError::ValidPath)
            || nack.outcome(tree, commit, answers) == Ok::<NackResult, NackError>(
            NackResult::PathSecretMismatch,
        ),
        0 <= j < answers.path.secrets.len(),
        j == 0 ==> from == answers.path.overlap_secret,
        j > 0 ==> from == answers.path.secrets[j - 1],
    ensures
        exists|context_hash: Vec<u8>, context: Vec<u8>|
            {
                &&& context_hash@.len() == 0
                &&& context@.len() == 0
                &&& #[trigger] call_ensures(
                    crypto.expand_label,
                    (
                        &tree.suite(),
                        &from,
                        &context_hash,
                        "path",
                        &context,
                        tree.suite().secret_size,
                    ),
                    answers.path.secrets[j],
                )
            },
{
    assert(crypto.next_secret(tree.suite(), from, answers.path.secrets[j]));
}

} // verus!
