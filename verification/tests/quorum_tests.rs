use mpc_bridge::errors::BridgeError;
use mpc_bridge::errors::NativeOp;
use mpc_bridge::quorum::SsNode;
use mpc_bridge::quorum::SsNodeType;

fn two_of_three() -> SsNode {
    let mut root = SsNode::new(SsNodeType::Threshold, "root", 2);
    root.add_child(SsNode::new(SsNodeType::Leaf, "alice", 0));
    root.add_child(SsNode::new(SsNodeType::Leaf, "bob", 0));
    root.add_child(SsNode::new(SsNodeType::Leaf, "carol", 0));
    root
}

fn keys() -> Vec<Vec<u8>> {
    vec![vec![1u8, 1], vec![2u8, 2], vec![3u8, 3]]
}

#[test]
fn tree_shape_queries() {
    let root = two_of_three();
    assert!(root.is_valid());
    assert_eq!(root.count_leaves(), Some(3));
}

#[test]
fn threshold_above_child_count_is_invalid() {
    let mut root = SsNode::new(SsNodeType::Threshold, "root", 4);
    root.add_child(SsNode::new(SsNodeType::Leaf, "a", 0));
    root.add_child(SsNode::new(SsNodeType::Leaf, "b", 0));
    assert!(!root.is_valid());
}

#[test]
fn quorum_round_trip_with_two_of_three() {
    let root = two_of_three();
    let pks = keys();
    let secrets = vec![vec![42u8, 43, 44]];
    let bundle = root.pve_quorum_encrypt(&pks, &secrets, "backup").unwrap();

    // Any two qualifying private keys recover the secrets exactly.
    let sks = vec![vec![1u8, 1], Vec::new(), vec![3u8, 3]];
    let xs = vec![Vec::new()];
    let out = root.pve_quorum_decrypt(&sks, &pks, &bundle, &xs, "backup").unwrap();
    assert_eq!(out, secrets);

    let sks2 = vec![Vec::new(), vec![2u8, 2], vec![3u8, 3]];
    let out2 = root.pve_quorum_decrypt(&sks2, &pks, &bundle, &xs, "backup").unwrap();
    assert_eq!(out2, secrets);
}

#[test]
fn one_key_is_not_enough() {
    let root = two_of_three();
    let pks = keys();
    let secrets = vec![vec![42u8]];
    let bundle = root.pve_quorum_encrypt(&pks, &secrets, "backup").unwrap();

    let sks = vec![vec![1u8, 1], Vec::new(), Vec::new()];
    let xs = vec![Vec::new()];
    let r = root.pve_quorum_decrypt(&sks, &pks, &bundle, &xs, "backup");
    assert!(matches!(
        r,
        Err(BridgeError::NativeFailure { op: NativeOp::QuorumDecrypt, code: _ })
    ));
}

#[test]
fn wrong_private_key_does_not_qualify() {
    let root = two_of_three();
    let pks = keys();
    let bundle = root.pve_quorum_encrypt(&pks, &[vec![7u8]], "backup").unwrap();

    // One good key and one that does not pair with its public key.
    let sks = vec![vec![1u8, 1], vec![9u8, 9], Vec::new()];
    let r = root.pve_quorum_decrypt(&sks, &pks, &bundle, &[Vec::new()], "backup");
    assert!(r.is_err());
}

#[test]
fn wrong_label_is_refused() {
    let root = two_of_three();
    let pks = keys();
    let bundle = root.pve_quorum_encrypt(&pks, &[vec![7u8]], "backup").unwrap();
    let sks = vec![vec![1u8, 1], vec![2u8, 2], Vec::new()];
    let r = root.pve_quorum_decrypt(&sks, &pks, &bundle, &[Vec::new()], "restore");
    assert!(r.is_err());
}

#[test]
fn encrypt_checks_key_count_against_leaves() {
    let root = two_of_three();
    let too_few = vec![vec![1u8], vec![2u8]];
    let r = root.pve_quorum_encrypt(&too_few, &[vec![7u8]], "backup");
    assert!(matches!(
        r,
        Err(BridgeError::NativeFailure { op: NativeOp::QuorumEncrypt, code: _ })
    ));
}

#[test]
fn nested_thresholds_gate_recovery() {
    // root: threshold 2 over (leaf a, inner), inner: threshold 2 over (b, c).
    let mut inner = SsNode::new(SsNodeType::Threshold, "inner", 2);
    inner.add_child(SsNode::new(SsNodeType::Leaf, "b", 0));
    inner.add_child(SsNode::new(SsNodeType::Leaf, "c", 0));
    let mut root = SsNode::new(SsNodeType::Threshold, "root", 2);
    root.add_child(SsNode::new(SsNodeType::Leaf, "a", 0));
    root.add_child(inner);
    assert!(root.is_valid());
    assert_eq!(root.count_leaves(), Some(3));

    let pks = keys();
    let bundle = root.pve_quorum_encrypt(&pks, &[vec![5u8]], "l").unwrap();

    // a alone with only one of b/c: inner not satisfied, so root is not.
    let sks = vec![vec![1u8, 1], vec![2u8, 2], Vec::new()];
    assert!(root.pve_quorum_decrypt(&sks, &pks, &bundle, &[Vec::new()], "l").is_err());

    // a plus both of b/c: satisfied.
    let sks2 = vec![vec![1u8, 1], vec![2u8, 2], vec![3u8, 3]];
    let out = root.pve_quorum_decrypt(&sks2, &pks, &bundle, &[Vec::new()], "l").unwrap();
    assert_eq!(out, vec![vec![5u8]]);
}
