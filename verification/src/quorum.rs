//! The quorum secret-sharing tree: named nodes with thresholds, gating
//! recovery of a shared secret on the cooperation of a sufficient subset of
//! participants.
//!
//! A tree is caller-constructed: leaves stand for participants, in
//! depth-first order, and an internal node with threshold `t` is satisfied
//! when at least `t` of its children are.  Encryption binds an ordered list
//! of public keys — one per leaf — and a label to the secrets; decryption
//! recovers the secrets exactly when the label and keys match the bundle and
//! the private keys presented form a satisfying subset.  The engine behind
//! these operations is cryptographic and opaque; what this module pins down
//! is the access decision any such engine must make.

use crate::buffer::copy_bufs;
use crate::errors::BridgeError;
use crate::errors::NativeOp;
use vstd::prelude::*;

verus! {

/// The status code with which the quorum operations refuse a request.
pub const QUORUM_STATUS_REFUSED: i32 = 1;

/// The type tag of a sharing-tree node.
#[derive(Clone, Copy, Debug, PartialEq, Eq, Structural)]
pub enum SsNodeType {
    /// A participant, holding one key pair.
    Leaf,
    /// An internal node satisfied by a threshold of its children.
    Threshold,
}

/// A node of a quorum sharing tree: a type tag, a name, a threshold, and an
/// ordered sequence of children added after construction.
pub struct SsNode {
    /// The type tag.
    pub node_type: SsNodeType,
    /// The node's name.
    pub name: String,
    /// How many children must be satisfied, for an internal node.
    pub threshold: i32,
    /// The ordered children, added after construction.
    pub children: Vec<SsNode>,
}

/// The number of children of a node; the recursion measure of the tree
/// functions.
pub open spec fn child_count(n: SsNode) -> int {
    n.children@.len() as int
}

/// The number of leaves of a subtree, in depth-first order.
pub open spec fn leaf_count(n: SsNode) -> nat
    decreases n, child_count(n) + 1,
{
    match n.node_type {
        SsNodeType::Leaf => 1,
        SsNodeType::Threshold => leaf_count_upto(n, n.children@.len() as int),
    }
}

/// The number of leaves of the first `i` children of `n`.
pub open spec fn leaf_count_upto(n: SsNode, i: int) -> nat
    decreases n, i,
{
    if i <= 0 || i > n.children@.len() {
        0
    } else {
        leaf_count_upto(n, i - 1) + leaf_count(n.children@[i - 1])
    }
}

/// Whether a tree is well formed: leaves have no children, and an internal
/// node's threshold lies between one and its child count.
pub open spec fn tree_valid(n: SsNode) -> bool
    decreases n, child_count(n) + 1,
{
    match n.node_type {
        SsNodeType::Leaf => n.children@.len() == 0,
        SsNodeType::Threshold => 1 <= n.threshold <= n.children@.len() && tree_valid_upto(
            n,
            n.children@.len() as int,
        ),
    }
}

/// Whether the first `i` children of `n` are well formed.
pub open spec fn tree_valid_upto(n: SsNode, i: int) -> bool
    decreases n, i,
{
    if i <= 0 || i > n.children@.len() {
        true
    } else {
        tree_valid_upto(n, i - 1) && tree_valid(n.children@[i - 1])
    }
}

/// Whether a subtree is satisfied by the qualifying leaves, its leaves
/// occupying `quals[off ..]` in depth-first order: a leaf is satisfied when
/// it qualifies, an internal node when at least `threshold` of its children
/// are satisfied.
pub open spec fn satisfied(n: SsNode, quals: Seq<bool>, off: int) -> bool
    decreases n, child_count(n) + 1,
{
    match n.node_type {
        SsNodeType::Leaf => 0 <= off < quals.len() && quals[off],
        SsNodeType::Threshold => sat_count_upto(n, quals, off, n.children@.len() as int)
            >= n.threshold,
    }
}

/// How many of the first `i` children of `n` are satisfied, each child read
/// at its own depth-first offset.
pub open spec fn sat_count_upto(n: SsNode, quals: Seq<bool>, off: int, i: int) -> int
    decreases n, i,
{
    if i <= 0 || i > n.children@.len() {
        0
    } else {
        sat_count_upto(n, quals, off, i - 1) + (if satisfied(
            n.children@[i - 1],
            quals,
            off + leaf_count_upto(n, i - 1),
        ) {
            1int
        } else {
            0int
        })
    }
}

/// Prefixes of the children never hold more leaves than the whole.
proof fn lemma_leaf_upto_mono(n: SsNode, j: int, k: int)
    requires
        0 <= j <= k <= n.children@.len(),
    ensures
        leaf_count_upto(n, j) <= leaf_count_upto(n, k),
    decreases k - j,
{
    if j < k {
        lemma_leaf_upto_mono(n, j, k - 1);
    }
}

/// In a well-formed prefix, every child of the prefix is well formed.
proof fn lemma_valid_upto_at(n: SsNode, i: int, k: int)
    requires
        0 <= i < k <= n.children@.len(),
        tree_valid_upto(n, k),
    ensures
        tree_valid(n.children@[i]),
    decreases k - i,
{
    if i < k - 1 {
        lemma_valid_upto_at(n, i, k - 1);
    }
}

/// The count of satisfied children lies between zero and the prefix length.
proof fn lemma_sat_count_bounds(n: SsNode, quals: Seq<bool>, off: int, i: int)
    requires
        0 <= i <= n.children@.len(),
    ensures
        0 <= sat_count_upto(n, quals, off, i) <= i,
    decreases i,
{
    if i > 0 {
        lemma_sat_count_bounds(n, quals, off, i - 1);
    }
}

impl SsNode {
    /// The type tag of this node.
    pub open spec fn node_type_spec(&self) -> SsNodeType {
        self.node_type
    }

    /// The name of this node.
    pub open spec fn name_spec(&self) -> Seq<char> {
        self.name@
    }

    /// The threshold of this node.
    pub open spec fn threshold_spec(&self) -> int {
        self.threshold as int
    }

    /// The children of this node, in the order they were added.
    pub open spec fn children_spec(&self) -> Seq<SsNode> {
        self.children@
    }

    /// A fresh node with the given tag, name and threshold, and no children
    /// yet.
    pub fn new(node_type: SsNodeType, node_name: &str, threshold: i32) -> (r: SsNode)
        ensures
            r.node_type_spec() == node_type,
            r.name_spec() == node_name@,
            r.threshold_spec() == threshold,
            r.children_spec() == Seq::<SsNode>::empty(),
    {
        let r = SsNode {
            node_type,
            name: node_name.to_owned(),
            threshold,
            children: Vec::new(),
        };
        proof {
            assert(r.children_spec() =~= Seq::<SsNode>::empty());
        }
        r
    }

    /// Appends `child` to this node's ordered children.
    pub fn add_child(&mut self, child: SsNode)
        ensures
            final(self).node_type_spec() == old(self).node_type_spec(),
            final(self).name_spec() == old(self).name_spec(),
            final(self).threshold_spec() == old(self).threshold_spec(),
            final(self).children_spec() == old(self).children_spec().push(child),
    {
        self.children.push(child);
    }

    /// The number of leaves of this subtree, or nothing if it cannot be
    /// counted in a machine word.
    pub fn count_leaves(&self) -> (r: Option<usize>)
        ensures
            r matches Some(c) ==> c == leaf_count(*self),
            r is None ==> leaf_count(*self) > usize::MAX,
        decreases *self, child_count(*self) + 1,
    {
        match self.node_type {
            SsNodeType::Leaf => Some(1),
            SsNodeType::Threshold => {
                let n = self.children.len();
                let mut total: usize = 0;
                let mut i: usize = 0;
                while i < n
                    invariant
                        i <= n,
                        n == self.children@.len(),
                        self.node_type == SsNodeType::Threshold,
                        total == leaf_count_upto(*self, i as int),
                    decreases n - i,
                {
                    proof {
                        assert(decreases_to!(*self => self.children@[i as int]));
                    }
                    let child = &self.children[i];
                    let c = match child.count_leaves() {
                        Some(c) => c,
                        None => {
                            proof {
                                lemma_leaf_upto_mono(*self, i + 1, n as int);
                            }
                            return None;
                        },
                    };
                    let total2 = match total.checked_add(c) {
                        Some(t) => t,
                        None => {
                            proof {
                                lemma_leaf_upto_mono(*self, i + 1, n as int);
                            }
                            return None;
                        },
                    };
                    total = total2;
                    i += 1;
                }
                Some(total)
            },
        }
    }

    /// Whether this tree is well formed: leaves childless, every internal
    /// threshold between one and its child count.
    pub fn is_valid(&self) -> (r: bool)
        ensures
            r == tree_valid(*self),
        decreases *self, child_count(*self) + 1,
    {
        match self.node_type {
            SsNodeType::Leaf => self.children.len() == 0,
            SsNodeType::Threshold => {
                let n = self.children.len();
                if self.threshold < 1 || (self.threshold as usize) > n {
                    return false;
                }
                let mut i: usize = 0;
                while i < n
                    invariant
                        i <= n,
                        n == self.children@.len(),
                        self.node_type == SsNodeType::Threshold,
                        1 <= self.threshold <= n,
                        tree_valid_upto(*self, i as int),
                    decreases n - i,
                {
                    proof {
                        assert(decreases_to!(*self => self.children@[i as int]));
                    }
                    let child = &self.children[i];
                    if !child.is_valid() {
                        proof {
                            if tree_valid_upto(*self, n as int) {
                                lemma_valid_upto_at(*self, i as int, n as int);
                            }
                        }
                        return false;
                    }
                    i += 1;
                }
                true
            },
        }
    }

    /// Whether this subtree is satisfied by the qualifying leaves, its
    /// leaves occupying `quals[off ..]` in depth-first order.
    pub fn check_satisfied(&self, quals: &Vec<bool>, off: usize) -> (r: bool)
        requires
            off + leaf_count(*self) <= quals@.len(),
        ensures
            r == satisfied(*self, quals@, off as int),
        decreases *self, child_count(*self) + 1,
    {
        let qlen: usize = quals.len();
        match self.node_type {
            SsNodeType::Leaf => quals[off],
            SsNodeType::Threshold => {
                let n = self.children.len();
                let mut count: usize = 0;
                let mut child_off: usize = off;
                let mut i: usize = 0;
                while i < n
                    invariant
                        i <= n,
                        n == self.children@.len(),
                        self.node_type == SsNodeType::Threshold,
                        qlen == quals@.len(),
                        off + leaf_count(*self) <= qlen,
                        leaf_count(*self) == leaf_count_upto(*self, n as int),
                        child_off == off + leaf_count_upto(*self, i as int),
                        count == sat_count_upto(*self, quals@, off as int, i as int),
                        count <= i,
                    decreases n - i,
                {
                    proof {
                        assert(decreases_to!(*self => self.children@[i as int]));
                        lemma_leaf_upto_mono(*self, i + 1, n as int);
                        lemma_sat_count_bounds(*self, quals@, off as int, i as int);
                    }
                    let child = &self.children[i];
                    let c = match child.count_leaves() {
                        Some(c) => c,
                        None => {
                            proof {
                                assert(false);
                            }
                            return false;
                        },
                    };
                    if child.check_satisfied(quals, child_off) {
                        count += 1;
                    }
                    child_off += c;
                    i += 1;
                }
                proof {
                    lemma_sat_count_bounds(*self, quals@, off as int, n as int);
                }
                if self.threshold <= 0 {
                    true
                } else {
                    count >= self.threshold as usize
                }
            },
        }
    }

    /// Binds the secrets `xs` to this tree, the given public keys — one per
    /// leaf, in depth-first order — and a label.  Succeeds exactly when the
    /// tree is well formed and the key count matches the leaf count.
    pub fn pve_quorum_encrypt(&self, public_keys: &[Vec<u8>], xs: &[Vec<u8>], label: &str) -> (r:
        Result<QuorumBundle, BridgeError>)
        ensures
            r is Ok <==> (tree_valid(*self) && public_keys@.len() == leaf_count(*self)),
            r matches Ok(b) ==> b.public_keys_spec() == public_keys.deep_view()
                && b.secrets_spec() == xs.deep_view() && b.label_spec() == label@,
            r is Err ==> r == Err::<QuorumBundle, BridgeError>(
                BridgeError::NativeFailure { op: NativeOp::QuorumEncrypt, code: QUORUM_STATUS_REFUSED },
            ),
    {
        let refused = BridgeError::NativeFailure {
            op: NativeOp::QuorumEncrypt,
            code: QUORUM_STATUS_REFUSED,
        };
        if !self.is_valid() {
            return Err(refused);
        }
        let pk_len = public_keys.len();
        let c = match self.count_leaves() {
            Some(c) => c,
            None => {
                return Err(refused);
            },
        };
        if pk_len != c {
            return Err(refused);
        }
        Ok(
            QuorumBundle {
                public_keys: copy_bufs(public_keys),
                secrets: copy_bufs(xs),
                label: label.to_owned(),
            },
        )
    }

    /// Recovers the secrets bound into `pve_bundle`.  Succeeds exactly when
    /// the tree is well formed, the presented public keys and label match
    /// the bundle, the expected secret count matches, one private key slot
    /// is presented per leaf, and the qualifying leaves — those whose
    /// private key is non-empty and pairs with its public key — satisfy the
    /// tree.  On success the recovered secrets are returned exactly.
    pub fn pve_quorum_decrypt(
        &self,
        private_keys: &[Vec<u8>],
        public_keys: &[Vec<u8>],
        pve_bundle: &QuorumBundle,
        xs: &[Vec<u8>],
        label: &str,
    ) -> (r: Result<Vec<Vec<u8>>, BridgeError>)
        ensures
            r is Ok <==> quorum_decrypt_ok(
                *self,
                private_keys.deep_view(),
                public_keys.deep_view(),
                *pve_bundle,
                xs.deep_view(),
                label@,
            ),
            r matches Ok(v) ==> v.deep_view() == pve_bundle.secrets_spec(),
            r is Err ==> r == Err::<Vec<Vec<u8>>, BridgeError>(
                BridgeError::NativeFailure { op: NativeOp::QuorumDecrypt, code: QUORUM_STATUS_REFUSED },
            ),
    {
        let refused = BridgeError::NativeFailure {
            op: NativeOp::QuorumDecrypt,
            code: QUORUM_STATUS_REFUSED,
        };
        if !self.is_valid() {
            return Err(refused);
        }
        if !crate::buffer::bufs_eq(public_keys, pve_bundle.public_keys.as_slice()) {
            return Err(refused);
        }
        let lab = label.to_owned();
        if !(lab == pve_bundle.label) {
            return Err(refused);
        }
        if xs.len() != pve_bundle.secrets.len() {
            return Err(refused);
        }
        let sk_len = private_keys.len();
        let pk_len = public_keys.len();
        let c = match self.count_leaves() {
            Some(c) => c,
            None => {
                return Err(refused);
            },
        };
        if sk_len != c || pk_len != c {
            return Err(refused);
        }
        let mut quals: Vec<bool> = Vec::new();
        let mut i: usize = 0;
        while i < sk_len
            invariant
                i <= sk_len,
                sk_len == private_keys@.len() == public_keys@.len(),
                quals@.len() == i,
                forall|j: int|
                    0 <= j < i ==> quals@[j] == (private_keys.deep_view()[j].len() > 0
                        && private_keys.deep_view()[j] == public_keys.deep_view()[j]),
            decreases sk_len - i,
        {
            let sk = &private_keys[i];
            let q = sk.len() > 0 && crate::buffer::bytes_eq(
                sk.as_slice(),
                public_keys[i].as_slice(),
            );
            proof {
                assert(private_keys.deep_view()[i as int] == private_keys@[i as int]@);
                assert(public_keys.deep_view()[i as int] == public_keys@[i as int]@);
            }
            quals.push(q);
            i += 1;
        }
        proof {
            assert(quals@ =~= quals_of(private_keys.deep_view(), public_keys.deep_view()));
        }
        if !self.check_satisfied(&quals, 0) {
            return Err(refused);
        }
        Ok(copy_bufs(pve_bundle.secrets.as_slice()))
    }
}

/// The sealed result of a quorum encryption: the public keys and label it
/// was bound to, and the secrets it gates.
pub struct QuorumBundle {
    public_keys: Vec<Vec<u8>>,
    secrets: Vec<Vec<u8>>,
    label: String,
}

impl QuorumBundle {
    /// The public keys the bundle was bound to, one per leaf.
    pub closed spec fn public_keys_spec(&self) -> Seq<Seq<u8>> {
        self.public_keys.deep_view()
    }

    /// The secrets the bundle gates.
    pub closed spec fn secrets_spec(&self) -> Seq<Seq<u8>> {
        self.secrets.deep_view()
    }

    /// The label the bundle was bound to.
    pub closed spec fn label_spec(&self) -> Seq<char> {
        self.label@
    }
}

/// Which leaves a presented key list qualifies: leaf `i` qualifies when its
/// private key slot is non-empty and pairs with the `i`-th public key.  In
/// this model a key pair is one byte string seen from both sides, so
/// pairing is equality.
pub open spec fn quals_of(sks: Seq<Seq<u8>>, pks: Seq<Seq<u8>>) -> Seq<bool> {
    Seq::new(sks.len(), |i: int| sks[i].len() > 0 && sks[i] == pks[i])
}

/// Exactly when quorum decryption recovers the secrets: the tree is well
/// formed, the presented keys and label match the bundle, the expected
/// count matches, one private key slot stands per leaf, and the qualifying
/// leaves satisfy the tree.
pub open spec fn quorum_decrypt_ok(
    root: SsNode,
    sks: Seq<Seq<u8>>,
    pks: Seq<Seq<u8>>,
    bundle: QuorumBundle,
    xs: Seq<Seq<u8>>,
    label: Seq<char>,
) -> bool {
    &&& tree_valid(root)
    &&& pks == bundle.public_keys_spec()
    &&& label == bundle.label_spec()
    &&& xs.len() == bundle.secrets_spec().len()
    &&& sks.len() == leaf_count(root)
    &&& pks.len() == leaf_count(root)
    &&& satisfied(root, quals_of(sks, pks), 0)
}

} // verus!
