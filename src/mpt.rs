use vstd::prelude::*;

use crate::codec::{bytes_eq, copy_bytes, length_prefixed, push_length_prefixed, H256};
use crate::error::ClientError;
use crate::hash::{keccak256, keccak_of};

verus! {

/// One node of a Merkle-Patricia trie proof. Paths are sequences of nibbles;
/// child references are 32-byte Keccak digests, or empty for a missing child.
#[derive(Clone, Debug)]
pub enum TrieNode {
    Branch { children: Vec<Vec<u8>>, value: Vec<u8> },
    Extension { path: Vec<u8>, child: Vec<u8> },
    Leaf { path: Vec<u8>, value: Vec<u8> },
}

/// The mathematical content of a [`TrieNode`].
pub enum NodeView {
    Branch { children: Seq<Seq<u8>>, value: Seq<u8> },
    Extension { path: Seq<u8>, child: Seq<u8> },
    Leaf { path: Seq<u8>, value: Seq<u8> },
}

/// The byte strings held by a vector of vectors.
pub open spec fn bytes_view(v: Seq<Vec<u8>>) -> Seq<Seq<u8>> {
    v.map_values(|c: Vec<u8>| c@)
}

impl View for TrieNode {
    type V = NodeView;

    open spec fn view(&self) -> NodeView {
        match self {
            TrieNode::Branch { children, value } => NodeView::Branch {
                children: bytes_view(children@),
                value: value@,
            },
            TrieNode::Extension { path, child } => NodeView::Extension {
                path: path@,
                child: child@,
            },
            TrieNode::Leaf { path, value } => NodeView::Leaf { path: path@, value: value@ },
        }
    }
}

/// The mathematical content of a proof.
pub open spec fn nodes_view(p: Seq<TrieNode>) -> Seq<NodeView> {
    p.map_values(|n: TrieNode| n@)
}

/// Every element is a nibble.
pub open spec fn nibbles_ok(p: Seq<u8>) -> bool {
    forall|k: int| 0 <= k < p.len() ==> p[k] < 16
}

/// A branch has 16 child slots, each empty or a digest; paths are nibbles;
/// an extension has a non-empty path and a digest for its child.
pub open spec fn node_well_formed(n: NodeView) -> bool {
    match n {
        NodeView::Branch { children, value } => children.len() == 16 && forall|k: int|
            0 <= k < 16 ==> (#[trigger] children[k]).len() == 0 || children[k].len() == 32,
        NodeView::Extension { path, child } => path.len() > 0 && nibbles_ok(path) && child.len()
            == 32,
        NodeView::Leaf { path, value } => nibbles_ok(path),
    }
}

/// The length-prefixed encodings of the byte strings, one after another.
pub open spec fn concat_prefixed(s: Seq<Seq<u8>>) -> Seq<u8>
    decreases s.len(),
{
    if s.len() == 0 {
        seq![]
    } else {
        concat_prefixed(s.drop_last()) + length_prefixed(s.last())
    }
}

/// The bytes that a node's digest is taken over: a tag, then its fields.
pub open spec fn encode_node(n: NodeView) -> Seq<u8> {
    match n {
        NodeView::Branch { children, value } => seq![0u8] + concat_prefixed(children)
            + length_prefixed(value),
        NodeView::Extension { path, child } => seq![1u8] + length_prefixed(path)
            + length_prefixed(child),
        NodeView::Leaf { path, value } => seq![2u8] + length_prefixed(path) + length_prefixed(
            value,
        ),
    }
}

/// The digest by which a parent refers to a node.
pub open spec fn node_digest(n: NodeView) -> Seq<u8> {
    keccak_of(encode_node(n))
}

/// Each byte split into its high and low nibble.
pub open spec fn nibbles(s: Seq<u8>) -> Seq<u8> {
    Seq::new(
        2 * s.len(),
        |j: int|
            if j % 2 == 0 {
                s[j / 2] / 16
            } else {
                s[j / 2] % 16
            },
    )
}

/// Where a key lives in the trie: the nibbles of its Keccak digest.
pub open spec fn key_path(key: Seq<u8>) -> Seq<u8> {
    nibbles(keccak_of(key))
}

/// Whether `p` occurs in `path` starting at `pos`.
pub open spec fn prefix_at(path: Seq<u8>, pos: int, p: Seq<u8>) -> bool {
    pos + p.len() <= path.len() && path.subrange(pos, pos + p.len()) == p
}

/// Walks a proof from the node at `i`, whose digest must be `expected`, along
/// `path` from nibble `pos`. `Ok(Some(v))`: the path leads to value `v`;
/// `Ok(None)`: the proof shows that nothing is stored on the path.
pub open spec fn walk(expected: Seq<u8>, nodes: Seq<NodeView>, i: int, path: Seq<u8>, pos: int) -> Result<
    Option<Seq<u8>>,
    ClientError,
>
    decreases nodes.len() - i,
{
    if i < 0 || i >= nodes.len() {
        Err(ClientError::ProofMalformed)
    } else if !node_well_formed(nodes[i]) {
        Err(ClientError::ProofMalformed)
    } else if node_digest(nodes[i]) != expected {
        Err(ClientError::ProofInvalid)
    } else {
        let last = i + 1 == nodes.len();
        match nodes[i] {
            NodeView::Branch { children, value } => {
                if pos >= path.len() {
                    if !last {
                        Err(ClientError::ProofMalformed)
                    } else if value.len() == 0 {
                        Ok(None)
                    } else {
                        Ok(Some(value))
                    }
                } else {
                    let c = children[path[pos] as int];
                    if c.len() == 0 {
                        if last {
                            Ok(None)
                        } else {
                            Err(ClientError::ProofMalformed)
                        }
                    } else {
                        walk(c, nodes, i + 1, path, pos + 1)
                    }
                }
            },
            NodeView::Extension { path: ext, child } => {
                if prefix_at(path, pos, ext) {
                    walk(child, nodes, i + 1, path, pos + ext.len())
                } else if last {
                    Ok(None)
                } else {
                    Err(ClientError::ProofMalformed)
                }
            },
            NodeView::Leaf { path: rest, value } => {
                if !last {
                    Err(ClientError::ProofMalformed)
                } else if 0 <= pos <= path.len() && path.subrange(pos, path.len() as int) == rest {
                    Ok(Some(value))
                } else {
                    Ok(None)
                }
            },
        }
    }
}

/// What a proof shows of `key` under `root`.
pub open spec fn trie_lookup(root: Seq<u8>, proof: Seq<NodeView>, key: Seq<u8>) -> Result<
    Option<Seq<u8>>,
    ClientError,
> {
    walk(root, proof, 0, key_path(key), 0)
}

/// What checking a membership claim for `value` yields, given what the proof
/// shows.
pub open spec fn membership_outcome(w: Result<Option<Seq<u8>>, ClientError>, value: Seq<u8>) -> Result<(), ClientError> {
    match w {
        Err(e) => Err(e),
        Ok(None) => Err(ClientError::KeyNotFound),
        Ok(Some(v)) => if v == value {
            Ok(())
        } else {
            Err(ClientError::ValueMismatch)
        },
    }
}

/// What checking an absence claim yields, given what the proof shows.
pub open spec fn non_membership_outcome(w: Result<Option<Seq<u8>>, ClientError>) -> Result<(), ClientError> {
    match w {
        Err(e) => Err(e),
        Ok(None) => Ok(()),
        Ok(Some(v)) => Err(ClientError::KeyPresent),
    }
}

/// The mathematical content of a lookup result.
pub open spec fn lookup_view(r: Result<Option<Vec<u8>>, ClientError>) -> Result<Option<Seq<u8>>, ClientError> {
    match r {
        Ok(Some(v)) => Ok(Some(v@)),
        Ok(None) => Ok(None),
        Err(e) => Err(e),
    }
}

/// A proof that opens `key` to `value` under `root` opens it to no other
/// value, and never passes as a proof that `key` is absent.
pub proof fn lemma_membership_is_exact(
    root: Seq<u8>,
    proof: Seq<NodeView>,
    key: Seq<u8>,
    value: Seq<u8>,
    other: Seq<u8>,
)
    requires
        membership_outcome(trie_lookup(root, proof, key), value) is Ok,
    ensures
        other != value ==> membership_outcome(trie_lookup(root, proof, key), other) == Err::<
            (),
            ClientError,
        >(ClientError::ValueMismatch),
        non_membership_outcome(trie_lookup(root, proof, key)) == Err::<(), ClientError>(
            ClientError::KeyPresent,
        ),
{
}

/// A proof that `key` is absent under `root` makes every membership claim on
/// `key` with that proof fail with `KeyNotFound`.
pub proof fn lemma_absence_excludes_membership(
    root: Seq<u8>,
    proof: Seq<NodeView>,
    key: Seq<u8>,
    value: Seq<u8>,
)
    requires
        non_membership_outcome(trie_lookup(root, proof, key)) is Ok,
    ensures
        membership_outcome(trie_lookup(root, proof, key), value) == Err::<(), ClientError>(
            ClientError::KeyNotFound,
        ),
{
}

/// A proof whose first node does not hash to the root proves nothing: it is
/// rejected with `ProofInvalid`, for every key.
pub proof fn lemma_root_digest_checked(root: Seq<u8>, proof: Seq<NodeView>, key: Seq<u8>)
    requires
        proof.len() > 0,
        node_well_formed(proof[0]),
        node_digest(proof[0]) != root,
    ensures
        trie_lookup(root, proof, key) == Err::<Option<Seq<u8>>, ClientError>(
            ClientError::ProofInvalid,
        ),
{
}

fn all_nibbles(p: &[u8]) -> (r: bool)
    ensures
        r == nibbles_ok(p@),
{
    let mut k: usize = 0;
    while k < p.len()
        invariant
            k <= p@.len(),
            forall|j: int| 0 <= j < k ==> p@[j] < 16,
        decreases p@.len() - k,
    {
        if p[k] >= 16 {
            return false;
        }
        k = k + 1;
    }
    true
}

/// Whether `p` occurs in `path` starting at `pos`.
fn matches_at(path: &[u8], pos: usize, p: &[u8]) -> (r: bool)
    requires
        pos <= path@.len(),
    ensures
        r == prefix_at(path@, pos as int, p@),
{
    if p.len() > path.len() - pos {
        return false;
    }
    let path_len = path.len();
    let mut k: usize = 0;
    while k < p.len()
        invariant
            path@.len() == path_len,
            pos + p@.len() <= path@.len(),
            k <= p@.len(),
            forall|j: int| 0 <= j < k ==> path@[pos + j] == p@[j],
        decreases p@.len() - k,
    {
        if path[pos + k] != p[k] {
            assert(path@.subrange(pos as int, pos + p@.len())[k as int] != p@[k as int]);
            return false;
        }
        k = k + 1;
    }
    assert(path@.subrange(pos as int, pos + p@.len()) =~= p@);
    true
}

impl TrieNode {
    pub fn is_well_formed(&self) -> (r: bool)
        ensures
            r == node_well_formed(self@),
    {
        match self {
            TrieNode::Branch { children, value } => {
                if children.len() != 16 {
                    return false;
                }
                let ghost cv = bytes_view(children@);
                let mut k: usize = 0;
                while k < 16
                    invariant
                        children@.len() == 16,
                        cv == bytes_view(children@),
                        self@ == (NodeView::Branch { children: cv, value: value@ }),
                        k <= 16,
                        forall|j: int| 0 <= j < k ==> (#[trigger] cv[j]).len() == 0 || cv[j].len() == 32,
                    decreases 16 - k,
                {
                    let n = children[k].len();
                    if n != 0 && n != 32 {
                        assert(cv[k as int] == children@[k as int]@);
                        assert(cv[k as int].len() != 0 && cv[k as int].len() != 32);
                        return false;
                    }
                    k = k + 1;
                }
                true
            },
            TrieNode::Extension { path, child } => path.len() > 0 && all_nibbles(path.as_slice())
                && child.len() == 32,
            TrieNode::Leaf { path, value } => all_nibbles(path.as_slice()),
        }
    }

    /// The bytes that the node's digest is taken over.
    pub fn encode(&self) -> (r: Vec<u8>)
        ensures
            r@ == encode_node(self@),
    {
        let mut out: Vec<u8> = Vec::new();
        match self {
            TrieNode::Branch { children, value } => {
                out.push(0u8);
                let ghost cv = bytes_view(children@);
                let mut k: usize = 0;
                while k < children.len()
                    invariant
                        cv == bytes_view(children@),
                        k <= children@.len(),
                        out@ == seq![0u8] + concat_prefixed(cv.subrange(0, k as int)),
                    decreases children@.len() - k,
                {
                    push_length_prefixed(&mut out, children[k].as_slice());
                    assert(cv.subrange(0, k + 1).drop_last() =~= cv.subrange(0, k as int));
                    k = k + 1;
                }
                assert(cv.subrange(0, k as int) =~= cv);
                push_length_prefixed(&mut out, value.as_slice());
            },
            TrieNode::Extension { path, child } => {
                out.push(1u8);
                push_length_prefixed(&mut out, path.as_slice());
                push_length_prefixed(&mut out, child.as_slice());
            },
            TrieNode::Leaf { path, value } => {
                out.push(2u8);
                push_length_prefixed(&mut out, path.as_slice());
                push_length_prefixed(&mut out, value.as_slice());
            },
        }
        assert(out@ =~= encode_node(self@));
        out
    }

    /// The Keccak digest by which a parent node refers to this one.
    pub fn digest(&self) -> (r: [u8; 32])
        ensures
            r@ == node_digest(self@),
    {
        keccak256(self.encode().as_slice())
    }
}

/// Splits each byte into its high and low nibble.
pub fn nibbles_of(b: &[u8]) -> (r: Vec<u8>)
    ensures
        r@ == nibbles(b@),
        nibbles_ok(r@),
{
    let mut out: Vec<u8> = Vec::new();
    let mut k: usize = 0;
    while k < b.len()
        invariant
            k <= b@.len(),
            out@ =~= nibbles(b@.subrange(0, k as int)),
        decreases b@.len() - k,
    {
        out.push(b[k] / 16);
        out.push(b[k] % 16);
        k = k + 1;
        assert(out@ =~= nibbles(b@.subrange(0, k as int)));
    }
    assert(b@.subrange(0, k as int) =~= b@);
    out
}

/// The nibble path of a key: the nibbles of its Keccak digest.
pub fn key_path_of(key: &[u8]) -> (r: Vec<u8>)
    ensures
        r@ == key_path(key@),
        nibbles_ok(r@),
{
    let h = keccak256(key);
    nibbles_of(h.as_slice())
}

/// Walks `proof` from `root` along the nibble path `path`.
pub fn lookup_path(root: &H256, proof: &Vec<TrieNode>, path: &Vec<u8>) -> (r: Result<
    Option<Vec<u8>>,
    ClientError,
>)
    requires
        nibbles_ok(path@),
    ensures
        lookup_view(r) == walk(root@, nodes_view(proof@), 0, path@, 0),
{
    let ghost nodes = nodes_view(proof@);
    let mut expected: Vec<u8> = root.to_vec();
    let path_len = path.len();
    let mut i: usize = 0;
    let mut pos: usize = 0;
    loop
        invariant
            path@.len() == path_len,
            nodes == nodes_view(proof@),
            nibbles_ok(path@),
            i <= proof@.len(),
            pos <= path@.len(),
            walk(expected@, nodes, i as int, path@, pos as int) == walk(
                root@,
                nodes,
                0,
                path@,
                0,
            ),
        decreases proof@.len() - i,
    {
        if i >= proof.len() {
            return Err(ClientError::ProofMalformed);
        }
        let node = &proof[i];
        assert(nodes[i as int] == node@);
        if !node.is_well_formed() {
            return Err(ClientError::ProofMalformed);
        }
        let h = node.digest();
        if !bytes_eq(h.as_slice(), expected.as_slice()) {
            return Err(ClientError::ProofInvalid);
        }
        let last = i + 1 == proof.len();
        match node {
            TrieNode::Branch { children, value } => {
                if pos >= path.len() {
                    if !last {
                        return Err(ClientError::ProofMalformed);
                    } else if value.len() == 0 {
                        return Ok(None);
                    } else {
                        return Ok(Some(copy_bytes(value.as_slice())));
                    }
                }
                let nib = path[pos] as usize;
                assert(bytes_view(children@)[nib as int] == children@[nib as int]@);
                let c = &children[nib];
                if c.len() == 0 {
                    if last {
                        return Ok(None);
                    } else {
                        return Err(ClientError::ProofMalformed);
                    }
                }
                expected = copy_bytes(c.as_slice());
                i = i + 1;
                pos = pos + 1;
            },
            TrieNode::Extension { path: ext, child } => {
                if matches_at(path.as_slice(), pos, ext.as_slice()) {
                    expected = copy_bytes(child.as_slice());
                    i = i + 1;
                    pos = pos + ext.len();
                } else if last {
                    return Ok(None);
                } else {
                    return Err(ClientError::ProofMalformed);
                }
            },
            TrieNode::Leaf { path: rest, value } => {
                if !last {
                    return Err(ClientError::ProofMalformed);
                }
                if rest.len() == path.len() - pos && matches_at(
                    path.as_slice(),
                    pos,
                    rest.as_slice(),
                ) {
                    return Ok(Some(copy_bytes(value.as_slice())));
                } else {
                    return Ok(None);
                }
            },
        }
    }
}

/// Checks that the proof shows `key` holding exactly `value` under `root`.
pub fn verify_membership(root: &H256, proof: &Vec<TrieNode>, key: &[u8], value: &[u8]) -> (r:
    Result<(), ClientError>)
    ensures
        r == membership_outcome(trie_lookup(root@, nodes_view(proof@), key@), value@),
{
    let path = key_path_of(key);
    match lookup_path(root, proof, &path) {
        Err(e) => Err(e),
        Ok(None) => Err(ClientError::KeyNotFound),
        Ok(Some(v)) => if bytes_eq(v.as_slice(), value) {
            Ok(())
        } else {
            Err(ClientError::ValueMismatch)
        },
    }
}

/// Checks that the proof shows that nothing is stored at `key` under `root`.
pub fn verify_non_membership(root: &H256, proof: &Vec<TrieNode>, key: &[u8]) -> (r: Result<
    (),
    ClientError,
>)
    ensures
        r == non_membership_outcome(trie_lookup(root@, nodes_view(proof@), key@)),
{
    let path = key_path_of(key);
    match lookup_path(root, proof, &path) {
        Err(e) => Err(e),
        Ok(None) => Ok(()),
        Ok(Some(v)) => Err(ClientError::KeyPresent),
    }
}

} // verus!
