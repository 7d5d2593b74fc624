use vstd::prelude::*;

use crate::codec::{bytes_eq, copy_bytes, length_prefixed, push_bytes, push_length_prefixed, H256};
use crate::error::ClientError;
use crate::hash::{sha256, sha256_of};

verus! {

/// One step up a commitment path: the parent's digest is taken over
/// `prefix ++ child ++ suffix`.
#[derive(Clone, Debug)]
pub struct InnerOp {
    pub prefix: Vec<u8>,
    pub suffix: Vec<u8>,
}

pub struct InnerOpView {
    pub prefix: Seq<u8>,
    pub suffix: Seq<u8>,
}

impl View for InnerOp {
    type V = InnerOpView;

    open spec fn view(&self) -> InnerOpView {
        InnerOpView { prefix: self.prefix@, suffix: self.suffix@ }
    }
}

/// A proof that `key` maps to `value` in a commitment: the leaf, then the
/// inner steps from the leaf up to the root.
#[derive(Clone, Debug)]
pub struct ExistenceProof {
    pub key: Vec<u8>,
    pub value: Vec<u8>,
    pub path: Vec<InnerOp>,
}

pub struct ExistenceView {
    pub key: Seq<u8>,
    pub value: Seq<u8>,
    pub path: Seq<InnerOpView>,
}

impl View for ExistenceProof {
    type V = ExistenceView;

    open spec fn view(&self) -> ExistenceView {
        ExistenceView {
            key: self.key@,
            value: self.value@,
            path: self.path@.map_values(|op: InnerOp| op@),
        }
    }
}

/// The tag that starts every leaf preimage; no inner step may start with it,
/// so that a leaf can never pass for an inner node.
pub const LEAF_TAG: u8 = 0;

/// The bytes that a leaf digest is taken over: the tag, the key, and the
/// digest of the value, each length-prefixed.
pub open spec fn leaf_preimage(key: Seq<u8>, value: Seq<u8>) -> Seq<u8> {
    seq![LEAF_TAG] + length_prefixed(key) + length_prefixed(sha256_of(value))
}

pub open spec fn leaf_digest(key: Seq<u8>, value: Seq<u8>) -> Seq<u8> {
    sha256_of(leaf_preimage(key, value))
}

/// The digest reached from `h` after the steps of `path`, first step first.
pub open spec fn fold_path(h: Seq<u8>, path: Seq<InnerOpView>) -> Seq<u8>
    decreases path.len(),
{
    if path.len() == 0 {
        h
    } else {
        let op = path.last();
        sha256_of(op.prefix + fold_path(h, path.drop_last()) + op.suffix)
    }
}

/// The root that an existence proof commits to.
pub open spec fn proof_root(p: ExistenceView) -> Seq<u8> {
    fold_path(leaf_digest(p.key, p.value), p.path)
}

/// An inner step can never be mistaken for a leaf.
pub open spec fn inner_op_ok(op: InnerOpView) -> bool {
    op.prefix.len() > 0 && op.prefix[0] != LEAF_TAG
}

/// A non-empty key, and inner steps that are no leaves.
pub open spec fn existence_well_formed(p: ExistenceView) -> bool {
    &&& p.key.len() > 0
    &&& forall|k: int| 0 <= k < p.path.len() ==> inner_op_ok(#[trigger] p.path[k])
}

/// What checking that `proof` shows `key` holding `value` under `root` yields.
pub open spec fn existence_outcome(root: Seq<u8>, p: ExistenceView, key: Seq<u8>, value: Seq<u8>) -> Result<(), ClientError> {
    if !existence_well_formed(p) {
        Err(ClientError::ProofMalformed)
    } else if p.key != key || proof_root(p) != root {
        Err(ClientError::ProofInvalid)
    } else if p.value != value {
        Err(ClientError::ValueMismatch)
    } else {
        Ok(())
    }
}

/// The tag that starts the preimage of a binary inner node: the tag, the left
/// child's digest, the right child's digest.
pub const INNER_TAG: u8 = 1;

/// A step in which the child is the left one of a binary node.
pub open spec fn is_left_step(op: InnerOpView) -> bool {
    op.prefix == seq![INNER_TAG] && op.suffix.len() == 32
}

/// A step in which the child is the right one of a binary node.
pub open spec fn is_right_step(op: InnerOpView) -> bool {
    op.prefix.len() == 33 && op.prefix[0] == INNER_TAG && op.suffix.len() == 0
}

/// Every step goes up from a right child: the leaf is the rightmost one.
pub open spec fn all_right(path: Seq<InnerOpView>) -> bool {
    forall|k: int| 0 <= k < path.len() ==> is_right_step(#[trigger] path[k])
}

/// Every step goes up from a left child: the leaf is the leftmost one.
pub open spec fn all_left(path: Seq<InnerOpView>) -> bool {
    forall|k: int| 0 <= k < path.len() ==> is_left_step(#[trigger] path[k])
}

/// The leaves of paths `l` and `r` are next to each other, `l` first: above
/// the node where the paths part they are the same, at that node `l` comes
/// from the left child and `r` from the right one, and below it `l` keeps to
/// the right and `r` to the left.
pub open spec fn neighbours(l: Seq<InnerOpView>, r: Seq<InnerOpView>) -> bool
    decreases l.len(),
{
    if l.len() == 0 || r.len() == 0 {
        false
    } else if l.last() == r.last() {
        neighbours(l.drop_last(), r.drop_last())
    } else {
        is_left_step(l.last()) && is_right_step(r.last()) && all_right(l.drop_last()) && all_left(
            r.drop_last(),
        )
    }
}

/// Byte strings in lexicographic order.
pub open spec fn bytes_lt(a: Seq<u8>, b: Seq<u8>) -> bool
    decreases a.len(),
{
    if a.len() == 0 {
        b.len() > 0
    } else if b.len() == 0 {
        false
    } else if a[0] != b[0] {
        a[0] < b[0]
    } else {
        bytes_lt(a.drop_first(), b.drop_first())
    }
}

/// A proof that a key is absent: the leaves on either side of where it would
/// be. A missing side means that the key would be first, or last.
#[derive(Clone, Debug)]
pub struct NonExistenceProof {
    pub left: Option<ExistenceProof>,
    pub right: Option<ExistenceProof>,
}

pub struct NonExistenceView {
    pub left: Option<ExistenceView>,
    pub right: Option<ExistenceView>,
}

impl View for NonExistenceProof {
    type V = NonExistenceView;

    open spec fn view(&self) -> NonExistenceView {
        NonExistenceView {
            left: match self.left {
                Some(p) => Some(p@),
                None => None,
            },
            right: match self.right {
                Some(p) => Some(p@),
                None => None,
            },
        }
    }
}

/// A present side is a well-formed existence proof.
pub open spec fn side_well_formed(p: Option<ExistenceView>) -> bool {
    match p {
        Some(e) => existence_well_formed(e),
        None => true,
    }
}

/// A present side commits to `root`.
pub open spec fn side_under_root(p: Option<ExistenceView>, root: Seq<u8>) -> bool {
    match p {
        Some(e) => proof_root(e) == root,
        None => true,
    }
}

/// The sides enclose `key`, and nothing lies between them.
pub open spec fn encloses(p: NonExistenceView, key: Seq<u8>) -> bool {
    match (p.left, p.right) {
        (Some(l), Some(r)) => bytes_lt(l.key, key) && bytes_lt(key, r.key) && neighbours(
            l.path,
            r.path,
        ),
        (Some(l), None) => bytes_lt(l.key, key) && all_right(l.path),
        (None, Some(r)) => bytes_lt(key, r.key) && all_left(r.path),
        (None, None) => false,
    }
}

/// What checking that `proof` shows `key` absent under `root` yields.
pub open spec fn non_existence_outcome(root: Seq<u8>, p: NonExistenceView, key: Seq<u8>) -> Result<(), ClientError> {
    if (p.left is None && p.right is None) || !side_well_formed(p.left) || !side_well_formed(
        p.right,
    ) {
        Err(ClientError::ProofMalformed)
    } else if !side_under_root(p.left, root) || !side_under_root(p.right, root) || !encloses(
        p,
        key,
    ) {
        Err(ClientError::ProofInvalid)
    } else {
        Ok(())
    }
}

impl ExistenceProof {
    pub fn is_well_formed(&self) -> (r: bool)
        ensures
            r == existence_well_formed(self@),
    {
        if self.key.len() == 0 {
            return false;
        }
        let ghost pv = self@.path;
        let mut k: usize = 0;
        while k < self.path.len()
            invariant
                pv == self@.path,
                k <= pv.len(),
                forall|j: int| 0 <= j < k ==> inner_op_ok(#[trigger] pv[j]),
            decreases pv.len() - k,
        {
            let op = &self.path[k];
            assert(pv[k as int] == op@);
            if op.prefix.len() == 0 || op.prefix[0] == LEAF_TAG {
                return false;
            }
            k = k + 1;
        }
        true
    }

    /// The digest of the proof's leaf.
    pub fn leaf_hash(&self) -> (r: [u8; 32])
        ensures
            r@ == leaf_digest(self@.key, self@.value),
    {
        let mut buf: Vec<u8> = Vec::new();
        buf.push(LEAF_TAG);
        push_length_prefixed(&mut buf, self.key.as_slice());
        let vh = sha256(self.value.as_slice());
        push_length_prefixed(&mut buf, vh.as_slice());
        assert(buf@ =~= leaf_preimage(self@.key, self@.value));
        sha256(buf.as_slice())
    }

    /// The root that the proof commits to.
    pub fn calculate_root(&self) -> (r: H256)
        ensures
            r@ == proof_root(self@),
    {
        let ghost pv = self@.path;
        let ghost leaf = leaf_digest(self@.key, self@.value);
        let mut h = self.leaf_hash();
        let mut k: usize = 0;
        while k < self.path.len()
            invariant
                pv == self@.path,
                k <= pv.len(),
                h@ == fold_path(leaf, pv.subrange(0, k as int)),
            decreases pv.len() - k,
        {
            let op = &self.path[k];
            let mut buf: Vec<u8> = copy_bytes(op.prefix.as_slice());
            push_bytes(&mut buf, h.as_slice());
            push_bytes(&mut buf, op.suffix.as_slice());
            assert(pv.subrange(0, k + 1).drop_last() =~= pv.subrange(0, k as int));
            assert(pv.subrange(0, k + 1).last() == op@);
            h = sha256(buf.as_slice());
            k = k + 1;
        }
        assert(pv.subrange(0, k as int) =~= pv);
        H256::new(h)
    }
}

/// Lexicographic order of byte strings.
pub fn less_than(a: &[u8], b: &[u8]) -> (r: bool)
    ensures
        r == bytes_lt(a@, b@),
{
    let n = a.len();
    let m = b.len();
    let mut i: usize = 0;
    assert(a@.subrange(0, n as int) =~= a@);
    assert(b@.subrange(0, m as int) =~= b@);
    while i < n && i < m
        invariant
            a@.len() == n,
            b@.len() == m,
            i <= n,
            i <= m,
            bytes_lt(a@, b@) == bytes_lt(a@.subrange(i as int, n as int), b@.subrange(i as int, m as int)),
        decreases n - i,
    {
        let ghost sa = a@.subrange(i as int, n as int);
        let ghost sb = b@.subrange(i as int, m as int);
        assert(sa[0] == a@[i as int] && sb[0] == b@[i as int]);
        if a[i] != b[i] {
            return a[i] < b[i];
        }
        assert(sa.drop_first() =~= a@.subrange(i + 1, n as int));
        assert(sb.drop_first() =~= b@.subrange(i + 1, m as int));
        i = i + 1;
    }
    assert(a@.subrange(i as int, n as int).len() == n - i);
    i == n && i < m
}

fn same_step(x: &InnerOp, y: &InnerOp) -> (r: bool)
    ensures
        r == (x@ == y@),
{
    bytes_eq(x.prefix.as_slice(), y.prefix.as_slice()) && bytes_eq(
        x.suffix.as_slice(),
        y.suffix.as_slice(),
    )
}

fn left_step(op: &InnerOp) -> (r: bool)
    ensures
        r == is_left_step(op@),
{
    let r = op.prefix.len() == 1 && op.prefix[0] == INNER_TAG && op.suffix.len() == 32;
    proof {
        if op.prefix@.len() == 1 && op.prefix@[0] == INNER_TAG {
            assert(op.prefix@ =~= seq![INNER_TAG]);
        }
    }
    r
}

fn right_step(op: &InnerOp) -> (r: bool)
    ensures
        r == is_right_step(op@),
{
    op.prefix.len() == 33 && op.prefix[0] == INNER_TAG && op.suffix.len() == 0
}

/// Whether the first `n` steps of `path` all go up from a right child
/// (`right`), or all from a left child.
fn all_steps(path: &Vec<InnerOp>, n: usize, right: bool) -> (r: bool)
    requires
        n <= path@.len(),
    ensures
        right ==> r == all_right(path@.map_values(|op: InnerOp| op@).subrange(0, n as int)),
        !right ==> r == all_left(path@.map_values(|op: InnerOp| op@).subrange(0, n as int)),
{
    let ghost pv = path@.map_values(|op: InnerOp| op@).subrange(0, n as int);
    let mut k: usize = 0;
    while k < n
        invariant
            n <= path@.len(),
            pv == path@.map_values(|op: InnerOp| op@).subrange(0, n as int),
            k <= n,
            right ==> forall|j: int| 0 <= j < k ==> is_right_step(#[trigger] pv[j]),
            !right ==> forall|j: int| 0 <= j < k ==> is_left_step(#[trigger] pv[j]),
        decreases n - k,
    {
        assert(pv[k as int] == path@[k as int]@);
        let ok = if right {
            right_step(&path[k])
        } else {
            left_step(&path[k])
        };
        if !ok {
            return false;
        }
        k = k + 1;
    }
    true
}

/// Whether the leaves of `l` and `r` are next to each other, `l` first.
fn are_neighbours(l: &Vec<InnerOp>, r: &Vec<InnerOp>) -> (res: bool)
    ensures
        res == neighbours(l@.map_values(|op: InnerOp| op@), r@.map_values(|op: InnerOp| op@)),
{
    let ghost lv = l@.map_values(|op: InnerOp| op@);
    let ghost rv = r@.map_values(|op: InnerOp| op@);
    let mut i: usize = l.len();
    let mut j: usize = r.len();
    assert(lv.subrange(0, i as int) =~= lv);
    assert(rv.subrange(0, j as int) =~= rv);
    while i > 0 && j > 0 && same_step(&l[i - 1], &r[j - 1])
        invariant
            lv == l@.map_values(|op: InnerOp| op@),
            rv == r@.map_values(|op: InnerOp| op@),
            i <= l@.len(),
            j <= r@.len(),
            neighbours(lv, rv) == neighbours(lv.subrange(0, i as int), rv.subrange(0, j as int)),
        decreases i,
    {
        assert(lv.subrange(0, i as int).last() == l@[i - 1]@);
        assert(rv.subrange(0, j as int).last() == r@[j - 1]@);
        assert(lv.subrange(0, i as int).drop_last() =~= lv.subrange(0, i - 1));
        assert(rv.subrange(0, j as int).drop_last() =~= rv.subrange(0, j - 1));
        i = i - 1;
        j = j - 1;
    }
    if i == 0 || j == 0 {
        return false;
    }
    assert(lv.subrange(0, i as int).last() == l@[i - 1]@);
    assert(rv.subrange(0, j as int).last() == r@[j - 1]@);
    assert(lv.subrange(0, i as int).drop_last() =~= lv.subrange(0, i - 1));
    assert(rv.subrange(0, j as int).drop_last() =~= rv.subrange(0, j - 1));
    left_step(&l[i - 1]) && right_step(&r[j - 1]) && all_steps(l, i - 1, true) && all_steps(
        r,
        j - 1,
        false,
    )
}

/// Checks that `proof` shows `key` holding exactly `value` under `root`.
pub fn verify_membership(root: &H256, proof: &ExistenceProof, key: &[u8], value: &[u8]) -> (r:
    Result<(), ClientError>)
    ensures
        r == existence_outcome(root@, proof@, key@, value@),
{
    if !proof.is_well_formed() {
        return Err(ClientError::ProofMalformed);
    }
    if !bytes_eq(proof.key.as_slice(), key) {
        return Err(ClientError::ProofInvalid);
    }
    let computed = proof.calculate_root();
    if !computed.same_as(root) {
        return Err(ClientError::ProofInvalid);
    }
    if !bytes_eq(proof.value.as_slice(), value) {
        return Err(ClientError::ValueMismatch);
    }
    Ok(())
}

/// Checks that `proof` shows that nothing is stored at `key` under `root`.
pub fn verify_non_membership(root: &H256, proof: &NonExistenceProof, key: &[u8]) -> (r: Result<
    (),
    ClientError,
>)
    ensures
        r == non_existence_outcome(root@, proof@, key@),
{
    let left_ok = match &proof.left {
        Some(p) => p.is_well_formed(),
        None => true,
    };
    let right_ok = match &proof.right {
        Some(p) => p.is_well_formed(),
        None => true,
    };
    if (proof.left.is_none() && proof.right.is_none()) || !left_ok || !right_ok {
        return Err(ClientError::ProofMalformed);
    }
    let left_root = match &proof.left {
        Some(p) => p.calculate_root().same_as(root),
        None => true,
    };
    let right_root = match &proof.right {
        Some(p) => p.calculate_root().same_as(root),
        None => true,
    };
    if !left_root || !right_root {
        return Err(ClientError::ProofInvalid);
    }
    let enclosed = match (&proof.left, &proof.right) {
        (Some(l), Some(r)) => less_than(l.key.as_slice(), key) && less_than(key, r.key.as_slice())
            && are_neighbours(&l.path, &r.path),
        (Some(l), None) => less_than(l.key.as_slice(), key) && all_steps(
            &l.path,
            l.path.len(),
            true,
        ),
        (None, Some(r)) => less_than(key, r.key.as_slice()) && all_steps(
            &r.path,
            r.path.len(),
            false,
        ),
        (None, None) => false,
    };
    proof {
        let pv = proof@;
        if let Some(l) = pv.left {
            assert(l.path.subrange(0, l.path.len() as int) =~= l.path);
        }
        if let Some(r) = pv.right {
            assert(r.path.subrange(0, r.path.len() as int) =~= r.path);
        }
    }
    if !enclosed {
        return Err(ClientError::ProofInvalid);
    }
    Ok(())
}

} // verus!
