use sha2::Digest;
use state_lens::client::{ClientState, Header, LightClient, Misbehaviour, Proof, Status};
use state_lens::codec::{Timestamp, H256};
use state_lens::commitment::{less_than, verify_non_membership, ExistenceProof, InnerOp, NonExistenceProof};
use state_lens::consensus_state::{ConsensusState, ConsensusStateStore};
use state_lens::error::ClientError;
use state_lens::mpt::{self, key_path_of, nibbles_of, TrieNode};

const CONTRACT: &[u8] = b"ibc-contract";

fn digest_vec(node: &TrieNode) -> Vec<u8> {
    node.digest().to_vec()
}

/// The node that commits to `entries` (full nibble paths) below `depth`.
fn build(entries: &[(Vec<u8>, Vec<u8>)], depth: usize) -> TrieNode {
    if entries.len() == 1 {
        return TrieNode::Leaf { path: entries[0].0[depth..].to_vec(), value: entries[0].1.clone() };
    }
    let first = &entries[0].0;
    let mut common = 0;
    while entries.iter().all(|(p, _)| p[depth + common] == first[depth + common]) {
        common += 1;
    }
    if common > 0 {
        let child = build(entries, depth + common);
        return TrieNode::Extension {
            path: first[depth..depth + common].to_vec(),
            child: digest_vec(&child),
        };
    }
    let mut children = vec![Vec::new(); 16];
    for nib in 0..16u8 {
        let group: Vec<(Vec<u8>, Vec<u8>)> =
            entries.iter().filter(|(p, _)| p[depth] == nib).cloned().collect();
        if !group.is_empty() {
            children[nib as usize] = digest_vec(&build(&group, depth + 1));
        }
    }
    TrieNode::Branch { children, value: Vec::new() }
}

/// The nodes met on the way from the root to `path`.
fn prove(entries: &[(Vec<u8>, Vec<u8>)], depth: usize, path: &[u8]) -> Vec<TrieNode> {
    let node = build(entries, depth);
    let mut out = vec![node.clone()];
    match &node {
        TrieNode::Leaf { .. } => {}
        TrieNode::Extension { path: ext, .. } => {
            if path[depth..].starts_with(ext) {
                out.extend(prove(entries, depth + ext.len(), path));
            }
        }
        TrieNode::Branch { .. } => {
            let group: Vec<(Vec<u8>, Vec<u8>)> =
                entries.iter().filter(|(p, _)| p[depth] == path[depth]).cloned().collect();
            if !group.is_empty() {
                out.extend(prove(&group, depth + 1, path));
            }
        }
    }
    out
}

/// A storage trie holding `pairs`: its root and a proof builder.
struct Trie {
    entries: Vec<(Vec<u8>, Vec<u8>)>,
}

impl Trie {
    fn new(pairs: &[(&[u8], &[u8])]) -> Trie {
        Trie {
            entries: pairs.iter().map(|(k, v)| (key_path_of(k), v.to_vec())).collect(),
        }
    }

    fn root(&self) -> H256 {
        H256::new(build(&self.entries, 0).digest())
    }

    fn proof_of(&self, key: &[u8]) -> Vec<TrieNode> {
        prove(&self.entries, 0, &key_path_of(key))
    }
}

/// An outer proof committing `storage_root` at the contract's key; its root
/// is the state root.
fn binding(storage_root: &H256, salt: u8) -> ExistenceProof {
    ExistenceProof {
        key: CONTRACT.to_vec(),
        value: storage_root.to_vec(),
        path: vec![
            InnerOp { prefix: vec![1, salt], suffix: vec![7; 32] },
            InnerOp { prefix: vec![1, 2, 3], suffix: vec![] },
        ],
    }
}

fn header(height: u64, nanos: u64, storage_root: H256, salt: u8) -> Header {
    let consensus_proof = binding(&storage_root, salt);
    let state_root = consensus_proof.calculate_root();
    Header {
        height,
        timestamp: Timestamp::from_nanos(nanos),
        state_root,
        storage_root,
        consensus_proof,
    }
}

fn client_at(h: &Header) -> LightClient {
    LightClient::instantiate(
        ClientState { latest_height: h.height, frozen: false, ibc_contract_address: CONTRACT.to_vec() },
        ConsensusState::new(h.timestamp, h.state_root, h.storage_root),
    )
}

fn root_of(byte: u8) -> H256 {
    H256::new([byte; 32])
}

fn kv(k: &'static str, v: &'static str) -> (&'static [u8], &'static [u8]) {
    (k.as_bytes(), v.as_bytes())
}

fn pairs() -> Vec<(&'static [u8], &'static [u8])> {
    vec![
        kv("balance:alice", "1000"),
        kv("balance:bob", "25"),
        kv("balance:carol", "7"),
        kv("supply", "1032"),
    ]
}

#[test]
fn trie_membership_succeeds() {
    let trie = Trie::new(&pairs());
    for (k, v) in pairs() {
        assert_eq!(mpt::verify_membership(&trie.root(), &trie.proof_of(k), k, v), Ok(()));
    }
}

#[test]
fn trie_membership_single_leaf() {
    let trie = Trie::new(&[kv("only", "x")]);
    let proof = trie.proof_of(b"only");
    assert_eq!(proof.len(), 1);
    assert_eq!(mpt::verify_membership(&trie.root(), &proof, b"only", b"x"), Ok(()));
    assert_eq!(mpt::verify_membership(&trie.root(), &proof, b"only", b"y"), Err(ClientError::ValueMismatch));
}

#[test]
fn trie_flipped_value_fails() {
    let trie = Trie::new(&pairs());
    let proof = trie.proof_of(b"balance:alice");
    let r = mpt::verify_membership(&trie.root(), &proof, b"balance:alice", b"1001");
    assert_eq!(r, Err(ClientError::ValueMismatch));
}

#[test]
fn trie_flipped_key_fails() {
    let trie = Trie::new(&pairs());
    let proof = trie.proof_of(b"balance:alice");
    let r = mpt::verify_membership(&trie.root(), &proof, b"balance:alicf", b"1000");
    assert!(r.is_err());
}

#[test]
fn trie_flipped_proof_node_fails() {
    let trie = Trie::new(&pairs());
    let proof = trie.proof_of(b"balance:alice");
    for i in 0..proof.len() {
        let mut bad = proof.clone();
        match &mut bad[i] {
            TrieNode::Branch { value, .. } => value.push(1),
            TrieNode::Extension { child, .. } => child[0] ^= 1,
            TrieNode::Leaf { value, .. } => value[0] ^= 1,
        }
        let r = mpt::verify_membership(&trie.root(), &bad, b"balance:alice", b"1000");
        assert_eq!(r, Err(ClientError::ProofInvalid));
    }
}

#[test]
fn trie_flipped_root_fails() {
    let trie = Trie::new(&pairs());
    let mut root = trie.root();
    root.bytes[31] ^= 0x80;
    let r = mpt::verify_membership(&root, &trie.proof_of(b"supply"), b"supply", b"1032");
    assert_eq!(r, Err(ClientError::ProofInvalid));
}

#[test]
fn trie_non_membership_succeeds() {
    let trie = Trie::new(&pairs());
    for k in [&b"balance:dave"[..], &b""[..], &b"supply2"[..]] {
        assert_eq!(mpt::verify_non_membership(&trie.root(), &trie.proof_of(k), k), Ok(()));
        assert_eq!(
            mpt::verify_membership(&trie.root(), &trie.proof_of(k), k, b"1"),
            Err(ClientError::KeyNotFound)
        );
    }
}

#[test]
fn trie_non_membership_of_present_key_fails() {
    let trie = Trie::new(&pairs());
    let r = mpt::verify_non_membership(&trie.root(), &trie.proof_of(b"balance:bob"), b"balance:bob");
    assert_eq!(r, Err(ClientError::KeyPresent));
}

#[test]
fn trie_old_absence_proof_fails_after_insert() {
    let trie = Trie::new(&pairs());
    let old_proof = trie.proof_of(b"balance:dave");
    assert_eq!(mpt::verify_non_membership(&trie.root(), &old_proof, b"balance:dave"), Ok(()));
    let mut grown = pairs();
    grown.push(kv("balance:dave", "3"));
    let new_trie = Trie::new(&grown);
    let r = mpt::verify_non_membership(&new_trie.root(), &old_proof, b"balance:dave");
    assert_eq!(r, Err(ClientError::ProofInvalid));
    assert_eq!(
        mpt::verify_membership(&new_trie.root(), &new_trie.proof_of(b"balance:dave"), b"balance:dave", b"3"),
        Ok(())
    );
}

#[test]
fn trie_malformed_proofs() {
    let trie = Trie::new(&pairs());
    let root = trie.root();
    assert_eq!(mpt::verify_membership(&root, &vec![], b"supply", b"1032"), Err(ClientError::ProofMalformed));
    let short_branch = TrieNode::Branch { children: vec![Vec::new(); 15], value: Vec::new() };
    assert_eq!(
        mpt::verify_membership(&root, &vec![short_branch], b"supply", b"1032"),
        Err(ClientError::ProofMalformed)
    );
    let bad_nibble = TrieNode::Leaf { path: vec![16], value: b"1032".to_vec() };
    assert_eq!(
        mpt::verify_membership(&root, &vec![bad_nibble], b"supply", b"1032"),
        Err(ClientError::ProofMalformed)
    );
    let mut trailing = trie.proof_of(b"supply");
    trailing.push(trailing.last().unwrap().clone());
    assert_eq!(mpt::verify_membership(&root, &trailing, b"supply", b"1032"), Err(ClientError::ProofMalformed));
}

#[test]
fn nibbles_split_bytes() {
    assert_eq!(nibbles_of(&[0xab, 0x01, 0xf0]), vec![10, 11, 0, 1, 15, 0]);
    assert_eq!(nibbles_of(&[]), Vec::<u8>::new());
}

#[test]
fn key_path_is_keccak_nibbles() {
    // Keccak-256 of the empty string.
    let expected = nibbles_of(&[
        0xc5, 0xd2, 0x46, 0x01, 0x86, 0xf7, 0x23, 0x3c, 0x92, 0x7e, 0x7d, 0xb2, 0xdc, 0xc7, 0x03,
        0xc0, 0xe5, 0x00, 0xb6, 0x53, 0xca, 0x82, 0x27, 0x3b, 0x7b, 0xfa, 0xd8, 0x04, 0x5d, 0x85,
        0xa4, 0x70,
    ]);
    assert_eq!(key_path_of(b""), expected);
    assert_eq!(key_path_of(b"").len(), 64);
}

#[test]
fn node_encoding_is_exact() {
    let leaf = TrieNode::Leaf { path: vec![1, 2], value: vec![9] };
    let mut expected = vec![2u8];
    expected.extend([0, 0, 0, 0, 0, 0, 0, 2, 1, 2]);
    expected.extend([0, 0, 0, 0, 0, 0, 0, 1, 9]);
    assert_eq!(leaf.encode(), expected);
    let ext = TrieNode::Extension { path: vec![3], child: vec![0; 32] };
    assert_eq!(ext.encode()[0], 1);
    assert_eq!(ext.encode().len(), 1 + 9 + 40);
    let branch = TrieNode::Branch { children: vec![Vec::new(); 16], value: vec![] };
    assert_eq!(branch.encode(), {
        let mut e = vec![0u8];
        e.extend(vec![0u8; 8 * 17]);
        e
    });
    assert_eq!(leaf.digest().to_vec(), alloy::primitives::keccak256(&expected).0.to_vec());
}

#[test]
fn commitment_membership() {
    let p = binding(&root_of(3), 1);
    let root = p.calculate_root();
    let value = root_of(3).to_vec();
    assert_eq!(state_lens::commitment::verify_membership(&root, &p, CONTRACT, &value), Ok(()));
    assert_eq!(
        state_lens::commitment::verify_membership(&root, &p, CONTRACT, &root_of(4).to_vec()),
        Err(ClientError::ValueMismatch)
    );
    assert_eq!(
        state_lens::commitment::verify_membership(&root, &p, b"other", &value),
        Err(ClientError::ProofInvalid)
    );
    assert_eq!(
        state_lens::commitment::verify_membership(&root_of(0), &p, CONTRACT, &value),
        Err(ClientError::ProofInvalid)
    );
    let mut bad = p.clone();
    bad.path[0].prefix = vec![0, 1];
    assert_eq!(
        state_lens::commitment::verify_membership(&root, &bad, CONTRACT, &value),
        Err(ClientError::ProofMalformed)
    );
    let mut empty_key = p.clone();
    empty_key.key = vec![];
    assert_eq!(
        state_lens::commitment::verify_membership(&root, &empty_key, b"", &value),
        Err(ClientError::ProofMalformed)
    );
}

#[test]
fn commitment_root_is_exact() {
    let p = ExistenceProof {
        key: b"k".to_vec(),
        value: b"v".to_vec(),
        path: vec![InnerOp { prefix: vec![1], suffix: vec![2] }],
    };
    let vh = sha2::Sha256::digest(b"v");
    let mut pre = vec![0u8, 0, 0, 0, 0, 0, 0, 0, 1, b'k', 0, 0, 0, 0, 0, 0, 0, 32];
    pre.extend(vh.as_slice());
    let leaf = sha2::Sha256::digest(&pre);
    assert_eq!(p.leaf_hash().to_vec(), leaf.to_vec());
    let mut inner = vec![1u8];
    inner.extend(leaf.as_slice());
    inner.push(2);
    assert_eq!(p.calculate_root().to_vec(), sha2::Sha256::digest(&inner).to_vec());
}

#[test]
fn store_insert_and_get() {
    let mut store = ConsensusStateStore::new();
    let cs = ConsensusState::new(Timestamp::from_nanos(10), root_of(1), root_of(2));
    assert!(store.get(7).is_none());
    assert_eq!(store.insert(7, cs), Ok(()));
    assert!(store.contains(7));
    assert!(store.get(7).unwrap().same_as(&cs));
    assert_eq!(store.insert(7, cs), Ok(()));
    let other = ConsensusState::new(Timestamp::from_nanos(10), root_of(1), root_of(9));
    assert_eq!(store.insert(7, other), Err(ClientError::DuplicateHeight));
    assert!(store.get(7).unwrap().same_as(&cs));
    assert_eq!(store.insert(20, other), Ok(()));
    assert!(store.get(20).unwrap().same_as(&other));
}

#[test]
fn update_is_idempotent() {
    let genesis = header(1, 100, root_of(1), 1);
    let mut client = client_at(&genesis);
    let h = header(5, 200, root_of(5), 1);
    assert_eq!(client.update(&h), Ok(()));
    assert_eq!(client.latest_height(), 5);
    assert_eq!(client.update(&h), Ok(()));
    assert_eq!(client.latest_height(), 5);
    assert_eq!(client.update(&genesis), Ok(()));
    assert_eq!(client.latest_height(), 5);
}

#[test]
fn update_rejects_lower_height() {
    let mut client = client_at(&header(1, 100, root_of(1), 1));
    assert_eq!(client.update(&header(5, 500, root_of(5), 1)), Ok(()));
    assert_eq!(client.update(&header(3, 300, root_of(3), 1)), Err(ClientError::HeightNotNewer));
    assert_eq!(client.latest_height(), 5);
    assert!(client.consensus_state(3).is_none());
    // A different snapshot at a recorded height is no newer either.
    assert_eq!(client.update(&header(5, 500, root_of(6), 1)), Err(ClientError::HeightNotNewer));
    assert!(client.consensus_state(5).unwrap().storage_root.same_as(&root_of(5)));
}

#[test]
fn update_rejects_stale_timestamp() {
    let mut client = client_at(&header(1, 100, root_of(1), 1));
    assert_eq!(
        client.update(&header(2, 100, root_of(2), 1)),
        Err(ClientError::HeaderTimestampNotMonotonic)
    );
    assert_eq!(
        client.update(&header(2, 99, root_of(2), 1)),
        Err(ClientError::HeaderTimestampNotMonotonic)
    );
    assert_eq!(client.latest_height(), 1);
    assert_eq!(client.update(&header(2, 101, root_of(2), 1)), Ok(()));
}

#[test]
fn update_rejects_bad_binding() {
    let mut client = client_at(&header(1, 100, root_of(1), 1));
    let mut h = header(2, 200, root_of(2), 1);
    h.storage_root = root_of(9);
    assert_eq!(client.update(&h), Err(ClientError::ValueMismatch));
    let mut h = header(2, 200, root_of(2), 1);
    h.state_root = root_of(0);
    assert_eq!(client.update(&h), Err(ClientError::ProofInvalid));
    let mut h = header(2, 200, root_of(2), 1);
    h.consensus_proof.path[1].prefix = vec![];
    assert_eq!(client.update(&h), Err(ClientError::ProofMalformed));
    assert_eq!(client.latest_height(), 1);
    assert!(client.consensus_state(2).is_none());
}

#[test]
fn misbehaviour_freezes_for_good() {
    let genesis = header(1, 100, root_of(1), 1);
    let mut client = client_at(&genesis);
    let a = header(2, 200, root_of(2), 1);
    let b = header(2, 200, root_of(3), 1);
    assert_eq!(client.check_misbehaviour(&a, &b), Ok(Some(Misbehaviour::ConflictingHeaders { height: 2 })));
    assert_eq!(client.status(), Status::Frozen);
    assert!(client.client_state().frozen);
    assert_eq!(client.update(&a), Err(ClientError::ClientFrozen));
    let proof = Proof { outer_proof: genesis.consensus_proof.clone(), inner_proof: vec![] };
    assert_eq!(client.verify_membership(1, b"k", b"v", &proof), Err(ClientError::ClientFrozen));
    assert_eq!(client.verify_non_membership(1, b"k", &proof), Err(ClientError::ClientFrozen));
    assert_eq!(client.check_misbehaviour(&a, &b), Err(ClientError::ClientFrozen));
    assert_eq!(client.status(), Status::Frozen);
    assert_eq!(client.latest_height(), 1);
}

#[test]
fn misbehaviour_kinds() {
    let genesis = header(10, 1000, root_of(1), 1);
    let mut client = client_at(&genesis);
    // Consistent headers: nothing found, client stays active.
    let a = header(11, 1100, root_of(2), 1);
    let b = header(12, 1200, root_of(3), 1);
    assert_eq!(client.check_misbehaviour(&a, &b), Ok(None));
    assert_eq!(client.status(), Status::Active);
    // A header with a bad proof is refused without freezing.
    let mut bad = a.clone();
    bad.state_root = root_of(0);
    assert_eq!(client.check_misbehaviour(&bad, &b), Err(ClientError::ProofInvalid));
    assert_eq!(client.status(), Status::Active);
    // Conflict with the recorded snapshot.
    let mut c2 = client_at(&genesis);
    let fork = header(10, 1000, root_of(7), 1);
    assert_eq!(c2.check_misbehaviour(&a, &fork), Ok(Some(Misbehaviour::ConflictingHeaders { height: 10 })));
    // Timestamps that do not grow with height.
    let mut c3 = client_at(&genesis);
    let late = header(13, 1100, root_of(4), 1);
    let early = header(14, 1050, root_of(5), 1);
    assert_eq!(c3.check_misbehaviour(&late, &early), Ok(Some(Misbehaviour::TimestampInversion { height: 13 })));
    let mut c4 = client_at(&genesis);
    let old = header(9, 2000, root_of(6), 1);
    assert_eq!(c4.check_misbehaviour(&a, &old), Ok(Some(Misbehaviour::TimestampInversion { height: 11 })));
}

#[test]
fn end_to_end_membership() {
    let r0 = Trie::new(&[kv("balance:alice", "900")]).root();
    let mut client = client_at(&header(100, 10_000, r0, 1));
    assert_eq!(client.latest_height(), 100);
    let trie = Trie::new(&pairs());
    let r1 = trie.root();
    let h = header(101, 10_100, r1, 2);
    assert_eq!(client.update(&h), Ok(()));
    assert_eq!(client.latest_height(), 101);
    assert_eq!(client.status(), Status::Active);
    let proof = Proof { outer_proof: h.consensus_proof.clone(), inner_proof: trie.proof_of(b"balance:alice") };
    assert_eq!(client.verify_membership(101, b"balance:alice", b"1000", &proof), Ok(()));
    assert_eq!(
        client.verify_membership(101, b"balance:alice", b"999", &proof),
        Err(ClientError::ValueMismatch)
    );
    assert_eq!(
        client.verify_membership(102, b"balance:alice", b"1000", &proof),
        Err(ClientError::HeightNotFound)
    );
    // The outer proof commits R1 under the state root of height 101 only.
    assert_eq!(
        client.verify_membership(100, b"balance:alice", b"1000", &proof),
        Err(ClientError::ProofInvalid)
    );
    let absent = Proof { outer_proof: h.consensus_proof.clone(), inner_proof: trie.proof_of(b"balance:zed") };
    assert_eq!(client.verify_non_membership(101, b"balance:zed", &absent), Ok(()));
    assert_eq!(
        client.verify_membership(101, b"balance:zed", b"0", &absent),
        Err(ClientError::KeyNotFound)
    );
    assert_eq!(
        client.verify_non_membership(101, b"balance:alice", &proof),
        Err(ClientError::KeyPresent)
    );
}

#[test]
fn instantiate_records_snapshot() {
    let g = header(7, 70, root_of(1), 1);
    let client = client_at(&g);
    let cs = client.consensus_state(7).unwrap();
    assert_eq!(cs.timestamp, Timestamp::from_nanos(70));
    assert!(cs.state_root.same_as(&g.state_root));
    assert!(cs.storage_root.same_as(&root_of(1)));
    assert_eq!(client.client_state().ibc_contract_address, CONTRACT.to_vec());
    assert_eq!(client.status(), Status::Active);
}

#[test]
fn misbehaviour_inversion_against_older_state() {
    let mut client = client_at(&header(10, 1000, root_of(1), 1));
    assert_eq!(client.update(&header(20, 2000, root_of(2), 1)), Ok(()));
    assert_eq!(client.update(&header(30, 3000, root_of(3), 1)), Ok(()));
    let between = header(15, 2500, root_of(4), 1);
    let later = header(31, 3100, root_of(5), 1);
    assert_eq!(
        client.check_misbehaviour(&later, &between),
        Ok(Some(Misbehaviour::TimestampInversion { height: 15 }))
    );
    assert_eq!(client.status(), Status::Frozen);
}

#[test]
fn store_lists_heights() {
    let mut store = ConsensusStateStore::new();
    let cs = ConsensusState::new(Timestamp::from_nanos(1), root_of(1), root_of(2));
    assert_eq!(store.insert(9, cs), Ok(()));
    assert_eq!(store.insert(4, cs), Ok(()));
    assert_eq!(store.insert(9, cs), Ok(()));
    assert_eq!(store.heights(), &vec![9, 4]);
}

/// A binary commitment tree over sorted keys "b", "d", "f", "h": its root and
/// the existence proof of each leaf.
fn binary_tree() -> (H256, Vec<ExistenceProof>) {
    let keys: [&[u8]; 4] = [b"b", b"d", b"f", b"h"];
    let leaves: Vec<ExistenceProof> = keys
        .iter()
        .map(|k| ExistenceProof { key: k.to_vec(), value: b"v".to_vec(), path: vec![] })
        .collect();
    let lh: Vec<Vec<u8>> = leaves.iter().map(|p| p.leaf_hash().to_vec()).collect();
    let node = |l: &[u8], r: &[u8]| {
        let mut pre = vec![1u8];
        pre.extend(l);
        pre.extend(r);
        sha2::Sha256::digest(&pre).to_vec()
    };
    let n01 = node(&lh[0], &lh[1]);
    let n23 = node(&lh[2], &lh[3]);
    let left_of = |sibling: &[u8]| InnerOp { prefix: vec![1], suffix: sibling.to_vec() };
    let right_of = |sibling: &[u8]| {
        let mut prefix = vec![1u8];
        prefix.extend(sibling);
        InnerOp { prefix, suffix: vec![] }
    };
    let paths = vec![
        vec![left_of(&lh[1]), left_of(&n23)],
        vec![right_of(&lh[0]), left_of(&n23)],
        vec![left_of(&lh[3]), right_of(&n01)],
        vec![right_of(&lh[2]), right_of(&n01)],
    ];
    let proofs: Vec<ExistenceProof> = leaves
        .into_iter()
        .zip(paths)
        .map(|(mut p, path)| {
            p.path = path;
            p
        })
        .collect();
    (H256::new(node(&n01, &n23).try_into().unwrap()), proofs)
}

#[test]
fn commitment_binary_tree_membership() {
    let (root, proofs) = binary_tree();
    for p in &proofs {
        assert!(p.calculate_root().same_as(&root));
        assert_eq!(state_lens::commitment::verify_membership(&root, p, &p.key, b"v"), Ok(()));
    }
}

#[test]
fn commitment_non_membership() {
    let (root, p) = binary_tree();
    let between = NonExistenceProof { left: Some(p[1].clone()), right: Some(p[2].clone()) };
    assert_eq!(verify_non_membership(&root, &between, b"e"), Ok(()));
    let inner = NonExistenceProof { left: Some(p[0].clone()), right: Some(p[1].clone()) };
    assert_eq!(verify_non_membership(&root, &inner, b"c"), Ok(()));
    let first = NonExistenceProof { left: None, right: Some(p[0].clone()) };
    assert_eq!(verify_non_membership(&root, &first, b"a"), Ok(()));
    let last = NonExistenceProof { left: Some(p[3].clone()), right: None };
    assert_eq!(verify_non_membership(&root, &last, b"z"), Ok(()));
    // Neighbours that are not next to each other hide "d".
    let gap = NonExistenceProof { left: Some(p[0].clone()), right: Some(p[2].clone()) };
    assert_eq!(verify_non_membership(&root, &gap, b"e"), Err(ClientError::ProofInvalid));
    // The key is not between the neighbours, or is one of them.
    assert_eq!(verify_non_membership(&root, &between, b"g"), Err(ClientError::ProofInvalid));
    assert_eq!(verify_non_membership(&root, &between, b"d"), Err(ClientError::ProofInvalid));
    // A first or last leaf that is not the outermost one.
    let not_first = NonExistenceProof { left: None, right: Some(p[1].clone()) };
    assert_eq!(verify_non_membership(&root, &not_first, b"c"), Err(ClientError::ProofInvalid));
    let not_last = NonExistenceProof { left: Some(p[2].clone()), right: None };
    assert_eq!(verify_non_membership(&root, &not_last, b"z"), Err(ClientError::ProofInvalid));
    // Another root.
    assert_eq!(verify_non_membership(&root_of(0), &between, b"e"), Err(ClientError::ProofInvalid));
    // No side at all.
    let empty = NonExistenceProof { left: None, right: None };
    assert_eq!(verify_non_membership(&root, &empty, b"e"), Err(ClientError::ProofMalformed));
}

#[test]
fn byte_order() {
    assert!(less_than(b"", b"a"));
    assert!(!less_than(b"", b""));
    assert!(less_than(b"ab", b"abc"));
    assert!(!less_than(b"abc", b"ab"));
    assert!(less_than(b"abc", b"abd"));
    assert!(!less_than(b"b", b"abc"));
}
