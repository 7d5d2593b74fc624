use vstd::prelude::*;

use std::collections::BTreeMap;

use crate::codec::{push_bytes, push_u64_be, u64_be, Timestamp, H256};
use crate::error::ClientError;

verus! {

broadcast use vstd::laws_cmp::group_laws_cmp;

/// A snapshot of the execution layer, recorded once per accepted header.
#[derive(Clone, Copy, Debug)]
pub struct ConsensusState {
    /// Timestamp of the execution layer.
    pub timestamp: Timestamp,
    /// State root of the execution layer.
    pub state_root: H256,
    /// Storage root of the ibc contract extracted from the state root.
    pub storage_root: H256,
}

/// The content of a consensus state, with the roots as byte sequences.
pub struct ConsensusStateView {
    pub timestamp: u64,
    pub state_root: Seq<u8>,
    pub storage_root: Seq<u8>,
}

impl View for ConsensusState {
    type V = ConsensusStateView;

    open spec fn view(&self) -> ConsensusStateView {
        ConsensusStateView {
            timestamp: self.timestamp.nanos,
            state_root: self.state_root@,
            storage_root: self.storage_root@,
        }
    }
}

impl ConsensusState {
    pub fn new(timestamp: Timestamp, state_root: H256, storage_root: H256) -> (r: ConsensusState)
        ensures
            r.timestamp == timestamp,
            r.state_root == state_root,
            r.storage_root == storage_root,
    {
        ConsensusState { timestamp, state_root, storage_root }
    }

    /// The canonical encoding: 72 bytes.
    pub fn encode(&self) -> (r: Vec<u8>)
        ensures
            r@ == encode_consensus_state(self@),
    {
        let mut out: Vec<u8> = Vec::new();
        push_u64_be(&mut out, self.timestamp.nanos);
        push_bytes(&mut out, self.state_root.as_slice());
        push_bytes(&mut out, self.storage_root.as_slice());
        assert(out@ =~= encode_consensus_state(self@));
        out
    }

    /// Reads the canonical encoding back; refuses any other length.
    pub fn decode(bytes: &[u8]) -> (r: Option<ConsensusState>)
        ensures
            match r {
                Some(cs) => decode_consensus_state(bytes@) == Some(cs@),
                None => decode_consensus_state(bytes@) is None,
            },
    {
        if bytes.len() != 72 {
            return None;
        }
        let t = ((bytes[0] as u64) << 56u64) | ((bytes[1] as u64) << 48u64) | ((bytes[2] as u64)
            << 40u64) | ((bytes[3] as u64) << 32u64) | ((bytes[4] as u64) << 24u64) | ((
        bytes[5] as u64) << 16u64) | ((bytes[6] as u64) << 8u64) | (bytes[7] as u64);
        let state_root = read_h256(bytes, 8);
        let storage_root = read_h256(bytes, 40);
        proof {
            let head = bytes@.subrange(0, 8);
            assert(head[0] == bytes@[0] && head[1] == bytes@[1] && head[2] == bytes@[2] && head[3]
                == bytes@[3] && head[4] == bytes@[4] && head[5] == bytes@[5] && head[6]
                == bytes@[6] && head[7] == bytes@[7]);
        }
        Some(ConsensusState { timestamp: Timestamp { nanos: t }, state_root, storage_root })
    }

    /// Whether the two snapshots hold the same timestamp and roots.
    pub fn same_as(&self, other: &ConsensusState) -> (r: bool)
        ensures
            r == (self@ == other@),
    {
        self.timestamp.nanos == other.timestamp.nanos && self.state_root.same_as(&other.state_root)
            && self.storage_root.same_as(&other.storage_root)
    }
}


/// The number whose eight big-endian bytes are `b`.
pub open spec fn u64_from_be(b: Seq<u8>) -> u64 {
    ((b[0] as u64) << 56u64) | ((b[1] as u64) << 48u64) | ((b[2] as u64) << 40u64) | ((
    b[3] as u64) << 32u64) | ((b[4] as u64) << 24u64) | ((b[5] as u64) << 16u64) | ((
    b[6] as u64) << 8u64) | (b[7] as u64)
}

/// The canonical encoding of a consensus state: the timestamp as eight
/// big-endian bytes, then the state root, then the storage root.
pub open spec fn encode_consensus_state(v: ConsensusStateView) -> Seq<u8> {
    u64_be(v.timestamp) + v.state_root + v.storage_root
}

/// Reads a consensus state back; anything but exactly 72 bytes is refused.
pub open spec fn decode_consensus_state(b: Seq<u8>) -> Option<ConsensusStateView> {
    if b.len() == 72 {
        Some(
            ConsensusStateView {
                timestamp: u64_from_be(b.subrange(0, 8)),
                state_root: b.subrange(8, 40),
                storage_root: b.subrange(40, 72),
            },
        )
    } else {
        None
    }
}

proof fn lemma_u64_be_inverse(x: u64)
    ensures
        u64_from_be(u64_be(x)) == x,
{
    let b = u64_be(x);
    assert(b[0] == (x >> 56u64) as u8 && b[1] == (x >> 48u64) as u8 && b[2] == (x >> 40u64) as u8
        && b[3] == (x >> 32u64) as u8 && b[4] == (x >> 24u64) as u8 && b[5] == (x >> 16u64) as u8
        && b[6] == (x >> 8u64) as u8 && b[7] == x as u8);
    assert((((x >> 56u64) as u8 as u64) << 56u64) | (((x >> 48u64) as u8 as u64) << 48u64) | (((x
        >> 40u64) as u8 as u64) << 40u64) | (((x >> 32u64) as u8 as u64) << 32u64) | (((x
        >> 24u64) as u8 as u64) << 24u64) | (((x >> 16u64) as u8 as u64) << 16u64) | (((x
        >> 8u64) as u8 as u64) << 8u64) | (x as u8 as u64) == x) by (bit_vector);
}

proof fn lemma_be_u64_inverse(b: Seq<u8>)
    requires
        b.len() == 8,
    ensures
        u64_be(u64_from_be(b)) == b,
{
    let (b0, b1, b2, b3, b4, b5, b6, b7) = (b[0], b[1], b[2], b[3], b[4], b[5], b[6], b[7]);
    let x = u64_from_be(b);
    assert(x == ((b0 as u64) << 56u64) | ((b1 as u64) << 48u64) | ((b2 as u64) << 40u64) | ((
    b3 as u64) << 32u64) | ((b4 as u64) << 24u64) | ((b5 as u64) << 16u64) | ((b6 as u64)
        << 8u64) | (b7 as u64));
    assert(x == ((b0 as u64) << 56u64) | ((b1 as u64) << 48u64) | ((b2 as u64) << 40u64) | ((
    b3 as u64) << 32u64) | ((b4 as u64) << 24u64) | ((b5 as u64) << 16u64) | ((b6 as u64)
        << 8u64) | (b7 as u64) ==> (x >> 56u64) as u8 == b0 && (x >> 48u64) as u8 == b1 && (x
        >> 40u64) as u8 == b2 && (x >> 32u64) as u8 == b3 && (x >> 24u64) as u8 == b4 && (x
        >> 16u64) as u8 == b5 && (x >> 8u64) as u8 == b6 && x as u8 == b7) by (bit_vector);
    assert(u64_be(x) =~= b);
}

/// Decoding undoes encoding: every consensus state comes back from its bytes
/// unchanged, so no two different states share an encoding.
pub proof fn lemma_consensus_state_round_trip(cs: ConsensusState)
    ensures
        decode_consensus_state(encode_consensus_state(cs@)) == Some(cs@),
{
    let b = encode_consensus_state(cs@);
    lemma_u64_be_inverse(cs.timestamp.nanos);
    assert(b.subrange(0, 8) =~= u64_be(cs.timestamp.nanos));
    assert(b.subrange(8, 40) =~= cs@.state_root);
    assert(b.subrange(40, 72) =~= cs@.storage_root);
}

/// The encoding is canonical: bytes that decode are exactly the encoding of
/// what they decode to.
pub proof fn lemma_consensus_state_canonical(b: Seq<u8>)
    requires
        decode_consensus_state(b) is Some,
    ensures
        encode_consensus_state(decode_consensus_state(b)->Some_0) == b,
{
    lemma_be_u64_inverse(b.subrange(0, 8));
    assert(encode_consensus_state(decode_consensus_state(b)->Some_0) =~= b);
}

/// The 32 bytes of `s` from `start`, as a digest.
fn read_h256(s: &[u8], start: usize) -> (r: H256)
    requires
        start + 32 <= s@.len(),
    ensures
        r@ == s@.subrange(start as int, start + 32),
{
    let n = s.len();
    let mut a = [0u8; 32];
    let mut k: usize = 0;
    while k < 32
        invariant
            s@.len() == n,
            start + 32 <= s@.len(),
            k <= 32,
            forall|j: int| 0 <= j < k ==> a@[j] == s@[start + j],
        decreases 32 - k,
    {
        a[k] = s[start + k];
        k = k + 1;
    }
    assert(a@ =~= s@.subrange(start as int, start + 32));
    H256::new(a)
}

/// Consensus states keyed by height. A height, once recorded, keeps its
/// snapshot: it can be written again only with the same content. The heights
/// are also listed in the order they were recorded, so that they can be
/// walked.
pub struct ConsensusStateStore {
    states: BTreeMap<u64, ConsensusState>,
    heights: Vec<u64>,
}

impl View for ConsensusStateStore {
    type V = Map<u64, ConsensusState>;

    closed spec fn view(&self) -> Map<u64, ConsensusState> {
        self.states@
    }
}

impl ConsensusStateStore {
    /// The list of heights names exactly the recorded heights.
    pub closed spec fn wf(&self) -> bool {
        &&& forall|i: int|
            0 <= i < self.heights@.len() ==> self.states@.contains_key(#[trigger] self.heights@[i])
        &&& forall|h: u64| #[trigger] self.states@.contains_key(h) ==> self.heights@.contains(h)
    }

    pub fn new() -> (r: ConsensusStateStore)
        ensures
            r.wf(),
            r@ == Map::<u64, ConsensusState>::empty(),
    {
        ConsensusStateStore { states: BTreeMap::new(), heights: Vec::new() }
    }

    pub fn get(&self, height: u64) -> (r: Option<ConsensusState>)
        ensures
            r == (if self@.contains_key(height) {
                Some(self@[height])
            } else {
                None
            }),
    {
        match self.states.get(&height) {
            Some(cs) => Some(*cs),
            None => None,
        }
    }

    pub fn contains(&self, height: u64) -> (r: bool)
        ensures
            r == self@.contains_key(height),
    {
        self.states.contains_key(&height)
    }

    /// The recorded heights, in the order they were recorded.
    pub fn heights(&self) -> (r: &Vec<u64>)
        requires
            self.wf(),
        ensures
            forall|i: int| 0 <= i < r@.len() ==> self@.contains_key(#[trigger] r@[i]),
            forall|h: u64| #[trigger] self@.contains_key(h) ==> r@.contains(h),
    {
        &self.heights
    }

    /// Records `cs` at `height`. Writing the snapshot already recorded there
    /// is accepted and changes nothing; writing another one is refused.
    pub fn insert(&mut self, height: u64, cs: ConsensusState) -> (r: Result<(), ClientError>)
        requires
            old(self).wf(),
        ensures
            final(self).wf(),
            old(self)@.contains_key(height) ==> final(self)@ == old(self)@ && (r == if old(
                self,
            )@[height]@ == cs@ {
                Ok::<(), ClientError>(())
            } else {
                Err(ClientError::DuplicateHeight)
            }),
            !old(self)@.contains_key(height) ==> r is Ok && final(self)@ == old(self)@.insert(
                height,
                cs,
            ),
    {
        match self.states.get(&height) {
            Some(existing) => {
                if existing.same_as(&cs) {
                    Ok(())
                } else {
                    Err(ClientError::DuplicateHeight)
                }
            },
            None => {
                self.states.insert(height, cs);
                self.heights.push(height);
                proof {
                    assert forall|h: u64| #[trigger] self.states@.contains_key(h) implies self.heights@.contains(h) by {
                        if h == height {
                            assert(self.heights@[self.heights@.len() - 1] == h);
                        } else {
                            assert(old(self).heights@.contains(h));
                            let i = choose|i: int| 0 <= i < old(self).heights@.len() && old(self).heights@[i] == h;
                            assert(self.heights@[i] == h);
                        }
                    }
                    assert forall|i: int| 0 <= i < self.heights@.len() implies self.states@.contains_key(#[trigger] self.heights@[i]) by {
                        if i < old(self).heights@.len() {
                            assert(self.heights@[i] == old(self).heights@[i]);
                        }
                    }
                }
                Ok(())
            },
        }
    }
}

} // verus!
