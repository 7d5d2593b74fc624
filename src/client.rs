use vstd::prelude::*;

use crate::codec::{Timestamp, H256};
use crate::commitment::{self, existence_outcome, ExistenceProof};
use crate::consensus_state::{ConsensusState, ConsensusStateStore};
use crate::error::ClientError;
use crate::mpt::{self, membership_outcome, nodes_view, non_membership_outcome, trie_lookup, TrieNode};

verus! {

/// Per-client configuration and status.
#[derive(Clone, Debug)]
pub struct ClientState {
    /// The highest height of a recorded consensus state.
    pub latest_height: u64,
    /// Set for good once misbehaviour has been seen.
    pub frozen: bool,
    /// The key under which a state root commits to the contract's storage root.
    pub ibc_contract_address: Vec<u8>,
}

/// Whether a client still accepts updates and queries.
#[derive(Clone, Copy, Debug, PartialEq, Eq, Structural)]
pub enum Status {
    Active,
    Frozen,
}

/// A new execution-layer snapshot, with the proof that its storage root is
/// committed under its state root.
#[derive(Clone, Debug)]
pub struct Header {
    pub height: u64,
    pub timestamp: Timestamp,
    pub state_root: H256,
    pub storage_root: H256,
    pub consensus_proof: ExistenceProof,
}

impl Header {
    /// The consensus state that the header would record.
    pub open spec fn snapshot(&self) -> ConsensusState {
        ConsensusState {
            timestamp: self.timestamp,
            state_root: self.state_root,
            storage_root: self.storage_root,
        }
    }

    pub fn consensus_state(&self) -> (r: ConsensusState)
        ensures
            r == self.snapshot(),
    {
        ConsensusState::new(self.timestamp, self.state_root, self.storage_root)
    }
}

/// A two-layer proof: the outer one binds the storage root to the state root,
/// the inner one opens the storage trie at a key.
#[derive(Clone, Debug)]
pub struct Proof {
    pub outer_proof: ExistenceProof,
    pub inner_proof: Vec<TrieNode>,
}

/// Evidence that the counterparty misbehaved, by the height it concerns.
#[derive(Clone, Copy, Debug, PartialEq, Eq, Structural)]
pub enum Misbehaviour {
    /// Two different roots for one height.
    ConflictingHeaders { height: u64 },
    /// A timestamp that does not grow with the height.
    TimestampInversion { height: u64 },
}

/// The mathematical state of a client.
pub struct ClientView {
    pub latest_height: u64,
    pub frozen: bool,
    pub contract: Seq<u8>,
    pub states: Map<u64, ConsensusState>,
}

/// A light client: its state and its consensus states.
pub struct LightClient {
    client_state: ClientState,
    consensus_states: ConsensusStateStore,
}

impl View for LightClient {
    type V = ClientView;

    closed spec fn view(&self) -> ClientView {
        ClientView {
            latest_height: self.client_state.latest_height,
            frozen: self.client_state.frozen,
            contract: self.client_state.ibc_contract_address@,
            states: self.consensus_states@,
        }
    }
}

/// The latest height is recorded and is the highest, and timestamps grow
/// strictly with height.
pub open spec fn client_wf(c: ClientView) -> bool {
    &&& c.states.contains_key(c.latest_height)
    &&& forall|h: u64| #[trigger] c.states.contains_key(h) ==> h <= c.latest_height
    &&& forall|h1: u64, h2: u64|
        #[trigger] c.states.contains_key(h1) && #[trigger] c.states.contains_key(h2) && h1 < h2
            ==> c.states[h1].timestamp.nanos < c.states[h2].timestamp.nanos
}

/// What the header's own proof says of its storage root.
pub open spec fn binding_outcome(c: ClientView, h: Header) -> Result<(), ClientError> {
    existence_outcome(h.state_root@, h.consensus_proof@, c.contract, h.storage_root@)
}

/// The header repeats the snapshot already recorded at its height.
pub open spec fn already_recorded(c: ClientView, h: Header) -> bool {
    c.states.contains_key(h.height) && c.states[h.height]@ == h.snapshot()@
}

/// What `update` with `h` returns.
pub open spec fn update_outcome(c: ClientView, h: Header) -> Result<(), ClientError> {
    if c.frozen {
        Err(ClientError::ClientFrozen)
    } else if already_recorded(c, h) {
        Ok(())
    } else if h.height <= c.latest_height {
        Err(ClientError::HeightNotNewer)
    } else if h.timestamp.nanos <= c.states[c.latest_height].timestamp.nanos {
        Err(ClientError::HeaderTimestampNotMonotonic)
    } else {
        binding_outcome(c, h)
    }
}

/// The client after `update` with `h`.
pub open spec fn after_update(c: ClientView, h: Header) -> ClientView {
    if update_outcome(c, h) is Ok && !already_recorded(c, h) {
        ClientView {
            latest_height: h.height,
            states: c.states.insert(h.height, h.snapshot()),
            ..c
        }
    } else {
        c
    }
}

/// What the outer proof of a query says of the storage root recorded at `height`.
pub open spec fn query_binding(c: ClientView, height: u64, p: commitment::ExistenceView) -> Result<(), ClientError> {
    let cs = c.states[height];
    existence_outcome(cs.state_root@, p, c.contract, cs.storage_root@)
}

/// What `verify_membership` returns: the binding of the recorded storage root
/// first, then the trie proof of `key` under it.
pub open spec fn membership_result(
    c: ClientView,
    height: u64,
    key: Seq<u8>,
    value: Seq<u8>,
    outer: commitment::ExistenceView,
    inner: Seq<mpt::NodeView>,
) -> Result<(), ClientError> {
    if c.frozen {
        Err(ClientError::ClientFrozen)
    } else if !c.states.contains_key(height) {
        Err(ClientError::HeightNotFound)
    } else if query_binding(c, height, outer) is Err {
        query_binding(c, height, outer)
    } else {
        membership_outcome(trie_lookup(c.states[height].storage_root@, inner, key), value)
    }
}

/// What `verify_non_membership` returns: the binding of the recorded storage
/// root first, then the trie proof that `key` is absent under it.
pub open spec fn non_membership_result(
    c: ClientView,
    height: u64,
    key: Seq<u8>,
    outer: commitment::ExistenceView,
    inner: Seq<mpt::NodeView>,
) -> Result<(), ClientError> {
    if c.frozen {
        Err(ClientError::ClientFrozen)
    } else if !c.states.contains_key(height) {
        Err(ClientError::HeightNotFound)
    } else if query_binding(c, height, outer) is Err {
        query_binding(c, height, outer)
    } else {
        non_membership_outcome(trie_lookup(c.states[height].storage_root@, inner, key))
    }
}

/// Two headers for one height with different roots.
pub open spec fn conflicting(a: Header, b: Header) -> bool {
    a.height == b.height && (a.state_root@ != b.state_root@ || a.storage_root@ != b.storage_root@)
}

/// A header that disagrees with the snapshot recorded at its height.
pub open spec fn conflicts_recorded(c: ClientView, h: Header) -> bool {
    c.states.contains_key(h.height) && c.states[h.height]@ != h.snapshot()@
}

/// Heights and timestamps ordered in opposite ways.
pub open spec fn inverted(h1: u64, t1: u64, h2: u64, t2: u64) -> bool {
    (h1 < h2 && t1 >= t2) || (h2 < h1 && t2 >= t1)
}

/// A header out of time order with some recorded snapshot.
pub open spec fn inverted_to_recorded(c: ClientView, h: Header) -> bool {
    exists|s: u64|
        #[trigger] c.states.contains_key(s) && inverted(
            h.height,
            h.timestamp.nanos,
            s,
            c.states[s].timestamp.nanos,
        )
}

/// The misbehaviour that two headers show, conflicts before time inversions.
pub open spec fn misbehaviour_of(c: ClientView, a: Header, b: Header) -> Option<Misbehaviour> {
    if conflicting(a, b) || conflicts_recorded(c, a) {
        Some(Misbehaviour::ConflictingHeaders { height: a.height })
    } else if conflicts_recorded(c, b) {
        Some(Misbehaviour::ConflictingHeaders { height: b.height })
    } else if inverted(a.height, a.timestamp.nanos, b.height, b.timestamp.nanos)
        || inverted_to_recorded(c, a) {
        Some(Misbehaviour::TimestampInversion { height: a.height })
    } else if inverted_to_recorded(c, b) {
        Some(Misbehaviour::TimestampInversion { height: b.height })
    } else {
        None
    }
}

/// What `check_misbehaviour` returns: both headers must carry valid proofs.
pub open spec fn misbehaviour_outcome(c: ClientView, a: Header, b: Header) -> Result<
    Option<Misbehaviour>,
    ClientError,
> {
    if c.frozen {
        Err(ClientError::ClientFrozen)
    } else if binding_outcome(c, a) is Err {
        Err(binding_outcome(c, a)->Err_0)
    } else if binding_outcome(c, b) is Err {
        Err(binding_outcome(c, b)->Err_0)
    } else {
        Ok(misbehaviour_of(c, a, b))
    }
}

/// The client after `check_misbehaviour` with `a` and `b`.
pub open spec fn after_misbehaviour(c: ClientView, a: Header, b: Header) -> ClientView {
    if misbehaviour_outcome(c, a, b) matches Ok(Some(_)) {
        ClientView { frozen: true, ..c }
    } else {
        c
    }
}

/// Applying the same header twice: the second application is accepted and
/// leaves the client, its latest height included, as the first one left it.
pub proof fn lemma_update_idempotent(c: ClientView, h: Header)
    requires
        update_outcome(c, h) is Ok,
    ensures
        update_outcome(after_update(c, h), h) is Ok,
        after_update(after_update(c, h), h) == after_update(c, h),
        after_update(after_update(c, h), h).latest_height == after_update(c, h).latest_height,
{
    let c2 = after_update(c, h);
    if !already_recorded(c, h) {
        assert(c2.states[h.height] == h.snapshot());
    }
    assert(already_recorded(c2, h));
}

/// The latest height never goes down. A header at or below it that does not
/// repeat the recorded snapshot is refused with `HeightNotNewer` and changes
/// nothing.
pub proof fn lemma_height_monotonic(c: ClientView, h: Header)
    ensures
        after_update(c, h).latest_height >= c.latest_height,
        !c.frozen && h.height <= c.latest_height && !already_recorded(c, h) ==> update_outcome(c, h)
            == Err::<(), ClientError>(ClientError::HeightNotNewer) && after_update(c, h) == c,
{
}

/// Once misbehaviour has been found, the client is frozen, and every later
/// update, query or misbehaviour check fails with `ClientFrozen` and leaves
/// it frozen, whatever its inputs.
pub proof fn lemma_freezing_is_irreversible(
    c: ClientView,
    a: Header,
    b: Header,
    h: Header,
    a2: Header,
    b2: Header,
    height: u64,
    key: Seq<u8>,
    value: Seq<u8>,
    outer: commitment::ExistenceView,
    inner: Seq<mpt::NodeView>,
)
    requires
        misbehaviour_outcome(c, a, b) matches Ok(Some(_)),
    ensures
        after_misbehaviour(c, a, b).frozen,
        update_outcome(after_misbehaviour(c, a, b), h) == Err::<(), ClientError>(
            ClientError::ClientFrozen,
        ),
        after_update(after_misbehaviour(c, a, b), h) == after_misbehaviour(c, a, b),
        membership_result(after_misbehaviour(c, a, b), height, key, value, outer, inner) == Err::<
            (),
            ClientError,
        >(ClientError::ClientFrozen),
        non_membership_result(after_misbehaviour(c, a, b), height, key, outer, inner) == Err::<
            (),
            ClientError,
        >(ClientError::ClientFrozen),
        misbehaviour_outcome(after_misbehaviour(c, a, b), a2, b2) == Err::<
            Option<Misbehaviour>,
            ClientError,
        >(ClientError::ClientFrozen),
        after_misbehaviour(after_misbehaviour(c, a, b), a2, b2) == after_misbehaviour(c, a, b),
{
}

/// A query that succeeds for `value` fails with `ValueMismatch` for any other
/// value, with the same height, key and proof.
pub proof fn lemma_verified_value_is_unique(
    c: ClientView,
    height: u64,
    key: Seq<u8>,
    value: Seq<u8>,
    other: Seq<u8>,
    outer: commitment::ExistenceView,
    inner: Seq<mpt::NodeView>,
)
    requires
        membership_result(c, height, key, value, outer, inner) is Ok,
        other != value,
    ensures
        membership_result(c, height, key, other, outer, inner) == Err::<(), ClientError>(
            ClientError::ValueMismatch,
        ),
{
}

fn timestamps_inverted(h1: u64, t1: u64, h2: u64, t2: u64) -> (r: bool)
    ensures
        r == inverted(h1, t1, h2, t2),
{
    (h1 < h2 && t1 >= t2) || (h2 < h1 && t2 >= t1)
}

/// Checks the header's proof that its storage root is committed under its
/// state root at the contract's key.
fn check_binding(contract: &Vec<u8>, h: &Header) -> (r: Result<(), ClientError>)
    ensures
        r == existence_outcome(h.state_root@, h.consensus_proof@, contract@, h.storage_root@),
{
    commitment::verify_membership(
        &h.state_root,
        &h.consensus_proof,
        contract.as_slice(),
        h.storage_root.as_slice(),
    )
}

impl LightClient {
    pub closed spec fn wf(&self) -> bool {
        client_wf(self@) && self.consensus_states.wf()
    }

    /// A client whose only consensus state is `consensus_state`, recorded at
    /// the client state's latest height.
    pub fn instantiate(client_state: ClientState, consensus_state: ConsensusState) -> (r: LightClient)
        ensures
            r.wf(),
            r@.latest_height == client_state.latest_height,
            r@.frozen == client_state.frozen,
            r@.contract == client_state.ibc_contract_address@,
            r@.states == Map::<u64, ConsensusState>::empty().insert(
                client_state.latest_height,
                consensus_state,
            ),
    {
        let mut consensus_states = ConsensusStateStore::new();
        let _ = consensus_states.insert(client_state.latest_height, consensus_state);
        LightClient { client_state, consensus_states }
    }

    pub fn latest_height(&self) -> (r: u64)
        ensures
            r == self@.latest_height,
    {
        self.client_state.latest_height
    }

    pub fn status(&self) -> (r: Status)
        ensures
            r == (if self@.frozen {
                Status::Frozen
            } else {
                Status::Active
            }),
    {
        if self.client_state.frozen {
            Status::Frozen
        } else {
            Status::Active
        }
    }

    pub fn client_state(&self) -> (r: &ClientState)
        ensures
            r.latest_height == self@.latest_height,
            r.frozen == self@.frozen,
            r.ibc_contract_address@ == self@.contract,
    {
        &self.client_state
    }

    pub fn consensus_state(&self, height: u64) -> (r: Option<ConsensusState>)
        ensures
            r == (if self@.states.contains_key(height) {
                Some(self@.states[height])
            } else {
                None
            }),
    {
        self.consensus_states.get(height)
    }

    fn latest_timestamp(&self) -> (r: u64)
        requires
            self.wf(),
        ensures
            r == self@.states[self@.latest_height].timestamp.nanos,
    {
        match self.consensus_states.get(self.client_state.latest_height) {
            Some(cs) => cs.timestamp.nanos,
            None => 0,
        }
    }

    /// Records the header's snapshot and makes its height the latest one.
    /// Repeating a recorded snapshot is accepted and changes nothing.
    pub fn update(&mut self, header: &Header) -> (r: Result<(), ClientError>)
        requires
            old(self).wf(),
        ensures
            final(self).wf(),
            r == update_outcome(old(self)@, *header),
            final(self)@ == after_update(old(self)@, *header),
    {
        if self.client_state.frozen {
            return Err(ClientError::ClientFrozen);
        }
        let cs = header.consensus_state();
        match self.consensus_states.get(header.height) {
            Some(existing) => {
                if existing.same_as(&cs) {
                    return Ok(());
                }
            },
            None => {},
        }
        if header.height <= self.client_state.latest_height {
            return Err(ClientError::HeightNotNewer);
        }
        if header.timestamp.nanos <= self.latest_timestamp() {
            return Err(ClientError::HeaderTimestampNotMonotonic);
        }
        match check_binding(&self.client_state.ibc_contract_address, header) {
            Err(e) => {
                return Err(e);
            },
            Ok(()) => {},
        }
        let ghost c = self@;
        assert(!c.states.contains_key(header.height));
        let _ = self.consensus_states.insert(header.height, cs);
        self.client_state.latest_height = header.height;
        proof {
            let n = self@;
            assert(n.states == c.states.insert(header.height, cs));
            assert forall|h1: u64, h2: u64|
                #[trigger] n.states.contains_key(h1) && #[trigger] n.states.contains_key(h2) && h1
                    < h2 implies n.states[h1].timestamp.nanos < n.states[h2].timestamp.nanos by {
                if h2 == header.height {
                    assert(c.states.contains_key(h1));
                    if h1 != c.latest_height {
                        assert(c.states[h1].timestamp.nanos < c.states[c.latest_height].timestamp.nanos);
                    }
                } else {
                    assert(c.states.contains_key(h2));
                    assert(c.states.contains_key(h1));
                }
            }
            assert(n =~= after_update(c, *header));
        }
        Ok(())
    }

    /// Checks that `proof` shows `key` holding `value` in the contract's
    /// storage at `height`.
    pub fn verify_membership(&self, height: u64, key: &[u8], value: &[u8], proof: &Proof) -> (r:
        Result<(), ClientError>)
        ensures
            r == membership_result(
                self@,
                height,
                key@,
                value@,
                proof.outer_proof@,
                nodes_view(proof.inner_proof@),
            ),
    {
        if self.client_state.frozen {
            return Err(ClientError::ClientFrozen);
        }
        let cs = match self.consensus_states.get(height) {
            None => {
                return Err(ClientError::HeightNotFound);
            },
            Some(cs) => cs,
        };
        match commitment::verify_membership(
            &cs.state_root,
            &proof.outer_proof,
            self.client_state.ibc_contract_address.as_slice(),
            cs.storage_root.as_slice(),
        ) {
            Err(e) => {
                return Err(e);
            },
            Ok(()) => {},
        }
        mpt::verify_membership(&cs.storage_root, &proof.inner_proof, key, value)
    }

    /// Checks that `proof` shows that nothing is stored at `key` in the
    /// contract's storage at `height`.
    pub fn verify_non_membership(&self, height: u64, key: &[u8], proof: &Proof) -> (r: Result<
        (),
        ClientError,
    >)
        ensures
            r == non_membership_result(
                self@,
                height,
                key@,
                proof.outer_proof@,
                nodes_view(proof.inner_proof@),
            ),
    {
        if self.client_state.frozen {
            return Err(ClientError::ClientFrozen);
        }
        let cs = match self.consensus_states.get(height) {
            None => {
                return Err(ClientError::HeightNotFound);
            },
            Some(cs) => cs,
        };
        match commitment::verify_membership(
            &cs.state_root,
            &proof.outer_proof,
            self.client_state.ibc_contract_address.as_slice(),
            cs.storage_root.as_slice(),
        ) {
            Err(e) => {
                return Err(e);
            },
            Ok(()) => {},
        }
        mpt::verify_non_membership(&cs.storage_root, &proof.inner_proof, key)
    }

    fn conflicts_recorded(&self, h: &Header) -> (r: bool)
        ensures
            r == conflicts_recorded(self@, *h),
    {
        match self.consensus_states.get(h.height) {
            Some(cs) => !cs.same_as(&h.consensus_state()),
            None => false,
        }
    }

    fn inverted_to_recorded(&self, h: &Header) -> (r: bool)
        requires
            self.wf(),
        ensures
            r == inverted_to_recorded(self@, *h),
    {
        let hs = self.consensus_states.heights();
        let mut k: usize = 0;
        while k < hs.len()
            invariant
                forall|i: int| 0 <= i < hs@.len() ==> self@.states.contains_key(#[trigger] hs@[i]),
                k <= hs@.len(),
                forall|j: int|
                    0 <= j < k ==> !inverted(
                        h.height,
                        h.timestamp.nanos,
                        #[trigger] hs@[j],
                        self@.states[hs@[j]].timestamp.nanos,
                    ),
            decreases hs@.len() - k,
        {
            let s = hs[k];
            assert(self@.states.contains_key(hs@[k as int]));
            match self.consensus_states.get(s) {
                Some(cs) => {
                    if timestamps_inverted(h.height, h.timestamp.nanos, s, cs.timestamp.nanos) {
                        return true;
                    }
                },
                None => {},
            }
            k = k + 1;
        }
        proof {
            assert forall|s: u64| #[trigger] self@.states.contains_key(s) implies !inverted(
                h.height,
                h.timestamp.nanos,
                s,
                self@.states[s].timestamp.nanos,
            ) by {
                assert(hs@.contains(s));
                let j = choose|j: int| 0 <= j < hs@.len() && hs@[j] == s;
                assert(!inverted(
                    h.height,
                    h.timestamp.nanos,
                    hs@[j],
                    self@.states[hs@[j]].timestamp.nanos,
                ));
            }
        }
        false
    }

    fn find_misbehaviour(&self, a: &Header, b: &Header) -> (r: Option<Misbehaviour>)
        requires
            self.wf(),
        ensures
            r == misbehaviour_of(self@, *a, *b),
    {
        let conflicting = a.height == b.height && (!a.state_root.same_as(&b.state_root)
            || !a.storage_root.same_as(&b.storage_root));
        if conflicting || self.conflicts_recorded(a) {
            return Some(Misbehaviour::ConflictingHeaders { height: a.height });
        }
        if self.conflicts_recorded(b) {
            return Some(Misbehaviour::ConflictingHeaders { height: b.height });
        }
        if timestamps_inverted(a.height, a.timestamp.nanos, b.height, b.timestamp.nanos)
            || self.inverted_to_recorded(a) {
            return Some(Misbehaviour::TimestampInversion { height: a.height });
        }
        if self.inverted_to_recorded(b) {
            return Some(Misbehaviour::TimestampInversion { height: b.height });
        }
        None
    }

    /// Looks for misbehaviour in two headers whose proofs hold, and freezes
    /// the client for good when it finds some.
    pub fn check_misbehaviour(&mut self, header_a: &Header, header_b: &Header) -> (r: Result<
        Option<Misbehaviour>,
        ClientError,
    >)
        requires
            old(self).wf(),
        ensures
            final(self).wf(),
            r == misbehaviour_outcome(old(self)@, *header_a, *header_b),
            final(self)@ == after_misbehaviour(old(self)@, *header_a, *header_b),
    {
        if self.client_state.frozen {
            return Err(ClientError::ClientFrozen);
        }
        match check_binding(&self.client_state.ibc_contract_address, header_a) {
            Err(e) => {
                return Err(e);
            },
            Ok(()) => {},
        }
        match check_binding(&self.client_state.ibc_contract_address, header_b) {
            Err(e) => {
                return Err(e);
            },
            Ok(()) => {},
        }
        let found = self.find_misbehaviour(header_a, header_b);
        if found.is_some() {
            self.client_state.frozen = true;
        }
        proof {
            assert(self@ =~= after_misbehaviour(old(self)@, *header_a, *header_b));
        }
        Ok(found)
    }
}

} // verus!
