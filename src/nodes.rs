use vstd::prelude::*;
use crate::types::{DelegationError, NodeState, node_state_code, BLS_KEY_BYTE_LENGTH, BLS_SIGNATURE_BYTE_LENGTH, MAX_NODES_PER_OPERATION};
use crate::bytes::{bytes_eq, find_bytes};

verus! {
/// The node registry as a mathematical value: node `i` (1-based) has key
/// `keys[i - 1]`, signature `signatures[i - 1]` and state `states[i - 1]`.
pub struct NodesView {
    pub keys: Seq<Seq<u8>>,
    pub signatures: Seq<Seq<u8>>,
    pub states: Seq<NodeState>,
}

impl NodesView {
    pub open spec fn num_nodes(self) -> int {
        self.keys.len() as int
    }

    /// Keys, signatures and states line up, and no key is held by two ids.
    pub open spec fn wf(self) -> bool {
        &&& self.signatures.len() == self.keys.len()
        &&& self.states.len() == self.keys.len()
        &&& forall|i: int, j: int| 0 <= i < j < self.keys.len() ==> self.keys[i] != self.keys[j]
    }

    /// The id of the node with key `k`, or 0 when no node has it.
    pub open spec fn node_id(self, k: Seq<u8>) -> int {
        if exists|i: int| 0 <= i < self.keys.len() && self.keys[i] == k {
            (choose|i: int| 0 <= i < self.keys.len() && self.keys[i] == k) + 1
        } else {
            0
        }
    }

    /// State of node `id`; ids that were never assigned count as removed.
    pub open spec fn state(self, id: int) -> NodeState {
        if 1 <= id <= self.states.len() { self.states[id - 1] } else { NodeState::Removed }
    }

    /// Registration of one key: a new key gets the next id; a removed node
    /// is reinstated; either way the node is inactive with the new signature.
    pub open spec fn add_one(self, k: Seq<u8>, sig: Seq<u8>) -> NodesView {
        let id = self.node_id(k);
        if id == 0 {
            NodesView {
                keys: self.keys.push(k),
                signatures: self.signatures.push(sig),
                states: self.states.push(NodeState::Inactive),
            }
        } else {
            NodesView {
                keys: self.keys,
                signatures: self.signatures.update(id - 1, sig),
                states: self.states.update(id - 1, NodeState::Inactive),
            }
        }
    }

    /// Every node whose id is in `ids` set to state `s`.
    pub open spec fn with_states(self, ids: Seq<usize>, s: NodeState) -> NodesView {
        NodesView {
            keys: self.keys,
            signatures: self.signatures,
            states: Seq::new(self.states.len(), |i: int| if ids.contains((i + 1) as usize) { s } else { self.states[i] }),
        }
    }
}

/// The byte strings of a list of keys.
pub open spec fn key_views(keys: Seq<Vec<u8>>) -> Seq<Seq<u8>> {
    Seq::new(keys.len(), |k: int| keys[k]@)
}

/// The byte strings of a list of key/signature pairs.
pub open spec fn pair_views(pairs: Seq<(Vec<u8>, Vec<u8>)>) -> Seq<(Seq<u8>, Seq<u8>)> {
    Seq::new(pairs.len(), |k: int| (pairs[k].0@, pairs[k].1@))
}

/// A key and a signature of the right lengths.
pub open spec fn well_sized(p: (Seq<u8>, Seq<u8>)) -> bool {
    p.0.len() == BLS_KEY_BYTE_LENGTH && p.1.len() == BLS_SIGNATURE_BYTE_LENGTH
}

/// The ids of the nodes with the given keys, in order (0 for unknown keys).
pub open spec fn ids_of(v: NodesView, keys: Seq<Seq<u8>>) -> Seq<usize> {
    Seq::new(keys.len(), |k: int| v.node_id(keys[k]) as usize)
}

/// No id occurs twice in `ids`.
pub open spec fn distinct(ids: Seq<usize>) -> bool {
    forall|a: int, b: int| 0 <= a < b < ids.len() ==> ids[a] != ids[b]
}

/// Every id in `ids` names an assigned node whose state has the same kind as `s`.
pub open spec fn all_in_state(v: NodesView, ids: Seq<usize>, s: NodeState) -> bool {
    forall|k: int| 0 <= k < ids.len() ==> 1 <= #[trigger] ids[k] <= v.num_nodes()
        && node_state_code(v.states[ids[k] - 1]) == node_state_code(s)
}

/// The first position of `x` in `s`, which must hold it.
pub open spec fn first_pos(s: Seq<usize>, x: usize) -> int {
    choose|p: int| 0 <= p < s.len() && s[p] == x && forall|j: int| 0 <= j < p ==> s[j] != x
}

/// One reported failure: a node id still among `ok` leaves it (its place
/// taken by the last id) and joins `failed`.
pub open spec fn split_step(ok: Seq<usize>, failed: Seq<usize>, id: usize) -> (Seq<usize>, Seq<usize>) {
    if ok.contains(id) {
        let p = first_pos(ok, id);
        (ok.update(p, ok.last()).drop_last(), failed.push(id))
    } else {
        (ok, failed)
    }
}

/// The split after the first `n` reported statuses.
pub open spec fn split_all(v: NodesView, ok: Seq<usize>, statuses: Seq<(Seq<u8>, u8)>, n: int) -> (Seq<usize>, Seq<usize>)
    decreases n,
{
    if n <= 0 {
        (ok, Seq::empty())
    } else {
        let prev = split_all(v, ok, statuses, n - 1);
        if statuses[n - 1].1 != 0 {
            split_step(prev.0, prev.1, v.node_id(statuses[n - 1].0) as usize)
        } else {
            prev
        }
    }
}

/// The registry after registering the first `n` pairs of `pairs` in order.
pub open spec fn add_all(v: NodesView, pairs: Seq<(Seq<u8>, Seq<u8>)>, n: int) -> NodesView
    decreases n,
{
    if n <= 0 {
        v
    } else {
        add_all(v, pairs, n - 1).add_one(pairs[n - 1].0, pairs[n - 1].1)
    }
}

pub proof fn lemma_node_id(v: NodesView, k: Seq<u8>, i: int)
    requires
        v.wf(),
        0 <= i < v.keys.len(),
        v.keys[i] == k,
    ensures
        v.node_id(k) == i + 1,
{
    let c = choose|c: int| 0 <= c < v.keys.len() && v.keys[c] == k;
    if c != i {
        if c < i {
            assert(v.keys[c] != v.keys[i]);
        } else {
            assert(v.keys[i] != v.keys[c]);
        }
    }
}

pub proof fn lemma_add_one_wf(v: NodesView, k: Seq<u8>, sig: Seq<u8>)
    requires
        v.wf(),
    ensures
        v.add_one(k, sig).wf(),
        v.add_one(k, sig).keys.len() >= v.keys.len(),
        v.add_one(k, sig).node_id(k) != 0,
        v.add_one(k, sig).state(v.add_one(k, sig).node_id(k)) == NodeState::Inactive,
        forall|k2: Seq<u8>| k2 != k ==> #[trigger] v.add_one(k, sig).node_id(k2) == v.node_id(k2),
        forall|k2: Seq<u8>| k2 != k && v.node_id(k2) != 0 ==>
            #[trigger] v.add_one(k, sig).state(v.node_id(k2)) == v.state(v.node_id(k2)),
{
    let w = v.add_one(k, sig);
    if v.node_id(k) == 0 {
        assert(w.wf());
        lemma_node_id(w, k, v.keys.len() as int);
        assert forall|k2: Seq<u8>| k2 != k implies #[trigger] w.node_id(k2) == v.node_id(k2) by {
            if v.node_id(k2) != 0 {
                let i = choose|i: int| 0 <= i < v.keys.len() && v.keys[i] == k2;
                lemma_node_id(v, k2, i);
                lemma_node_id(w, k2, i);
            } else {
                assert(!exists|i: int| 0 <= i < w.keys.len() && w.keys[i] == k2) by {
                    if exists|i: int| 0 <= i < w.keys.len() && w.keys[i] == k2 {
                        let i = choose|i: int| 0 <= i < w.keys.len() && w.keys[i] == k2;
                        assert(v.keys[i] == k2);
                    }
                }
            }
        }
    } else {
        let i = choose|i: int| 0 <= i < v.keys.len() && v.keys[i] == k;
        lemma_node_id(v, k, i);
        assert(w.keys == v.keys);
    }
}

/// Validator node identities and their lifecycle states.
pub struct NodeRegistry {
    keys: Vec<Vec<u8>>,
    signatures: Vec<Vec<u8>>,
    states: Vec<NodeState>,
}

impl View for NodeRegistry {
    type V = NodesView;

    closed spec fn view(&self) -> NodesView {
        NodesView {
            keys: self.keys@.map_values(|k: Vec<u8>| k@),
            signatures: self.signatures@.map_values(|k: Vec<u8>| k@),
            states: self.states@,
        }
    }
}

impl NodeRegistry {
    pub open spec fn wf(&self) -> bool {
        self@.wf()
    }

    proof fn lemma_view(&self)
        ensures
            self.keys@.len() == self@.keys.len(),
            self.signatures@.len() == self@.signatures.len(),
            self.states@ == self@.states,
            forall|i: int| 0 <= i < self.keys@.len() ==> #[trigger] self.keys@[i]@ == self@.keys[i],
            forall|i: int| 0 <= i < self.signatures@.len() ==> #[trigger] self.signatures@[i]@ == self@.signatures[i],
    {
    }

    /// A registry with no nodes.
    pub fn new() -> (r: NodeRegistry)
        ensures
            r.wf(),
            r@.num_nodes() == 0,
    {
        let r = NodeRegistry { keys: Vec::new(), signatures: Vec::new(), states: Vec::new() };
        proof {
            assert(r@.keys =~= Seq::<Seq<u8>>::empty());
            assert(r@.signatures =~= Seq::<Seq<u8>>::empty());
        }
        r
    }

    /// Resolves `keys` to node ids. Fails with `UnexpectedState`, changing
    /// nothing, unless every key is registered, every node is in a state of
    /// the kind of `expected`, and no node is named twice.
    pub fn resolve_nodes(&self, keys: &Vec<Vec<u8>>, expected: NodeState) -> (r: Result<Vec<usize>, DelegationError>)
        requires
            self.wf(),
        ensures
            r is Ok <==> all_in_state(self@, ids_of(self@, key_views(keys@)), expected)
                && distinct(ids_of(self@, key_views(keys@))),
            r matches Ok(ids) ==> ids@ == ids_of(self@, key_views(keys@)),
            r is Err ==> r == Err::<Vec<usize>, DelegationError>(DelegationError::UnexpectedState),
    {
        let ghost kv = key_views(keys@);
        let ghost want = ids_of(self@, kv);
        let mut ids: Vec<usize> = Vec::new();
        let mut k: usize = 0;
        while k < keys.len()
            invariant
                self.wf(),
                kv == key_views(keys@),
                want == ids_of(self@, kv),
                k <= keys.len(),
                ids@ == want.subrange(0, k as int),
                all_in_state(self@, ids@, expected),
                distinct(ids@),
            decreases keys.len() - k,
        {
            let id = self.get_node_id(&keys[k]);
            if id == 0 {
                proof {
                    assert(want[k as int] == 0);
                }
                return Err(DelegationError::UnexpectedState);
            }
            proof { assert(want[k as int] == id); }
            let st = self.get_node_state(id);
            if st.discriminant() != expected.discriminant() {
                proof {
                    assert(want[k as int] == id);
                }
                return Err(DelegationError::UnexpectedState);
            }
            let mut j: usize = 0;
            while j < ids.len()
                invariant
                    j <= ids@.len(),
                    forall|a: int| 0 <= a < j ==> ids@[a] != id,
                    ids@ == want.subrange(0, k as int),
                    k < keys@.len(),
                    want.len() == keys@.len(),
                    want[k as int] == id,
                    want == ids_of(self@, kv),
                    kv == key_views(keys@),
                decreases ids.len() - j,
            {
                if ids[j] == id {
                    proof {
                        assert(ids@[j as int] == want.subrange(0, k as int)[j as int]);
                        assert(want[j as int] == want[k as int]);
                        assert(!distinct(want));
                    }
                    return Err(DelegationError::UnexpectedState);
                }
                j = j + 1;
            }
            ids.push(id);
            k = k + 1;
            proof {
                assert(ids@ =~= want.subrange(0, k as int));
            }
        }
        proof {
            assert(ids@ =~= want);
        }
        Ok(ids)
    }

    /// Whether every id in `ids` is an assigned node in a state of the kind
    /// of `expected`, with no id named twice.
    pub fn check_nodes(&self, ids: &Vec<usize>, expected: NodeState) -> (r: bool)
        requires
            self.wf(),
        ensures
            r == (all_in_state(self@, ids@, expected) && distinct(ids@)),
    {
        let mut k: usize = 0;
        while k < ids.len()
            invariant
                self.wf(),
                k <= ids.len(),
                all_in_state(self@, ids@.subrange(0, k as int), expected),
                distinct(ids@.subrange(0, k as int)),
            decreases ids.len() - k,
        {
            let id = ids[k];
            proof { self.lemma_view(); }
            if id == 0 || id > self.states.len() {
                proof { assert(ids@[k as int] == id); }
                return false;
            }
            if self.states[id - 1].discriminant() != expected.discriminant() {
                proof { assert(ids@[k as int] == id); }
                return false;
            }
            let mut j: usize = 0;
            while j < k
                invariant
                    j <= k < ids@.len(),
                    id == ids@[k as int],
                    forall|a: int| 0 <= a < j ==> ids@[a] != id,
                decreases k - j,
            {
                if ids[j] == id {
                    return false;
                }
                j = j + 1;
            }
            k = k + 1;
            proof {
                let sub = ids@.subrange(0, k as int);
                let prev = ids@.subrange(0, k - 1);
                assert forall|a: int| 0 <= a < sub.len() implies 1 <= #[trigger] sub[a] <= self@.num_nodes()
                    && node_state_code(self@.states[sub[a] - 1]) == node_state_code(expected) by {
                    if a < k - 1 {
                        assert(sub[a] == prev[a]);
                    }
                }
                assert forall|a: int, b: int| 0 <= a < b < sub.len() implies sub[a] != sub[b] by {
                    if b < k - 1 {
                        assert(sub[a] == prev[a] && sub[b] == prev[b]);
                    }
                }
            }
        }
        proof {
            assert(ids@.subrange(0, ids@.len() as int) =~= ids@);
        }
        true
    }

    /// Sets every node named in `ids` to state `s`.
    pub fn set_node_states(&mut self, ids: &Vec<usize>, s: NodeState)
        requires
            old(self).wf(),
            forall|k: int| 0 <= k < ids@.len() ==> 1 <= #[trigger] ids@[k] <= old(self)@.num_nodes(),
        ensures
            final(self).wf(),
            final(self)@ == old(self)@.with_states(ids@, s),
    {
        let ghost v = self@;
        proof { self.lemma_view(); }
        let n = self.states.len();
        let mut k: usize = 0;
        while k < ids.len()
            invariant
                n == v.states.len(),
                v.wf(),
                k <= ids.len(),
                forall|a: int| 0 <= a < ids@.len() ==> 1 <= #[trigger] ids@[a] <= v.num_nodes(),
                self.keys == old(self).keys,
                self.signatures == old(self).signatures,
                self.states@.len() == v.states.len(),
                v == old(self)@,
                forall|i: int| 0 <= i < v.states.len() ==> #[trigger] self.states@[i]
                    == if ids@.subrange(0, k as int).contains((i + 1) as usize) { s } else { v.states[i] },
            decreases ids.len() - k,
        {
            let id = ids[k];
            self.states.set(id - 1, s);
            k = k + 1;
            proof {
                let sub = ids@.subrange(0, k as int);
                let prev = ids@.subrange(0, k - 1);
                assert forall|i: int| 0 <= i < v.states.len() implies #[trigger] self.states@[i]
                    == if sub.contains((i + 1) as usize) { s } else { v.states[i] } by {
                    if prev.contains((i + 1) as usize) {
                        let a = choose|a: int| 0 <= a < prev.len() && prev[a] == (i + 1) as usize;
                        assert(sub[a] == prev[a]);
                    }
                    if sub.contains((i + 1) as usize) && (i + 1) as usize != id {
                        let a = choose|a: int| 0 <= a < sub.len() && sub[a] == (i + 1) as usize;
                        assert(sub[k - 1] == ids@[k - 1]);
                        assert(a != k - 1);
                        assert(prev[a] == sub[a]);
                        assert(prev.contains((i + 1) as usize));
                    }
                    if (i + 1) as usize == id {
                        assert(sub[k - 1] == id);
                    }
                }
            }
        }
        proof {
            assert(ids@.subrange(0, ids@.len() as int) =~= ids@);
            assert(self@.states =~= v.with_states(ids@, s).states);
            assert(self@.keys == v.keys);
            assert(self@.signatures == v.signatures);
        }
    }

    /// Moves node `node_id` from state `expected_from` to `to`; fails with
    /// `UnexpectedState`, changing nothing, when it is in another state.
    pub fn transition(&mut self, node_id: usize, expected_from: NodeState, to: NodeState) -> (r: Result<(), DelegationError>)
        requires
            old(self).wf(),
        ensures
            final(self).wf(),
            r is Ok <==> 1 <= node_id <= old(self)@.num_nodes() && old(self)@.state(node_id as int) == expected_from,
            r is Ok ==> final(self)@ == old(self)@.with_states(seq![node_id], to),
            r is Err ==> r == Err::<(), DelegationError>(DelegationError::UnexpectedState) && final(self)@ == old(self)@,
    {
        proof { self.lemma_view(); }
        if node_id == 0 || node_id > self.states.len() || self.states[node_id - 1] != expected_from {
            return Err(DelegationError::UnexpectedState);
        }
        let ids = vec![node_id];
        proof { assert(ids@ =~= seq![node_id]); }
        self.set_node_states(&ids, to);
        Ok(())
    }
}

/// The node registry's operations: registration and removal of validator
/// nodes, and the queries on their keys, signatures and states.
pub trait NodeConfigModule {
    /// The registry as a mathematical value.
    spec fn node_view(&self) -> NodesView;

    /// Number of ids assigned so far.
    fn get_num_nodes(&self) -> (r: usize)
        requires
            self.node_view().wf(),
        ensures
            r == self.node_view().num_nodes(),
    ;

    /// The id of the node with key `bls_key`, 0 when it is not registered.
    fn get_node_id(&self, bls_key: &Vec<u8>) -> (r: usize)
        requires
            self.node_view().wf(),
        ensures
            r == self.node_view().node_id(bls_key@),
            r <= self.node_view().num_nodes(),
    ;

    /// The key of node `node_id`, if that id was assigned.
    fn get_node_id_to_bls(&self, node_id: usize) -> (r: Option<Vec<u8>>)
        requires
            self.node_view().wf(),
        ensures
            1 <= node_id <= self.node_view().num_nodes() ==> (r matches Some(k) && k@ == self.node_view().keys[node_id - 1]),
            !(1 <= node_id <= self.node_view().num_nodes()) ==> r is None,
    ;

    /// State of node `node_id`; unassigned ids count as removed.
    fn get_node_state(&self, node_id: usize) -> (r: NodeState)
        requires
            self.node_view().wf(),
        ensures
            r == self.node_view().state(node_id as int),
    ;

    /// Signature of the node with key `bls_key`, if it is registered.
    fn get_node_signature_endpoint(&self, bls_key: &Vec<u8>) -> (r: Option<Vec<u8>>)
        requires
            self.node_view().wf(),
        ensures
            self.node_view().node_id(bls_key@) == 0 ==> r is None,
            self.node_view().node_id(bls_key@) != 0 ==> (r matches Some(sig)
                && sig@ == self.node_view().signatures[self.node_view().node_id(bls_key@) - 1]),
    ;

    /// State of the node with key `bls_key`; unknown keys count as removed.
    fn get_node_state_endpoint(&self, bls_key: &Vec<u8>) -> (r: NodeState)
        requires
            self.node_view().wf(),
        ensures
            r == self.node_view().state(self.node_view().node_id(bls_key@)),
    ;

    /// Every registered node's key and state code, in ascending id order.
    fn get_all_node_states(&self) -> (r: Vec<(Vec<u8>, u8)>)
        requires
            self.node_view().wf(),
        ensures
            r@.len() == self.node_view().num_nodes(),
            forall|i: int| 0 <= i < r@.len() ==> (#[trigger] r@[i]).0@ == self.node_view().keys[i]
                && r@[i].1 == node_state_code(self.node_view().states[i]),
    ;

    /// Registers key/signature pairs in order: a new key gets the next id, a
    /// removed node is reinstated; either way it becomes inactive with the
    /// given signature. The whole batch is refused, changing nothing, with
    /// `MalformedInput` if a key or signature has the wrong length, else with
    /// `AlreadyRegistered` if a key is held by a node that is not removed or
    /// occurs twice in the batch.
    fn add_nodes(&mut self, bls_keys_signatures: &Vec<(Vec<u8>, Vec<u8>)>) -> (r: Result<(), DelegationError>)
        requires
            old(self).node_view().wf(),
        ensures
            final(self).node_view().wf(),
            ({
                let pv = pair_views(bls_keys_signatures@);
                let malformed = exists|k: int| 0 <= k < pv.len() && !well_sized(#[trigger] pv[k]);
                let taken = (exists|k: int| 0 <= k < pv.len() && old(self).node_view().node_id(#[trigger] pv[k].0) != 0
                        && old(self).node_view().state(old(self).node_view().node_id(pv[k].0)) != NodeState::Removed)
                    || (exists|a: int, b: int| 0 <= a < b < pv.len() && #[trigger] pv[a].0 == #[trigger] pv[b].0);
                &&& malformed ==> r == Err::<(), DelegationError>(DelegationError::MalformedInput)
                &&& !malformed && taken ==> r == Err::<(), DelegationError>(DelegationError::AlreadyRegistered)
                &&& !malformed && !taken ==> r is Ok
                &&& r is Ok ==> final(self).node_view() == add_all(old(self).node_view(), pv, pv.len() as int)
                &&& r is Err ==> final(self).node_view() == old(self).node_view()
            }),
    ;

    /// Marks the nodes with the given keys as removed. The whole batch is
    /// refused, changing nothing, with `NotRegistered` if a key is unknown,
    /// else with `NotRemovable` if a node is not inactive or is named twice.
    fn remove_nodes(&mut self, bls_keys: &Vec<Vec<u8>>) -> (r: Result<(), DelegationError>)
        requires
            old(self).node_view().wf(),
        ensures
            final(self).node_view().wf(),
            ({
                let ids = ids_of(old(self).node_view(), key_views(bls_keys@));
                &&& (exists|k: int| 0 <= k < ids.len() && #[trigger] ids[k] == 0)
                    ==> r == Err::<(), DelegationError>(DelegationError::NotRegistered)
                &&& !(exists|k: int| 0 <= k < ids.len() && #[trigger] ids[k] == 0)
                    && !(all_in_state(old(self).node_view(), ids, NodeState::Inactive) && distinct(ids))
                    ==> r == Err::<(), DelegationError>(DelegationError::NotRemovable)
                &&& r is Ok <==> all_in_state(old(self).node_view(), ids, NodeState::Inactive) && distinct(ids)
                &&& r is Ok ==> final(self).node_view() == old(self).node_view().with_states(ids, NodeState::Removed)
                &&& r is Err ==> final(self).node_view() == old(self).node_view()
            }),
    ;

    /// Moves the ids of nodes that the staking authority reported as failed
    /// (a nonzero status) from `node_ids` to a second list, in report order;
    /// each move puts the last remaining id in the place of the failed one.
    /// At most `MAX_NODES_PER_OPERATION` ids are split, and the two lists
    /// together hold as many ids as were given.
    fn split_node_ids_by_err(&self, node_ids: Vec<usize>, node_status_args: &Vec<(Vec<u8>, u8)>) -> (r: (Vec<usize>, Vec<usize>))
        requires
            self.node_view().wf(),
            node_ids@.len() <= MAX_NODES_PER_OPERATION,
        ensures
            r.0@.len() + r.1@.len() == node_ids@.len(),
            (r.0@, r.1@) == split_all(self.node_view(), node_ids@,
                node_status_args@.map_values(|p: (Vec<u8>, u8)| (p.0@, p.1)), node_status_args@.len() as int),
    ;
}

impl NodeConfigModule for NodeRegistry {
    open spec fn node_view(&self) -> NodesView {
        self@
    }

    fn get_num_nodes(&self) -> (r: usize)
    {
        proof { self.lemma_view(); }
        self.keys.len()
    }

    fn get_node_id(&self, bls_key: &Vec<u8>) -> (r: usize)
    {
        proof { self.lemma_view(); }
        match find_bytes(&self.keys, bls_key) {
            Some(i) => {
                proof { lemma_node_id(self@, bls_key@, i as int); }
                i + 1
            },
            None => 0,
        }
    }

    fn get_node_id_to_bls(&self, node_id: usize) -> (r: Option<Vec<u8>>)
    {
        proof { self.lemma_view(); }
        if node_id >= 1 && node_id <= self.keys.len() {
            Some(self.keys[node_id - 1].clone())
        } else {
            None
        }
    }

    fn get_node_state(&self, node_id: usize) -> (r: NodeState)
    {
        proof { self.lemma_view(); }
        if node_id >= 1 && node_id <= self.states.len() {
            self.states[node_id - 1]
        } else {
            NodeState::Removed
        }
    }

    fn get_node_signature_endpoint(&self, bls_key: &Vec<u8>) -> (r: Option<Vec<u8>>)
    {
        proof { self.lemma_view(); }
        let id = self.get_node_id(bls_key);
        if id == 0 {
            None
        } else {
            Some(self.signatures[id - 1].clone())
        }
    }

    fn get_node_state_endpoint(&self, bls_key: &Vec<u8>) -> (r: NodeState)
    {
        let id = self.get_node_id(bls_key);
        self.get_node_state(id)
    }

    fn get_all_node_states(&self) -> (r: Vec<(Vec<u8>, u8)>)
    {
        proof { self.lemma_view(); }
        let mut r: Vec<(Vec<u8>, u8)> = Vec::new();
        let mut i: usize = 0;
        while i < self.keys.len()
            invariant
                self.wf(),
                self.keys@.len() == self@.keys.len(),
                self.states@ == self@.states,
                self@.states.len() == self@.keys.len(),
                forall|j: int| 0 <= j < self.keys@.len() ==> #[trigger] self.keys@[j]@ == self@.keys[j],
                i <= self.keys.len(),
                r@.len() == i,
                forall|j: int| 0 <= j < i ==> (#[trigger] r@[j]).0@ == self@.keys[j]
                    && r@[j].1 == node_state_code(self@.states[j]),
            decreases self.keys.len() - i,
        {
            let code = self.states[i].discriminant();
            r.push((self.keys[i].clone(), code));
            i = i + 1;
        }
        r
    }

    fn add_nodes(&mut self, bls_keys_signatures: &Vec<(Vec<u8>, Vec<u8>)>) -> (r: Result<(), DelegationError>)
    {
        let ghost pv = pair_views(bls_keys_signatures@);
        let ghost v0 = self@;
        let n = bls_keys_signatures.len();
        let mut k: usize = 0;
        while k < n
            invariant
                self.wf(),
                self@ == v0,
                n == pv.len(),
                pv == pair_views(bls_keys_signatures@),
                k <= n,
                forall|j: int| 0 <= j < k ==> well_sized(#[trigger] pv[j]),
            decreases n - k,
        {
            if bls_keys_signatures[k].0.len() != BLS_KEY_BYTE_LENGTH
                || bls_keys_signatures[k].1.len() != BLS_SIGNATURE_BYTE_LENGTH {
                proof { assert(pv[k as int].0 == bls_keys_signatures@[k as int].0@); }
                return Err(DelegationError::MalformedInput);
            }
            k = k + 1;
        }
        k = 0;
        while k < n
            invariant
                self.wf(),
                self@ == v0,
                n == pv.len(),
                pv == pair_views(bls_keys_signatures@),
                k <= n,
                forall|j: int| 0 <= j < n ==> well_sized(#[trigger] pv[j]),
                forall|j: int| 0 <= j < k ==> !(v0.node_id(#[trigger] pv[j].0) != 0
                    && v0.state(v0.node_id(pv[j].0)) != NodeState::Removed),
                forall|a: int, b: int| 0 <= a < b < k ==> #[trigger] pv[a].0 != #[trigger] pv[b].0,
            decreases n - k,
        {
            let key = &bls_keys_signatures[k].0;
            let id = self.get_node_id(key);
            proof { assert(pv[k as int].0 == key@); }
            if id != 0 && self.get_node_state(id) != NodeState::Removed {
                return Err(DelegationError::AlreadyRegistered);
            }
            let mut j: usize = 0;
            while j < k
                invariant
                    self.wf(),
                    self@ == v0,
                    forall|j: int| 0 <= j < n ==> well_sized(#[trigger] pv[j]),
                    j <= k < n,
                    n == pv.len(),
                    pv == pair_views(bls_keys_signatures@),
                    key@ == pv[k as int].0,
                    forall|a: int| 0 <= a < j ==> pv[a].0 != pv[k as int].0,
                    forall|i: int| 0 <= i <= k ==> !(v0.node_id(#[trigger] pv[i].0) != 0
                        && v0.state(v0.node_id(pv[i].0)) != NodeState::Removed),
                    forall|a: int, b: int| 0 <= a < b < k ==> #[trigger] pv[a].0 != #[trigger] pv[b].0,
                decreases k - j,
            {
                if bytes_eq(&bls_keys_signatures[j].0, key) {
                    proof { assert(pv[j as int].0 == pv[k as int].0); }
                    return Err(DelegationError::AlreadyRegistered);
                }
                j = j + 1;
            }
            k = k + 1;
        }
        k = 0;
        while k < n
            invariant
                self.wf(),
                n == pv.len(),
                pv == pair_views(bls_keys_signatures@),
                k <= n,
                self@ == add_all(v0, pv, k as int),
                v0 == old(self)@,
                forall|j: int| 0 <= j < n ==> well_sized(#[trigger] pv[j]),
                forall|j: int| 0 <= j < n ==> !(v0.node_id(#[trigger] pv[j].0) != 0
                    && v0.state(v0.node_id(pv[j].0)) != NodeState::Removed),
                forall|a: int, b: int| 0 <= a < b < n ==> #[trigger] pv[a].0 != #[trigger] pv[b].0,
            decreases n - k,
        {
            let key = &bls_keys_signatures[k].0;
            let sig = &bls_keys_signatures[k].1;
            let ghost before = self@;
            proof {
                self.lemma_view();
                lemma_add_one_wf(before, key@, sig@);
            }
            let id = self.get_node_id(key);
            if id == 0 {
                self.keys.push(key.clone());
                self.signatures.push(sig.clone());
                self.states.push(NodeState::Inactive);
            } else {
                self.signatures.set(id - 1, sig.clone());
                self.states.set(id - 1, NodeState::Inactive);
            }
            k = k + 1;
            proof {
                let w = before.add_one(key@, sig@);
                assert(self@.keys =~= w.keys);
                assert(self@.signatures =~= w.signatures);
                assert(self@.states =~= w.states);
            }
        }
        Ok(())
    }

    fn remove_nodes(&mut self, bls_keys: &Vec<Vec<u8>>) -> (r: Result<(), DelegationError>)
    {
        let ghost kv = key_views(bls_keys@);
        let ghost ids_spec = ids_of(self@, kv);
        let mut k: usize = 0;
        while k < bls_keys.len()
            invariant
                self.wf(),
                kv == key_views(bls_keys@),
                ids_spec == ids_of(self@, kv),
                k <= bls_keys.len(),
                forall|j: int| 0 <= j < k ==> #[trigger] ids_spec[j] != 0,
            decreases bls_keys.len() - k,
        {
            if self.get_node_id(&bls_keys[k]) == 0 {
                proof { assert(ids_spec[k as int] == 0); }
                return Err(DelegationError::NotRegistered);
            }
            k = k + 1;
        }
        match self.resolve_nodes(bls_keys, NodeState::Inactive) {
            Ok(ids) => {
                proof {
                    assert forall|j: int| 0 <= j < ids@.len() implies 1 <= #[trigger] ids@[j] <= self@.num_nodes() by {
                        assert(all_in_state(self@, ids@, NodeState::Inactive));
                    }
                }
                self.set_node_states(&ids, NodeState::Removed);
                Ok(())
            },
            Err(_) => Err(DelegationError::NotRemovable),
        }
    }

    fn split_node_ids_by_err(&self, node_ids: Vec<usize>, node_status_args: &Vec<(Vec<u8>, u8)>) -> (r: (Vec<usize>, Vec<usize>))
    {
        let ghost sv = node_status_args@.map_values(|p: (Vec<u8>, u8)| (p.0@, p.1));
        let ghost ok0 = node_ids@;
        let mut ok = node_ids;
        let mut failed: Vec<usize> = Vec::new();
        let mut k: usize = 0;
        while k < node_status_args.len()
            invariant
                self.wf(),
                sv == node_status_args@.map_values(|p: (Vec<u8>, u8)| (p.0@, p.1)),
                k <= node_status_args.len(),
                (ok@, failed@) == split_all(self@, ok0, sv, k as int),
                ok@.len() + failed@.len() == ok0.len(),
            decreases node_status_args.len() - k,
        {
            if node_status_args[k].1 != 0 {
                let id = self.get_node_id(&node_status_args[k].0);
                let mut p: usize = 0;
                while p < ok.len() && ok[p] != id
                    invariant
                        p <= ok@.len(),
                        forall|j: int| 0 <= j < p ==> ok@[j] != id,
                    decreases ok.len() - p,
                {
                    p = p + 1;
                }
                if p < ok.len() {
                    proof {
                        assert(ok@.contains(id));
                        let fp = first_pos(ok@, id);
                        assert(fp == p as int) by {
                            if fp < p as int {
                                assert(ok@[fp] != id);
                            } else if fp > p as int {
                                assert(ok@[p as int] == id);
                            }
                        }
                    }
                    ok.swap_remove(p);
                    failed.push(id);
                } else {
                    proof {
                        assert(!ok@.contains(id));
                    }
                }
            }
            k = k + 1;
        }
        (ok, failed)
    }
}
} // verus!
