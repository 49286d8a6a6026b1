//! The engine's shared state: registry, cycles, stored submissions and the
//! global model, with the operations that read and change it.
use vstd::prelude::*;
use std::collections::HashMap;
use crate::error::AggregatorError;
use crate::mode::{AggregationMode, mode_from_name, mode_name, mode_of_name, name_of_mode};
use crate::plain::{PlainPass, updates_view, identities_view};
use crate::smpc::{SmpcTotals, reconstruct_totals, reconstruction, vectors_view};

verus! {

broadcast use vstd::std_specs::hash::group_hash_axioms;

/// Whether `who` is among the registered identities.
pub open spec fn is_registered(clients: Seq<Seq<u8>>, who: Seq<u8>) -> bool {
    exists|k: int| 0 <= k < clients.len() && clients[k] == who
}

/// The client id of a registered identity: its position in the registry.
pub open spec fn id_of(clients: Seq<Seq<u8>>, who: Seq<u8>) -> int {
    choose|k: int| 0 <= k < clients.len() && clients[k] == who
}

/// No identity occurs twice in the registry.
pub open spec fn distinct(clients: Seq<Seq<u8>>) -> bool {
    forall|i: int, j: int| #![trigger clients[i], clients[j]] 0 <= i < j < clients.len() ==> clients[i] != clients[j]
}

/// A per-cycle store after `v` was stored for client `id` in cycle `cycle`:
/// the cycle's entry is created if missing and the client's value replaced.
pub open spec fn stored<V>(m: Map<u64, Map<u64, V>>, cycle: u64, id: u64, v: V) -> Map<u64, Map<u64, V>> {
    let inner = if m.contains_key(cycle) {
        m[cycle]
    } else {
        Map::empty()
    };
    m.insert(cycle, inner.insert(id, v))
}

/// Every client id under which `m` holds a value is below `n`.
pub open spec fn keyed_below<V>(m: Map<u64, Map<u64, V>>, n: nat) -> bool {
    forall|c: u64, id: u64| m.contains_key(c) && #[trigger] m[c].contains_key(id) ==> id < n
}

proof fn lemma_stored_keyed_below<V>(m: Map<u64, Map<u64, V>>, cycle: u64, id: u64, v: V, n: nat)
    requires
        keyed_below(m, n),
        id < n,
    ensures
        keyed_below(stored(m, cycle, id, v), n),
{
    let r = stored(m, cycle, id, v);
    assert forall|c: u64, k: u64| r.contains_key(c) && #[trigger] r[c].contains_key(k) implies k < n by {
        if c == cycle && k != id && m.contains_key(cycle) {
            assert(m[cycle].contains_key(k));
        }
    }
}

proof fn lemma_removed_keyed_below<V>(m: Map<u64, Map<u64, V>>, cycle: u64, n: nat)
    requires
        keyed_below(m, n),
    ensures
        keyed_below(m.remove(cycle), n),
{
    let r = m.remove(cycle);
    assert forall|c: u64, k: u64| r.contains_key(c) && #[trigger] r[c].contains_key(k) implies k < n by {
        assert(m[c].contains_key(k));
    }
}

/// The entries of `m` with an id below `n`, by ascending id.
pub open spec fn in_id_order<V>(m: Map<u64, V>, n: nat) -> Seq<(u64, V)>
    decreases n,
{
    if n == 0 {
        Seq::empty()
    } else {
        let prev = in_id_order(m, (n - 1) as nat);
        let id = (n - 1) as u64;
        if m.contains_key(id) {
            prev.push((id, m[id]))
        } else {
            prev
        }
    }
}

/// The values of `m` with an id below `n`, by ascending id.
pub open spec fn values_in_id_order<V>(m: Map<u64, V>, n: nat) -> Seq<V>
    decreases n,
{
    if n == 0 {
        Seq::empty()
    } else {
        let prev = values_in_id_order(m, (n - 1) as nat);
        let id = (n - 1) as u64;
        if m.contains_key(id) {
            prev.push(m[id])
        } else {
            prev
        }
    }
}

/// View of a per-cycle store of byte strings.
pub open spec fn bytes_store(m: Map<u64, HashMap<u64, Vec<u8>>>) -> Map<u64, Map<u64, Seq<u8>>> {
    m.map_values(|c: HashMap<u64, Vec<u8>>| c@.map_values(|v: Vec<u8>| v@))
}

/// View of a per-cycle store of integer vectors.
pub open spec fn ints_store(m: Map<u64, HashMap<u64, Vec<i64>>>) -> Map<u64, Map<u64, Seq<i64>>> {
    m.map_values(|c: HashMap<u64, Vec<i64>>| c@.map_values(|v: Vec<i64>| v@))
}

/// The inner map of `cycle`, empty where the cycle has none.
pub open spec fn of_cycle<V>(m: Map<u64, Map<u64, V>>, cycle: u64) -> Map<u64, V> {
    if m.contains_key(cycle) {
        m[cycle]
    } else {
        Map::empty()
    }
}

/// The ids `0 .. n`, in order.
pub open spec fn all_ids(n: nat) -> Seq<u64> {
    Seq::new(n, |i: int| i as u64)
}

/// The whole engine state.
pub struct State {
    global_model: Vec<u8>,
    model_updates: HashMap<u64, HashMap<u64, Vec<u8>>>,
    clients: Vec<Vec<u8>>,
    current_cycle: u64,
    aggregation_mode: AggregationMode,
    smpc_s_shares: HashMap<u64, HashMap<u64, Vec<i64>>>,
    smpc_t_sums: HashMap<u64, HashMap<u64, Vec<i64>>>,
    cycle_participants: HashMap<u64, Vec<u64>>,
}

/// Once an identity has been registered it stays registered, so registering
/// it again is refused as a duplicate.
pub proof fn lemma_second_registration_refused(clients: Seq<Seq<u8>>, who: Seq<u8>)
    ensures
        is_registered(clients.push(who), who),
{
    assert(clients.push(who)[clients.len() as int] == who);
}

/// Ids are dense and follow registration order: the identity added by a
/// registration gets the id equal to the number of clients registered before.
pub proof fn lemma_ids_dense(clients: Seq<Seq<u8>>, who: Seq<u8>)
    requires
        distinct(clients.push(who)),
    ensures
        id_of(clients.push(who), who) == clients.len(),
{
    let c = clients.push(who);
    assert(c[clients.len() as int] == who);
    let k = id_of(c, who);
    if k != clients.len() {
        assert(c[k] != c[clients.len() as int]);
    }
}

/// Storing twice for the same cycle and client keeps only the later value.
pub proof fn lemma_upload_overwrites<V>(m: Map<u64, Map<u64, V>>, cycle: u64, id: u64, first: V, second: V)
    ensures
        stored(stored(m, cycle, id, first), cycle, id, second) == stored(m, cycle, id, second),
        stored(stored(m, cycle, id, first), cycle, id, second)[cycle][id] == second,
{
    assert(stored(stored(m, cycle, id, first), cycle, id, second) =~~= stored(m, cycle, id, second));
}

/// A cycle without stored updates yields nothing to aggregate, so the
/// decrypt-and-average pass does not start and nothing changes.
pub proof fn lemma_no_updates_no_pass(updates: Map<u64, Map<u64, Seq<u8>>>, cycle: u64, n: nat)
    requires
        !updates.contains_key(cycle) || updates[cycle].dom() == Set::<u64>::empty(),
    ensures
        in_id_order(of_cycle(updates, cycle), n).len() == 0,
    decreases n,
{
    let m = of_cycle(updates, cycle);
    assert(m.dom() =~= Set::<u64>::empty());
    if n > 0 {
        lemma_no_updates_no_pass(updates, cycle, (n - 1) as nat);
        assert(!m.contains_key((n - 1) as u64));
    }
}

/// Taking entries by ascending id below `n` misses none whose id is below `n`:
/// the list is empty only where no such entry exists.
pub proof fn lemma_in_id_order_complete<V>(m: Map<u64, V>, n: nat, k: u64)
    requires
        k < n,
        m.contains_key(k),
    ensures
        in_id_order(m, n).len() > 0,
    decreases n,
{
    if k < n - 1 {
        lemma_in_id_order_complete(m, (n - 1) as nat, k);
    }
}

proof fn lemma_in_id_order_empty<V>(n: nat)
    ensures
        in_id_order(Map::<u64, V>::empty(), n) == Seq::<(u64, V)>::empty(),
    decreases n,
{
    if n > 0 {
        lemma_in_id_order_empty::<V>((n - 1) as nat);
    }
}

proof fn lemma_values_in_id_order_empty<V>(n: nat)
    ensures
        values_in_id_order(Map::<u64, V>::empty(), n) == Seq::<V>::empty(),
    decreases n,
{
    if n > 0 {
        lemma_values_in_id_order_empty::<V>((n - 1) as nat);
    }
}

fn copy_bytes(v: &Vec<u8>) -> (r: Vec<u8>)
    ensures
        r@ == v@,
{
    let r = v.clone();
    assert(r@ =~= v@);
    r
}

fn copy_ints(v: &Vec<i64>) -> (r: Vec<i64>)
    ensures
        r@ == v@,
{
    let r = v.clone();
    assert(r@ =~= v@);
    r
}

fn copy_ids(v: &Vec<u64>) -> (r: Vec<u64>)
    ensures
        r@ == v@,
{
    let r = v.clone();
    assert(r@ =~= v@);
    r
}

fn ids_below(n: usize) -> (r: Vec<u64>)
    ensures
        r@ == all_ids(n as nat),
{
    let mut r: Vec<u64> = Vec::new();
    let mut i: usize = 0;
    while i < n
        invariant
            i <= n,
            r@ == all_ids(i as nat),
        decreases n - i,
    {
        r.push(i as u64);
        i = i + 1;
        assert(r@ =~= all_ids(i as nat));
    }
    r
}

fn store_bytes(m: &mut HashMap<u64, HashMap<u64, Vec<u8>>>, cycle: u64, id: u64, v: Vec<u8>)
    ensures
        bytes_store(final(m)@) == stored(bytes_store(old(m)@), cycle, id, v@),
{
    let ghost vv = v@;
    let mut inner = match m.remove(&cycle) {
        Some(c) => c,
        None => HashMap::new(),
    };
    inner.insert(id, v);
    m.insert(cycle, inner);
    assert(bytes_store(final(m)@) =~~= stored(bytes_store(old(m)@), cycle, id, vv));
}

fn store_ints(m: &mut HashMap<u64, HashMap<u64, Vec<i64>>>, cycle: u64, id: u64, v: Vec<i64>)
    ensures
        ints_store(final(m)@) == stored(ints_store(old(m)@), cycle, id, v@),
{
    let ghost vv = v@;
    let mut inner = match m.remove(&cycle) {
        Some(c) => c,
        None => HashMap::new(),
    };
    inner.insert(id, v);
    m.insert(cycle, inner);
    assert(ints_store(final(m)@) =~~= stored(ints_store(old(m)@), cycle, id, vv));
}

fn gather_updates(m: &HashMap<u64, Vec<u8>>, n: usize) -> (r: Vec<(u64, Vec<u8>)>)
    ensures
        updates_view(r@) == in_id_order(m@.map_values(|v: Vec<u8>| v@), n as nat),
{
    let ghost mv = m@.map_values(|v: Vec<u8>| v@);
    let mut r: Vec<(u64, Vec<u8>)> = Vec::new();
    let mut i: usize = 0;
    while i < n
        invariant
            i <= n,
            mv == m@.map_values(|v: Vec<u8>| v@),
            updates_view(r@) == in_id_order(mv, i as nat),
        decreases n - i,
    {
        let id = i as u64;
        let ghost before = r@;
        match m.get(&id) {
            Some(v) => {
                r.push((id, copy_bytes(v)));
                assert(updates_view(r@) =~= updates_view(before).push((id, mv[id])));
            },
            None => {},
        }
        i = i + 1;
    }
    r
}

fn gather_vectors(m: &HashMap<u64, Vec<i64>>, n: usize, out: &mut Vec<Vec<i64>>)
    ensures
        vectors_view(final(out)@) == vectors_view(old(out)@) + values_in_id_order(
            m@.map_values(|v: Vec<i64>| v@),
            n as nat,
        ),
{
    let ghost mv = m@.map_values(|v: Vec<i64>| v@);
    let ghost start = vectors_view(out@);
    let mut i: usize = 0;
    while i < n
        invariant
            i <= n,
            mv == m@.map_values(|v: Vec<i64>| v@),
            vectors_view(out@) == start + values_in_id_order(mv, i as nat),
        decreases n - i,
    {
        let id = i as u64;
        let ghost before = out@;
        match m.get(&id) {
            Some(v) => {
                out.push(copy_ints(v));
                assert(vectors_view(out@) =~= vectors_view(before).push(mv[id]));
                assert(start + values_in_id_order(mv, (i + 1) as nat) =~= (start + values_in_id_order(mv, i as nat)).push(mv[id]));
            },
            None => {},
        }
        i = i + 1;
    }
}

impl State {
    /// Identities in the registry, indexed by client id.
    pub closed spec fn clients(&self) -> Seq<Seq<u8>> {
        identities_view(self.clients@)
    }

    /// The current cycle.
    pub closed spec fn cycle(&self) -> u64 {
        self.current_cycle
    }

    /// The serialized global model.
    pub closed spec fn global_model(&self) -> Seq<u8> {
        self.global_model@
    }

    /// The aggregation mode flag.
    pub closed spec fn mode(&self) -> AggregationMode {
        self.aggregation_mode
    }

    /// Encrypted updates, per cycle and client id.
    pub closed spec fn updates(&self) -> Map<u64, Map<u64, Seq<u8>>> {
        bytes_store(self.model_updates@)
    }

    /// Masked shares, per cycle and client id.
    pub closed spec fn shares(&self) -> Map<u64, Map<u64, Seq<i64>>> {
        ints_store(self.smpc_s_shares@)
    }

    /// Mask sums, per cycle and client id.
    pub closed spec fn sums(&self) -> Map<u64, Map<u64, Seq<i64>>> {
        ints_store(self.smpc_t_sums@)
    }

    /// Recorded participant snapshots, per cycle.
    pub closed spec fn participants(&self) -> Map<u64, Vec<u64>> {
        self.cycle_participants@
    }

    /// The state's invariant: the registry holds no identity twice, every
    /// stored submission belongs to a registered client id, and every snapshot
    /// belongs to a cycle that has been reached.
    pub open spec fn wf(&self) -> bool {
        &&& distinct(self.clients())
        &&& keyed_below(self.updates(), self.clients().len())
        &&& keyed_below(self.shares(), self.clients().len())
        &&& keyed_below(self.sums(), self.clients().len())
        &&& forall|c: u64| #[trigger] self.participants().contains_key(c) ==> c <= self.cycle()
    }

    /// A fresh state: no clients, cycle 0, empty model, mode `Plain`.
    pub fn new() -> (r: State)
        ensures
            r.wf(),
            r.clients() == Seq::<Seq<u8>>::empty(),
            r.cycle() == 0,
            r.global_model() == Seq::<u8>::empty(),
            r.mode() == AggregationMode::Plain,
            r.updates() == Map::<u64, Map<u64, Seq<u8>>>::empty(),
            r.shares() == Map::<u64, Map<u64, Seq<i64>>>::empty(),
            r.sums() == Map::<u64, Map<u64, Seq<i64>>>::empty(),
            r.participants() == Map::<u64, Vec<u64>>::empty(),
    {
        let r = State {
            global_model: Vec::new(),
            model_updates: HashMap::new(),
            clients: Vec::new(),
            current_cycle: 0,
            aggregation_mode: AggregationMode::Plain,
            smpc_s_shares: HashMap::new(),
            smpc_t_sums: HashMap::new(),
            cycle_participants: HashMap::new(),
        };
        assert(r.clients() =~= Seq::<Seq<u8>>::empty());
        assert(r.updates() =~= Map::<u64, Map<u64, Seq<u8>>>::empty());
        assert(r.shares() =~= Map::<u64, Map<u64, Seq<i64>>>::empty());
        assert(r.sums() =~= Map::<u64, Map<u64, Seq<i64>>>::empty());
        r
    }

    /// Number of registered clients.
    pub fn client_count(&self) -> (r: usize)
        ensures
            r == self.clients().len(),
    {
        self.clients.len()
    }

    /// The current cycle.
    pub fn current_cycle(&self) -> (r: u64)
        ensures
            r == self.cycle(),
    {
        self.current_cycle
    }

    /// Client id of `identity`, if registered.
    pub fn lookup_id(&self, identity: &Vec<u8>) -> (r: Option<u64>)
        requires
            self.wf(),
        ensures
            match r {
                Some(id) => is_registered(self.clients(), identity@) && id == id_of(self.clients(), identity@),
                None => !is_registered(self.clients(), identity@),
            },
    {
        let mut k: usize = 0;
        while k < self.clients.len()
            invariant
                self.wf(),
                k <= self.clients@.len(),
                forall|j: int| 0 <= j < k ==> self.clients()[j] != identity@,
            decreases self.clients@.len() - k,
        {
            if self.clients[k] == *identity {
                proof {
                    assert(self.clients()[k as int] == identity@) by {
                        assert(self.clients@[k as int]@ =~= identity@);
                    }
                    let c = id_of(self.clients(), identity@);
                    assert(self.clients()[c] == identity@);
                    assert(0 <= c < self.clients().len());
                    assert(c == k) by {
                        if c < k as int {
                        } else if c > k as int {
                            assert(self.clients()[k as int] != self.clients()[c]);
                        }
                    }
                }
                return Some(k as u64);
            }
            k = k + 1;
        }
        None
    }

    /// Identity registered under `client_id`, if the id is in the registry.
    pub fn identity_of(&self, client_id: u64) -> (r: Result<Vec<u8>, AggregatorError>)
        ensures
            match r {
                Ok(id) => client_id < self.clients().len() && id@ == self.clients()[client_id as int],
                Err(e) => client_id >= self.clients().len() && e == AggregatorError::UnknownClientId,
            },
    {
        if client_id < self.clients.len() as u64 {
            Ok(copy_bytes(&self.clients[client_id as usize]))
        } else {
            Err(AggregatorError::UnknownClientId)
        }
    }

    /// Registers `identity` under the next client id, which is the number of
    /// clients registered before; an identity already present is refused and
    /// leaves the state unchanged.
    pub fn register_client(&mut self, identity: Vec<u8>) -> (r: Result<u64, AggregatorError>)
        requires
            old(self).wf(),
            old(self).clients().len() < u64::MAX,
        ensures
            final(self).wf(),
            match r {
                Ok(id) => !is_registered(old(self).clients(), identity@)
                    && id == old(self).clients().len()
                    && final(self).clients() == old(self).clients().push(identity@)
                    && final(self).cycle() == old(self).cycle()
                    && final(self).global_model() == old(self).global_model()
                    && final(self).mode() == old(self).mode()
                    && final(self).updates() == old(self).updates()
                    && final(self).shares() == old(self).shares()
                    && final(self).sums() == old(self).sums()
                    && final(self).participants() == old(self).participants(),
                Err(e) => is_registered(old(self).clients(), identity@)
                    && e == AggregatorError::DuplicateRegistration
                    && *final(self) == *old(self),
            },
    {
        if self.lookup_id(&identity).is_some() {
            return Err(AggregatorError::DuplicateRegistration);
        }
        let id = self.clients.len() as u64;
        let ghost before = self.clients();
        self.clients.push(identity);
        proof {
            assert(self.participants() == old(self).participants());
            assert(self.clients() =~= before.push(identity@));
            assert(self.updates() == old(self).updates());
            assert(self.shares() == old(self).shares());
            assert(self.sums() == old(self).sums());
            assert forall|i: int, j: int| 0 <= i < j < self.clients().len()
                implies self.clients()[i] != self.clients()[j] by {
                if j == before.len() {
                    assert(before[i] == self.clients()[i]);
                    assert(self.clients()[j] == identity@);
                    assert(!(0 <= i < before.len() && before[i] == identity@));
                } else {
                    assert(before[i] == self.clients()[i]);
                    assert(before[j] == self.clients()[j]);
                }
            }
        }
        Ok(id)
    }
    /// Both states agree on registry, cycle, mode and participant snapshots.
    pub open spec fn same_bookkeeping(&self, o: &State) -> bool {
        &&& self.clients() == o.clients()
        &&& self.cycle() == o.cycle()
        &&& self.mode() == o.mode()
        &&& self.participants() == o.participants()
    }

    /// Stores `update` as the encrypted update of `identity` for the current
    /// cycle, replacing an earlier one; an unregistered identity is refused.
    pub fn upload_model_update(&mut self, identity: &Vec<u8>, update: Vec<u8>) -> (r: Result<(), AggregatorError>)
        requires
            old(self).wf(),
        ensures
            final(self).wf(),
            match r {
                Ok(()) => is_registered(old(self).clients(), identity@)
                    && final(self).updates() == stored(
                        old(self).updates(),
                        old(self).cycle(),
                        id_of(old(self).clients(), identity@) as u64,
                        update@,
                    )
                    && final(self).same_bookkeeping(old(self))
                    && final(self).global_model() == old(self).global_model()
                    && final(self).shares() == old(self).shares()
                    && final(self).sums() == old(self).sums(),
                Err(e) => !is_registered(old(self).clients(), identity@)
                    && e == AggregatorError::NotRegistered
                    && *final(self) == *old(self),
            },
    {
        match self.lookup_id(identity) {
            None => Err(AggregatorError::NotRegistered),
            Some(id) => {
                let ghost vv = update@;
                store_bytes(&mut self.model_updates, self.current_cycle, id, update);
                proof {
                    lemma_stored_keyed_below(old(self).updates(), old(self).current_cycle, id, vv, old(self).clients().len());
                }
                assert(self.participants() == old(self).participants());
                Ok(())
            },
        }
    }

    /// Stores `share` as the masked share of `identity` for the current cycle,
    /// replacing an earlier one; an unregistered identity is refused.
    pub fn upload_masked_update_s(&mut self, identity: &Vec<u8>, share: Vec<i64>) -> (r: Result<(), AggregatorError>)
        requires
            old(self).wf(),
        ensures
            final(self).wf(),
            match r {
                Ok(()) => is_registered(old(self).clients(), identity@)
                    && final(self).shares() == stored(
                        old(self).shares(),
                        old(self).cycle(),
                        id_of(old(self).clients(), identity@) as u64,
                        share@,
                    )
                    && final(self).same_bookkeeping(old(self))
                    && final(self).global_model() == old(self).global_model()
                    && final(self).updates() == old(self).updates()
                    && final(self).sums() == old(self).sums(),
                Err(e) => !is_registered(old(self).clients(), identity@)
                    && e == AggregatorError::NotRegistered
                    && *final(self) == *old(self),
            },
    {
        match self.lookup_id(identity) {
            None => Err(AggregatorError::NotRegistered),
            Some(id) => {
                let ghost vv = share@;
                store_ints(&mut self.smpc_s_shares, self.current_cycle, id, share);
                proof {
                    lemma_stored_keyed_below(old(self).shares(), old(self).current_cycle, id, vv, old(self).clients().len());
                }
                assert(self.participants() == old(self).participants());
                Ok(())
            },
        }
    }

    /// Stores `sum` as the mask sum reported by `identity` for the current
    /// cycle, replacing an earlier one; an unregistered identity is refused.
    pub fn upload_mask_sum_t(&mut self, identity: &Vec<u8>, sum: Vec<i64>) -> (r: Result<(), AggregatorError>)
        requires
            old(self).wf(),
        ensures
            final(self).wf(),
            match r {
                Ok(()) => is_registered(old(self).clients(), identity@)
                    && final(self).sums() == stored(
                        old(self).sums(),
                        old(self).cycle(),
                        id_of(old(self).clients(), identity@) as u64,
                        sum@,
                    )
                    && final(self).same_bookkeeping(old(self))
                    && final(self).global_model() == old(self).global_model()
                    && final(self).updates() == old(self).updates()
                    && final(self).shares() == old(self).shares(),
                Err(e) => !is_registered(old(self).clients(), identity@)
                    && e == AggregatorError::NotRegistered
                    && *final(self) == *old(self),
            },
    {
        match self.lookup_id(identity) {
            None => Err(AggregatorError::NotRegistered),
            Some(id) => {
                let ghost vv = sum@;
                store_ints(&mut self.smpc_t_sums, self.current_cycle, id, sum);
                proof {
                    lemma_stored_keyed_below(old(self).sums(), old(self).current_cycle, id, vv, old(self).clients().len());
                }
                assert(self.participants() == old(self).participants());
                Ok(())
            },
        }
    }

    /// The serialized global model.
    pub fn get_global_model(&self) -> (r: Vec<u8>)
        ensures
            r@ == self.global_model(),
    {
        copy_bytes(&self.global_model)
    }

    /// Advances to the next cycle, records the ids of all currently registered
    /// clients as its participants, and returns the new cycle number.
    pub fn start_new_cycle(&mut self) -> (r: u64)
        requires
            old(self).wf(),
            old(self).cycle() < u64::MAX,
        ensures
            final(self).wf(),
            r == old(self).cycle() + 1,
            final(self).cycle() == r,
            !old(self).participants().contains_key(r),
            final(self).participants() == old(self).participants().insert(r, final(self).participants()[r]),
            final(self).participants()[r]@ == all_ids(old(self).clients().len()),
            final(self).clients() == old(self).clients(),
            final(self).mode() == old(self).mode(),
            final(self).global_model() == old(self).global_model(),
            final(self).updates() == old(self).updates(),
            final(self).shares() == old(self).shares(),
            final(self).sums() == old(self).sums(),
    {
        self.current_cycle = self.current_cycle + 1;
        let ids = ids_below(self.clients.len());
        self.cycle_participants.insert(self.current_cycle, ids);
        proof {
            assert forall|c: u64| #[trigger] self.participants().contains_key(c) implies c <= self.cycle() by {
                if c != self.current_cycle {
                    assert(old(self).participants().contains_key(c));
                }
            }
        }
        self.current_cycle
    }

    /// The reported name of the aggregation mode: `PLAIN` or `SMPC`.
    pub fn get_aggregation_mode(&self) -> (r: String)
        ensures
            r@ == name_of_mode(self.mode()),
    {
        mode_name(self.aggregation_mode)
    }

    /// Sets the aggregation mode from its name; any name but `SMPC` (in any
    /// ASCII case) selects `Plain`.
    pub fn set_aggregation_mode(&mut self, mode: &str)
        requires
            old(self).wf(),
        ensures
            final(self).wf(),
            final(self).mode() == mode_of_name(mode@),
            final(self).clients() == old(self).clients(),
            final(self).cycle() == old(self).cycle(),
            final(self).participants() == old(self).participants(),
            final(self).global_model() == old(self).global_model(),
            final(self).updates() == old(self).updates(),
            final(self).shares() == old(self).shares(),
            final(self).sums() == old(self).sums(),
    {
        self.aggregation_mode = mode_from_name(mode);
        assert(self.participants() == old(self).participants());
    }

    /// Participants of `cycle`: its recorded snapshot, or all currently
    /// registered ids where none was recorded.
    pub fn get_cycle_participants(&self, cycle: u64) -> (r: Vec<u64>)
        ensures
            r@ == if self.participants().contains_key(cycle) {
                self.participants()[cycle]@
            } else {
                all_ids(self.clients().len())
            },
    {
        match self.cycle_participants.get(&cycle) {
            Some(ids) => copy_ids(ids),
            None => ids_below(self.clients.len()),
        }
    }

    /// Starts the decrypt-and-average pass over the current cycle's encrypted
    /// updates, taken by ascending client id together with the registry as it
    /// stands now; `None` where the cycle has no updates.
    pub fn begin_aggregation(&self) -> (r: Option<PlainPass>)
        requires
            self.wf(),
        ensures
            r is None <==> of_cycle(self.updates(), self.cycle()).dom() == Set::<u64>::empty(),
            match r {
                None => in_id_order(of_cycle(self.updates(), self.cycle()), self.clients().len()).len() == 0,
                Some(p) => p.wf()
                    && p@.cycle == self.cycle()
                    && p@.updates == in_id_order(of_cycle(self.updates(), self.cycle()), self.clients().len())
                    && p@.updates.len() > 0
                    && p@.clients == self.clients()
                    && p@.cursor == 0
                    && p@.model_len is None
                    && p@.accepted == 0,
            },
    {
        let cycle = self.current_cycle;
        let updates = match self.model_updates.get(&cycle) {
            Some(m) => gather_updates(m, self.clients.len()),
            None => {
                let e: Vec<(u64, Vec<u8>)> = Vec::new();
                proof {
                    lemma_in_id_order_empty::<Seq<u8>>(self.clients@.len() as nat);
                    assert(updates_view(e@) =~= Seq::<(u64, Seq<u8>)>::empty());
                }
                e
            },
        };
        if updates.len() == 0 {
            proof {
                let m = of_cycle(self.updates(), cycle);
                assert forall|k: u64| !m.dom().contains(k) by {
                    if m.contains_key(k) {
                        lemma_in_id_order_complete(m, self.clients().len(), k);
                    }
                }
                assert(m.dom() =~= Set::<u64>::empty());
            }
            return None;
        }
        proof {
            let m = of_cycle(self.updates(), cycle);
            if m.dom() == Set::<u64>::empty() {
                lemma_no_updates_no_pass(self.updates(), cycle, self.clients().len());
            }
        }
        let mut clients: Vec<Vec<u8>> = Vec::new();
        let mut k: usize = 0;
        while k < self.clients.len()
            invariant
                k <= self.clients@.len(),
                identities_view(clients@) == self.clients().take(k as int),
            decreases self.clients@.len() - k,
        {
            let ghost before = clients@;
            clients.push(copy_bytes(&self.clients[k]));
            proof {
                assert(identities_view(clients@) =~= identities_view(before).push(self.clients()[k as int]));
                assert(self.clients().take(k + 1) =~= self.clients().take(k as int).push(self.clients()[k as int]));
            }
            k = k + 1;
        }
        assert(self.clients().take(k as int) =~= self.clients());
        Some(PlainPass::new(cycle, updates, clients))
    }

    /// Ends a pass: where it admitted at least one vector, `model` becomes the
    /// global model and the pass's cycle loses its stored updates; otherwise
    /// nothing changes, and the updates stay for a retry.
    pub fn finish_aggregation(&mut self, pass: &PlainPass, model: Vec<u8>) -> (committed: bool)
        requires
            old(self).wf(),
        ensures
            final(self).wf(),
            committed == (pass@.accepted > 0),
            committed ==> final(self).global_model() == model@
                && final(self).updates() == old(self).updates().remove(pass@.cycle),
            !committed ==> *final(self) == *old(self),
            final(self).same_bookkeeping(old(self)),
            final(self).shares() == old(self).shares(),
            final(self).sums() == old(self).sums(),
    {
        if pass.accepted() == 0 {
            return false;
        }
        let cycle = pass.cycle();
        self.global_model = model;
        self.model_updates.remove(&cycle);
        assert(self.updates() =~~= old(self).updates().remove(cycle));
        proof {
            lemma_removed_keyed_below(old(self).updates(), cycle, self.clients().len());
        }
        assert(self.participants() == old(self).participants());
        true
    }

    /// Reconstructs the current cycle's aggregate from its masked shares and
    /// mask sums, each family taken by ascending client id; `None` where
    /// either family is empty.
    pub fn begin_smpc_aggregation(&self) -> (r: Option<SmpcTotals>)
        ensures
            match (r, reconstruction(
                values_in_id_order(of_cycle(self.shares(), self.cycle()), self.clients().len()),
                values_in_id_order(of_cycle(self.sums(), self.cycle()), self.clients().len()),
            )) {
                (None, None) => true,
                (Some(t), Some((totals, count))) => t.totals@.len() == totals.len()
                    && (forall|i: int| 0 <= i < totals.len() ==> t.totals@[i] == totals[i])
                    && t.share_count == count,
                _ => false,
            },
    {
        let cycle = self.current_cycle;
        let n = self.clients.len();
        let mut inputs: Vec<Vec<i64>> = Vec::new();
        proof {
            lemma_values_in_id_order_empty::<Seq<i64>>(n as nat);
            assert(vectors_view(inputs@) =~= Seq::<Seq<i64>>::empty());
        }
        match self.smpc_s_shares.get(&cycle) {
            Some(m) => gather_vectors(m, n, &mut inputs),
            None => {},
        }
        let ghost s_view = vectors_view(inputs@);
        let n_shares = inputs.len();
        match self.smpc_t_sums.get(&cycle) {
            Some(m) => gather_vectors(m, n, &mut inputs),
            None => {},
        }
        let n_all = inputs.len();
        assert(s_view.len() == n_shares);
        assert(vectors_view(inputs@).len() == inputs@.len());
        assert(n_shares <= n_all);
        let (shares, sums) = inputs.as_slice().split_at(n_shares);
        proof {
            let sv = values_in_id_order(of_cycle(self.shares(), cycle), n as nat);
            let tv = values_in_id_order(of_cycle(self.sums(), cycle), n as nat);
            assert(s_view =~= Seq::<Seq<i64>>::empty() + sv);
            assert(vectors_view(inputs@) =~= sv + tv);
            let all = vectors_view(inputs@);
            assert(vectors_view(shares@) =~= all.subrange(0, n_shares as int));
            assert(vectors_view(sums@) =~= all.subrange(n_shares as int, n_all as int));
            assert(all.subrange(0, n_shares as int) =~= sv);
            assert(all.subrange(n_shares as int, n_all as int) =~= tv);
        }
        reconstruct_totals(shares, sums)
    }

    /// Ends a masked aggregation: `model` becomes the global model and
    /// `cycle` loses its masked shares and mask sums.
    pub fn finish_smpc_aggregation(&mut self, cycle: u64, model: Vec<u8>)
        requires
            old(self).wf(),
        ensures
            final(self).wf(),
            final(self).global_model() == model@,
            final(self).shares() == old(self).shares().remove(cycle),
            final(self).sums() == old(self).sums().remove(cycle),
            final(self).same_bookkeeping(old(self)),
            final(self).updates() == old(self).updates(),
    {
        self.global_model = model;
        self.smpc_s_shares.remove(&cycle);
        self.smpc_t_sums.remove(&cycle);
        assert(self.shares() =~~= old(self).shares().remove(cycle));
        assert(self.sums() =~~= old(self).sums().remove(cycle));
        assert(self.participants() == old(self).participants());
        proof {
            lemma_removed_keyed_below(old(self).shares(), cycle, self.clients().len());
            lemma_removed_keyed_below(old(self).sums(), cycle, self.clients().len());
        }
    }
}

} // verus!
