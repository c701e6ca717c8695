//! The ephemeral store: at most one value per key, set only into an empty slot
//! and taken only by removing it.
use vstd::prelude::*;

use crate::session::SessionId;

verus! {

#[verifier::external_type_specification]
#[verifier::external_body]
#[verifier::reject_recursive_types(K)]
#[verifier::reject_recursive_types(V)]
#[verifier::reject_recursive_types(S)]
pub struct ExDashMap<K, V, S>(dashmap::DashMap<K, V, S>);

/// The map that holds ceremony states, as bytes, by identifier.
pub type StateMap = dashmap::DashMap<u128, Vec<u8>>;

/// What a map of ceremony states holds, key by key.
pub uninterp spec fn slots(m: StateMap) -> Map<u128, Seq<u8>>;

/// Contents with no key.
pub open spec fn no_slots() -> Map<u128, Seq<u8>> {
    Map::empty()
}

/// Relies on dashmap's `DashMap::new`: an empty map.
#[verifier::external_body]
fn empty_map() -> (r: StateMap)
    ensures
        slots(r) == no_slots(),
{
    dashmap::DashMap::new()
}

/// Relies on dashmap's `DashMap::contains_key`: whether `k` has a value.
#[verifier::external_body]
fn map_contains(m: &StateMap, k: u128) -> (r: bool)
    ensures
        r == slots(*m).contains_key(k),
{
    m.contains_key(&k)
}

/// Relies on dashmap's `DashMap::insert`: `k` holds `v` afterwards; the value
/// it held before is handed back.
#[verifier::external_body]
fn map_insert(m: &mut StateMap, k: u128, v: Vec<u8>) -> (r: Option<Vec<u8>>)
    ensures
        slots(*final(m)) == slots(*old(m)).insert(k, v@),
        match r {
            Some(o) => slots(*old(m)).contains_key(k) && o@ == slots(*old(m))[k],
            None => !slots(*old(m)).contains_key(k),
        },
{
    m.insert(k, v)
}

/// Relies on dashmap's `DashMap::remove`: `k` holds nothing afterwards; the
/// value it held is handed back.
#[verifier::external_body]
fn map_remove(m: &mut StateMap, k: u128) -> (r: Option<Vec<u8>>)
    ensures
        slots(*final(m)) == slots(*old(m)).remove(k),
        match r {
            Some(v) => slots(*old(m)).contains_key(k) && v@ == slots(*old(m))[k],
            None => !slots(*old(m)).contains_key(k),
        },
{
    m.remove(&k).map(|(_, v)| v)
}

/// The contents after `set(k, v)` on contents `m`, and whether it took.
pub open spec fn after_set(m: Map<u128, Seq<u8>>, k: u128, v: Seq<u8>) -> (Map<u128, Seq<u8>>, bool) {
    if m.contains_key(k) {
        (m, false)
    } else {
        (m.insert(k, v), true)
    }
}

/// The bytes of an optional value.
pub open spec fn bytes_of(v: Option<Vec<u8>>) -> Option<Seq<u8>> {
    match v {
        Some(b) => Some(b@),
        None => None,
    }
}

/// The contents after `get(k)` on contents `m`, and what it handed back.
pub open spec fn after_get(m: Map<u128, Seq<u8>>, k: u128) -> (Map<u128, Seq<u8>>, Option<Seq<u8>>) {
    if m.contains_key(k) {
        (m.remove(k), Some(m[k]))
    } else {
        (m, None)
    }
}

/// An in-memory store of ceremony states, kept as bytes and keyed by the
/// ceremony's identifier. It is volatile: its contents go with the process.
/// Each operation takes the store by reference, mutable where it changes it;
/// tasks that share one store hold it behind a lock, so that each `set` checks
/// and fills its slot, and each `get` reads and empties it, in one step.
pub struct InMemoryStore {
    map: StateMap,
}

impl View for InMemoryStore {
    type V = Map<u128, Seq<u8>>;

    closed spec fn view(&self) -> Map<u128, Seq<u8>> {
        slots(self.map)
    }
}

/// A single-consumption store of ceremony states: a value goes only into an
/// empty slot, and comes out only by being removed.
pub trait Store {
    /// What the store holds, key by key.
    spec fn contents(&self) -> Map<u128, Seq<u8>>;

    /// Whether nothing is stored under `key`; it takes nothing.
    fn is_empty(&self, key: SessionId) -> (r: bool)
        ensures
            r == !self.contents().contains_key(key.0),
    ;

    /// Stores `val` under `key` where the slot is empty, and says whether it did;
    /// an occupied slot is left as it is.
    fn set(&mut self, key: SessionId, val: Vec<u8>) -> (r: bool)
        ensures
            (final(self).contents(), r) == after_set(old(self).contents(), key.0, val@),
    ;

    /// Takes the value stored under `key`, if any: the slot is empty afterwards.
    fn get(&mut self, key: SessionId) -> (r: Option<Vec<u8>>)
        ensures
            (final(self).contents(), bytes_of(r)) == after_get(old(self).contents(), key.0),
    ;
}

impl InMemoryStore {
    /// An empty store.
    pub fn new() -> (r: InMemoryStore)
        ensures
            r@ == Map::<u128, Seq<u8>>::empty(),
    {
        InMemoryStore { map: empty_map() }
    }
}

impl Store for InMemoryStore {
    open spec fn contents(&self) -> Map<u128, Seq<u8>> {
        self@
    }

    fn is_empty(&self, key: SessionId) -> (r: bool) {
        !map_contains(&self.map, key.0)
    }

    fn set(&mut self, key: SessionId, val: Vec<u8>) -> (r: bool) {
        if map_contains(&self.map, key.0) {
            false
        } else {
            map_insert(&mut self.map, key.0, val);
            true
        }
    }

    fn get(&mut self, key: SessionId) -> (r: Option<Vec<u8>>) {
        let r = map_remove(&mut self.map, key.0);
        proof {
            if old(self)@.contains_key(key.0) {
                assert(bytes_of(r) == Some(old(self)@[key.0]));
            } else {
                assert(old(self)@.remove(key.0) =~= old(self)@);
            }
        }
        r
    }
}

impl Default for InMemoryStore {
    fn default() -> (r: InMemoryStore)
        ensures
            r@ == Map::<u128, Seq<u8>>::empty(),
    {
        InMemoryStore::new()
    }
}

/// What `set(k, ..)` answers, call after call, for the values `vals`, starting
/// from contents `m`.
pub open spec fn set_answers(m: Map<u128, Seq<u8>>, k: u128, vals: Seq<Seq<u8>>) -> Seq<bool>
    decreases vals.len(),
{
    if vals.len() == 0 {
        Seq::empty()
    } else {
        let (m2, took) = after_set(m, k, vals[0]);
        seq![took] + set_answers(m2, k, vals.drop_first())
    }
}

/// What `get(k)` hands back, call after call, `n` times, starting from
/// contents `m`.
pub open spec fn get_answers(m: Map<u128, Seq<u8>>, k: u128, n: nat) -> Seq<Option<Seq<u8>>>
    decreases n,
{
    if n == 0 {
        Seq::empty()
    } else {
        let (m2, got) = after_get(m, k);
        seq![got] + get_answers(m2, k, (n - 1) as nat)
    }
}

proof fn lemma_set_answers_occupied(m: Map<u128, Seq<u8>>, k: u128, vals: Seq<Seq<u8>>)
    requires
        m.contains_key(k),
    ensures
        set_answers(m, k, vals).len() == vals.len(),
        forall|i: int| 0 <= i < vals.len() ==> !#[trigger] set_answers(m, k, vals)[i],
    decreases vals.len(),
{
    if vals.len() > 0 {
        lemma_set_answers_occupied(m, k, vals.drop_first());
        let rest = set_answers(m, k, vals.drop_first());
        assert forall|i: int| 0 <= i < vals.len() implies !#[trigger] set_answers(m, k, vals)[i] by {
            if i > 0 {
                assert(set_answers(m, k, vals)[i] == rest[i - 1]);
            }
        }
    }
}

/// Of any number of `set` calls on a key that is empty at first, the first
/// takes and every later one is refused: exactly one answers `true`.
pub proof fn lemma_set_exactly_once(m: Map<u128, Seq<u8>>, k: u128, vals: Seq<Seq<u8>>)
    requires
        !m.contains_key(k),
        vals.len() > 0,
    ensures
        set_answers(m, k, vals).len() == vals.len(),
        set_answers(m, k, vals)[0],
        forall|i: int| 0 < i < vals.len() ==> !#[trigger] set_answers(m, k, vals)[i],
{
    let m2 = m.insert(k, vals[0]);
    lemma_set_answers_occupied(m2, k, vals.drop_first());
    let rest = set_answers(m2, k, vals.drop_first());
    assert forall|i: int| 0 < i < vals.len() implies !#[trigger] set_answers(m, k, vals)[i] by {
        assert(set_answers(m, k, vals)[i] == rest[i - 1]);
    }
}

proof fn lemma_get_answers_empty(m: Map<u128, Seq<u8>>, k: u128, n: nat)
    requires
        !m.contains_key(k),
    ensures
        get_answers(m, k, n).len() == n,
        forall|i: int| 0 <= i < n ==> #[trigger] get_answers(m, k, n)[i] is None,
    decreases n,
{
    if n > 0 {
        lemma_get_answers_empty(m, k, (n - 1) as nat);
        let rest = get_answers(m, k, (n - 1) as nat);
        assert forall|i: int| 0 <= i < n implies #[trigger] get_answers(m, k, n)[i] is None by {
            if i > 0 {
                assert(get_answers(m, k, n)[i] == rest[i - 1]);
            }
        }
    }
}

/// Of any number of `get` calls on one key, the first hands back what the key
/// held, and every later one finds the slot empty.
pub proof fn lemma_get_once(m: Map<u128, Seq<u8>>, k: u128, n: nat)
    requires
        n > 0,
    ensures
        get_answers(m, k, n).len() == n,
        get_answers(m, k, n)[0] == (if m.contains_key(k) {
            Some(m[k])
        } else {
            None::<Seq<u8>>
        }),
        forall|i: int| 0 < i < n ==> #[trigger] get_answers(m, k, n)[i] is None,
{
    let (m2, got) = after_get(m, k);
    lemma_get_answers_empty(m2, k, (n - 1) as nat);
    let rest = get_answers(m2, k, (n - 1) as nat);
    assert forall|i: int| 0 < i < n implies #[trigger] get_answers(m, k, n)[i] is None by {
        assert(get_answers(m, k, n)[i] == rest[i - 1]);
    }
}

} // verus!
