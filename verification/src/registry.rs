//! The order-id registry: a concurrent map from client-chosen order ids to
//! exchange-assigned ids, shared between every stream handler and the
//! request path of one account.
//!
//! Both sides write the same mapping once they learn it, in no fixed
//! order. The contracts here promise nothing about the contents after an
//! operation: another holder of the registry may write between any two
//! observations. What makes the race harmless is the model-level law
//! [`lemma_registry_insert_race`]: repeated writes of one fact, in any
//! interleaving, leave a map in the same state as a single write.

use vstd::prelude::*;
use std::sync::Arc;
use chashmap::CHashMap;

verus! {

/// chashmap's concurrent hash map, opaque to the verifier.
#[verifier::external_type_specification]
#[verifier::external_body]
#[verifier::reject_recursive_types(K)]
#[verifier::reject_recursive_types(V)]
pub struct ExCHashMap<K, V>(CHashMap<K, V>);

/// A shared handle on the registry of one account. Entries are never
/// removed: ids are not reused, so a mapping stays correct for the life of
/// the process.
pub struct OrderIdRegistry {
    inner: Arc<CHashMap<String, String>>,
}

impl OrderIdRegistry {
    /// Relies on chashmap's `CHashMap::new`: a fresh, empty concurrent map.
    #[verifier::external_body]
    pub fn new() -> (r: OrderIdRegistry)
    {
        OrderIdRegistry { inner: Arc::new(CHashMap::new()) }
    }

    /// Relies on std's `Arc::clone`: another handle on the same underlying
    /// map.
    #[verifier::external_body]
    pub fn handle(&self) -> (r: OrderIdRegistry)
    {
        OrderIdRegistry { inner: Arc::clone(&self.inner) }
    }

    /// Relies on chashmap's `CHashMap::insert`: stores `exchange_id` under
    /// `client_id`, replacing any previous entry whole — readers never see
    /// a torn entry. Concurrent holders may write too, so nothing can be
    /// promised about the contents afterwards.
    #[verifier::external_body]
    pub fn insert(&self, client_id: String, exchange_id: String)
    {
        self.inner.insert(client_id, exchange_id);
    }

    /// Relies on chashmap's `CHashMap::get`: the value some holder stored
    /// under `client_id`, or `None` when no holder has stored one.
    #[verifier::external_body]
    pub fn get(&self, client_id: &String) -> (r: Option<String>)
    {
        match self.inner.get(client_id) {
            Some(guard) => Some((*guard).clone()),
            None => None,
        }
    }
}

/// The registry race is commutative: when two independent writers each
/// record the same `(client id, exchange id)` fact, the final state of the
/// map is the state after a single write, whichever writer lands first and
/// however often the writes repeat.
pub proof fn lemma_registry_insert_race(
    m: Map<Seq<char>, Seq<char>>,
    client_id: Seq<char>,
    exchange_id: Seq<char>,
)
    ensures
        m.insert(client_id, exchange_id).insert(client_id, exchange_id) == m.insert(
            client_id,
            exchange_id,
        ),
{
    assert(m.insert(client_id, exchange_id).insert(client_id, exchange_id) =~= m.insert(
        client_id,
        exchange_id,
    ));
}

} // verus!
