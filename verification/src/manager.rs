//! The cache manager: the registry and the store behind one interface.
//!
//! Lookups are answered from the store at once. Warm-up and refresh are split
//! in two: a request, which the manager answers by saying which fetches to
//! start, and the report of each fetch's outcome, which the manager records.
//! Between the two the manager is free, so no lookup and no refresh of another
//! pair ever waits for the network.
//!
//! Two refresh requests for one pair never lead to two fetches at a time: the
//! second one is answered with [`RefreshAction::AlreadyInFlight`] and dropped
//! as redundant, since the fetch under way will renew the slot anyway.

use crate::lifecycle::Event;
use crate::lifecycle::Outcome;
use crate::lifecycle::completions;
use crate::lifecycle::lemma_warm_up;
use crate::lifecycle::pending;
use crate::lifecycle::run;
use crate::lifecycle::step;
use crate::registry::BackendDescriptor;
use crate::registry::BackendRegistry;
use crate::registry::BackendView;
use crate::registry::FetchError;
use crate::registry::InitError;
use crate::registry::all_pairs;
use crate::registry::backend_views;
use crate::registry::defect_at;
use crate::registry::known_pair;
use crate::registry::lemma_all_pairs_known;
use crate::registry::resolve;
use crate::registry::valid_backends;
use crate::store::CacheKey;
use crate::store::CacheStore;
use crate::store::KeyView;
use crate::store::Slot;
use crate::store::cached_in;
use crate::store::empty_slot;
use crate::store::refreshing_in;
use vstd::prelude::*;

verus! {

/// A lookup found no address: no fetch for the pair has succeeded yet.
#[derive(Debug, Clone, Copy, PartialEq, Eq)]
pub struct NotCachedError;

/// Why the warm-up could not even be attempted.
#[derive(Debug, Clone, Copy, PartialEq, Eq)]
pub enum BuildError {
    /// No pair is registered, so there is nothing to fetch.
    NothingToWarm,
}

/// What the caller is to do about a refresh request.
#[derive(Debug, Clone, Copy, PartialEq, Eq)]
pub enum RefreshAction {
    /// Start a fetch for the pair, and report how it ended.
    Fetch,
    /// A fetch for the pair is under way: start none.
    AlreadyInFlight,
}

/// The answer to a refresh request for `key`.
pub open spec fn refresh_decision(
    backends: Seq<BackendView>,
    cache: Map<KeyView, Slot>,
    key: KeyView,
) -> Result<RefreshAction, FetchError> {
    match resolve(backends, key) {
        Err(e) => Err(e),
        Ok(_) => if refreshing_in(cache, key) {
            Ok(RefreshAction::AlreadyInFlight)
        } else {
            Ok(RefreshAction::Fetch)
        },
    }
}

/// The answer to the report that a fetch for `key` ended with `outcome`.
pub open spec fn completion_result(backends: Seq<BackendView>, key: KeyView, outcome: Outcome) -> Result<
    (),
    FetchError,
> {
    match resolve(backends, key) {
        Err(e) => Err(e),
        Ok(_) => match outcome {
            Ok(_) => Ok(()),
            Err(e) => Err(e),
        },
    }
}

/// What a reported outcome stands for.
pub open spec fn outcome_view(outcome: Result<String, FetchError>) -> Outcome {
    match outcome {
        Ok(url) => Ok(url@),
        Err(e) => Err(e),
    }
}

/// The slots of a manager that has fetched nothing yet: one empty slot for
/// every registered pair.
pub open spec fn fresh_cache(backends: Seq<BackendView>) -> Map<KeyView, Slot> {
    Map::new(|key: KeyView| known_pair(backends, key), |key: KeyView| empty_slot())
}

/// After the first warm-up, every registered pair whose fetch succeeded is
/// cached with the address fetched, and every pair whose fetch failed is not
/// cached. In `reports` every pair is reported at most once, in any order.
pub proof fn lemma_first_warm_up(backends: Seq<BackendView>, reports: Seq<(KeyView, Outcome)>)
    requires
        forall|i: int, j: int|
            0 <= i < j < reports.len() ==> (#[trigger] reports[i]).0 != (#[trigger] reports[j]).0,
    ensures
        forall|i: int|
            0 <= i < reports.len() && known_pair(backends, (#[trigger] reports[i]).0) ==> cached_in(
                run(fresh_cache(backends), seq![Event::Build] + completions(reports)),
                reports[i].0,
            ) == match reports[i].1 {
                Ok(url) => Some(url),
                Err(_) => None,
            },
{
    lemma_warm_up(fresh_cache(backends), reports);
}

/// What a list of keys stands for.
pub open spec fn key_views(keys: Seq<CacheKey>) -> Seq<KeyView> {
    Seq::new(keys.len(), |i: int| keys[i]@)
}

/// The cache manager.
pub struct BackendManager {
    registry: BackendRegistry,
    store: CacheStore,
}

spec fn slot_in(stored: Map<KeyView, Slot>, key: KeyView) -> Slot {
    if stored.contains_key(key) {
        stored[key]
    } else {
        empty_slot()
    }
}

impl View for BackendManager {
    type V = Map<KeyView, Slot>;

    /// One slot for every registered pair.
    closed spec fn view(&self) -> Map<KeyView, Slot> {
        Map::new(
            |key: KeyView| known_pair(self.registry@, key),
            |key: KeyView| slot_in(self.store@, key),
        )
    }
}

impl BackendManager {
    /// The registered backends.
    pub closed spec fn backends(&self) -> Seq<BackendView> {
        self.registry@
    }

    /// The manager has a slot for a pair exactly if the pair is registered.
    pub proof fn lemma_slots_are_pairs(&self)
        ensures
            forall|key: KeyView| self@.contains_key(key) == known_pair(self.backends(), key),
    {
    }

    /// Sets the manager up for `backends`. No fetch is made here: every slot
    /// starts empty. A configuration with a defect is turned down, with the
    /// defect of the first defective descriptor.
    pub fn new(backends: Vec<BackendDescriptor>) -> (r: Result<BackendManager, InitError>)
        ensures
            match r {
                Ok(manager) => {
                    &&& manager.backends() == backend_views(backends@)
                    &&& valid_backends(manager.backends())
                    &&& manager@ == fresh_cache(manager.backends())
                },
                Err(e) => exists|i: int|
                    0 <= i < backends@.len() && #[trigger] defect_at(backend_views(backends@), i)
                        == Some(e) && forall|j: int|
                        0 <= j < i ==> defect_at(backend_views(backends@), j) is None,
            },
    {
        match BackendRegistry::new(backends) {
            Ok(registry) => {
                let manager = BackendManager { registry, store: CacheStore::new() };
                Ok(manager)
            },
            Err(e) => Err(e),
        }
    }

    /// Asks for the warm-up: a fetch for every registered pair.
    ///
    /// The answer lists the pairs to fetch, in the order of the registry, and
    /// marks their slots. Pairs with a fetch under way are left out, so that
    /// no pair is ever fetched twice at a time. The caller starts the fetches,
    /// in any order or all at once, and reports each outcome with
    /// [`BackendManager::complete_fetch`]; a failed fetch leaves its slot empty
    /// and harms no other. The warm-up fails only where no pair is registered.
    pub fn build_cache(&mut self) -> (r: Result<Vec<CacheKey>, BuildError>)
        ensures
            final(self).backends() == old(self).backends(),
            match r {
                Ok(plan) => {
                    &&& all_pairs(old(self).backends()).len() > 0
                    &&& key_views(plan@) == pending(all_pairs(old(self).backends()), old(self)@)
                    &&& final(self)@ == step(old(self)@, Event::Build)
                },
                Err(e) => {
                    &&& e == BuildError::NothingToWarm
                    &&& all_pairs(old(self).backends()).len() == 0
                    &&& final(self)@ == old(self)@
                },
            },
    {
        let pairs = self.registry.pairs();
        if pairs.len() == 0 {
            return Err(BuildError::NothingToWarm);
        }
        let ghost backends = self.registry@;
        let ghost order = all_pairs(backends);
        let ghost cache = self@;
        let ghost stored = self.store@;
        let mut plan: Vec<CacheKey> = Vec::new();
        let mut i: usize = 0;
        proof {
            assert forall|p: int| 0 <= p < order.len() implies known_pair(
                backends,
                #[trigger] order[p],
            ) by {
                lemma_all_pairs_known(backends, order[p]);
            }
        }
        while i < pairs.len()
            invariant
                i <= pairs@.len(),
                self.registry@ == backends,
                order == all_pairs(backends),
                order.no_duplicates(),
                pairs@.len() == order.len(),
                forall|p: int| 0 <= p < pairs@.len() ==> (#[trigger] pairs@[p])@ == order[p],
                forall|p: int| 0 <= p < order.len() ==> known_pair(backends, #[trigger] order[p]),
                cache == Map::new(
                    |key: KeyView| known_pair(backends, key),
                    |key: KeyView| slot_in(stored, key),
                ),
                key_views(plan@) == pending(order.take(i as int), cache),
                forall|key: KeyView|
                    #![trigger slot_in(self.store@, key)]
                    slot_in(self.store@, key) == if order.take(i as int).contains(key) {
                        Slot { url: slot_in(stored, key).url, refreshing: true }
                    } else {
                        slot_in(stored, key)
                    },
            decreases pairs@.len() - i,
        {
            let key = &pairs[i];
            let ghost done = order.take(i as int);
            let ghost next = order.take(i + 1);
            let ghost now = self.store@;
            proof {
                assert(next.drop_last() =~= done);
                assert(next.last() == key@);
                assert(slot_in(now, key@) == slot_in(stored, key@));
            }
            if !self.store.is_refreshing(key) {
                self.store.declare(key.clone());
                self.store.set_refreshing(key, true);
                plan.push(key.clone());
            }
            proof {
                assert forall|other: KeyView|
                    #![trigger slot_in(self.store@, other)]
                    slot_in(self.store@, other) == if next.contains(other) {
                        Slot { url: slot_in(stored, other).url, refreshing: true }
                    } else {
                        slot_in(stored, other)
                    } by {
                    assert(slot_in(now, other) == if done.contains(other) {
                        Slot { url: slot_in(stored, other).url, refreshing: true }
                    } else {
                        slot_in(stored, other)
                    });
                }
            }
            i += 1;
        }
        proof {
            assert(order.take(i as int) =~= order);
            assert forall|key: KeyView| known_pair(backends, key) implies slot_in(self.store@, key)
                == (Slot { url: slot_in(stored, key).url, refreshing: true }) by {
                lemma_all_pairs_known(backends, key);
            }
        }
        Ok(plan)
    }

    /// The address cached for `endpoint` at `backend`. This is a lookup and
    /// nothing else: it fails where no fetch for the pair has succeeded yet,
    /// which includes every pair that is not registered.
    pub fn get_cached(&self, backend: &str, endpoint: &str) -> (r: Result<String, NotCachedError>)
        ensures
            match r {
                Ok(url) => cached_in(self@, (backend@, endpoint@)) == Some(url@),
                Err(_) => cached_in(self@, (backend@, endpoint@)) is None,
            },
    {
        if self.registry.lookup(backend, endpoint).is_err() {
            return Err(NotCachedError);
        }
        let key = CacheKey::new(backend, endpoint);
        match self.store.get(&key) {
            Some(url) => Ok(url),
            None => Err(NotCachedError),
        }
    }

    /// Asks for a refresh of `endpoint` at `backend`.
    ///
    /// For a pair that is not registered the answer is the error. Otherwise
    /// the caller is told to fetch, and the slot is marked, unless a fetch for
    /// the pair is under way already.
    pub fn refresh_cache(&mut self, backend: &str, endpoint: &str) -> (r: Result<
        RefreshAction,
        FetchError,
    >)
        ensures
            final(self).backends() == old(self).backends(),
            r == refresh_decision(old(self).backends(), old(self)@, (backend@, endpoint@)),
            final(self)@ == step(old(self)@, Event::Refresh((backend@, endpoint@))),
    {
        let key = CacheKey::new(backend, endpoint);
        match self.registry.lookup(backend, endpoint) {
            Err(e) => Err(e),
            Ok(_) => {
                if self.store.is_refreshing(&key) {
                    Ok(RefreshAction::AlreadyInFlight)
                } else {
                    self.store.declare(key.clone());
                    self.store.set_refreshing(&key, true);
                    Ok(RefreshAction::Fetch)
                }
            },
        }
    }

    /// Records that a fetch for `endpoint` at `backend` ended with `outcome`.
    ///
    /// A success replaces the cached address; a failure leaves it as it was
    /// and is handed back. Either way the slot is no longer marked. For a pair
    /// that is not registered nothing is recorded and the answer is the error
    /// of the lookup.
    pub fn complete_fetch(
        &mut self,
        backend: &str,
        endpoint: &str,
        outcome: Result<String, FetchError>,
    ) -> (r: Result<(), FetchError>)
        ensures
            final(self).backends() == old(self).backends(),
            r == completion_result(
                old(self).backends(),
                (backend@, endpoint@),
                outcome_view(outcome),
            ),
            final(self)@ == step(
                old(self)@,
                Event::Complete((backend@, endpoint@), outcome_view(outcome)),
            ),
            outcome is Err ==> forall|key: KeyView|
                cached_in(final(self)@, key) == cached_in(old(self)@, key),
    {
        let key = CacheKey::new(backend, endpoint);
        match self.registry.lookup(backend, endpoint) {
            Err(e) => Err(e),
            Ok(_) => {
                match outcome {
                    Ok(url) => {
                        self.store.set_refreshing(&key, false);
                        self.store.put(key, url);
                        Ok(())
                    },
                    Err(e) => {
                        self.store.set_refreshing(&key, false);
                        Err(e)
                    },
                }
            },
        }
    }
}

} // verus!
