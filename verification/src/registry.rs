//! The backend registry: which backends exist, and which endpoints each one
//! offers. It is filled once and read-only afterwards.

use crate::store::CacheKey;
use crate::store::KeyView;
use crate::text::views;
use vstd::prelude::*;

verus! {

/// Why a fetch did not deliver an address.
#[derive(Debug, Clone, Copy, PartialEq, Eq)]
pub enum FetchError {
    /// No backend of that name is registered.
    UnknownBackend,
    /// The backend is registered but offers no endpoint of that name.
    UnknownEndpoint,
    /// The request failed on the way, or the backend answered with a failure.
    NetworkFailure,
    /// The backend answered, but no address could be read from the answer.
    MalformedResponse,
}

/// Why a configuration of backends was turned down.
#[derive(Debug, Clone, Copy, PartialEq, Eq)]
pub enum InitError {
    /// A backend has an empty name.
    EmptyBackendId,
    /// A backend offers no endpoint.
    NoEndpoints,
    /// A backend lists the same endpoint twice.
    DuplicateEndpoint,
    /// Two backends share a name.
    DuplicateBackend,
}

/// One backend: its name and the endpoints it offers.
#[derive(Debug)]
pub struct BackendDescriptor {
    pub id: String,
    pub endpoints: Vec<String>,
}

/// What a [`BackendDescriptor`] stands for.
pub struct BackendView {
    pub id: Seq<char>,
    pub endpoints: Seq<Seq<char>>,
}

impl View for BackendDescriptor {
    type V = BackendView;

    open spec fn view(&self) -> BackendView {
        BackendView { id: self.id@, endpoints: views(self.endpoints@) }
    }
}

/// What a list of descriptors stands for.
pub open spec fn backend_views(backends: Seq<BackendDescriptor>) -> Seq<BackendView> {
    Seq::new(backends.len(), |i: int| backends[i]@)
}

/// What is wrong with the descriptor at position `i`, if anything. A name
/// counts as taken when a descriptor before `i` has it.
pub open spec fn defect_at(backends: Seq<BackendView>, i: int) -> Option<InitError> {
    let backend = backends[i];
    if backend.id.len() == 0 {
        Some(InitError::EmptyBackendId)
    } else if backend.endpoints.len() == 0 {
        Some(InitError::NoEndpoints)
    } else if !backend.endpoints.no_duplicates() {
        Some(InitError::DuplicateEndpoint)
    } else if exists|j: int| 0 <= j < i && (#[trigger] backends[j]).id == backend.id {
        Some(InitError::DuplicateBackend)
    } else {
        None
    }
}

/// Whether no descriptor of `backends` has a defect.
pub open spec fn valid_backends(backends: Seq<BackendView>) -> bool {
    forall|i: int| 0 <= i < backends.len() ==> defect_at(backends, i) is None
}

/// Whether a backend named `backend` is registered.
pub open spec fn known_backend(backends: Seq<BackendView>, backend: Seq<char>) -> bool {
    exists|i: int| 0 <= i < backends.len() && (#[trigger] backends[i]).id == backend
}

/// Whether a backend named `key.0` is registered and offers the endpoint `key.1`.
pub open spec fn known_pair(backends: Seq<BackendView>, key: KeyView) -> bool {
    exists|i: int|
        0 <= i < backends.len() && (#[trigger] backends[i]).id == key.0
            && backends[i].endpoints.contains(key.1)
}

/// Whether a fetch for `key` can be attempted at all, and the error if not.
pub open spec fn resolve(backends: Seq<BackendView>, key: KeyView) -> Result<(), FetchError> {
    if !known_backend(backends, key.0) {
        Err(FetchError::UnknownBackend)
    } else if !known_pair(backends, key) {
        Err(FetchError::UnknownEndpoint)
    } else {
        Ok(())
    }
}

/// The pairs that one backend offers, in the order of its endpoints.
pub open spec fn pairs_of(backend: BackendView) -> Seq<KeyView> {
    Seq::new(backend.endpoints.len(), |k: int| (backend.id, backend.endpoints[k]))
}

/// All pairs of all backends: backend by backend, endpoint by endpoint.
pub open spec fn all_pairs(backends: Seq<BackendView>) -> Seq<KeyView>
    decreases backends.len(),
{
    if backends.len() == 0 {
        Seq::empty()
    } else {
        all_pairs(backends.drop_last()) + pairs_of(backends.last())
    }
}

/// The pairs listed by `all_pairs` are exactly the known ones.
pub proof fn lemma_all_pairs_known(backends: Seq<BackendView>, key: KeyView)
    ensures
        all_pairs(backends).contains(key) == known_pair(backends, key),
    decreases backends.len(),
{
    if backends.len() > 0 {
        let front = backends.drop_last();
        let last = backends.last();
        let head = all_pairs(front);
        let listed = all_pairs(backends);
        lemma_all_pairs_known(front, key);
        if listed.contains(key) {
            let p = choose|p: int| 0 <= p < listed.len() && listed[p] == key;
            if p < head.len() {
                assert(head[p] == key);
                let i = choose|i: int|
                    0 <= i < front.len() && (#[trigger] front[i]).id == key.0
                        && front[i].endpoints.contains(key.1);
                assert(backends[i] == front[i]);
            }
        }
        if known_pair(backends, key) {
            let i = choose|i: int|
                0 <= i < backends.len() && (#[trigger] backends[i]).id == key.0
                    && backends[i].endpoints.contains(key.1);
            if i < front.len() {
                assert(front[i] == backends[i]);
                let p = choose|p: int| 0 <= p < head.len() && head[p] == key;
                assert(listed[p] == key);
            } else {
                let k = choose|k: int| 0 <= k < last.endpoints.len() && last.endpoints[k] == key.1;
                assert(listed[head.len() + k] == key);
            }
        }
    }
}

/// In a valid configuration no pair is listed twice.
pub proof fn lemma_all_pairs_distinct(backends: Seq<BackendView>)
    requires
        valid_backends(backends),
    ensures
        all_pairs(backends).no_duplicates(),
    decreases backends.len(),
{
    if backends.len() > 0 {
        let front = backends.drop_last();
        let head = all_pairs(front);
        let listed = all_pairs(backends);
        assert forall|i: int| 0 <= i < front.len() implies defect_at(front, i) is None by {
            assert(defect_at(backends, i) is None);
        }
        lemma_all_pairs_distinct(front);
        assert(defect_at(backends, front.len() as int) is None);
        assert forall|a: int, b: int| 0 <= a < b < listed.len() implies listed[a] != listed[b] by {
            if a < head.len() {
                lemma_all_pairs_known(front, head[a]);
            }
        }
    }
}

/// The registered backends.
pub struct BackendRegistry {
    backends: Vec<BackendDescriptor>,
}

impl View for BackendRegistry {
    type V = Seq<BackendView>;

    closed spec fn view(&self) -> Seq<BackendView> {
        backend_views(self.backends@)
    }
}

/// Whether `name` occurs among the first `upto` strings of `list`.
fn occurs_before(list: &Vec<String>, upto: usize, name: &String) -> (r: bool)
    requires
        upto <= list@.len(),
    ensures
        r == views(list@).take(upto as int).contains(name@),
{
    let mut j: usize = 0;
    while j < upto
        invariant
            j <= upto <= list@.len(),
            forall|k: int| 0 <= k < j ==> list@[k]@ != name@,
        decreases upto - j,
    {
        if list[j] == *name {
            assert(views(list@).take(upto as int)[j as int] == name@);
            return true;
        }
        j += 1;
    }
    assert forall|k: int| 0 <= k < upto implies views(list@).take(upto as int)[k] != name@ by {
    }
    false
}

/// Whether no string occurs twice in `list`.
fn all_distinct(list: &Vec<String>) -> (r: bool)
    ensures
        r == views(list@).no_duplicates(),
{
    let mut i: usize = 0;
    while i < list.len()
        invariant
            i <= list@.len(),
            forall|a: int, b: int| 0 <= a < b < i ==> list@[a]@ != list@[b]@,
        decreases list@.len() - i,
    {
        if occurs_before(list, i, &list[i]) {
            let ghost names = views(list@);
            proof {
                let early = names.take(i as int);
                let a = choose|a: int| 0 <= a < early.len() && early[a] == list@[i as int]@;
                assert(names[a] == names[i as int]);
            }
            return false;
        }
        proof {
            let early = views(list@).take(i as int);
            assert forall|a: int| 0 <= a < i implies list@[a]@ != list@[i as int]@ by {
                if list@[a]@ == list@[i as int]@ {
                    assert(early[a] == list@[i as int]@);
                }
            }
        }
        i += 1;
    }
    proof {
        let names = views(list@);
        assert forall|a: int, b: int| 0 <= a < names.len() && 0 <= b < names.len() && a
            != b implies names[a] != names[b] by {
        }
    }
    true
}

impl BackendRegistry {
    #[verifier::type_invariant]
    spec fn accepted(&self) -> bool {
        valid_backends(backend_views(self.backends@))
    }

    /// Registers `backends`. The configuration is accepted if no descriptor
    /// has a defect; otherwise the defect of the first defective descriptor is
    /// reported.
    #[verifier::loop_isolation(false)]
    pub fn new(backends: Vec<BackendDescriptor>) -> (r: Result<BackendRegistry, InitError>)
        ensures
            match r {
                Ok(registry) => registry@ == backend_views(backends@) && valid_backends(
                    registry@,
                ),
                Err(e) => exists|i: int|
                    0 <= i < backends@.len() && #[trigger] defect_at(backend_views(backends@), i)
                        == Some(e) && forall|j: int|
                        0 <= j < i ==> defect_at(backend_views(backends@), j) is None,
            },
    {
        let ghost all = backend_views(backends@);
        let mut i: usize = 0;
        while i < backends.len()
            invariant
                i <= backends@.len(),
                all == backend_views(backends@),
                forall|j: int| 0 <= j < i ==> defect_at(all, j) is None,
            decreases backends@.len() - i,
        {
            let backend = &backends[i];
            if backend.id.as_str().is_empty() {
                assert(defect_at(all, i as int) == Some(InitError::EmptyBackendId));
                return Err(InitError::EmptyBackendId);
            }
            if backend.endpoints.len() == 0 {
                return Err(InitError::NoEndpoints);
            }
            if !all_distinct(&backend.endpoints) {
                return Err(InitError::DuplicateEndpoint);
            }
            let mut j: usize = 0;
            while j < i
                invariant
                    j <= i < backends@.len(),
                    all == backend_views(backends@),
                    forall|k: int| 0 <= k < j ==> (#[trigger] all[k]).id != all[i as int].id,
                decreases i - j,
            {
                if backends[j].id == backends[i].id {
                    assert(all[j as int].id == all[i as int].id);
                    return Err(InitError::DuplicateBackend);
                }
                j += 1;
            }
            i += 1;
        }
        Ok(BackendRegistry { backends })
    }

    /// Whether a fetch for `endpoint` at `backend` can be attempted, and the
    /// error if not.
    pub fn lookup(&self, backend: &str, endpoint: &str) -> (r: Result<(), FetchError>)
        ensures
            r == resolve(self@, (backend@, endpoint@)),
    {
        let key = CacheKey::new(backend, endpoint);
        let ghost all = self@;
        let mut found_backend = false;
        let mut i: usize = 0;
        while i < self.backends.len()
            invariant
                i <= self.backends@.len(),
                all == backend_views(self.backends@),
                key@ == (backend@, endpoint@),
                found_backend == exists|j: int| 0 <= j < i && (#[trigger] all[j]).id == key@.0,
                forall|j: int|
                    0 <= j < i ==> !((#[trigger] all[j]).id == key@.0 && all[j].endpoints.contains(
                        key@.1,
                    )),
            decreases self.backends@.len() - i,
        {
            let candidate = &self.backends[i];
            assert(all[i as int] == candidate@);
            if candidate.id == key.backend_id {
                found_backend = true;
                let n = candidate.endpoints.len();
                if occurs_before(&candidate.endpoints, n, &key.endpoint_id) {
                    return Ok(());
                }
                assert(views(candidate.endpoints@).take(n as int) =~= views(candidate.endpoints@));
            }
            i += 1;
        }
        if found_backend {
            Err(FetchError::UnknownEndpoint)
        } else {
            Err(FetchError::UnknownBackend)
        }
    }

    /// All pairs of all backends: backend by backend, endpoint by endpoint.
    pub fn pairs(&self) -> (r: Vec<CacheKey>)
        ensures
            r@.len() == all_pairs(self@).len(),
            forall|p: int| 0 <= p < r@.len() ==> (#[trigger] r@[p])@ == all_pairs(self@)[p],
            all_pairs(self@).no_duplicates(),
    {
        let ghost all = self@;
        proof {
            use_type_invariant(self);
            lemma_all_pairs_distinct(all);
        }
        let mut r: Vec<CacheKey> = Vec::new();
        let mut i: usize = 0;
        while i < self.backends.len()
            invariant
                i <= self.backends@.len(),
                all == backend_views(self.backends@),
                r@.len() == all_pairs(all.take(i as int)).len(),
                forall|p: int|
                    0 <= p < r@.len() ==> (#[trigger] r@[p])@ == all_pairs(all.take(i as int))[p],
            decreases self.backends@.len() - i,
        {
            let backend = &self.backends[i];
            let ghost done = all_pairs(all.take(i as int));
            proof {
                assert(all.take(i + 1).drop_last() =~= all.take(i as int));
            }
            let mut k: usize = 0;
            while k < backend.endpoints.len()
                invariant
                    k <= backend.endpoints@.len(),
                    r@.len() == done.len() + k,
                    forall|p: int| 0 <= p < done.len() ==> (#[trigger] r@[p])@ == done[p],
                    forall|q: int|
                        0 <= q < k ==> (#[trigger] r@[done.len() + q])@ == pairs_of(backend@)[q],
                decreases backend.endpoints@.len() - k,
            {
                r.push(
                    CacheKey { backend_id: backend.id.clone(), endpoint_id: backend.endpoints[k].clone() },
                );
                k += 1;
            }
            proof {
                let next = all_pairs(all.take(i + 1));
                assert forall|p: int| 0 <= p < r@.len() implies (#[trigger] r@[p])@ == next[p] by {
                    if p >= done.len() {
                        assert(r@[done.len() + (p - done.len())]@ == pairs_of(backend@)[p - done.len()]);
                    }
                }
            }
            i += 1;
        }
        assert(all.take(i as int) =~= all);
        r
    }
}

} // verus!
