//! The life of the cache, told as a run of events.
//!
//! The cache manager never waits for the network. Its caller reports what
//! happens, one event at a time, and the manager answers each event with a new
//! state. This module says what each event does to the slots.

use crate::registry::FetchError;
use crate::store::KeyView;
use crate::store::Slot;
use crate::store::cached_in;
use crate::store::refreshing_in;
use vstd::prelude::*;

verus! {

/// How a fetch ended: with an address, or with an error.
pub type Outcome = Result<Seq<char>, FetchError>;

/// Something that happens to the cache.
pub enum Event {
    /// The warm-up is asked for.
    Build,
    /// A refresh of one pair is asked for.
    Refresh(KeyView),
    /// A fetch for one pair has ended.
    Complete(KeyView, Outcome),
}

/// The slots after `event`, given the slots before it.
///
/// The warm-up marks every slot as being fetched. A refresh request marks its
/// slot. The end of a fetch clears the mark; a success also replaces the
/// address, a failure keeps it. Events about pairs without a slot do nothing.
pub open spec fn step(cache: Map<KeyView, Slot>, event: Event) -> Map<KeyView, Slot> {
    match event {
        Event::Build => Map::new(
            |key: KeyView| cache.contains_key(key),
            |key: KeyView| Slot { url: cache[key].url, refreshing: true },
        ),
        Event::Refresh(key) => if cache.contains_key(key) {
            cache.insert(key, Slot { url: cache[key].url, refreshing: true })
        } else {
            cache
        },
        Event::Complete(key, outcome) => if cache.contains_key(key) {
            match outcome {
                Ok(url) => cache.insert(key, Slot { url: Some(url), refreshing: false }),
                Err(_) => cache.insert(key, Slot { url: cache[key].url, refreshing: false }),
            }
        } else {
            cache
        },
    }
}

/// The slots after all events of `trace`, in order.
pub open spec fn run(cache: Map<KeyView, Slot>, trace: Seq<Event>) -> Map<KeyView, Slot>
    decreases trace.len(),
{
    if trace.len() == 0 {
        cache
    } else {
        step(run(cache, trace.drop_last()), trace.last())
    }
}

/// Whether `event` makes the caller start a fetch for `key`: the warm-up does
/// so for every slot, a refresh request for its own, and both only where no
/// fetch for the slot is under way.
pub open spec fn starts_fetch(cache: Map<KeyView, Slot>, event: Event, key: KeyView) -> bool {
    match event {
        Event::Build => cache.contains_key(key) && !cache[key].refreshing,
        Event::Refresh(asked) => asked == key && cache.contains_key(key) && !cache[key].refreshing,
        Event::Complete(_, _) => false,
    }
}

/// The keys of `order` for which no fetch is under way in `cache`, in the
/// order in which `order` lists them.
pub open spec fn pending(order: Seq<KeyView>, cache: Map<KeyView, Slot>) -> Seq<KeyView>
    decreases order.len(),
{
    if order.len() == 0 {
        Seq::empty()
    } else if refreshing_in(cache, order.last()) {
        pending(order.drop_last(), cache)
    } else {
        pending(order.drop_last(), cache).push(order.last())
    }
}

/// Where no fetch is under way for any key of `order`, all of them are
/// pending: the first warm-up of a manager fetches every registered pair.
pub proof fn lemma_all_pending(order: Seq<KeyView>, cache: Map<KeyView, Slot>)
    requires
        forall|i: int| 0 <= i < order.len() ==> !refreshing_in(cache, #[trigger] order[i]),
    ensures
        pending(order, cache) == order,
    decreases order.len(),
{
    if order.len() > 0 {
        lemma_all_pending(order.drop_last(), cache);
    }
}

/// Whether `event` reports a successful fetch for `key`.
pub open spec fn is_success_for(event: Event, key: KeyView) -> bool {
    event matches Event::Complete(reported, Ok(_)) && reported == key
}

/// Whether `event` reports the end of a fetch for `key`, however it ended.
pub open spec fn is_completion_for(event: Event, key: KeyView) -> bool {
    event matches Event::Complete(reported, _) && reported == key
}

/// The reports of a list of fetches, as events.
pub open spec fn completions(reports: Seq<(KeyView, Outcome)>) -> Seq<Event> {
    Seq::new(reports.len(), |i: int| Event::Complete(reports[i].0, reports[i].1))
}

/// How many fetches for `key` the caller has under way after `trace`: those it
/// was told to start, less those whose end it has reported.
pub open spec fn fetches_in_flight(cache: Map<KeyView, Slot>, trace: Seq<Event>, key: KeyView) -> int
    decreases trace.len(),
{
    if trace.len() == 0 {
        0
    } else {
        let earlier = trace.drop_last();
        let started: int = if starts_fetch(run(cache, earlier), trace.last(), key) {
            1
        } else {
            0
        };
        let ended: int = if is_completion_for(trace.last(), key) {
            1
        } else {
            0
        };
        fetches_in_flight(cache, earlier, key) + started - ended
    }
}

/// No event creates or removes a slot.
pub proof fn lemma_run_keeps_slots(cache: Map<KeyView, Slot>, trace: Seq<Event>)
    ensures
        forall|key: KeyView| run(cache, trace).contains_key(key) == cache.contains_key(key),
    decreases trace.len(),
{
    if trace.len() > 0 {
        lemma_run_keeps_slots(cache, trace.drop_last());
    }
}

/// A run without a successful fetch for `key` leaves the address cached for
/// `key` as it was.
pub proof fn lemma_value_kept(cache: Map<KeyView, Slot>, trace: Seq<Event>, key: KeyView)
    requires
        forall|i: int| 0 <= i < trace.len() ==> !is_success_for(#[trigger] trace[i], key),
    ensures
        cached_in(run(cache, trace), key) == cached_in(cache, key),
    decreases trace.len(),
{
    if trace.len() > 0 {
        lemma_value_kept(cache, trace.drop_last(), key);
    }
}

/// A pair that was never fetched with success is not cached: whatever else
/// happened, a lookup of it finds nothing.
pub proof fn lemma_never_fetched_not_cached(
    cache: Map<KeyView, Slot>,
    trace: Seq<Event>,
    key: KeyView,
)
    requires
        cached_in(cache, key) is None,
        forall|i: int| 0 <= i < trace.len() ==> !is_success_for(#[trigger] trace[i], key),
    ensures
        cached_in(run(cache, trace), key) is None,
{
    lemma_value_kept(cache, trace, key);
}

/// The address of a successful fetch is served until the next successful
/// fetch for the same pair: where the event at `at` stored `url` for `key` and
/// no later event stored another, a lookup of `key` finds `url`.
pub proof fn lemma_served_until_replaced(
    cache: Map<KeyView, Slot>,
    trace: Seq<Event>,
    at: int,
    key: KeyView,
    url: Seq<char>,
)
    requires
        cache.contains_key(key),
        0 <= at < trace.len(),
        trace[at] == Event::Complete(key, Ok::<Seq<char>, FetchError>(url)),
        forall|j: int| at < j < trace.len() ==> !is_success_for(#[trigger] trace[j], key),
    ensures
        cached_in(run(cache, trace), key) == Some(url),
    decreases trace.len(),
{
    let earlier = trace.drop_last();
    lemma_run_keeps_slots(cache, earlier);
    if at < trace.len() - 1 {
        lemma_served_until_replaced(cache, earlier, at, key, url);
    }
}

/// After a warm-up in which every fetch was reported once, each pair holds
/// what its own fetch brought: a pair whose fetch succeeded holds the fetched
/// address, a pair whose fetch failed holds what it held before, which in a
/// fresh cache is nothing. No failure touches another pair, and a pair without
/// a report is left as it was.
pub proof fn lemma_warm_up(cache: Map<KeyView, Slot>, reports: Seq<(KeyView, Outcome)>)
    requires
        forall|i: int, j: int|
            0 <= i < j < reports.len() ==> (#[trigger] reports[i]).0 != (#[trigger] reports[j]).0,
    ensures
        forall|i: int|
            0 <= i < reports.len() && cache.contains_key((#[trigger] reports[i]).0) ==> cached_in(
                run(cache, seq![Event::Build] + completions(reports)),
                reports[i].0,
            ) == match reports[i].1 {
                Ok(url) => Some(url),
                Err(_) => cached_in(cache, reports[i].0),
            },
        forall|key: KeyView|
            (forall|i: int| 0 <= i < reports.len() ==> (#[trigger] reports[i]).0 != key)
                ==> #[trigger] cached_in(run(cache, seq![Event::Build] + completions(reports)), key)
                == cached_in(cache, key),
{
    let trace = seq![Event::Build] + completions(reports);
    assert forall|i: int|
        0 <= i < reports.len() && cache.contains_key((#[trigger] reports[i]).0) implies cached_in(
        run(cache, trace),
        reports[i].0,
    ) == match reports[i].1 {
        Ok(url) => Some(url),
        Err(_) => cached_in(cache, reports[i].0),
    } by {
        let key = reports[i].0;
        match reports[i].1 {
            Ok(url) => {
                lemma_served_until_replaced(cache, trace, i + 1, key, url);
            },
            Err(_) => {
                lemma_value_kept(cache, trace, key);
            },
        }
    }
    assert forall|key: KeyView|
        (forall|i: int| 0 <= i < reports.len() ==> (#[trigger] reports[i]).0 != key)
            implies #[trigger] cached_in(run(cache, trace), key) == cached_in(cache, key) by {
        lemma_value_kept(cache, trace, key);
    }
}

/// At most one fetch per pair is under way at any time.
///
/// Start from a cache in which no fetch for `key` is under way, and let the
/// caller report the end of a fetch only while it has one under way. Then,
/// whatever requests arrive and however they interleave, the number of fetches
/// under way for `key` is one while the slot is marked and none otherwise.
pub proof fn lemma_single_flight(cache: Map<KeyView, Slot>, trace: Seq<Event>, key: KeyView)
    requires
        !refreshing_in(cache, key),
        forall|i: int|
            0 <= i < trace.len() && is_completion_for(#[trigger] trace[i], key)
                ==> fetches_in_flight(cache, trace.take(i), key) >= 1,
    ensures
        fetches_in_flight(cache, trace, key) == if refreshing_in(run(cache, trace), key) {
            1int
        } else {
            0int
        },
        0 <= fetches_in_flight(cache, trace, key) <= 1,
    decreases trace.len(),
{
    if trace.len() > 0 {
        let earlier = trace.drop_last();
        assert forall|i: int|
            0 <= i < earlier.len() && is_completion_for(
                #[trigger] earlier[i],
                key,
            ) implies fetches_in_flight(cache, earlier.take(i), key) >= 1 by {
            assert(earlier.take(i) =~= trace.take(i));
        }
        lemma_single_flight(cache, earlier, key);
    }
}

/// Whatever happened, the address cached for a pair is the one it started
/// with or the one that some successful fetch for the pair brought.
pub proof fn lemma_value_is_a_result(cache: Map<KeyView, Slot>, trace: Seq<Event>, key: KeyView)
    ensures
        cached_in(run(cache, trace), key) == cached_in(cache, key) || exists|i: int|
            0 <= i < trace.len() && #[trigger] trace[i] == Event::Complete(
                key,
                Ok::<Seq<char>, FetchError>(cached_in(run(cache, trace), key).unwrap()),
            ) && cached_in(run(cache, trace), key) is Some,
    decreases trace.len(),
{
    if trace.len() > 0 {
        lemma_value_is_a_result(cache, trace.drop_last(), key);
    }
}

/// A failed fetch changes no cached address: what was served before it is
/// served after it.
pub proof fn lemma_failure_keeps_values(cache: Map<KeyView, Slot>, key: KeyView, error: FetchError)
    ensures
        forall|other: KeyView|
            cached_in(
                step(cache, Event::Complete(key, Err::<Seq<char>, FetchError>(error))),
                other,
            ) == cached_in(cache, other),
{
}

} // verus!
