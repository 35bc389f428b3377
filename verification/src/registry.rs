//! The registry: the fixed mapping from pair key to cache entry.
//!
//! A registry is assembled once, from the configured pairs, and never gains
//! or loses a key afterwards.  What it maps a key to is up to the program:
//! the entry itself, or a handle through which the entry is reached.

use crate::currency::{CurrencyProvider, FetchError, ProviderView, Reading};
use crate::pair::{pair_views, Pair, PairView};
use crate::rate::Rate;
use crate::text::text_eq;
use vstd::prelude::*;
use vstd::string::*;

verus! {

/// Why no registry can be built from a pair list.
#[derive(Clone, Copy, Debug, PartialEq, Eq, Structural)]
pub enum ConfigError {
    /// The list holds no pair.
    Empty,
    /// The list holds a pair with an empty currency code.
    Malformed,
}

/// Whether some pair of `pairs` has the key `key`.
pub open spec fn configured(pairs: Seq<PairView>, key: Seq<char>) -> bool {
    exists|i: int| 0 <= i < pairs.len() && #[trigger] pairs[i].key() == key
}

/// Whether `pairs[i]` is the last pair of `pairs` with its key.  Where two
/// pairs of a list share a key, the later one counts.
pub open spec fn decisive(pairs: Seq<PairView>, i: int) -> bool {
    &&& 0 <= i < pairs.len()
    &&& forall|j: int| i < j < pairs.len() ==> #[trigger] pairs[j].key() != pairs[i].key()
}

/// Whether every pair of `pairs` is well-formed.
pub open spec fn all_well_formed(pairs: Seq<PairView>) -> bool {
    forall|i: int| 0 <= i < pairs.len() ==> (#[trigger] pairs[i]).well_formed()
}

/// The index of the last pair of `pairs` with the key `key`.
pub open spec fn last_with_key(pairs: Seq<PairView>, key: Seq<char>) -> int {
    choose|i: int| decisive(pairs, i) && pairs[i].key() == key
}

/// The mapping that the list `pairs` with the entries `entries` stands for:
/// its keys are the keys of the pairs, and each key is mapped to the entry of
/// the last pair with that key.
pub open spec fn registry_of<E>(pairs: Seq<PairView>, entries: Seq<E>) -> Map<Seq<char>, E> {
    Map::new(
        |key: Seq<char>| configured(pairs, key),
        |key: Seq<char>| entries[last_with_key(pairs, key)],
    )
}

/// The last pair with a given key is the only decisive pair with that key.
pub proof fn lemma_last_with_key_is(pairs: Seq<PairView>, i: int)
    requires
        decisive(pairs, i),
    ensures
        last_with_key(pairs, pairs[i].key()) == i,
{
    let key = pairs[i].key();
    let c = last_with_key(pairs, key);
    assert(decisive(pairs, c) && pairs[c].key() == key);
    if c < i {
        assert(pairs[i].key() != pairs[c].key());
    } else if i < c {
        assert(pairs[c].key() != pairs[i].key());
    }
}

/// Every configured key has a last pair.
pub proof fn lemma_configured_has_last(pairs: Seq<PairView>, key: Seq<char>)
    requires
        configured(pairs, key),
    ensures
        decisive(pairs, last_with_key(pairs, key)),
        pairs[last_with_key(pairs, key)].key() == key,
    decreases pairs.len(),
{
    let n = pairs.len() as int;
    if pairs[n - 1].key() == key {
        assert(decisive(pairs, n - 1));
    } else {
        let shorter = pairs.drop_last();
        let w = choose|i: int| 0 <= i < pairs.len() && #[trigger] pairs[i].key() == key;
        assert(shorter[w].key() == key);
        lemma_configured_has_last(shorter, key);
        let i = last_with_key(shorter, key);
        assert(shorter[i] == pairs[i]);
        assert forall|j: int| i < j < pairs.len() implies #[trigger] pairs[j].key()
            != pairs[i].key() by {
            if j < n - 1 {
                assert(shorter[j] == pairs[j]);
            }
        }
        assert(decisive(pairs, i));
    }
}

/// The pairs of a list of pairs with entries.
pub open spec fn item_pairs<E>(items: Seq<(Pair, E)>) -> Seq<PairView> {
    Seq::new(items.len(), |i: int| items[i].0@)
}

/// The entries of a list of pairs with entries.
pub open spec fn item_entries<E>(items: Seq<(Pair, E)>) -> Seq<E> {
    Seq::new(items.len(), |i: int| items[i].1)
}

/// Whether `map` holds one cold entry for each key of `pairs`, made for the
/// last pair with that key, and nothing else.
pub open spec fn holds_cold_entries(
    map: Map<Seq<char>, CurrencyProvider>,
    pairs: Seq<PairView>,
) -> bool {
    &&& forall|key: Seq<char>| #[trigger] map.contains_key(key) <==> configured(pairs, key)
    &&& forall|key: Seq<char>| #[trigger]
        map.contains_key(key) ==> {
            let pair = pairs[last_with_key(pairs, key)];
            map[key]@ == ProviderView::fresh(pair.base, pair.quote)
        }
}

/// Whether `after` is what a refresh of `key` with `outcome` leaves of
/// `before`: the same keys, the entry of `key` refreshed, every other entry
/// as it was.
pub open spec fn refresh_step(
    before: Map<Seq<char>, CurrencyProvider>,
    after: Map<Seq<char>, CurrencyProvider>,
    key: Seq<char>,
    outcome: Result<Rate, FetchError>,
) -> bool {
    &&& after.dom() == before.dom()
    &&& forall|k: Seq<char>| #[trigger] after.contains_key(k) && k != key ==> after[k] == before[k]
    &&& before.contains_key(key) ==> after[key]@ == before[key]@.refreshed(outcome)
}

/// Whether `states` is a history of a registry: each state but the first is
/// what a refresh of `keys[i]` with `outcomes[i]` leaves of the state before.
pub open spec fn refresh_run(
    states: Seq<Map<Seq<char>, CurrencyProvider>>,
    keys: Seq<Seq<char>>,
    outcomes: Seq<Result<Rate, FetchError>>,
) -> bool {
    &&& states.len() == keys.len() + 1
    &&& outcomes.len() == keys.len()
    &&& forall|i: int|
        0 <= i < keys.len() ==> refresh_step(states[i], states[i + 1], #[trigger] keys[i], outcomes[i])
}

/// A mapping from pair keys to entries of type `E`, fixed once built.
#[derive(Debug)]
pub struct Registry<E> {
    keys: Vec<String>,
    entries: Vec<E>,
}

impl<E> Registry<E> {
    /// Every key has its entry, and no key occurs twice.
    #[verifier::type_invariant]
    closed spec fn inv(self) -> bool {
        &&& self.keys.len() == self.entries.len()
        &&& forall|i: int, j: int|
            0 <= i < j < self.keys.len() ==> (#[trigger] self.keys[i])@ != (#[trigger] self.keys[j])@
    }

    spec fn holds(self, key: Seq<char>, i: int) -> bool {
        0 <= i < self.keys.len() && self.keys[i]@ == key
    }

    /// The mapping that the registry holds.
    pub closed spec fn view(&self) -> Map<Seq<char>, E> {
        Map::new(
            |key: Seq<char>| exists|i: int| self.holds(key, i),
            |key: Seq<char>| self.entries[choose|i: int| self.holds(key, i)],
        )
    }

    /// The entry of `key`, or `None` where no configured pair has this key.
    pub fn lookup(&self, key: &str) -> (entry: Option<&E>)
        ensures
            match entry {
                Some(e) => self@.contains_key(key@) && *e == self@[key@],
                None => !self@.contains_key(key@),
            },
    {
        proof {
            use_type_invariant(self);
        }
        match self.position(key) {
            Some(i) => Some(&self.entries[i]),
            None => None,
        }
    }

    /// The place of `key` among the keys.
    fn position(&self, key: &str) -> (place: Option<usize>)
        ensures
            match place {
                Some(i) => self.holds(key@, i as int) && self@.contains_key(key@) && self@[key@]
                    == self.entries[i as int],
                None => !self@.contains_key(key@),
            },
    {
        proof {
            use_type_invariant(self);
        }
        let place = key_position(&self.keys, key);
        proof {
            if let Some(i) = place {
                assert(self.holds(key@, i as int));
                let c = choose|c: int| self.holds(key@, c);
                assert(c == i);
            }
        }
        place
    }

    /// Builds the registry of a list of pairs, each with its entry.  Fails on
    /// an empty list and on a list with a malformed pair.
    pub fn assemble(items: Vec<(Pair, E)>) -> (built: Result<Registry<E>, ConfigError>)
        ensures
            match built {
                Ok(registry) => {
                    &&& items.len() > 0
                    &&& all_well_formed(item_pairs(items@))
                    &&& registry@ == registry_of(item_pairs(items@), item_entries(items@))
                },
                Err(ConfigError::Empty) => items.len() == 0,
                Err(ConfigError::Malformed) => items.len() > 0 && !all_well_formed(
                    item_pairs(items@),
                ),
            },
    {
        let ghost pairs = item_pairs(items@);
        let ghost all = item_entries(items@);
        if items.len() == 0 {
            return Err(ConfigError::Empty);
        }
        let mut k: usize = 0;
        while k < items.len()
            invariant
                k <= items.len(),
                pairs == item_pairs(items@),
                forall|i: int| 0 <= i < k ==> (#[trigger] pairs[i]).well_formed(),
            decreases items.len() - k,
        {
            if !items[k].0.is_well_formed() {
                assert(!pairs[k as int].well_formed());
                return Err(ConfigError::Malformed);
            }
            k += 1;
        }
        let mut items = items;
        let mut keys: Vec<String> = Vec::new();
        let mut entries: Vec<E> = Vec::new();
        let ghost mut src: Seq<int> = Seq::empty();
        while items.len() > 0
            invariant
                pairs.len() == all.len(),
                items.len() <= pairs.len(),
                forall|i: int|
                    0 <= i < items.len() ==> (#[trigger] items[i]).0@ == pairs[i] && items[i].1
                        == all[i],
                keys.len() == entries.len(),
                keys.len() == src.len(),
                forall|a: int, b: int|
                    0 <= a < b < keys.len() ==> (#[trigger] keys[a])@ != (#[trigger] keys[b])@,
                forall|a: int|
                    0 <= a < keys.len() ==> {
                        &&& items.len() <= #[trigger] src[a] < pairs.len()
                        &&& decisive(pairs, src[a])
                        &&& pairs[src[a]].key() == keys[a]@
                        &&& all[src[a]] == entries[a]
                    },
                forall|i: int|
                    items.len() <= i < pairs.len() ==> exists|a: int|
                        0 <= a < keys.len() && (#[trigger] keys[a])@ == (#[trigger] pairs[i]).key(),
            decreases items.len(),
        {
            let ghost n = items.len() - 1;
            let ghost old_keys = keys@;
            let (pair, entry) = items.pop().unwrap();
            let key = pair.pair_id();
            assert(key@ == pairs[n].key());
            match key_position(&keys, key.as_str()) {
                Some(at) => {
                    assert(old_keys[at as int]@ == pairs[n].key());
                },
                None => {
                    keys.push(key);
                    entries.push(entry);
                    proof {
                        src = src.push(n);
                        assert forall|j: int| n < j < pairs.len() implies #[trigger] pairs[j].key()
                            != pairs[n].key() by {
                            let a = choose|a: int|
                                0 <= a < old_keys.len() && (#[trigger] old_keys[a])@ == pairs[j].key();
                            assert(old_keys[a]@ != key@);
                        }
                        assert(decisive(pairs, n));
                        assert(keys[keys.len() - 1]@ == pairs[n].key());
                        assert forall|i: int| n <= i < pairs.len() implies exists|a: int|
                            0 <= a < keys.len() && (#[trigger] keys[a])@ == (#[trigger] pairs[i]).key() by {
                            if i == n {
                                assert(keys[keys.len() - 1]@ == pairs[i].key());
                            } else {
                                let a = choose|a: int|
                                    0 <= a < old_keys.len() && (#[trigger] old_keys[a])@
                                        == pairs[i].key();
                                assert(keys[a]@ == pairs[i].key());
                            }
                        }
                    }
                },
            }
        }
        let registry = Registry { keys, entries };
        proof {
            assert forall|key: Seq<char>| #[trigger]
                registry@.contains_key(key) <==> configured(pairs, key) by {
                if registry@.contains_key(key) {
                    let a = choose|a: int| registry.holds(key, a);
                    assert(pairs[src[a]].key() == key);
                }
                if configured(pairs, key) {
                    let i = choose|i: int| 0 <= i < pairs.len() && #[trigger] pairs[i].key() == key;
                    let a = choose|a: int|
                        0 <= a < registry.keys.len() && (#[trigger] registry.keys[a])@
                            == pairs[i].key();
                    assert(registry.holds(key, a));
                }
            }
            assert forall|key: Seq<char>| #[trigger] registry@.contains_key(key) implies registry@[key]
                == registry_of(pairs, all)[key] by {
                let a = choose|a: int| registry.holds(key, a);
                lemma_last_with_key_is(pairs, src[a]);
            }
            assert(registry@ =~= registry_of(pairs, all));
        }
        Ok(registry)
    }
}

impl Registry<CurrencyProvider> {
    /// Builds the registry of the configured pairs with one cold entry for
    /// each.  Fails on an empty list and on a list with a malformed pair.
    pub fn build(pairs: Vec<Pair>) -> (built: Result<Registry<CurrencyProvider>, ConfigError>)
        ensures
            match built {
                Ok(registry) => {
                    &&& pairs.len() > 0
                    &&& all_well_formed(pair_views(pairs@))
                    &&& holds_cold_entries(registry@, pair_views(pairs@))
                },
                Err(ConfigError::Empty) => pairs.len() == 0,
                Err(ConfigError::Malformed) => pairs.len() > 0 && !all_well_formed(
                    pair_views(pairs@),
                ),
            },
    {
        let mut items: Vec<(Pair, CurrencyProvider)> = Vec::new();
        let mut i: usize = 0;
        while i < pairs.len()
            invariant
                i <= pairs.len(),
                items.len() == i,
                forall|k: int|
                    0 <= k < i ==> (#[trigger] items[k]).0@ == pairs[k]@ && items[k].1@
                        == ProviderView::fresh(pairs[k]@.base, pairs[k]@.quote),
            decreases pairs.len() - i,
        {
            let pair = Pair::new(pairs[i].base.clone(), pairs[i].quote.clone());
            let entry = CurrencyProvider::new(pairs[i].base.clone(), pairs[i].quote.clone());
            items.push((pair, entry));
            i += 1;
        }
        let ghost views = pair_views(pairs@);
        assert(item_pairs(items@) =~= views);
        let built = Registry::assemble(items);
        proof {
            if let Ok(registry) = &built {
                assert forall|key: Seq<char>| #[trigger] registry@.contains_key(key) implies ({
                    let pair = views[last_with_key(views, key)];
                    registry@[key]@ == ProviderView::fresh(pair.base, pair.quote)
                }) by {
                    lemma_configured_has_last(views, key);
                }
            }
        }
        built
    }

    /// Applies the outcome of a fetch for the pair with the key `key` to its
    /// entry, and says whether there is such an entry.  The keys stay as they
    /// are, and so does every other entry; a failed fetch, or one for a key
    /// that no pair has, changes nothing at all.
    pub fn refresh(&mut self, key: &str, outcome: Result<Rate, FetchError>) -> (found: bool)
        ensures
            found == old(self)@.contains_key(key@),
            refresh_step(old(self)@, final(self)@, key@, outcome),
            !found || outcome is Err ==> final(self)@ == old(self)@,
    {
        proof {
            use_type_invariant(&*self);
        }
        match self.position(key) {
            Some(i) => {
                self.entries[i].refresh(outcome);
                proof {
                    assert(self.keys == old(self).keys);
                    assert(self.entries@.len() == old(self).entries@.len());
                    assert forall|k: Seq<char>, c: int| self.holds(k, c) == old(self).holds(k, c) by {}
                    assert(self@.dom() =~= old(self)@.dom());
                    if outcome is Err {
                        assert(self.entries@ =~= old(self).entries@);
                        assert(self@ =~= old(self)@);
                    }
                }
                true
            },
            None => false,
        }
    }
}

/// The keys of a registry are those of the pairs it was built from, at every
/// point of its history: a key that no pair has is never found, however many
/// refreshes have run, and a key that a pair has is always found.
pub proof fn lemma_keys_are_fixed(
    pairs: Seq<PairView>,
    states: Seq<Map<Seq<char>, CurrencyProvider>>,
    keys: Seq<Seq<char>>,
    outcomes: Seq<Result<Rate, FetchError>>,
    i: int,
)
    requires
        refresh_run(states, keys, outcomes),
        holds_cold_entries(states[0], pairs),
        0 <= i < states.len(),
    ensures
        forall|key: Seq<char>| #[trigger] states[i].contains_key(key) <==> configured(pairs, key),
    decreases i,
{
    if i > 0 {
        lemma_keys_are_fixed(pairs, states, keys, outcomes, i - 1);
        assert(refresh_step(states[i - 1], states[i], keys[i - 1], outcomes[i - 1]));
        assert forall|key: Seq<char>| #[trigger]
            states[i].contains_key(key) <==> configured(pairs, key) by {
            assert(states[i].dom().contains(key) == states[i - 1].dom().contains(key));
        }
    }
}

/// Every entry of a registry answers "not yet available" for as long as no
/// fetch has succeeded.
pub proof fn lemma_entries_cold_before_first_success(
    pairs: Seq<PairView>,
    states: Seq<Map<Seq<char>, CurrencyProvider>>,
    keys: Seq<Seq<char>>,
    outcomes: Seq<Result<Rate, FetchError>>,
    i: int,
)
    requires
        refresh_run(states, keys, outcomes),
        holds_cold_entries(states[0], pairs),
        0 <= i < states.len(),
        forall|j: int| 0 <= j < i ==> (#[trigger] outcomes[j]) is Err,
    ensures
        forall|key: Seq<char>| #[trigger]
            states[i].contains_key(key) ==> states[i][key]@.reading() == Reading::NotYetAvailable,
    decreases i,
{
    if i > 0 {
        lemma_entries_cold_before_first_success(pairs, states, keys, outcomes, i - 1);
        assert(refresh_step(states[i - 1], states[i], keys[i - 1], outcomes[i - 1]));
        assert(outcomes[i - 1] is Err);
        assert forall|key: Seq<char>| #[trigger] states[i].contains_key(key) implies states[i][key]@.reading()
            == Reading::NotYetAvailable by {
            assert(states[i - 1].dom().contains(key));
        }
    }
}

/// An entry with the value `rate` keeps answering exactly `rate` until a
/// fetch for its own key succeeds: failed fetches for it and refreshes of
/// other entries do not touch it.
pub proof fn lemma_entry_value_kept_until_overwritten(
    states: Seq<Map<Seq<char>, CurrencyProvider>>,
    keys: Seq<Seq<char>>,
    outcomes: Seq<Result<Rate, FetchError>>,
    key: Seq<char>,
    rate: Rate,
    i: int,
)
    requires
        refresh_run(states, keys, outcomes),
        states[0].contains_key(key),
        states[0][key]@.reading() == Reading::Value(rate),
        0 <= i < states.len(),
        forall|j: int| 0 <= j < i && #[trigger] keys[j] == key ==> outcomes[j] is Err,
    ensures
        states[i].contains_key(key),
        states[i][key]@.reading() == Reading::Value(rate),
    decreases i,
{
    if i > 0 {
        lemma_entry_value_kept_until_overwritten(states, keys, outcomes, key, rate, i - 1);
        assert(refresh_step(states[i - 1], states[i], keys[i - 1], outcomes[i - 1]));
        assert(states[i].dom().contains(key) == states[i - 1].dom().contains(key));
    }
}

/// The place of `key` in `keys`: the first index that holds it.
fn key_position(keys: &Vec<String>, key: &str) -> (place: Option<usize>)
    ensures
        match place {
            Some(i) => i < keys.len() && keys[i as int]@ == key@,
            None => forall|j: int| 0 <= j < keys.len() ==> (#[trigger] keys[j])@ != key@,
        },
{
    let mut i: usize = 0;
    while i < keys.len()
        invariant
            i <= keys.len(),
            forall|j: int| 0 <= j < i ==> (#[trigger] keys[j])@ != key@,
        decreases keys.len() - i,
    {
        if text_eq(keys[i].as_str(), key) {
            return Some(i);
        }
        i += 1;
    }
    None
}

} // verus!
