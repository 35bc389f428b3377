//! One cached currency pair: its state, its refresh cycle and its answers.
//!
//! An entry starts cold.  Each completed fetch is handed to the entry as an
//! outcome: a success replaces the value and makes the entry warm, a failure
//! leaves it as it was.  The program around the entry performs the fetches and
//! keeps the timer; the entry says what to fetch and what to answer.

use crate::rate::Rate;
use crate::text::text_eq;
use vstd::prelude::*;
use vstd::string::*;

verus! {

/// Seconds between two refreshes of an entry.
pub const UPDATE_INTERVAL_SECS: u64 = 60;

/// Seconds after which a fetch that has not answered counts as failed.
pub const FETCH_TIMEOUT_SECS: u64 = 10;

/// Whether an entry has had a successful fetch yet.
#[derive(Clone, Copy, Debug, PartialEq, Eq, Structural)]
pub enum Status {
    Cold,
    Warm,
}

/// What an entry answers to a read.
#[derive(Clone, Copy, Debug, PartialEq, Eq, Structural)]
pub enum Reading {
    /// No fetch has succeeded yet.
    NotYetAvailable,
    /// The value of the latest successful fetch.
    Value(Rate),
}

/// Why a fetch delivered no rate.  None of these is fatal.
#[derive(Clone, Copy, Debug, PartialEq, Eq, Structural)]
pub enum FetchError {
    /// The rate source could not be reached or the transfer broke off.
    Network,
    /// The rate source did not answer within [`FETCH_TIMEOUT_SECS`].
    Timeout,
    /// The answer was not of the expected shape.
    Malformed,
    /// The answer was well-formed but held no rate for the requested quote.
    QuoteMissing,
}

/// The request for an entry's current value.
#[derive(Clone, Copy, Debug, PartialEq, Eq, Structural)]
pub struct ActualValue;

/// The message that carries the rate of a successful fetch to its entry.
#[derive(Clone, Copy, Debug, PartialEq, Eq, Structural)]
pub struct UpdateValue(pub Rate);

/// A fetch to perform: where to ask, and for how long to wait.
#[derive(Debug)]
pub struct FetchRequest {
    pub url: String,
    pub timeout_secs: u64,
}

/// What a freshly started entry asks of its surroundings: perform `first` at
/// once, and call [`CurrencyProvider::update_currency`] every `period_secs`
/// seconds from now on.
#[derive(Debug)]
pub struct Schedule {
    pub first: FetchRequest,
    pub period_secs: u64,
}

/// The address at which the rate of `quote` in units of `base` is fetched.
pub open spec fn request_url(base: Seq<char>, quote: Seq<char>) -> Seq<char> {
    "https://api.exchangeratesapi.io/latest?base="@ + base + "&symbols="@ + quote
}

/// Whether the first listing of `quote` in `rates` stands at index `i`.
pub open spec fn lists_first(rates: Seq<(String, Rate)>, quote: Seq<char>, i: int) -> bool {
    &&& 0 <= i < rates.len()
    &&& rates[i].0@ == quote
    &&& forall|j: int| 0 <= j < i ==> (#[trigger] rates[j]).0@ != quote
}

/// The rate that `rates` lists for `quote`: that of its first listing.
pub open spec fn listed_rate(rates: Seq<(String, Rate)>, quote: Seq<char>) -> Option<Rate> {
    if exists|i: int| lists_first(rates, quote, i) {
        Some(rates[choose|i: int| lists_first(rates, quote, i)].1)
    } else {
        None
    }
}

/// What an answer with the rates `rates` means for a fetch of `quote`: its
/// rate, or that the quote is missing.
pub open spec fn selected(rates: Seq<(String, Rate)>, quote: Seq<char>) -> Result<
    Rate,
    FetchError,
> {
    match listed_rate(rates, quote) {
        Some(rate) => Ok(rate),
        None => Err(FetchError::QuoteMissing),
    }
}

/// The failure that a broken transfer counts as: a timeout where the time
/// ran out, a malformed answer where the body could not be decoded, a network
/// failure otherwise.
pub fn fetch_failure(timed_out: bool, undecodable: bool) -> (error: FetchError)
    ensures
        error == if timed_out {
            FetchError::Timeout
        } else if undecodable {
            FetchError::Malformed
        } else {
            FetchError::Network
        },
{
    if timed_out {
        FetchError::Timeout
    } else if undecodable {
        FetchError::Malformed
    } else {
        FetchError::Network
    }
}

/// Picks the rate of `quote` out of the rates of an answer.  An answer
/// without the quote is a failed fetch like any other.
pub fn select_rate(rates: &Vec<(String, Rate)>, quote: &str) -> (rate: Result<Rate, FetchError>)
    ensures
        rate == selected(rates@, quote@),
{
    let mut i: usize = 0;
    while i < rates.len()
        invariant
            i <= rates.len(),
            forall|j: int| 0 <= j < i ==> (#[trigger] rates[j]).0@ != quote@,
        decreases rates.len() - i,
    {
        if text_eq(rates[i].0.as_str(), quote) {
            proof {
                assert(lists_first(rates@, quote@, i as int));
                let c = choose|c: int| lists_first(rates@, quote@, c);
                assert(c == i);
            }
            return Ok(rates[i].1);
        }
        i += 1;
    }
    Err(FetchError::QuoteMissing)
}

/// The state of an entry as a mathematical value.
pub struct ProviderView {
    pub base: Seq<char>,
    pub quote: Seq<char>,
    /// `None` while cold, the latest fetched rate once warm.
    pub value: Option<Rate>,
}

impl ProviderView {
    /// A new entry for the pair: cold.
    pub open spec fn fresh(base: Seq<char>, quote: Seq<char>) -> ProviderView {
        ProviderView { base, quote, value: None }
    }

    pub open spec fn status(self) -> Status {
        if self.value is Some {
            Status::Warm
        } else {
            Status::Cold
        }
    }

    /// The answer to a read in this state.
    pub open spec fn reading(self) -> Reading {
        match self.value {
            Some(rate) => Reading::Value(rate),
            None => Reading::NotYetAvailable,
        }
    }

    /// The state after a fetch has completed with `outcome`.
    pub open spec fn refreshed(self, outcome: Result<Rate, FetchError>) -> ProviderView {
        match outcome {
            Ok(rate) => ProviderView { value: Some(rate), ..self },
            Err(_) => self,
        }
    }
}

/// The cache entry of one currency pair.
#[derive(Debug)]
pub struct CurrencyProvider {
    base: String,
    quote: String,
    current_value: Option<Rate>,
}

impl View for CurrencyProvider {
    type V = ProviderView;

    closed spec fn view(&self) -> ProviderView {
        ProviderView { base: self.base@, quote: self.quote@, value: self.current_value }
    }
}

impl CurrencyProvider {
    /// A cold entry for the pair `base`, `quote`.
    pub fn new(base: String, quote: String) -> (provider: CurrencyProvider)
        ensures
            provider@ == ProviderView::fresh(base@, quote@),
    {
        CurrencyProvider { base, quote, current_value: None }
    }

    pub fn base(&self) -> (base: &String)
        ensures
            base@ == self@.base,
    {
        &self.base
    }

    pub fn quote(&self) -> (quote: &String)
        ensures
            quote@ == self@.quote,
    {
        &self.quote
    }

    pub fn status(&self) -> (status: Status)
        ensures
            status == self@.status(),
    {
        match self.current_value {
            Some(_) => Status::Warm,
            None => Status::Cold,
        }
    }

    /// The latest fetched value, or that there is none yet.  Reading never
    /// changes the entry.
    pub fn read(&self) -> (reading: Reading)
        ensures
            reading == self@.reading(),
    {
        match self.current_value {
            Some(rate) => Reading::Value(rate),
            None => Reading::NotYetAvailable,
        }
    }

    /// Applies the outcome of a completed fetch: a success becomes the
    /// entry's value, a failure changes nothing.
    pub fn refresh(&mut self, outcome: Result<Rate, FetchError>)
        ensures
            final(self)@ == old(self)@.refreshed(outcome),
            outcome is Err ==> *final(self) == *old(self),
    {
        match CurrencyProvider::completed(outcome) {
            Some(update) => self.handle_update_value(update),
            None => {},
        }
    }

    /// What a new entry does first: fetch at once, then every
    /// [`UPDATE_INTERVAL_SECS`] seconds, counted from now.
    pub fn started(&self) -> (schedule: Schedule)
        ensures
            schedule.first.url@ == request_url(self@.base, self@.quote),
            schedule.first.timeout_secs == FETCH_TIMEOUT_SECS,
            schedule.period_secs == UPDATE_INTERVAL_SECS,
    {
        Schedule { first: self.update_currency(), period_secs: UPDATE_INTERVAL_SECS }
    }

    /// The fetch that one refresh performs.  Starting a refresh does not
    /// touch the entry: reads go on seeing the last committed value until
    /// the outcome is applied.
    pub fn update_currency(&self) -> (request: FetchRequest)
        ensures
            request.url@ == request_url(self@.base, self@.quote),
            request.timeout_secs == FETCH_TIMEOUT_SECS,
    {
        let mut url = "https://api.exchangeratesapi.io/latest?base=".to_owned();
        url.append(self.base.as_str());
        url.append("&symbols=");
        url.append(self.quote.as_str());
        FetchRequest { url, timeout_secs: FETCH_TIMEOUT_SECS }
    }

    /// The outcome of a fetch of `quote`, given what the transfer delivered:
    /// the rates of the answer, or the failure of the transfer.
    pub fn get_currency_val(quote: &str, response: Result<Vec<(String, Rate)>, FetchError>) -> (rate:
        Result<Rate, FetchError>)
        ensures
            rate == match response {
                Ok(rates) => selected(rates@, quote@),
                Err(error) => Err(error),
            },
    {
        match response {
            Ok(rates) => select_rate(&rates, quote),
            Err(error) => Err(error),
        }
    }

    /// What the end of a fetch means for the entry: the message to deliver
    /// after a success, nothing after a failure.
    pub fn completed(outcome: Result<Rate, FetchError>) -> (update: Option<UpdateValue>)
        ensures
            update == match outcome {
                Ok(rate) => Some(UpdateValue(rate)),
                Err(_) => None::<UpdateValue>,
            },
    {
        match outcome {
            Ok(rate) => Some(UpdateValue(rate)),
            Err(_) => None,
        }
    }

    /// Answers a request for the current value.
    pub fn handle_actual_value(&self, _msg: ActualValue) -> (reading: Reading)
        ensures
            reading == self@.reading(),
    {
        self.read()
    }

    /// Commits a fetched rate: the entry is warm from now on and reads return
    /// exactly this rate.
    pub fn handle_update_value(&mut self, msg: UpdateValue)
        ensures
            final(self)@ == old(self)@.refreshed(Ok(msg.0)),
    {
        self.current_value = Some(msg.0);
    }
}

/// What can happen to an entry once it exists.
pub enum Event {
    /// A refresh was started; its fetch is in flight from now on.
    Started,
    /// The entry was read.
    Read,
    /// A fetch completed with this outcome.
    Completed(Result<Rate, FetchError>),
}

impl Event {
    /// Whether the event is the completion of a successful fetch.
    pub open spec fn is_success(self) -> bool {
        self matches Event::Completed(Ok(_))
    }

    /// Whether the event is the completion of a fetch.
    pub open spec fn is_completion(self) -> bool {
        self is Completed
    }
}

impl ProviderView {
    /// The state that `event` leaves behind.  Only a completed fetch can
    /// change an entry.
    pub open spec fn after(self, event: Event) -> ProviderView {
        match event {
            Event::Completed(outcome) => self.refreshed(outcome),
            _ => self,
        }
    }

    /// The state that the events of `events` leave behind, taken in order.
    pub open spec fn after_all(self, events: Seq<Event>) -> ProviderView
        decreases events.len(),
    {
        if events.len() == 0 {
            self
        } else {
            self.after_all(events.drop_last()).after(events.last())
        }
    }
}

/// A failed refresh changes neither the value nor the status of an entry: a
/// warm entry stays warm.
pub proof fn lemma_failure_keeps_state(state: ProviderView, error: FetchError)
    ensures
        state.refreshed(Err(error)) == state,
        state.refreshed(Err(error)).status() == state.status(),
        state.refreshed(Err(error)).reading() == state.reading(),
{
}

/// Through events that are no successful fetch, an entry keeps its value.
pub proof fn lemma_kept_without_success(state: ProviderView, events: Seq<Event>)
    requires
        forall|i: int| 0 <= i < events.len() ==> !(#[trigger] events[i]).is_success(),
    ensures
        state.after_all(events) == state,
    decreases events.len(),
{
    if events.len() > 0 {
        lemma_kept_without_success(state, events.drop_last());
    }
}

/// A new entry answers "not yet available" to every read for as long as no
/// fetch has succeeded, whatever else has happened to it.
pub proof fn lemma_cold_before_first_success(base: Seq<char>, quote: Seq<char>, events: Seq<Event>)
    requires
        forall|i: int| 0 <= i < events.len() ==> !(#[trigger] events[i]).is_success(),
    ensures
        ProviderView::fresh(base, quote).after_all(events).reading() == Reading::NotYetAvailable,
{
    lemma_kept_without_success(ProviderView::fresh(base, quote), events);
}

/// After a fetch has succeeded with `rate`, every read returns exactly
/// `rate` until a later fetch succeeds: failed fetches, reads and refreshes
/// in flight do not touch it.
pub proof fn lemma_value_kept_until_overwritten(state: ProviderView, rate: Rate, later: Seq<Event>)
    requires
        forall|i: int| 0 <= i < later.len() ==> !(#[trigger] later[i]).is_success(),
    ensures
        state.refreshed(Ok(rate)).after_all(later).reading() == Reading::Value(rate),
        state.after_all(seq![Event::Completed(Ok(rate))] + later).reading() == Reading::Value(rate),
{
    lemma_kept_without_success(state.refreshed(Ok(rate)), later);
    lemma_after_all_concat(state, seq![Event::Completed(Ok(rate))], later);
    lemma_after_one(state, Event::Completed(Ok(rate)));
}

/// One event taken as a run leaves the state that it leaves taken alone.
pub proof fn lemma_after_one(state: ProviderView, event: Event)
    ensures
        state.after_all(seq![event]) == state.after(event),
{
    reveal_with_fuel(ProviderView::after_all, 2);
    assert(seq![event].drop_last() =~= Seq::<Event>::empty());
}

/// Events taken in two runs leave the state that they leave taken in one.
pub proof fn lemma_after_all_concat(state: ProviderView, first: Seq<Event>, second: Seq<Event>)
    ensures
        state.after_all(first + second) == state.after_all(first).after_all(second),
    decreases second.len(),
{
    if second.len() == 0 {
        assert(first + second =~= first);
    } else {
        assert((first + second).drop_last() =~= first + second.drop_last());
        lemma_after_all_concat(state, first, second.drop_last());
    }
}

/// Reads around one refresh see the value from before it or the value that
/// it committed, and nothing else: a read while the fetch is in flight sees
/// the value from before, a read after its completion the committed one.
pub proof fn lemma_reads_see_committed_values(
    state: ProviderView,
    before: Seq<Event>,
    outcome: Result<Rate, FetchError>,
    after: Seq<Event>,
)
    requires
        forall|i: int| 0 <= i < before.len() ==> !(#[trigger] before[i]).is_completion(),
        forall|i: int| 0 <= i < after.len() ==> !(#[trigger] after[i]).is_completion(),
    ensures
        forall|n: int|
            0 <= n <= before.len() ==> (#[trigger] state.after_all(before.take(n))).reading()
                == state.reading(),
        forall|n: int|
            0 <= n <= after.len() ==> (#[trigger] state.after_all(
                before + seq![Event::Completed(outcome)] + after.take(n),
            )).reading() == state.refreshed(outcome).reading(),
{
    let commit = seq![Event::Completed(outcome)];
    assert forall|n: int| 0 <= n <= before.len() implies (#[trigger] state.after_all(
        before.take(n),
    )).reading() == state.reading() by {
        lemma_kept_without_success(state, before.take(n));
    }
    assert forall|n: int| 0 <= n <= after.len() implies (#[trigger] state.after_all(
        before + commit + after.take(n),
    )).reading() == state.refreshed(outcome).reading() by {
        lemma_kept_without_success(state, before);
        lemma_after_all_concat(state, before, commit);
        lemma_after_one(state.after_all(before), Event::Completed(outcome));
        lemma_after_all_concat(state, before + commit, after.take(n));
        lemma_kept_without_success(state.refreshed(outcome), after.take(n));
    }
}

} // verus!
