//! The query endpoint: from a request for a pair to the answer.
//!
//! A request names a pair by its key in the `pair` parameter of its query
//! string.  The endpoint finds the entry of the key in the registry, reads it
//! and answers with one of five statuses.

use crate::currency::{CurrencyProvider, Reading};
use crate::rate::Rate;
use crate::registry::Registry;
use qstring::QString;
use vstd::prelude::*;
use vstd::string::*;
use vstd::utf8::is_ascii_chars;

verus! {

/// The answer to one request.
#[derive(Debug, PartialEq, Eq)]
pub enum Response {
    /// The request named no pair.
    PairNotProvided,
    /// No configured pair has the requested key.
    PairNotFound,
    /// The pair is configured but no fetch for it has succeeded yet.
    NotYetAvailable,
    /// The latest fetched rate of the pair.
    Available { current_value: Rate },
    /// The entry could not be asked.
    InternalError { reason: String },
}

impl Response {
    /// The `status` field of the answer.
    pub open spec fn status_text(self) -> Seq<char> {
        match self {
            Response::PairNotProvided => "pair_not_provided"@,
            Response::PairNotFound => "pair_not_found"@,
            Response::NotYetAvailable => "not_yet_available"@,
            Response::Available { .. } => "ok"@,
            Response::InternalError { .. } => "internal_error"@,
        }
    }

    /// The `status` field of the answer.
    pub fn status(&self) -> (text: &'static str)
        ensures
            text@ == self.status_text(),
    {
        match self {
            Response::PairNotProvided => "pair_not_provided",
            Response::PairNotFound => "pair_not_found",
            Response::NotYetAvailable => "not_yet_available",
            Response::Available { .. } => "ok",
            Response::InternalError { .. } => "internal_error",
        }
    }

    /// The `current_value` field of the answer; only an `ok` answer has one.
    pub fn current_value(&self) -> (value: Option<Rate>)
        ensures
            value == match *self {
                Response::Available { current_value } => Some(current_value),
                _ => None::<Rate>,
            },
    {
        match self {
            Response::Available { current_value } => Some(*current_value),
            _ => None,
        }
    }

    /// The `reason` field of the answer; only an `internal_error` answer has
    /// one.
    pub fn reason(&self) -> (reason: Option<&String>)
        ensures
            match *self {
                Response::InternalError { reason: why } => reason == Some(&why),
                _ => reason is None,
            },
    {
        match self {
            Response::InternalError { reason } => Some(reason),
            _ => None,
        }
    }

    /// The HTTP status code to send the answer with: 500 for an internal
    /// error, 200 for every other answer.
    pub fn http_status(&self) -> (code: u16)
        ensures
            code == if *self is InternalError {
                500u16
            } else {
                200u16
            },
    {
        match self {
            Response::InternalError { .. } => 500,
            _ => 200,
        }
    }
}

/// The text of an optional string.
pub open spec fn text_of(s: Option<&str>) -> Option<Seq<char>> {
    match s {
        Some(s) => Some(s@),
        None => None,
    }
}

/// The answer that a reply of an entry is rendered as.  `Err` holds the
/// reason for which the entry could not be asked.
pub open spec fn response_of(reply: Result<Reading, String>) -> Response {
    match reply {
        Ok(Reading::Value(rate)) => Response::Available { current_value: rate },
        Ok(Reading::NotYetAvailable) => Response::NotYetAvailable,
        Err(reason) => Response::InternalError { reason },
    }
}

/// The answer to a request for `pair`, with the entries `entries`.
pub open spec fn answer_of(entries: Map<Seq<char>, CurrencyProvider>, pair: Option<Seq<char>>) -> Response {
    match pair {
        None => Response::PairNotProvided,
        Some(key) => if entries.contains_key(key) {
            response_of(Ok(entries[key]@.reading()))
        } else {
            Response::PairNotFound
        },
    }
}

/// Routes a request for `pair` to its entry: `Ok` holds the entry to ask,
/// `Err` the answer to a request that reaches no entry.
pub fn route<'a, E>(registry: &'a Registry<E>, pair: Option<&str>) -> (route: Result<&'a E, Response>)
    ensures
        match text_of(pair) {
            None => route == Err::<&E, Response>(Response::PairNotProvided),
            Some(key) => if registry@.contains_key(key) {
                route == Ok::<&E, Response>(&registry@[key])
            } else {
                route == Err::<&E, Response>(Response::PairNotFound)
            },
        },
{
    match pair {
        None => Err(Response::PairNotProvided),
        Some(key) => match registry.lookup(key) {
            Some(entry) => Ok(entry),
            None => Err(Response::PairNotFound),
        },
    }
}

/// Renders the reply of an entry.
pub fn respond(reply: Result<Reading, String>) -> (response: Response)
    ensures
        response == response_of(reply),
{
    match reply {
        Ok(Reading::Value(rate)) => Response::Available { current_value: rate },
        Ok(Reading::NotYetAvailable) => Response::NotYetAvailable,
        Err(reason) => Response::InternalError { reason },
    }
}

/// Answers a request for `pair` from a registry that holds the entries
/// themselves.
pub fn answer(registry: &Registry<CurrencyProvider>, pair: Option<&str>) -> (response: Response)
    ensures
        response == answer_of(registry@, text_of(pair)),
{
    match route(registry, pair) {
        Ok(entry) => respond(Ok(entry.read())),
        Err(response) => response,
    }
}

/// The value that the query string `query` gives the parameter `name`, as
/// `qstring` reads query strings.  `None` where `query` has no such parameter.
pub uninterp spec fn query_value(query: Seq<char>, name: Seq<char>) -> Option<Seq<char>>;

/// Calls `qstring::QString::from` on `query` and `QString::get` with `name`
/// on what it returns.
///
/// The contract claims only that the value found depends on nothing but the
/// two texts.  `QString::from` cuts its input at byte offsets and can panic
/// where a character of more than one byte starts a parameter, so the input
/// must be ASCII.
#[verifier::external_body]
fn query_get(query: &str, name: &str) -> (value: Option<String>)
    requires
        is_ascii(query),
    ensures
        match value {
            Some(text) => query_value(query@, name@) == Some(text@),
            None => query_value(query@, name@) is None,
        },
{
    QString::from(query).get(name).map(str::to_owned)
}

/// The pair that the query string `query` asks for.  A query string that is
/// not plain ASCII is not read: it asks for no pair.
pub open spec fn pair_of_query(query: Seq<char>) -> Option<Seq<char>> {
    if is_ascii_chars(query) {
        query_value(query, "pair"@)
    } else {
        None
    }
}

/// The value of the `pair` parameter of a query string.
pub fn pair_param(query: &str) -> (pair: Option<String>)
    ensures
        match pair {
            Some(key) => pair_of_query(query@) == Some(key@),
            None => pair_of_query(query@) is None,
        },
{
    if query.is_ascii() {
        query_get(query, "pair")
    } else {
        None
    }
}

/// Answers the request with the query string `query` from a registry that
/// holds the entries themselves.
pub fn get_currency(registry: &Registry<CurrencyProvider>, query: &str) -> (response: Response)
    ensures
        response == answer_of(registry@, pair_of_query(query@)),
{
    match pair_param(query) {
        Some(key) => answer(registry, Some(key.as_str())),
        None => answer(registry, None),
    }
}

} // verus!
