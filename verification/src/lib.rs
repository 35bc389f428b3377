//! A cache of currency exchange rates.
//!
//! For each configured currency pair the crate keeps the latest rate reported
//! by a remote rate source and answers queries for it.  The crate holds the
//! logic only: the format of the pair list, the state machine of one cached
//! pair, the registry that routes a pair key to its entry, and the decisions
//! of the query endpoint.  Timers, HTTP and the rendering of numbers belong to
//! the program built around it.
//!
//! * [`rate`]: a rate as an exact bit pattern;
//! * [`pair`]: currency pairs, their keys and the pair list format;
//! * [`currency`]: one cached pair and its refresh cycle;
//! * [`registry`]: the fixed mapping from pair key to entry;
//! * [`rest`]: the query endpoint;
//! * [`text`]: comparing and trimming text.

pub mod currency;
pub mod pair;
pub mod rate;
pub mod registry;
pub mod rest;
pub mod text;
