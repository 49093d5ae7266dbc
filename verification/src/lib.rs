//! Durable, typed record storage for legal consultations, advisors and
//! client feedback.
//!
//! One backing memory is divided into regions. One region holds the id
//! counter, and each of the others an ordered map from a 64-bit key to an
//! encoded record. Everything that is kept is kept there, so what one run
//! of the program stores the next one finds.
//!
//! From the bottom up:
//!
//! - [`stable`] and [`std_specs`] state what the library takes on trust of
//!   the stable structures and of the standard library;
//! - [`region`] names the regions, and [`counter`] hands out ids;
//! - [`codec`] and [`record`] turn records into bytes and back;
//! - [`store`] is the ordered store of one type of record, and [`listing`]
//!   says what its listings are;
//! - [`consultation`], [`advisor`] and [`feedback`] are the records;
//! - [`ordering`], [`search`] and [`paging`] arrange listings;
//! - [`storage`] holds the counter and the stores, and [`service`] has the
//!   operations on them, stated through the predicates of [`outcome`];
//! - [`error`] has the errors and the wording of their messages.

pub mod advisor;
pub mod codec;
pub mod consultation;
pub mod counter;
pub mod error;
pub mod feedback;
pub mod listing;
pub mod ordering;
pub mod outcome;
pub mod paging;
pub mod record;
pub mod region;
pub mod search;
pub mod service;
pub mod stable;
pub mod std_specs;
pub mod storage;
pub mod store;
