//! Verified core of an event-management backend.
//!
//! Organizers authenticate with password credentials and session tokens,
//! manage events together with their sub-resources (agenda items, speakers,
//! FAQs, attachments, comments), and query aggregated analytics over their
//! own events: monthly and daily totals, ticket revenue, attendance extremes
//! and no-show rates.
//!
//! The relational store is modelled by [`store::Database`], an in-memory
//! collection of tables whose accessor functions carry full functional
//! contracts. Password hashing and token generation delegate to outside
//! cryptographic crates through a small set of trusted wrappers in
//! [`auth`]; everything else is verified.

use vstd::prelude::*;

pub mod agenda;
pub mod analytics;
pub mod attachment;
pub mod attendee;
pub mod auth;
pub mod category;
pub mod comment;
pub mod dates;
pub mod event;
pub mod faq;
pub mod laws;
pub mod organizer;
pub mod overview;
pub mod speaker;
pub mod store;
pub mod sums;

verus! {

/// Error taxonomy of the backend.
///
/// `Unauthenticated` covers a missing or invalid session, `NotFound` an
/// absent entity or an ownership-scope mismatch, `Storage` a failure of the
/// underlying store, and `Crypto` a failure of the password-hashing
/// primitives.
#[derive(Clone, Copy, Debug, PartialEq, Eq, Structural)]
pub enum AppError {
    Unauthenticated,
    NotFound,
    Storage,
    Crypto,
}

} // verus!
