//! Edge redirect resolution.
//!
//! Given an inbound request's host, path, scheme and query string, the
//! resolver derives an ordered sequence of candidate keys, consults a
//! rule table for the first key with an entry, decodes the entry into a
//! redirect rule, and builds the redirect's status and `Location` value.
//! A request with no matching entry is left for the caller to forward
//! unchanged.

pub mod keys;
pub mod rule;
pub mod store;
pub mod resolver;
