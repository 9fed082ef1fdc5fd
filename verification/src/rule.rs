//! Redirect rules and payload decoding.
//!
//! A rule table entry's payload is a JSON object
//! `{"status": <integer>, "keep_query": <bool>, "path": <string>}`.
//! Decoding is structural only: a payload of any other shape yields no
//! rule, and the resolver reports it as malformed rather than treating
//! it as a miss.

use vstd::prelude::*;

verus! {

/// A decoded redirect rule: the response status, whether the original
/// query string is preserved, and the destination path.
pub struct Rule {
    pub status: u16,
    pub keep_query: bool,
    pub path: String,
}

/// The rule fields a payload text decodes to — a JSON object whose
/// `status` is an integer that fits a `u16`, `keep_query` a boolean and
/// `path` a string — or `None` when the payload is not of that shape.
/// The result depends on the payload text alone.
pub uninterp spec fn decoded_rule_of(payload: Seq<char>) -> Option<(u16, bool, Seq<char>)>;

/// Relies on `serde_json::from_str` to parse the payload as JSON, and on
/// the `serde_json::Value` accessors `get`, `as_u64`, `as_bool` and
/// `as_str` to read the three rule fields, each a match on the parsed
/// value's variant.
#[verifier::external_body]
fn decode_payload(payload: &str) -> (r: Option<Rule>)
    ensures
        match r {
            Some(rule) => decoded_rule_of(payload@) == Some(
                (rule.status, rule.keep_query, rule.path@),
            ),
            None => decoded_rule_of(payload@) is None,
        },
{
    let value: serde_json::Value = serde_json::from_str(payload).ok()?;
    let status = u16::try_from(value.get("status")?.as_u64()?).ok()?;
    let keep_query = value.get("keep_query")?.as_bool()?;
    let path = String::from(value.get("path")?.as_str()?);
    Some(Rule { status, keep_query, path })
}

impl Rule {
    /// Decodes a rule table payload; `None` exactly when it is not a
    /// well-formed rule object.
    pub fn decode(payload: &str) -> (r: Option<Rule>)
        ensures
            match r {
                Some(rule) => decoded_rule_of(payload@) == Some(
                    (rule.status, rule.keep_query, rule.path@),
                ),
                None => decoded_rule_of(payload@) is None,
            },
    {
        decode_payload(payload)
    }
}

} // verus!
