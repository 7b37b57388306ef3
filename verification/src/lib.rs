//! Relay from a source provider's webhooks to a sink's push endpoint.
//!
//! The crate holds the relay's core: a method+path router, the hook
//! registry, the event-to-notification transformer, and the decision
//! logic of ingress authentication and rate-limit-aware delivery.
use vstd::prelude::*;

pub mod models;
pub mod router;
pub mod routes;
pub mod store;
pub mod text;

verus! {

/// Parses a colon-separated `user:hash` pair for the management
/// credential table: exactly one colon, and after it a hash of
/// exactly 64 characters (a hex digest of a 256-bit value).
pub fn parse_user(value: &str) -> (r: Result<(String, String), String>)
    ensures
        r is Ok <==> (text::count_of(value@, ':') == 1 && value@.len() == text::first_index_of(
            value@,
            ':',
        ) + 65),
        r matches Ok((u, p)) ==> {
            let c = text::first_index_of(value@, ':');
            &&& u@ == value@.take(c)
            &&& p@ == value@.skip(c + 1)
            &&& p@.len() == 64
        },
        r matches Err(m) ==> (if text::count_of(value@, ':') == 1 {
            m@ == "Password hash has invalid length"@
        } else {
            m@ == "Invalid format, needs to be user:pass"@
        }),
{
    let n: usize = value.unicode_len();
    let (colons, c) = text::char_count_first(value, ':');
    if colons != 1 {
        return Err(String::from_str("Invalid format, needs to be user:pass"));
    }
    let pass = value.substring_char(c + 1, n).to_owned();
    if pass.as_str().unicode_len() != 64 {
        Err(String::from_str("Password hash has invalid length"))
    } else {
        let user = value.substring_char(0, c).to_owned();
        proof {
            assert(pass@ =~= value@.skip(c + 1));
        }
        Ok((user, pass))
    }
}

} // verus!
