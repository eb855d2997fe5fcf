//! Geographic origin resolution policy: loopback origins short-circuit to
//! the sentinel `"DEV"`; a failed external lookup falls back to `"N/A"`.

use vstd::prelude::*;

verus! {

/// The resolved network peer address of a request, as the plain values the
/// policy reads: the address bytes, which decide loopback-ness.
#[derive(Clone, Copy, PartialEq, Eq, Structural, Debug)]
pub enum ClientAddress {
    V4 { a: u8, b: u8, c: u8, d: u8 },
    V6 { s0: u16, s1: u16, s2: u16, s3: u16, s4: u16, s5: u16, s6: u16, s7: u16 },
}

impl ClientAddress {
    /// Loopback: `127.0.0.0/8` for IPv4, `::1` for IPv6.
    pub open spec fn spec_is_loopback(&self) -> bool {
        match *self {
            ClientAddress::V4 { a, .. } => a == 127,
            ClientAddress::V6 { s0, s1, s2, s3, s4, s5, s6, s7 } => s0 == 0 && s1 == 0 && s2
                == 0 && s3 == 0 && s4 == 0 && s5 == 0 && s6 == 0 && s7 == 1,
        }
    }

    pub fn is_loopback(&self) -> (r: bool)
        ensures
            r == self.spec_is_loopback(),
    {
        match *self {
            ClientAddress::V4 { a, .. } => a == 127,
            ClientAddress::V6 { s0, s1, s2, s3, s4, s5, s6, s7 } => s0 == 0 && s1 == 0 && s2
                == 0 && s3 == 0 && s4 == 0 && s5 == 0 && s6 == 0 && s7 == 1,
        }
    }
}

/// The sentinel country tag for loopback origin: local development
/// traffic, deliberately left unresolved.
pub fn dev_code() -> (r: String)
    ensures
        r@ == "DEV"@,
{
    String::from_str("DEV")
}

/// The local-origin short circuit: `Some("DEV")` exactly for loopback
/// addresses, `None` when the external lookup must be consulted.
pub open spec fn spec_local_country(addr: ClientAddress) -> Option<Seq<char>> {
    if addr.spec_is_loopback() {
        Some("DEV"@)
    } else {
        None
    }
}

pub fn local_country(addr: &ClientAddress) -> (r: Option<String>)
    ensures
        match r {
            Some(c) => spec_local_country(*addr) == Some(c@) && c@ == "DEV"@,
            None => spec_local_country(*addr) is None,
        },
{
    if addr.is_loopback() {
        Some(String::from_str("DEV"))
    } else {
        None
    }
}

/// The fallback policy applied to the external lookup's outcome: a
/// successful lookup's country is taken as-is, a failure is absorbed into
/// the sentinel `"N/A"`; no error escapes to the caller.
pub open spec fn spec_country_after_lookup(outcome: Result<Seq<char>, Seq<char>>) -> Seq<char> {
    match outcome {
        Ok(c) => c,
        Err(_) => "N/A"@,
    }
}

pub fn country_after_lookup(outcome: Result<String, String>) -> (r: String)
    ensures
        match outcome {
            Ok(c) => r@ == c@,
            Err(_) => r@ == "N/A"@,
        },
{
    match outcome {
        Ok(c) => c,
        Err(_) => String::from_str("N/A"),
    }
}

/// Every loopback address resolves to the sentinel `"DEV"` without the
/// external lookup being consulted.
pub proof fn lemma_loopback_is_dev(addr: ClientAddress)
    requires
        addr.spec_is_loopback(),
    ensures
        spec_local_country(addr) == Some("DEV"@),
{
}

/// Every failed lookup, whatever its error, resolves to the sentinel
/// `"N/A"`.
pub proof fn lemma_failed_lookup_is_na(e: Seq<char>)
    ensures
        spec_country_after_lookup(Err(e)) == "N/A"@,
{
}

} // verus!
