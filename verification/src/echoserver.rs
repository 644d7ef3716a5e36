//! The echo server and client: where they listen or connect.
use vstd::prelude::*;
use crate::text::{decimal, push_decimal};

verus! {

/// The port used when none is given.
pub const DEFAULT_PORT: u32 = 7788;

/// The address to listen on or connect to: the given IP address (as text)
/// or `0.0.0.0` when none is given, a colon, and the given port or 7788.
pub fn server_address(ip: Option<&str>, port: Option<u32>) -> (addr: String)
    ensures
        addr@ == match ip {
            Some(t) => t@,
            None => "0.0.0.0"@,
        } + ":"@ + decimal(
            match port {
                Some(p) => p,
                None => DEFAULT_PORT,
            } as nat,
        ),
{
    let port = match port {
        Some(p) => p,
        None => DEFAULT_PORT,
    };
    let mut addr = match ip {
        Some(t) => String::from_str(t),
        None => String::from_str("0.0.0.0"),
    };
    addr.append(":");
    push_decimal(&mut addr, port as u64);
    addr
}

} // verus!
