//! Where the gateway listens.

use vstd::prelude::*;
use crate::text;
use vstd::string::*;

verus! {

pub const DEFAULT_GATEWAY_PORT: u16 = 19385;

/// The port that a setting asks for.
pub open spec fn port_of(setting: Option<String>) -> int {
    match setting {
        Some(s) => match text::unsigned_value_upto(s@, 65535) {
            Some(n) => n,
            None => DEFAULT_GATEWAY_PORT as int,
        },
        None => DEFAULT_GATEWAY_PORT as int,
    }
}

/// The port that a setting asks for, and the default where there is none or it is no port.
pub fn gateway_port(setting: &Option<String>) -> (r: u16)
    ensures
        r == port_of(*setting),
{
    match setting {
        Some(s) => match text::read_unsigned(s.as_str(), 65535) {
            Some(n) => n as u16,
            None => DEFAULT_GATEWAY_PORT,
        },
        None => DEFAULT_GATEWAY_PORT,
    }
}

/// A setting that is a port number is the port; without one, or with another text, it is the
/// default.
pub proof fn port_is_read(n: u16, setting: String)
    ensures
        setting@ == text::decimal(n as nat) ==> port_of(Some(setting)) == n,
        port_of(None) == DEFAULT_GATEWAY_PORT,
        text::integer_value(setting@) is None ==> port_of(Some(setting)) == DEFAULT_GATEWAY_PORT,
{
    text::whole_number_is_read_back(n as int);
}

} // verus!
