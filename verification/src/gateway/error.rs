//! What can go wrong at the gateway, and how it is answered.

use vstd::prelude::*;
use crate::error;
use crate::error::Error;
use crate::text;
use vstd::string::*;

verus! {

pub const STATUS_OK: u16 = 200;

pub const STATUS_CREATED: u16 = 201;

pub const STATUS_ACCEPTED: u16 = 202;

pub const STATUS_NO_CONTENT: u16 = 204;

pub const STATUS_NOT_FOUND: u16 = 404;

pub const STATUS_INTERNAL_SERVER_ERROR: u16 = 500;

pub const STATUS_BAD_GATEWAY: u16 = 502;

pub const STATUS_SERVICE_UNAVAILABLE: u16 = 503;

/// An error at the gateway.
#[allow(inconsistent_fields)]
#[derive(Debug, Clone, PartialEq, Eq)]
pub enum GatewayError {
    Io(String),
    EntryNotFound(usize),
    AppNotFound(String),
    InteractionNotFound(String),
    Supervisor(String),
    /// The gateway has no board.
    BoardDisabled,
    Serialization(String),
    ProviderError(String),
}

/// An error as it is shown.
pub open spec fn gateway_error_text(e: GatewayError) -> Seq<char> {
    match e {
        GatewayError::Io(m) => "I/O error: "@ + m@,
        GatewayError::EntryNotFound(id) => "entry not found: "@ + text::decimal(id as nat),
        GatewayError::AppNotFound(id) => "app not found: "@ + id@,
        GatewayError::InteractionNotFound(id) => "interaction not found: "@ + id@,
        GatewayError::Supervisor(m) => "supervisor error: "@ + m@,
        GatewayError::BoardDisabled => "supervisor error: app board is not enabled"@,
        GatewayError::Serialization(m) => "serialization error: "@ + m@,
        GatewayError::ProviderError(m) => "provider error: "@ + m@,
    }
}

impl GatewayError {
    /// The error as it is shown.
    pub fn message(&self) -> (r: String)
        ensures
            r@ == gateway_error_text(*self),
    {
        match self {
            GatewayError::Io(m) => text::concat2("I/O error: ", m.as_str()),
            GatewayError::EntryNotFound(id) => {
                let number = text::decimal_string(*id as u64);
                text::concat2("entry not found: ", number.as_str())
            },
            GatewayError::AppNotFound(id) => text::concat2("app not found: ", id.as_str()),
            GatewayError::InteractionNotFound(id) => text::concat2(
                "interaction not found: ",
                id.as_str(),
            ),
            GatewayError::Supervisor(m) => text::concat2("supervisor error: ", m.as_str()),
            GatewayError::BoardDisabled => "supervisor error: app board is not enabled".to_string(),
            GatewayError::Serialization(m) => text::concat2("serialization error: ", m.as_str()),
            GatewayError::ProviderError(m) => text::concat2("provider error: ", m.as_str()),
        }
    }

    /// The status of the answer: what is not there is not found, the provider's fault is told from
    /// the gateway's own, and a gateway without a board cannot serve one.
    pub fn status(&self) -> (r: u16)
        ensures
            r == (match self {
                GatewayError::EntryNotFound(_) => STATUS_NOT_FOUND,
                GatewayError::AppNotFound(_) => STATUS_NOT_FOUND,
                GatewayError::InteractionNotFound(_) => STATUS_NOT_FOUND,
                GatewayError::ProviderError(_) => STATUS_BAD_GATEWAY,
                GatewayError::BoardDisabled => STATUS_SERVICE_UNAVAILABLE,
                _ => STATUS_INTERNAL_SERVER_ERROR,
            }),
    {
        match self {
            GatewayError::EntryNotFound(_) => STATUS_NOT_FOUND,
            GatewayError::AppNotFound(_) => STATUS_NOT_FOUND,
            GatewayError::InteractionNotFound(_) => STATUS_NOT_FOUND,
            GatewayError::ProviderError(_) => STATUS_BAD_GATEWAY,
            GatewayError::BoardDisabled => STATUS_SERVICE_UNAVAILABLE,
            _ => STATUS_INTERNAL_SERVER_ERROR,
        }
    }
}

/// An error of the board's as the gateway's.
pub fn supervisor_error(e: &Error) -> (r: GatewayError)
    ensures
        r matches GatewayError::Supervisor(m) && m@ == error::error_text(*e),
{
    GatewayError::Supervisor(e.message())
}

/// What is told of an error ends with its own words, or with the id that was not found.
pub proof fn told_error_ends_with_its_words(e: GatewayError)
    ensures
        match e {
            GatewayError::Io(m) => m@.is_suffix_of(gateway_error_text(e)),
            GatewayError::EntryNotFound(id) => text::decimal(id as nat).is_suffix_of(
                gateway_error_text(e),
            ),
            GatewayError::AppNotFound(id) => id@.is_suffix_of(gateway_error_text(e)),
            GatewayError::InteractionNotFound(id) => id@.is_suffix_of(gateway_error_text(e)),
            GatewayError::Supervisor(m) => m@.is_suffix_of(gateway_error_text(e)),
            GatewayError::BoardDisabled => true,
            GatewayError::Serialization(m) => m@.is_suffix_of(gateway_error_text(e)),
            GatewayError::ProviderError(m) => m@.is_suffix_of(gateway_error_text(e)),
        },
{
    let t = gateway_error_text(e);
    match e {
        GatewayError::EntryNotFound(id) => {
            let d = text::decimal(id as nat);
            assert(t.subrange(t.len() - d.len(), t.len() as int) =~= d);
        },
        GatewayError::BoardDisabled => {},
        GatewayError::Io(m) => {
            assert(t.subrange(t.len() - m@.len(), t.len() as int) =~= m@);
        },
        GatewayError::AppNotFound(m) => {
            assert(t.subrange(t.len() - m@.len(), t.len() as int) =~= m@);
        },
        GatewayError::InteractionNotFound(m) => {
            assert(t.subrange(t.len() - m@.len(), t.len() as int) =~= m@);
        },
        GatewayError::Supervisor(m) => {
            assert(t.subrange(t.len() - m@.len(), t.len() as int) =~= m@);
        },
        GatewayError::Serialization(m) => {
            assert(t.subrange(t.len() - m@.len(), t.len() as int) =~= m@);
        },
        GatewayError::ProviderError(m) => {
            assert(t.subrange(t.len() - m@.len(), t.len() as int) =~= m@);
        },
    }
}

} // verus!
