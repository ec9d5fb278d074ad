//! The client's side of the registry: what to ask and how to read the
//! answer.

use crate::address::Ipv6Address;
use crate::error::ErrorKind;
use crate::identifier::{id_fault, validate_id, IdError};
use crate::ipv6_text::ipv6_from_text;
use crate::server::RegisterRequest;
use vstd::prelude::*;
use vstd::string::StringExecFns;
use vstd::utf8::encode_utf8;

verus! {

/// Why the registry did not give what was asked for.
#[derive(Clone, Copy, Debug, PartialEq, Eq, Structural)]
pub enum RegistryFailure {
    /// A failure of one of the kinds the system knows.
    Kind(ErrorKind),
    /// A status that stands for itself, such as 500.
    Status(u16),
}

/// A status from 200 to 299.
pub open spec fn is_success(status: u16) -> bool {
    200 <= status <= 299
}

/// What a status other than success means: 400, 401, 404 and 409 have their
/// kinds, every other one stands for itself.
pub open spec fn failure_of(status: u16) -> RegistryFailure {
    if status == 400 {
        RegistryFailure::Kind(ErrorKind::InvalidIdentifier)
    } else if status == 401 {
        RegistryFailure::Kind(ErrorKind::RegistryAuth)
    } else if status == 404 {
        RegistryFailure::Kind(ErrorKind::PeerNotFound)
    } else if status == 409 {
        RegistryFailure::Kind(ErrorKind::RegistryConflict)
    } else {
        RegistryFailure::Status(status)
    }
}

/// Reads a status other than success.
pub fn failure_from_status(status: u16) -> (failure: RegistryFailure)
    ensures
        failure == failure_of(status),
{
    if status == 400 {
        RegistryFailure::Kind(ErrorKind::InvalidIdentifier)
    } else if status == 401 {
        RegistryFailure::Kind(ErrorKind::RegistryAuth)
    } else if status == 404 {
        RegistryFailure::Kind(ErrorKind::PeerNotFound)
    } else if status == 409 {
        RegistryFailure::Kind(ErrorKind::RegistryConflict)
    } else {
        RegistryFailure::Status(status)
    }
}

/// The address of a request: the registry's URL and the path behind it.
pub fn request_url(server_url: &str, path: &str) -> (url: String)
    ensures
        url@ == server_url@ + path@,
{
    let mut url = server_url.to_owned();
    url.append(path);
    url
}

/// The body of `/register` for `id` at the local address. An identifier
/// that is not valid is refused before anything is sent.
pub fn register_request(id: &str, local: &Ipv6Address) -> (out: Result<RegisterRequest, IdError>)
    ensures
        match id_fault(id@) {
            Some(e) => out matches Err(f) && f == e,
            None => out matches Ok(req) && req.id@ == id@ && req.address@ == local.spec_text(),
        },
{
    match validate_id(id) {
        Err(e) => Err(e),
        Ok(()) => Ok(RegisterRequest { id: id.to_owned(), address: local.to_text() }),
    }
}

/// Reads the reply to `/register`: the nonce where the status is a success
/// and the body holds one. A success without a nonce counts as a registry
/// that cannot be used.
pub fn nonce_from_reply(status: u16, nonce: Option<String>) -> (out: Result<String, RegistryFailure>)
    ensures
        match out {
            Ok(text) => {
                &&& is_success(status)
                &&& nonce matches Some(n) && n@ == text@
            },
            Err(failure) => failure == if !is_success(status) {
                failure_of(status)
            } else {
                RegistryFailure::Kind(ErrorKind::RegistryUnreachable)
            } && (!is_success(status) || nonce is None),
        },
{
    if status < 200 || status > 299 {
        return Err(failure_from_status(status));
    }
    match nonce {
        Some(text) => Ok(text),
        None => Err(RegistryFailure::Kind(ErrorKind::RegistryUnreachable)),
    }
}

/// Reads the reply to `/update`: the peer's address where the status is a
/// success and the body holds one that reads as an IPv6 address. A success
/// without such an address counts as a registry that cannot be used.
pub fn peer_from_reply(status: u16, peer_address: Option<String>) -> (out: Result<
    Ipv6Address,
    RegistryFailure,
>)
    ensures
        match out {
            Ok(address) => {
                &&& is_success(status)
                &&& peer_address matches Some(text) && ipv6_from_text(encode_utf8(text@)) == Some(
                    address@,
                )
            },
            Err(failure) => {
                &&& failure == if !is_success(status) {
                    failure_of(status)
                } else {
                    RegistryFailure::Kind(ErrorKind::RegistryUnreachable)
                }
                &&& is_success(status) ==> (peer_address matches Some(text) ==> ipv6_from_text(
                    encode_utf8(text@),
                ) is None)
            },
        },
{
    if status < 200 || status > 299 {
        return Err(failure_from_status(status));
    }
    match peer_address {
        Some(text) => match Ipv6Address::parse(text.as_str()) {
            Some(address) => Ok(address),
            None => Err(RegistryFailure::Kind(ErrorKind::RegistryUnreachable)),
        },
        None => Err(RegistryFailure::Kind(ErrorKind::RegistryUnreachable)),
    }
}

} // verus!
