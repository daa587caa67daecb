//! Checking that a configured secret belongs to the configured address.

use vstd::prelude::*;
use crate::address::{
    address_from_text, identity_from_secret, identity_of_secret, parse_address, Address,
};

verus! {

/// Why an identity could not be confirmed.
#[derive(Debug, Clone, Copy, PartialEq, Eq, Structural)]
pub enum IdentityError {
    /// The expected public address is no valid base58 address.
    InvalidAddress,
    /// The secret is no valid base58 key pair.
    InvalidSecret,
    /// The secret belongs to another address than the expected one.
    Mismatch,
}

/// The outcome of checking `secret` against the address written `expected`.
pub open spec fn identity_check(secret: Seq<char>, expected: Seq<char>) -> Result<
    Seq<u8>,
    IdentityError,
> {
    match address_from_text(expected) {
        None => Err(IdentityError::InvalidAddress),
        Some(a) => match identity_of_secret(secret) {
            None => Err(IdentityError::InvalidSecret),
            Some(d) => if d == a {
                Ok(a)
            } else {
                Err(IdentityError::Mismatch)
            },
        },
    }
}

pub open spec fn checked_view(r: Result<Address, IdentityError>) -> Result<Seq<u8>, IdentityError> {
    match r {
        Ok(a) => Ok(a@),
        Err(e) => Err(e),
    }
}

/// Derives the public address of `secret` and returns it when it equals the
/// address written `expected`; fails otherwise.
pub fn validate_identity(secret: &str, expected: &str) -> (r: Result<Address, IdentityError>)
    ensures
        checked_view(r) == identity_check(secret@, expected@),
{
    let want = match parse_address(expected) {
        Some(a) => a,
        None => {
            return Err(IdentityError::InvalidAddress);
        },
    };
    let derived = match identity_from_secret(secret) {
        Some(a) => a,
        None => {
            return Err(IdentityError::InvalidSecret);
        },
    };
    if derived.same(&want) {
        Ok(want)
    } else {
        Err(IdentityError::Mismatch)
    }
}

} // verus!
