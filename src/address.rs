//! Ledger addresses, and what the outside crates compute on them.

use vstd::prelude::*;

verus! {

/// A ledger account address: 32 bytes.
#[derive(Debug, Clone, Copy, PartialEq, Eq)]
pub struct Address {
    pub bytes: [u8; 32],
}

impl View for Address {
    type V = Seq<u8>;

    open spec fn view(&self) -> Seq<u8> {
        self.bytes@
    }
}

impl Address {
    /// Whether the two addresses hold the same bytes.
    pub fn same(&self, other: &Address) -> (r: bool)
        ensures
            r == (self@ == other@),
    {
        let mut i: usize = 0;
        while i < 32
            invariant
                i <= 32,
                forall|j: int| 0 <= j < i ==> self@[j] == other@[j],
            decreases 32 - i,
        {
            if self.bytes[i] != other.bytes[i] {
                return false;
            }
            i = i + 1;
        }
        assert(self@ =~= other@);
        true
    }
}

/// The bytes of an optional address.
pub open spec fn opt_view(a: Option<Address>) -> Option<Seq<u8>> {
    match a {
        Some(x) => Some(x@),
        None => None,
    }
}

/// The 32 bytes that the base58 text `s` encodes, if it encodes 32 bytes.
pub uninterp spec fn address_from_text(s: Seq<char>) -> Option<Seq<u8>>;

/// The public address of the key pair that the base58 text `s` encodes, if
/// `s` encodes a valid key pair.
pub uninterp spec fn identity_of_secret(s: Seq<char>) -> Option<Seq<u8>>;

/// The associated token holding of `owner` for the asset `mint` under the
/// token program `token_program`.
pub uninterp spec fn holding_of(owner: Seq<u8>, mint: Seq<u8>, token_program: Seq<u8>) -> Seq<u8>;

/// Relies on `Pubkey::from_str` of solana-sdk: it decodes base58 text into 32
/// bytes, or fails, depending on the text alone.
#[verifier::external_body]
pub(crate) fn parse_address(text: &str) -> (r: Option<Address>)
    ensures
        opt_view(r) == address_from_text(text@),
{
    match <solana_sdk::pubkey::Pubkey as std::str::FromStr>::from_str(text) {
        Ok(k) => Some(Address { bytes: k.to_bytes() }),
        Err(_) => None,
    }
}

/// Relies on `Keypair::try_from_base58_string` of solana-keypair and on the
/// key pair's `pubkey`: the public address follows from the secret text alone.
#[verifier::external_body]
pub(crate) fn identity_from_secret(secret: &str) -> (r: Option<Address>)
    ensures
        opt_view(r) == identity_of_secret(secret@),
{
    match solana_sdk::signer::keypair::Keypair::try_from_base58_string(secret) {
        Ok(k) => Some(Address { bytes: solana_sdk::signer::Signer::pubkey(&k).to_bytes() }),
        Err(_) => None,
    }
}

/// Relies on `get_associated_token_address_with_program_id` of
/// spl-associated-token-account: a program address derived from the three
/// addresses alone.
#[verifier::external_body]
#[allow(deprecated)]
pub(crate) fn associated_holding(owner: &Address, mint: &Address, token_program: &Address) -> (r:
    Address)
    ensures
        r@ == holding_of(owner@, mint@, token_program@),
{
    let k = spl_associated_token_account::get_associated_token_address_with_program_id(
        &owner.bytes.into(),
        &mint.bytes.into(),
        &token_program.bytes.into(),
    );
    Address { bytes: k.to_bytes() }
}

/// The address of the token program:
/// `TokenkegQfeZyiNwAJbNbGKPFXCWuBvf9Ss623VQ5DA`.
pub open spec fn token_program_bytes() -> Seq<u8> {
    seq![
        6u8, 221, 246, 225, 215, 101, 161, 147, 217, 203, 225, 70, 206, 235, 121, 172, 28, 180,
        133, 237, 95, 91, 55, 145, 58, 140, 245, 133, 126, 255, 0, 169,
    ]
}

/// The address of the associated token account program:
/// `ATokenGPvbdGVxr1b2hvZbsiqW5xWH25efTNsLJA8knL`.
pub open spec fn holding_program_bytes() -> Seq<u8> {
    seq![
        140u8, 151, 37, 143, 78, 36, 137, 241, 187, 61, 16, 41, 20, 142, 13, 131, 11, 90, 19, 153,
        218, 255, 16, 132, 4, 142, 123, 216, 219, 233, 248, 89,
    ]
}

/// The address of the system program: `11111111111111111111111111111111`,
/// 32 zero bytes.
pub open spec fn system_program_bytes() -> Seq<u8> {
    Seq::new(32, |i: int| 0u8)
}

/// The address of the rent sysvar:
/// `SysvarRent111111111111111111111111111111111`.
pub open spec fn rent_sysvar_bytes() -> Seq<u8> {
    seq![
        6u8, 167, 213, 23, 25, 44, 92, 81, 33, 140, 201, 76, 61, 74, 241, 127, 88, 218, 238, 8, 155,
        161, 253, 68, 227, 219, 217, 138, 0, 0, 0, 0,
    ]
}

/// The token crate accepts `a` as the address of its program
/// (`spl_token::check_program_account` succeeds on it).
pub open spec fn accepted_token_program(a: Seq<u8>) -> bool {
    a == token_program_bytes()
}

/// Relies on `spl_token::ID`, declared as
/// `TokenkegQfeZyiNwAJbNbGKPFXCWuBvf9Ss623VQ5DA`.
#[verifier::external_body]
pub(crate) fn token_program_address() -> (r: Address)
    ensures
        r@ == token_program_bytes(),
{
    Address { bytes: spl_token::ID.to_bytes() }
}

/// Relies on `solana_system_interface::program::id`, declared as
/// `11111111111111111111111111111111`.
#[verifier::external_body]
pub(crate) fn system_program_address() -> (r: Address)
    ensures
        r@ == system_program_bytes(),
{
    Address { bytes: solana_system_interface::program::id().to_bytes() }
}

/// Relies on `solana_sdk::sysvar::rent::id`, declared as
/// `SysvarRent111111111111111111111111111111111`.
#[verifier::external_body]
pub(crate) fn rent_sysvar_address() -> (r: Address)
    ensures
        r@ == rent_sysvar_bytes(),
{
    Address { bytes: solana_sdk::sysvar::rent::id().to_bytes() }
}

/// The value of the hexadecimal digit `c`, or -1 for any other character.
pub open spec fn hex_digit_value(c: char) -> int {
    let v = (c as u32) as int;
    if 48 <= v <= 57 {
        v - 48
    } else if 97 <= v <= 102 {
        v - 87
    } else if 65 <= v <= 70 {
        v - 55
    } else {
        -1
    }
}

/// The bytes written by the hexadecimal text `s`, two digits to a byte, high
/// digit first; none if `s` has an odd length or a character that is no digit.
pub open spec fn hex_decoding(s: Seq<char>) -> Option<Seq<u8>> {
    if s.len() % 2 == 0 && forall|i: int| 0 <= i < s.len() ==> hex_digit_value(#[trigger] s[i]) >= 0 {
        Some(
            Seq::new(
                (s.len() / 2) as nat,
                |i: int| (16 * hex_digit_value(s[2 * i]) + hex_digit_value(s[2 * i + 1])) as u8,
            ),
        )
    } else {
        None
    }
}

pub open spec fn opt_bytes(v: Option<Vec<u8>>) -> Option<Seq<u8>> {
    match v {
        Some(b) => Some(b@),
        None => None,
    }
}

/// Relies on `hex::decode`: two hexadecimal digits, either case, to a byte.
#[verifier::external_body]
pub(crate) fn decode_hex(text: &str) -> (r: Option<Vec<u8>>)
    ensures
        opt_bytes(r) == hex_decoding(text@),
{
    hex::decode(text).ok()
}

} // verus!
