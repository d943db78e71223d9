//! The 20-byte account identifier of players and message senders.

use crate::digest::same_bytes;
use crate::hexcode::hex_value;
use vstd::prelude::*;

verus! {

/// The bytes of the address that a text writes, as
/// `alloy::primitives::Address` parses it; nothing where it does not parse.
pub uninterp spec fn address_from_text(text: Seq<char>) -> Option<Seq<u8>>;

/// The text of an address as `alloy::primitives::Address` displays it: the
/// checksummed hexadecimal form.
pub uninterp spec fn address_text(bytes: Seq<u8>) -> Seq<char>;

/// Whether a text has the shape in which an address is displayed: `0x`
/// and forty hexadecimal digits.
pub open spec fn is_address_text(text: Seq<char>) -> bool {
    &&& text.len() == 42
    &&& text[0] == '0'
    &&& text[1] == 'x'
    &&& forall|i: int| 2 <= i < 42 ==> hex_value(#[trigger] text[i]) is Some
}

/// An account: a player of a game or the sender of a message. Two addresses
/// are the same where their bytes are.
#[derive(Clone, Copy, Debug)]
pub struct Address {
    bytes: [u8; 20],
}

impl View for Address {
    type V = Seq<u8>;

    open spec fn view(&self) -> Seq<u8> {
        self.bytes()
    }
}

/// Parses with `Address::from_str` of alloy, which reads 40 hexadecimal
/// digits, with or without `0x` in front.
#[verifier::external_body]
fn parse_address(text: &str) -> (bytes: Option<[u8; 20]>)
    ensures
        bytes matches Some(b) ==> address_from_text(text@) == Some(b@),
        bytes is None ==> address_from_text(text@) is None,
{
    text.parse::<alloy::primitives::Address>().ok().map(|a| a.0.0)
}

/// Writes with the `Display` of alloy's `Address`: `0x` and the 40 digits in
/// mixed case, which the second clause records. `Address::from_str` reads
/// that text back as the same 20 bytes, which the third clause records.
#[verifier::external_body]
fn display_address(bytes: &[u8; 20]) -> (text: String)
    ensures
        text@ == address_text(bytes@),
        is_address_text(text@),
        address_from_text(text@) == Some(bytes@),
{
    alloy::primitives::Address::from(*bytes).to_string()
}

impl Address {
    /// The 20 bytes of the address.
    pub closed spec fn bytes(&self) -> Seq<u8> {
        self.bytes@
    }

    /// An address has twenty bytes.
    pub proof fn lemma_len(&self)
        ensures
            self@.len() == 20,
    {
        broadcast use vstd::array::array_len_matches_n;
    }

    /// Addresses with the same bytes are the same address.
    pub proof fn lemma_same(self, other: Address)
        ensures
            (self@ == other@) == (self == other),
    {
        broadcast use vstd::array::axiom_array_ext_equal;

        if self@ == other@ {
            assert(self.bytes@ =~= other.bytes@);
            assert(self.bytes == other.bytes);
        }
    }

    /// The address with the given bytes.
    pub fn new(bytes: [u8; 20]) -> (address: Address)
        ensures
            address@ == bytes@,
    {
        Address { bytes }
    }

    /// The bytes of the address.
    pub fn to_bytes(&self) -> (bytes: [u8; 20])
        ensures
            bytes@ == self@,
    {
        self.bytes
    }

    /// Reads an address from its hexadecimal text.
    pub fn parse(text: &str) -> (address: Option<Address>)
        ensures
            address matches Some(a) ==> address_from_text(text@) == Some(a@),
            address is None ==> address_from_text(text@) is None,
    {
        match parse_address(text) {
            Some(bytes) => Some(Address { bytes }),
            None => None,
        }
    }

    /// The checksummed hexadecimal text of the address, which `parse` reads
    /// back as the same address.
    pub fn to_text(&self) -> (text: String)
        ensures
            text@ == address_text(self@),
            is_address_text(text@),
            address_from_text(text@) == Some(self@),
    {
        display_address(&self.bytes)
    }
}

impl PartialEq for Address {
    fn eq(&self, other: &Address) -> (same: bool) {
        same_bytes(self.bytes.as_slice(), other.bytes.as_slice())
    }
}

impl vstd::std_specs::cmp::PartialEqSpecImpl for Address {
    open spec fn obeys_eq_spec() -> bool {
        true
    }

    open spec fn eq_spec(&self, other: &Address) -> bool {
        self@ == other@
    }
}

impl Eq for Address {}

} // verus!
