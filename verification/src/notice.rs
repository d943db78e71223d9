//! The notice that tells the base layer of a victory.

use crate::address::Address;
use crate::digest::{keccak, keccak256};
use alloy::sol_types::SolValue;
use vstd::prelude::*;
use vstd::utf8::encode_utf8;

verus! {

/// The event `Victory(int32 id, address winner, address loser, string
/// message, string notation)`.
#[derive(Debug)]
pub struct Victory {
    pub id: i32,
    pub winner: Address,
    pub loser: Address,
    pub message: String,
    pub notation: String,
}

/// The five values of a `Victory` in the contract ABI encoding of a
/// sequence `(int32, address, address, string, string)`, as alloy writes it.
pub uninterp spec fn victory_data(
    id: int,
    winner: Seq<u8>,
    loser: Seq<u8>,
    message: Seq<char>,
    notation: Seq<char>,
) -> Seq<u8>;

/// The signature of the event, of which the notice carries the hash.
pub open spec fn victory_signature() -> Seq<char> {
    "Victory(int32,address,address,string,string)"@
}

/// The payload of the notice: the hash of the event's signature, then the
/// event's values.
pub open spec fn victory_payload(
    id: int,
    winner: Seq<u8>,
    loser: Seq<u8>,
    message: Seq<char>,
    notation: Seq<char>,
) -> Seq<u8> {
    keccak256(encode_utf8(victory_signature())) + victory_data(id, winner, loser, message, notation)
}

/// Encodes the values with alloy's `SolValue::abi_encode_sequence`, which
/// is what an event of these five fields, none of them indexed, has for its
/// data.
#[verifier::external_body]
fn encode_victory(id: i32, winner: &[u8; 20], loser: &[u8; 20], message: &str, notation: &str) -> (data:
    Vec<u8>)
    ensures
        data@ == victory_data(id as int, winner@, loser@, message@, notation@),
{
    let winner = alloy::primitives::Address::from(*winner);
    let loser = alloy::primitives::Address::from(*loser);
    (id, winner, loser, message.to_string(), notation.to_string()).abi_encode_sequence()
}

impl Victory {
    /// The payload of the notice for this event.
    pub fn payload(&self) -> (bytes: Vec<u8>)
        ensures
            bytes@ == victory_payload(
                self.id as int,
                self.winner@,
                self.loser@,
                self.message@,
                self.notation@,
            ),
    {
        let signature = "Victory(int32,address,address,string,string)";
        let topic = keccak(signature.as_bytes());
        let data = encode_victory(
            self.id,
            &self.winner.to_bytes(),
            &self.loser.to_bytes(),
            self.message.as_str(),
            self.notation.as_str(),
        );
        let mut bytes: Vec<u8> = Vec::new();
        bytes.extend_from_slice(topic.as_slice());
        bytes.extend_from_slice(data.as_slice());
        bytes
    }
}

} // verus!
