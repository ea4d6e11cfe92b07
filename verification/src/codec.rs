//! The encodable/decodable capability that record payloads provide.
//!
//! The record store is generic over any payload type with a stable binary
//! form.  The capability is a trait pair of one executable codec and one law:
//! every value's encoding parses back.  Two payload types are provided here, a
//! plain `u64` counter stored as its eight little-endian bytes, and a
//! [`Profile`] record stored as the UTF-8 bytes of its name.

use vstd::bytes::{spec_u64_from_le_bytes, spec_u64_to_le_bytes};
use vstd::prelude::*;
use vstd::utf8::{decode_utf8, encode_utf8, valid_utf8};

verus! {

/// A value with a stable binary serialization.
///
/// `encoding` is the mathematical byte form, `encode` and `decode` the
/// executable codec proved against it, and `lemma_encoding_decodable` the law
/// that makes saved values loadable: whatever `encode` wrote, `decode`
/// accepts and parses back to a value with the same encoding.
pub trait Encodable: Sized {
    /// The byte form this value serializes to.
    spec fn encoding(&self) -> Seq<u8>;

    /// Whether `bytes` is the encoding of some value of this type.
    spec fn decodable(bytes: Seq<u8>) -> bool;

    /// Serializes the value.
    fn encode(&self) -> (r: Vec<u8>)
        ensures
            r@ == self.encoding(),
    ;

    /// Parses a value back from bytes.  Succeeds exactly on decodable byte
    /// strings, and the parsed value's encoding is the input itself.
    fn decode(bytes: &[u8]) -> (r: Option<Self>)
        ensures
            r is Some <==> Self::decodable(bytes@),
            match r {
                Some(v) => v.encoding() == bytes@,
                None => true,
            },
    ;

    /// An equal copy of the value.
    fn duplicate(&self) -> (r: Self)
        ensures
            r == *self,
    ;

    /// Every value's encoding is decodable.
    proof fn lemma_encoding_decodable(&self)
        ensures
            Self::decodable(self.encoding()),
    ;
}

impl Encodable for u64 {
    open spec fn encoding(&self) -> Seq<u8> {
        spec_u64_to_le_bytes(*self)
    }

    open spec fn decodable(bytes: Seq<u8>) -> bool {
        bytes.len() == 8
    }

    fn encode(&self) -> (r: Vec<u8>) {
        vstd::bytes::u64_to_le_bytes(*self)
    }

    fn decode(bytes: &[u8]) -> (r: Option<Self>) {
        if bytes.len() == 8 {
            let x = vstd::bytes::u64_from_le_bytes(bytes);
            proof {
                vstd::bytes::lemma_auto_spec_u64_to_from_le_bytes();
                assert(spec_u64_to_le_bytes(spec_u64_from_le_bytes(bytes@)) == bytes@);
            }
            Some(x)
        } else {
            None
        }
    }

    fn duplicate(&self) -> (r: Self) {
        *self
    }

    proof fn lemma_encoding_decodable(&self) {
        vstd::bytes::lemma_auto_spec_u64_to_from_le_bytes();
    }
}

/// A named record payload: the kind of small user-keyed value the store was
/// built to keep.  Its binary form is the UTF-8 encoding of the name.
pub struct Profile {
    name: String,
}

impl View for Profile {
    type V = Seq<char>;

    closed spec fn view(&self) -> Seq<char> {
        self.name@
    }
}

impl Profile {
    /// A profile with the given name.
    pub fn new(name: String) -> (r: Self)
        ensures
            r@ == name@,
    {
        Profile { name }
    }

    /// The profile's name.
    pub fn name(&self) -> (r: &String)
        ensures
            r@ == self@,
    {
        &self.name
    }
}

/// Relies on std's `String::from_utf8`: it succeeds exactly on valid UTF-8
/// input and returns the string those bytes spell.
#[verifier::external_body]
fn utf8_to_string(bytes: &[u8]) -> (r: Option<String>)
    ensures
        r is Some <==> valid_utf8(bytes@),
        match r {
            Some(s) => s@ == decode_utf8(bytes@),
            None => true,
        },
{
    match std::string::String::from_utf8(bytes.to_vec()) {
        Ok(s) => Some(s),
        Err(_) => None,
    }
}

impl Encodable for Profile {
    open spec fn encoding(&self) -> Seq<u8> {
        encode_utf8(self@)
    }

    open spec fn decodable(bytes: Seq<u8>) -> bool {
        valid_utf8(bytes)
    }

    fn encode(&self) -> (r: Vec<u8>) {
        self.name.as_str().as_bytes_vec()
    }

    fn decode(bytes: &[u8]) -> (r: Option<Self>) {
        match utf8_to_string(bytes) {
            Some(name) => {
                proof {
                    broadcast use vstd::utf8::decode_utf8_encode_utf8;

                }
                Some(Profile { name })
            },
            None => None,
        }
    }

    fn duplicate(&self) -> (r: Self) {
        Profile { name: self.name.clone() }
    }

    proof fn lemma_encoding_decodable(&self) {
        broadcast use vstd::utf8::encode_utf8_valid_utf8;

    }
}

} // verus!
