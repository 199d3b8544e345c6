//! Unsigned integers of 128, 256 and 512 bits. This crate stores and
//! transports them; it does no arithmetic on them.
use crate::bytesrepr::parse_fixed;
use crate::bytesrepr::DecodeError;
use crate::bytesrepr::EncodeError;
use crate::bytesrepr::FromBytes;
use crate::bytesrepr::ToBytes;
use crate::bytesrepr::U128_SIZE;
use crate::bytesrepr::U256_SIZE;
use crate::bytesrepr::U512_SIZE;
use vstd::prelude::*;

verus! {

/// A 128-bit unsigned integer, as its 16 bytes, least significant first.
#[derive(PartialEq, Eq, Clone, Copy, Debug, Hash)]
pub struct U128(pub [u8; 16]);

/// A 256-bit unsigned integer, as its 32 bytes, least significant first.
#[derive(PartialEq, Eq, Clone, Copy, Debug, Hash)]
pub struct U256(pub [u8; 32]);

/// A 512-bit unsigned integer, as its 64 bytes, least significant first.
#[derive(PartialEq, Eq, Clone, Copy, Debug, Hash)]
pub struct U512(pub [u8; 64]);

impl View for U128 {
    type V = Seq<u8>;

    open spec fn view(&self) -> Seq<u8> {
        self.0@
    }
}

impl DeepView for U128 {
    type V = Seq<u8>;

    open spec fn deep_view(&self) -> Seq<u8> {
        self@
    }
}

impl ToBytes for U128 {
    open spec fn encodable(value: Seq<u8>) -> bool {
        true
    }

    /// The 16 bytes as they stand.
    open spec fn encoding(value: Seq<u8>) -> Seq<u8> {
        value
    }

    fn to_bytes(&self) -> (r: Result<Vec<u8>, EncodeError>) {
        let out = vstd::slice::slice_to_vec(self.0.as_slice());
        Ok(out)
    }
}

impl FromBytes for U128 {
    open spec fn parse(bytes: Seq<u8>) -> Result<(Seq<u8>, Seq<u8>), DecodeError> {
        parse_fixed(bytes, U128_SIZE as nat)
    }

    fn from_bytes(bytes: &[u8]) -> (r: Result<(U128, &[u8]), DecodeError>) {
        match <[u8; 16]>::from_bytes(bytes) {
            Err(e) => Err(e),
            Ok((array, rest)) => {
                assert(array@ =~= array.deep_view());
                Ok((U128(array), rest))
            },
        }
    }
}

impl View for U256 {
    type V = Seq<u8>;

    open spec fn view(&self) -> Seq<u8> {
        self.0@
    }
}

impl DeepView for U256 {
    type V = Seq<u8>;

    open spec fn deep_view(&self) -> Seq<u8> {
        self@
    }
}

impl ToBytes for U256 {
    open spec fn encodable(value: Seq<u8>) -> bool {
        true
    }

    /// The 32 bytes as they stand.
    open spec fn encoding(value: Seq<u8>) -> Seq<u8> {
        value
    }

    fn to_bytes(&self) -> (r: Result<Vec<u8>, EncodeError>) {
        let out = vstd::slice::slice_to_vec(self.0.as_slice());
        Ok(out)
    }
}

impl FromBytes for U256 {
    open spec fn parse(bytes: Seq<u8>) -> Result<(Seq<u8>, Seq<u8>), DecodeError> {
        parse_fixed(bytes, U256_SIZE as nat)
    }

    fn from_bytes(bytes: &[u8]) -> (r: Result<(U256, &[u8]), DecodeError>) {
        match <[u8; 32]>::from_bytes(bytes) {
            Err(e) => Err(e),
            Ok((array, rest)) => {
                assert(array@ =~= array.deep_view());
                Ok((U256(array), rest))
            },
        }
    }
}

impl View for U512 {
    type V = Seq<u8>;

    open spec fn view(&self) -> Seq<u8> {
        self.0@
    }
}

impl DeepView for U512 {
    type V = Seq<u8>;

    open spec fn deep_view(&self) -> Seq<u8> {
        self@
    }
}

impl ToBytes for U512 {
    open spec fn encodable(value: Seq<u8>) -> bool {
        true
    }

    /// The 64 bytes as they stand.
    open spec fn encoding(value: Seq<u8>) -> Seq<u8> {
        value
    }

    fn to_bytes(&self) -> (r: Result<Vec<u8>, EncodeError>) {
        let out = vstd::slice::slice_to_vec(self.0.as_slice());
        Ok(out)
    }
}

impl FromBytes for U512 {
    open spec fn parse(bytes: Seq<u8>) -> Result<(Seq<u8>, Seq<u8>), DecodeError> {
        parse_fixed(bytes, U512_SIZE as nat)
    }

    fn from_bytes(bytes: &[u8]) -> (r: Result<(U512, &[u8]), DecodeError>) {
        match <[u8; 64]>::from_bytes(bytes) {
            Err(e) => Err(e),
            Ok((array, rest)) => {
                assert(array@ =~= array.deep_view());
                Ok((U512(array), rest))
            },
        }
    }
}

} // verus!
