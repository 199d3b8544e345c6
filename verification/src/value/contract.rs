//! Contract records.
use crate::bytesrepr::check_length;
use crate::bytesrepr::encode_bytes;
use crate::bytesrepr::length_fits;
use crate::bytesrepr::parse_bytes;
use crate::bytesrepr::read_bytes;
use crate::bytesrepr::write_bytes;
use crate::bytesrepr::DecodeError;
use crate::bytesrepr::EncodeError;
use crate::bytesrepr::FromBytes;
use crate::bytesrepr::ToBytes;
use crate::bytesrepr::U32_SIZE;
use vstd::prelude::*;

verus! {

/// The record of a contract. This crate stores and transports the record
/// and does not look into it: the record is held as the bytes that make
/// it up.
#[derive(PartialEq, Eq, Clone, Debug)]
pub struct Contract {
    record: Vec<u8>,
}

impl View for Contract {
    type V = Seq<u8>;

    closed spec fn view(&self) -> Seq<u8> {
        self.record@
    }
}

impl DeepView for Contract {
    type V = Seq<u8>;

    open spec fn deep_view(&self) -> Seq<u8> {
        self@
    }
}

impl Contract {
    /// The record that is made up of the bytes `record`.
    pub fn new(record: Vec<u8>) -> (r: Contract)
        ensures
            r@ == record@,
    {
        Contract { record }
    }

    /// The bytes that make up the record.
    pub fn record(&self) -> (r: &Vec<u8>)
        ensures
            r@ == self@,
    {
        &self.record
    }
}

impl ToBytes for Contract {
    /// The length of the record fits the length field.
    open spec fn encodable(value: Seq<u8>) -> bool {
        length_fits(value.len(), U32_SIZE as nat)
    }

    /// The record behind its length.
    open spec fn encoding(value: Seq<u8>) -> Seq<u8> {
        encode_bytes(value)
    }

    fn to_bytes(&self) -> (r: Result<Vec<u8>, EncodeError>) {
        if check_length(self.record.len(), U32_SIZE).is_err() {
            return Err(EncodeError::OutOfMemory);
        }
        let mut out: Vec<u8> = Vec::new();
        write_bytes(&mut out, self.record.as_slice());
        Ok(out)
    }
}

impl FromBytes for Contract {
    open spec fn parse(bytes: Seq<u8>) -> Result<(Seq<u8>, Seq<u8>), DecodeError> {
        parse_bytes(bytes)
    }

    fn from_bytes(bytes: &[u8]) -> (r: Result<(Contract, &[u8]), DecodeError>) {
        match read_bytes(bytes) {
            Err(e) => Err(e),
            Ok((record, rest)) => Ok((Contract { record }, rest)),
        }
    }
}

} // verus!
