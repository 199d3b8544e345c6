//! What can be stored under a key.
pub mod account;
pub mod contract;
pub mod conversions;
pub mod laws;
pub mod uint;

use crate::bytesrepr::check_length;
use crate::bytesrepr::encode_bytes;
use crate::bytesrepr::encode_string;
use crate::bytesrepr::i32_le_bytes;
use crate::bytesrepr::length_fits;
use crate::bytesrepr::parse_bytes;
use crate::bytesrepr::parse_fixed;
use crate::bytesrepr::parse_i32;
use crate::bytesrepr::parse_string;
use crate::bytesrepr::parse_u8;
use crate::bytesrepr::read_bytes;
use crate::bytesrepr::write_bytes;
use crate::bytesrepr::write_i32;
use crate::bytesrepr::DecodeError;
use crate::bytesrepr::EncodeError;
use crate::bytesrepr::FromBytes;
use crate::bytesrepr::ToBytes;
use crate::bytesrepr::I32_SIZE;
use crate::bytesrepr::LENGTH_MAX;
use crate::bytesrepr::U128_SIZE;
use crate::bytesrepr::U256_SIZE;
use crate::bytesrepr::U32_SIZE;
use crate::bytesrepr::U512_SIZE;
use crate::bytesrepr::U8_SIZE;
use crate::key::encode_key;
use crate::key::parse_key;
use crate::key::Key;
use crate::key::KeyView;
use crate::key::UREF_SIZE;
use crate::value::account::Account;
use crate::value::contract::Contract;
use crate::value::uint::U128;
use crate::value::uint::U256;
use crate::value::uint::U512;
use vstd::prelude::*;
use vstd::utf8::encode_utf8;

verus! {

/// A value of the global state.
#[derive(PartialEq, Eq, Clone, Debug)]
pub enum Value {
    Int32(i32),
    UInt128(U128),
    UInt256(U256),
    UInt512(U512),
    ByteArray(Vec<u8>),
    ListInt32(Vec<i32>),
    String(String),
    ListString(Vec<String>),
    /// A key under a name.
    NamedKey(String, Key),
    Account(Account),
    Contract(Contract),
}

/// What a value stands for: byte arrays, lists and strings as sequences, the
/// large integers and the records as their bytes.
pub enum ValueView {
    Int32(i32),
    UInt128(Seq<u8>),
    UInt256(Seq<u8>),
    UInt512(Seq<u8>),
    ByteArray(Seq<u8>),
    ListInt32(Seq<i32>),
    String(Seq<char>),
    ListString(Seq<Seq<char>>),
    NamedKey(Seq<char>, KeyView),
    Account(Seq<u8>),
    Contract(Seq<u8>),
}

/// The tag of a 32-bit integer.
pub const INT32_ID: u8 = 0;

/// The tag of a byte array.
pub const BYTEARRAY_ID: u8 = 1;

/// The tag of a list of 32-bit integers.
pub const LISTINT32_ID: u8 = 2;

/// The tag of a string.
pub const STRING_ID: u8 = 3;

/// The tag of an account record.
pub const ACCT_ID: u8 = 4;

/// The tag of a contract record.
pub const CONTRACT_ID: u8 = 5;

/// The tag of a named key.
pub const NAMEDKEY_ID: u8 = 6;

/// The tag of a list of strings.
pub const LISTSTRING_ID: u8 = 7;

/// The tag of a 128-bit integer.
pub const U128_ID: u8 = 8;

/// The tag of a 256-bit integer.
pub const U256_ID: u8 = 9;

/// The tag of a 512-bit integer.
pub const U512_ID: u8 = 10;

impl ValueView {
    /// The integers have the width of their kind, and the key of a named key
    /// is well formed.
    pub open spec fn wf(self) -> bool {
        match self {
            ValueView::UInt128(u) => u.len() == U128_SIZE,
            ValueView::UInt256(u) => u.len() == U256_SIZE,
            ValueView::UInt512(u) => u.len() == U512_SIZE,
            ValueView::NamedKey(_, key) => key.wf(),
            _ => true,
        }
    }

    /// The tag of the value's kind.
    pub open spec fn tag(self) -> u8 {
        match self {
            ValueView::Int32(_) => INT32_ID,
            ValueView::UInt128(_) => U128_ID,
            ValueView::UInt256(_) => U256_ID,
            ValueView::UInt512(_) => U512_ID,
            ValueView::ByteArray(_) => BYTEARRAY_ID,
            ValueView::ListInt32(_) => LISTINT32_ID,
            ValueView::String(_) => STRING_ID,
            ValueView::ListString(_) => LISTSTRING_ID,
            ValueView::NamedKey(_, _) => NAMEDKEY_ID,
            ValueView::Account(_) => ACCT_ID,
            ValueView::Contract(_) => CONTRACT_ID,
        }
    }

    /// The name of the value's kind.
    pub open spec fn kind_name(self) -> Seq<char> {
        match self {
            ValueView::Int32(_) => "Int32"@,
            ValueView::UInt128(_) => "UInt128"@,
            ValueView::UInt256(_) => "UInt256"@,
            ValueView::UInt512(_) => "UInt512"@,
            ValueView::ByteArray(_) => "ByteArray"@,
            ValueView::ListInt32(_) => "List[Int32]"@,
            ValueView::String(_) => "String"@,
            ValueView::ListString(_) => "List[String]"@,
            ValueView::NamedKey(_, _) => "NamedKey"@,
            ValueView::Account(_) => "Account"@,
            ValueView::Contract(_) => "Contract"@,
        }
    }
}

impl View for Value {
    type V = ValueView;

    open spec fn view(&self) -> ValueView {
        match self {
            Value::Int32(i) => ValueView::Int32(*i),
            Value::UInt128(u) => ValueView::UInt128(u@),
            Value::UInt256(u) => ValueView::UInt256(u@),
            Value::UInt512(u) => ValueView::UInt512(u@),
            Value::ByteArray(bytes) => ValueView::ByteArray(bytes@),
            Value::ListInt32(list) => ValueView::ListInt32(list@),
            Value::String(text) => ValueView::String(text@),
            Value::ListString(list) => ValueView::ListString(list.deep_view()),
            Value::NamedKey(name, key) => ValueView::NamedKey(name@, key@),
            Value::Account(account) => ValueView::Account(account@),
            Value::Contract(contract) => ValueView::Contract(contract@),
        }
    }
}

impl DeepView for Value {
    type V = ValueView;

    open spec fn deep_view(&self) -> ValueView {
        self@
    }
}

/// Whether `value` is small enough to be encoded. The limits leave room,
/// below the largest length that four bytes can hold, for the tag and the
/// length field.
pub open spec fn value_encodable(value: ValueView) -> bool {
    match value {
        ValueView::Int32(_) => true,
        ValueView::UInt128(_) => true,
        ValueView::UInt256(_) => true,
        ValueView::UInt512(_) => true,
        ValueView::ByteArray(bytes) => length_fits(bytes.len(), (U8_SIZE + U32_SIZE) as nat),
        ValueView::ListInt32(list) => length_fits(
            list.len() * I32_SIZE as nat,
            (U8_SIZE + U32_SIZE) as nat,
        ),
        ValueView::String(text) => length_fits(
            encode_utf8(text).len(),
            (U8_SIZE + U32_SIZE) as nat,
        ),
        ValueView::Account(account) => Account::encodable(account) && length_fits(
            Account::encoding(account).len(),
            U8_SIZE as nat,
        ),
        ValueView::Contract(contract) => Contract::encodable(contract),
        ValueView::NamedKey(name, _) => length_fits(
            encode_utf8(name).len() + UREF_SIZE as nat,
            (U8_SIZE + U32_SIZE) as nat,
        ),
        ValueView::ListString(list) => Vec::<String>::encodable(list) && length_fits(
            Vec::<String>::encoding(list).len(),
            U8_SIZE as nat,
        ),
    }
}

/// What follows the tag in the encoding of `value`: an integer in its fixed
/// width; bytes or a string behind the length; a list behind the number of
/// its elements; a record as its own encoding; a named key as the name and
/// then the key.
pub open spec fn encode_value_body(value: ValueView) -> Seq<u8> {
    match value {
        ValueView::Int32(i) => i32_le_bytes(i),
        ValueView::UInt128(u) => u,
        ValueView::UInt256(u) => u,
        ValueView::UInt512(u) => u,
        ValueView::ByteArray(bytes) => encode_bytes(bytes),
        ValueView::ListInt32(list) => Vec::<i32>::encoding(list),
        ValueView::String(text) => encode_string(text),
        ValueView::Account(account) => Account::encoding(account),
        ValueView::Contract(contract) => Contract::encoding(contract),
        ValueView::NamedKey(name, key) => encode_string(name) + encode_key(key),
        ValueView::ListString(list) => Vec::<String>::encoding(list),
    }
}

/// The tag of the value's kind, and then what the value holds.
pub open spec fn encode_value(value: ValueView) -> Seq<u8> {
    seq![value.tag()] + encode_value_body(value)
}

/// The value that follows the tag `tag`, read from `bytes`. An unknown tag
/// is a formatting error.
pub open spec fn parse_value_body(tag: u8, bytes: Seq<u8>) -> Result<
    (ValueView, Seq<u8>),
    DecodeError,
> {
    if tag == INT32_ID {
        match parse_i32(bytes) {
            Ok((i, rest)) => Ok((ValueView::Int32(i), rest)),
            Err(e) => Err(e),
        }
    } else if tag == U128_ID {
        match parse_fixed(bytes, U128_SIZE as nat) {
            Ok((u, rest)) => Ok((ValueView::UInt128(u), rest)),
            Err(e) => Err(e),
        }
    } else if tag == U256_ID {
        match parse_fixed(bytes, U256_SIZE as nat) {
            Ok((u, rest)) => Ok((ValueView::UInt256(u), rest)),
            Err(e) => Err(e),
        }
    } else if tag == U512_ID {
        match parse_fixed(bytes, U512_SIZE as nat) {
            Ok((u, rest)) => Ok((ValueView::UInt512(u), rest)),
            Err(e) => Err(e),
        }
    } else if tag == BYTEARRAY_ID {
        match parse_bytes(bytes) {
            Ok((content, rest)) => Ok((ValueView::ByteArray(content), rest)),
            Err(e) => Err(e),
        }
    } else if tag == LISTINT32_ID {
        match Vec::<i32>::parse(bytes) {
            Ok((list, rest)) => Ok((ValueView::ListInt32(list), rest)),
            Err(e) => Err(e),
        }
    } else if tag == STRING_ID {
        match parse_string(bytes) {
            Ok((text, rest)) => Ok((ValueView::String(text), rest)),
            Err(e) => Err(e),
        }
    } else if tag == ACCT_ID {
        match Account::parse(bytes) {
            Ok((account, rest)) => Ok((ValueView::Account(account), rest)),
            Err(e) => Err(e),
        }
    } else if tag == CONTRACT_ID {
        match Contract::parse(bytes) {
            Ok((contract, rest)) => Ok((ValueView::Contract(contract), rest)),
            Err(e) => Err(e),
        }
    } else if tag == NAMEDKEY_ID {
        match parse_string(bytes) {
            Ok((name, rest)) => match parse_key(rest) {
                Ok((key, rest)) => Ok((ValueView::NamedKey(name, key), rest)),
                Err(e) => Err(e),
            },
            Err(e) => Err(e),
        }
    } else if tag == LISTSTRING_ID {
        match Vec::<String>::parse(bytes) {
            Ok((list, rest)) => Ok((ValueView::ListString(list), rest)),
            Err(e) => Err(e),
        }
    } else {
        Err(DecodeError::Formatting)
    }
}

/// The value at the front of `bytes`: a tag, and what the tag announces.
pub open spec fn parse_value(bytes: Seq<u8>) -> Result<(ValueView, Seq<u8>), DecodeError> {
    match parse_u8(bytes) {
        Err(e) => Err(e),
        Ok((tag, rest)) => parse_value_body(tag, rest),
    }
}

/// Appends an encoding to the tag that `result` holds.
fn append_body(result: &mut Vec<u8>, body: Vec<u8>)
    ensures
        final(result)@ == old(result)@ + body@,
{
    let mut body = body;
    result.append(&mut body);
}

impl ToBytes for Value {
    open spec fn encodable(value: ValueView) -> bool {
        value_encodable(value)
    }

    open spec fn encoding(value: ValueView) -> Seq<u8> {
        encode_value(value)
    }

    fn to_bytes(&self) -> (r: Result<Vec<u8>, EncodeError>) {
        match self {
            Value::Int32(i) => {
                let mut result: Vec<u8> = Vec::with_capacity(U8_SIZE + U32_SIZE);
                result.push(INT32_ID);
                write_i32(&mut result, *i);
                assert(result@ =~= encode_value(self@));
                Ok(result)
            },
            Value::UInt128(u) => {
                let mut result: Vec<u8> = Vec::with_capacity(U8_SIZE + U128_SIZE);
                result.push(U128_ID);
                match u.to_bytes() {
                    Err(e) => Err(e),
                    Ok(body) => {
                        append_body(&mut result, body);
                        assert(result@ =~= encode_value(self@));
                        Ok(result)
                    },
                }
            },
            Value::UInt256(u) => {
                let mut result: Vec<u8> = Vec::with_capacity(U8_SIZE + U256_SIZE);
                result.push(U256_ID);
                match u.to_bytes() {
                    Err(e) => Err(e),
                    Ok(body) => {
                        append_body(&mut result, body);
                        assert(result@ =~= encode_value(self@));
                        Ok(result)
                    },
                }
            },
            Value::UInt512(u) => {
                let mut result: Vec<u8> = Vec::with_capacity(U8_SIZE + U512_SIZE);
                result.push(U512_ID);
                match u.to_bytes() {
                    Err(e) => Err(e),
                    Ok(body) => {
                        append_body(&mut result, body);
                        assert(result@ =~= encode_value(self@));
                        Ok(result)
                    },
                }
            },
            Value::ByteArray(arr) => {
                if check_length(arr.len(), U8_SIZE + U32_SIZE).is_err() {
                    return Err(EncodeError::OutOfMemory);
                }
                let mut result: Vec<u8> = Vec::with_capacity(U8_SIZE + U32_SIZE + arr.len());
                result.push(BYTEARRAY_ID);
                write_bytes(&mut result, arr.as_slice());
                assert(result@ =~= encode_value(self@));
                Ok(result)
            },
            Value::ListInt32(arr) => {
                let size: u128 = (arr.len() as u128) * (I32_SIZE as u128);
                if size >= (LENGTH_MAX - U8_SIZE - U32_SIZE) as u128 {
                    return Err(EncodeError::OutOfMemory);
                }
                let mut result: Vec<u8> = Vec::with_capacity(
                    U8_SIZE + U32_SIZE + I32_SIZE * arr.len(),
                );
                result.push(LISTINT32_ID);
                assert(arr.deep_view() =~= arr@);
                match arr.to_bytes() {
                    Err(e) => Err(e),
                    Ok(body) => {
                        append_body(&mut result, body);
                        assert(result@ =~= encode_value(self@));
                        Ok(result)
                    },
                }
            },
            Value::String(s) => {
                if check_length(s.as_str().len(), U8_SIZE + U32_SIZE).is_err() {
                    return Err(EncodeError::OutOfMemory);
                }
                let size: usize = U8_SIZE + U32_SIZE + s.as_str().len();
                let mut result: Vec<u8> = Vec::with_capacity(size);
                result.push(STRING_ID);
                match s.to_bytes() {
                    Err(e) => Err(e),
                    Ok(body) => {
                        append_body(&mut result, body);
                        assert(result@ =~= encode_value(self@));
                        Ok(result)
                    },
                }
            },
            Value::Account(a) => {
                let mut result: Vec<u8> = Vec::new();
                result.push(ACCT_ID);
                let bytes = match a.to_bytes() {
                    Err(e) => {
                        return Err(e);
                    },
                    Ok(bytes) => bytes,
                };
                if check_length(bytes.len(), result.len()).is_err() {
                    return Err(EncodeError::OutOfMemory);
                }
                append_body(&mut result, bytes);
                assert(result@ =~= encode_value(self@));
                Ok(result)
            },
            Value::Contract(c) => {
                let mut result: Vec<u8> = Vec::new();
                result.push(CONTRACT_ID);
                match c.to_bytes() {
                    Err(e) => Err(e),
                    Ok(body) => {
                        append_body(&mut result, body);
                        assert(result@ =~= encode_value(self@));
                        Ok(result)
                    },
                }
            },
            Value::NamedKey(n, k) => {
                if check_length(n.as_str().len(), UREF_SIZE + U32_SIZE + U8_SIZE).is_err() {
                    return Err(EncodeError::OutOfMemory);
                }
                let size: usize = U8_SIZE + U32_SIZE + n.as_str().len() + UREF_SIZE;
                let mut result: Vec<u8> = Vec::with_capacity(size);
                result.push(NAMEDKEY_ID);
                let name = match n.to_bytes() {
                    Err(e) => {
                        return Err(e);
                    },
                    Ok(bytes) => bytes,
                };
                append_body(&mut result, name);
                match k.to_bytes() {
                    Err(e) => Err(e),
                    Ok(body) => {
                        append_body(&mut result, body);
                        assert(result@ =~= encode_value(self@));
                        Ok(result)
                    },
                }
            },
            Value::ListString(arr) => {
                let mut result: Vec<u8> = Vec::new();
                result.push(LISTSTRING_ID);
                let bytes = match arr.to_bytes() {
                    Err(e) => {
                        return Err(e);
                    },
                    Ok(bytes) => bytes,
                };
                if check_length(bytes.len(), result.len()).is_err() {
                    return Err(EncodeError::OutOfMemory);
                }
                append_body(&mut result, bytes);
                assert(result@ =~= encode_value(self@));
                Ok(result)
            },
        }
    }
}

impl FromBytes for Value {
    open spec fn parse(bytes: Seq<u8>) -> Result<(ValueView, Seq<u8>), DecodeError> {
        parse_value(bytes)
    }

    fn from_bytes(bytes: &[u8]) -> (r: Result<(Value, &[u8]), DecodeError>) {
        let (id, rest) = match u8::from_bytes(bytes) {
            Err(e) => {
                return Err(e);
            },
            Ok(pair) => pair,
        };
        assert(parse_value(bytes@) == parse_value_body(id, rest@));
        match id {
            INT32_ID => match i32::from_bytes(rest) {
                Err(e) => Err(e),
                Ok((i, rem)) => Ok((Value::Int32(i), rem)),
            },
            U128_ID => match U128::from_bytes(rest) {
                Err(e) => Err(e),
                Ok((u, rem)) => Ok((Value::UInt128(u), rem)),
            },
            U256_ID => match U256::from_bytes(rest) {
                Err(e) => Err(e),
                Ok((u, rem)) => Ok((Value::UInt256(u), rem)),
            },
            U512_ID => match U512::from_bytes(rest) {
                Err(e) => Err(e),
                Ok((u, rem)) => Ok((Value::UInt512(u), rem)),
            },
            BYTEARRAY_ID => match read_bytes(rest) {
                Err(e) => Err(e),
                Ok((arr, rem)) => Ok((Value::ByteArray(arr), rem)),
            },
            LISTINT32_ID => match Vec::<i32>::from_bytes(rest) {
                Err(e) => Err(e),
                Ok((arr, rem)) => {
                    assert(arr@ =~= arr.deep_view());
                    Ok((Value::ListInt32(arr), rem))
                },
            },
            STRING_ID => match String::from_bytes(rest) {
                Err(e) => Err(e),
                Ok((s, rem)) => Ok((Value::String(s), rem)),
            },
            ACCT_ID => match Account::from_bytes(rest) {
                Err(e) => Err(e),
                Ok((a, rem)) => Ok((Value::Account(a), rem)),
            },
            CONTRACT_ID => match Contract::from_bytes(rest) {
                Err(e) => Err(e),
                Ok((c, rem)) => Ok((Value::Contract(c), rem)),
            },
            NAMEDKEY_ID => {
                let (name, rem1) = match String::from_bytes(rest) {
                    Err(e) => {
                        return Err(e);
                    },
                    Ok(pair) => pair,
                };
                match Key::from_bytes(rem1) {
                    Err(e) => Err(e),
                    Ok((key, rem2)) => Ok((Value::NamedKey(name, key), rem2)),
                }
            },
            LISTSTRING_ID => match Vec::<String>::from_bytes(rest) {
                Err(e) => Err(e),
                Ok((arr, rem)) => Ok((Value::ListString(arr), rem)),
            },
            _ => Err(DecodeError::Formatting),
        }
    }
}

impl Value {
    /// The name of the value's kind.
    pub fn type_string(&self) -> (r: String)
        ensures
            r@ == self@.kind_name(),
    {
        match self {
            Value::Int32(_) => "Int32".to_owned(),
            Value::UInt128(_) => "UInt128".to_owned(),
            Value::UInt256(_) => "UInt256".to_owned(),
            Value::UInt512(_) => "UInt512".to_owned(),
            Value::ListInt32(_) => "List[Int32]".to_owned(),
            Value::String(_) => "String".to_owned(),
            Value::ByteArray(_) => "ByteArray".to_owned(),
            Value::Account(_) => "Account".to_owned(),
            Value::Contract(_) => "Contract".to_owned(),
            Value::NamedKey(_, _) => "NamedKey".to_owned(),
            Value::ListString(_) => "List[String]".to_owned(),
        }
    }

    /// The account record that `self` holds.
    pub fn as_account(&self) -> (r: &Account)
        requires
            self is Account,
        ensures
            *self == Value::Account(*r),
    {
        match self {
            Value::Account(a) => a,
            _ => vstd::pervasive::unreached(),
        }
    }
}

} // verus!
