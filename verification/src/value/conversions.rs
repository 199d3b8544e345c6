//! Values from native types, and native types from values.
use crate::key::Key;
use crate::value::account::Account;
use crate::value::contract::Contract;
use crate::value::uint::U128;
use crate::value::uint::U256;
use crate::value::uint::U512;
use crate::value::Value;
use vstd::prelude::*;

verus! {

impl From<i32> for Value {
    fn from(x: i32) -> (r: Value) {
        Value::Int32(x)
    }
}

impl vstd::std_specs::convert::FromSpecImpl<i32> for Value {
    open spec fn obeys_from_spec() -> bool {
        true
    }

    open spec fn from_spec(x: i32) -> Value {
        Value::Int32(x)
    }
}

impl TryFrom<Value> for i32 {
    type Error = String;

    /// What `v` holds, where `v` is an integer; else the name of the kind of
    /// `v`.
    fn try_from(v: Value) -> (r: Result<i32, String>)
        ensures
            match r {
                Ok(x) => v == Value::Int32(x),
                Err(name) => !(v is Int32) && name@ == v@.kind_name(),
            },
    {
        if let Value::Int32(x) = v {
            Ok(x)
        } else {
            Err(v.type_string())
        }
    }
}

/// The contract stands at `try_from`: the error is a `String`, and no
/// specification can make one.
impl vstd::std_specs::convert::TryFromSpecImpl<Value> for i32 {
    open spec fn obeys_try_from_spec() -> bool {
        false
    }

    open spec fn try_from_spec(v: Value) -> Result<i32, String> {
        arbitrary()
    }
}

impl From<U128> for Value {
    fn from(x: U128) -> (r: Value) {
        Value::UInt128(x)
    }
}

impl vstd::std_specs::convert::FromSpecImpl<U128> for Value {
    open spec fn obeys_from_spec() -> bool {
        true
    }

    open spec fn from_spec(x: U128) -> Value {
        Value::UInt128(x)
    }
}

impl TryFrom<Value> for U128 {
    type Error = String;

    /// What `v` holds, where `v` is a 128-bit integer; else the name of the kind of
    /// `v`.
    fn try_from(v: Value) -> (r: Result<U128, String>)
        ensures
            match r {
                Ok(x) => v == Value::UInt128(x),
                Err(name) => !(v is UInt128) && name@ == v@.kind_name(),
            },
    {
        if let Value::UInt128(x) = v {
            Ok(x)
        } else {
            Err(v.type_string())
        }
    }
}

/// The contract stands at `try_from`: the error is a `String`, and no
/// specification can make one.
impl vstd::std_specs::convert::TryFromSpecImpl<Value> for U128 {
    open spec fn obeys_try_from_spec() -> bool {
        false
    }

    open spec fn try_from_spec(v: Value) -> Result<U128, String> {
        arbitrary()
    }
}

impl From<U256> for Value {
    fn from(x: U256) -> (r: Value) {
        Value::UInt256(x)
    }
}

impl vstd::std_specs::convert::FromSpecImpl<U256> for Value {
    open spec fn obeys_from_spec() -> bool {
        true
    }

    open spec fn from_spec(x: U256) -> Value {
        Value::UInt256(x)
    }
}

impl TryFrom<Value> for U256 {
    type Error = String;

    /// What `v` holds, where `v` is a 256-bit integer; else the name of the kind of
    /// `v`.
    fn try_from(v: Value) -> (r: Result<U256, String>)
        ensures
            match r {
                Ok(x) => v == Value::UInt256(x),
                Err(name) => !(v is UInt256) && name@ == v@.kind_name(),
            },
    {
        if let Value::UInt256(x) = v {
            Ok(x)
        } else {
            Err(v.type_string())
        }
    }
}

/// The contract stands at `try_from`: the error is a `String`, and no
/// specification can make one.
impl vstd::std_specs::convert::TryFromSpecImpl<Value> for U256 {
    open spec fn obeys_try_from_spec() -> bool {
        false
    }

    open spec fn try_from_spec(v: Value) -> Result<U256, String> {
        arbitrary()
    }
}

impl From<U512> for Value {
    fn from(x: U512) -> (r: Value) {
        Value::UInt512(x)
    }
}

impl vstd::std_specs::convert::FromSpecImpl<U512> for Value {
    open spec fn obeys_from_spec() -> bool {
        true
    }

    open spec fn from_spec(x: U512) -> Value {
        Value::UInt512(x)
    }
}

impl TryFrom<Value> for U512 {
    type Error = String;

    /// What `v` holds, where `v` is a 512-bit integer; else the name of the kind of
    /// `v`.
    fn try_from(v: Value) -> (r: Result<U512, String>)
        ensures
            match r {
                Ok(x) => v == Value::UInt512(x),
                Err(name) => !(v is UInt512) && name@ == v@.kind_name(),
            },
    {
        if let Value::UInt512(x) = v {
            Ok(x)
        } else {
            Err(v.type_string())
        }
    }
}

/// The contract stands at `try_from`: the error is a `String`, and no
/// specification can make one.
impl vstd::std_specs::convert::TryFromSpecImpl<Value> for U512 {
    open spec fn obeys_try_from_spec() -> bool {
        false
    }

    open spec fn try_from_spec(v: Value) -> Result<U512, String> {
        arbitrary()
    }
}

impl From<Vec<u8>> for Value {
    fn from(x: Vec<u8>) -> (r: Value) {
        Value::ByteArray(x)
    }
}

impl vstd::std_specs::convert::FromSpecImpl<Vec<u8>> for Value {
    open spec fn obeys_from_spec() -> bool {
        true
    }

    open spec fn from_spec(x: Vec<u8>) -> Value {
        Value::ByteArray(x)
    }
}

impl TryFrom<Value> for Vec<u8> {
    type Error = String;

    /// What `v` holds, where `v` is a byte array; else the name of the kind of
    /// `v`.
    fn try_from(v: Value) -> (r: Result<Vec<u8>, String>)
        ensures
            match r {
                Ok(x) => v == Value::ByteArray(x),
                Err(name) => !(v is ByteArray) && name@ == v@.kind_name(),
            },
    {
        if let Value::ByteArray(x) = v {
            Ok(x)
        } else {
            Err(v.type_string())
        }
    }
}

/// The contract stands at `try_from`: the error is a `String`, and no
/// specification can make one.
impl vstd::std_specs::convert::TryFromSpecImpl<Value> for Vec<u8> {
    open spec fn obeys_try_from_spec() -> bool {
        false
    }

    open spec fn try_from_spec(v: Value) -> Result<Vec<u8>, String> {
        arbitrary()
    }
}

impl From<Vec<i32>> for Value {
    fn from(x: Vec<i32>) -> (r: Value) {
        Value::ListInt32(x)
    }
}

impl vstd::std_specs::convert::FromSpecImpl<Vec<i32>> for Value {
    open spec fn obeys_from_spec() -> bool {
        true
    }

    open spec fn from_spec(x: Vec<i32>) -> Value {
        Value::ListInt32(x)
    }
}

impl TryFrom<Value> for Vec<i32> {
    type Error = String;

    /// What `v` holds, where `v` is a list of integers; else the name of the kind of
    /// `v`.
    fn try_from(v: Value) -> (r: Result<Vec<i32>, String>)
        ensures
            match r {
                Ok(x) => v == Value::ListInt32(x),
                Err(name) => !(v is ListInt32) && name@ == v@.kind_name(),
            },
    {
        if let Value::ListInt32(x) = v {
            Ok(x)
        } else {
            Err(v.type_string())
        }
    }
}

/// The contract stands at `try_from`: the error is a `String`, and no
/// specification can make one.
impl vstd::std_specs::convert::TryFromSpecImpl<Value> for Vec<i32> {
    open spec fn obeys_try_from_spec() -> bool {
        false
    }

    open spec fn try_from_spec(v: Value) -> Result<Vec<i32>, String> {
        arbitrary()
    }
}

impl From<Vec<String>> for Value {
    fn from(x: Vec<String>) -> (r: Value) {
        Value::ListString(x)
    }
}

impl vstd::std_specs::convert::FromSpecImpl<Vec<String>> for Value {
    open spec fn obeys_from_spec() -> bool {
        true
    }

    open spec fn from_spec(x: Vec<String>) -> Value {
        Value::ListString(x)
    }
}

impl TryFrom<Value> for Vec<String> {
    type Error = String;

    /// What `v` holds, where `v` is a list of strings; else the name of the kind of
    /// `v`.
    fn try_from(v: Value) -> (r: Result<Vec<String>, String>)
        ensures
            match r {
                Ok(x) => v == Value::ListString(x),
                Err(name) => !(v is ListString) && name@ == v@.kind_name(),
            },
    {
        if let Value::ListString(x) = v {
            Ok(x)
        } else {
            Err(v.type_string())
        }
    }
}

/// The contract stands at `try_from`: the error is a `String`, and no
/// specification can make one.
impl vstd::std_specs::convert::TryFromSpecImpl<Value> for Vec<String> {
    open spec fn obeys_try_from_spec() -> bool {
        false
    }

    open spec fn try_from_spec(v: Value) -> Result<Vec<String>, String> {
        arbitrary()
    }
}

impl From<String> for Value {
    fn from(x: String) -> (r: Value) {
        Value::String(x)
    }
}

impl vstd::std_specs::convert::FromSpecImpl<String> for Value {
    open spec fn obeys_from_spec() -> bool {
        true
    }

    open spec fn from_spec(x: String) -> Value {
        Value::String(x)
    }
}

impl TryFrom<Value> for String {
    type Error = String;

    /// What `v` holds, where `v` is a string; else the name of the kind of
    /// `v`.
    fn try_from(v: Value) -> (r: Result<String, String>)
        ensures
            match r {
                Ok(x) => v == Value::String(x),
                Err(name) => !(v is String) && name@ == v@.kind_name(),
            },
    {
        if let Value::String(x) = v {
            Ok(x)
        } else {
            Err(v.type_string())
        }
    }
}

/// The contract stands at `try_from`: the error is a `String`, and no
/// specification can make one.
impl vstd::std_specs::convert::TryFromSpecImpl<Value> for String {
    open spec fn obeys_try_from_spec() -> bool {
        false
    }

    open spec fn try_from_spec(v: Value) -> Result<String, String> {
        arbitrary()
    }
}

impl From<Account> for Value {
    fn from(x: Account) -> (r: Value) {
        Value::Account(x)
    }
}

impl vstd::std_specs::convert::FromSpecImpl<Account> for Value {
    open spec fn obeys_from_spec() -> bool {
        true
    }

    open spec fn from_spec(x: Account) -> Value {
        Value::Account(x)
    }
}

impl TryFrom<Value> for Account {
    type Error = String;

    /// What `v` holds, where `v` is an account record; else the name of the kind of
    /// `v`.
    fn try_from(v: Value) -> (r: Result<Account, String>)
        ensures
            match r {
                Ok(x) => v == Value::Account(x),
                Err(name) => !(v is Account) && name@ == v@.kind_name(),
            },
    {
        if let Value::Account(x) = v {
            Ok(x)
        } else {
            Err(v.type_string())
        }
    }
}

/// The contract stands at `try_from`: the error is a `String`, and no
/// specification can make one.
impl vstd::std_specs::convert::TryFromSpecImpl<Value> for Account {
    open spec fn obeys_try_from_spec() -> bool {
        false
    }

    open spec fn try_from_spec(v: Value) -> Result<Account, String> {
        arbitrary()
    }
}

impl From<Contract> for Value {
    fn from(x: Contract) -> (r: Value) {
        Value::Contract(x)
    }
}

impl vstd::std_specs::convert::FromSpecImpl<Contract> for Value {
    open spec fn obeys_from_spec() -> bool {
        true
    }

    open spec fn from_spec(x: Contract) -> Value {
        Value::Contract(x)
    }
}

impl TryFrom<Value> for Contract {
    type Error = String;

    /// What `v` holds, where `v` is a contract record; else the name of the kind of
    /// `v`.
    fn try_from(v: Value) -> (r: Result<Contract, String>)
        ensures
            match r {
                Ok(x) => v == Value::Contract(x),
                Err(name) => !(v is Contract) && name@ == v@.kind_name(),
            },
    {
        if let Value::Contract(x) = v {
            Ok(x)
        } else {
            Err(v.type_string())
        }
    }
}

/// The contract stands at `try_from`: the error is a `String`, and no
/// specification can make one.
impl vstd::std_specs::convert::TryFromSpecImpl<Value> for Contract {
    open spec fn obeys_try_from_spec() -> bool {
        false
    }

    open spec fn try_from_spec(v: Value) -> Result<Contract, String> {
        arbitrary()
    }
}

impl From<(String, Key)> for Value {
    fn from(tuple: (String, Key)) -> (r: Value) {
        Value::NamedKey(tuple.0, tuple.1)
    }
}

impl vstd::std_specs::convert::FromSpecImpl<(String, Key)> for Value {
    open spec fn obeys_from_spec() -> bool {
        true
    }

    open spec fn from_spec(tuple: (String, Key)) -> Value {
        Value::NamedKey(tuple.0, tuple.1)
    }
}

impl TryFrom<Value> for (String, Key) {
    type Error = ();

    fn try_from(v: Value) -> (r: Result<(String, Key), ()>) {
        if let Value::NamedKey(name, key) = v {
            Ok((name, key))
        } else {
            Err(())
        }
    }
}

impl vstd::std_specs::convert::TryFromSpecImpl<Value> for (String, Key) {
    open spec fn obeys_try_from_spec() -> bool {
        true
    }

    open spec fn try_from_spec(v: Value) -> Result<(String, Key), ()> {
        match v {
            Value::NamedKey(name, key) => Ok((name, key)),
            _ => Err(()),
        }
    }
}

} // verus!
