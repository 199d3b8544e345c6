//! What holds of the encoding of values.
use crate::bytesrepr::encode_bytes;
use crate::bytesrepr::encode_string;
use crate::bytesrepr::i32_le_bytes;
use crate::bytesrepr::parse_string;
use crate::bytesrepr::parse_u8;
use crate::bytesrepr::DecodeError;
use crate::bytesrepr::FromBytes;
use crate::bytesrepr::ToBytes;
use crate::bytesrepr::LENGTH_MAX;
use crate::bytesrepr::U128_SIZE;
use crate::bytesrepr::U256_SIZE;
use crate::bytesrepr::U512_SIZE;
use crate::key::encode_key;
use crate::key::parse_key;
use crate::key::KeyView;
use crate::value::encode_value;
use crate::value::encode_value_body;
use crate::value::parse_value;
use crate::value::parse_value_body;
use crate::value::value_encodable;
use crate::value::Value;
use crate::value::ValueView;
use crate::value::ACCT_ID;
use crate::value::BYTEARRAY_ID;
use crate::value::CONTRACT_ID;
use crate::value::INT32_ID;
use crate::value::LISTINT32_ID;
use crate::value::LISTSTRING_ID;
use crate::value::NAMEDKEY_ID;
use crate::value::STRING_ID;
use crate::value::U128_ID;
use crate::value::U256_ID;
use crate::value::U512_ID;
use vstd::prelude::*;
use vstd::utf8::encode_utf8;

verus! {

/// The view of a value is well formed.
pub proof fn lemma_value_view_wf(value: Value)
    ensures
        value@.wf(),
{
}

/// The encoding of a value starts with the tag of its kind, so no value
/// has an empty encoding, and values of different kinds have different
/// encodings.
pub proof fn lemma_value_tag(value: ValueView)
    ensures
        encode_value(value).len() >= 1,
        encode_value(value)[0] == value.tag(),
        value.tag() <= 10,
{
}

/// Each kind of value has a tag of its own: two values with one tag are of
/// one kind.
pub proof fn lemma_value_tag_determines_kind(a: ValueView, b: ValueView)
    requires
        a.tag() == b.tag(),
    ensures
        a is Int32 <==> b is Int32,
        a is UInt128 <==> b is UInt128,
        a is UInt256 <==> b is UInt256,
        a is UInt512 <==> b is UInt512,
        a is ByteArray <==> b is ByteArray,
        a is ListInt32 <==> b is ListInt32,
        a is String <==> b is String,
        a is ListString <==> b is ListString,
        a is NamedKey <==> b is NamedKey,
        a is Account <==> b is Account,
        a is Contract <==> b is Contract,
{
}

/// Bytes that do not start with the tag of a kind of value are not read as
/// a value.
pub proof fn lemma_value_tag_rejected(bytes: Seq<u8>)
    requires
        bytes.len() > 0,
        bytes[0] > 10,
    ensures
        parse_value(bytes) == Err::<(ValueView, Seq<u8>), DecodeError>(DecodeError::Formatting),
{
}

/// A byte array, a string or a list of integers that takes `LENGTH_MAX - 5`
/// bytes or more is not encoded, and neither is a list of `LENGTH_MAX - 4`
/// strings or more.
pub proof fn lemma_value_too_large(value: ValueView)
    ensures
        value matches ValueView::ByteArray(bytes) && bytes.len() >= LENGTH_MAX - 5
            ==> !value_encodable(value),
        value matches ValueView::String(text) && encode_utf8(text).len() >= LENGTH_MAX - 5
            ==> !value_encodable(value),
        value matches ValueView::ListInt32(list) && list.len() * 4 >= LENGTH_MAX - 5
            ==> !value_encodable(value),
        value matches ValueView::ListString(list) && list.len() >= LENGTH_MAX - 4
            ==> !value_encodable(value),
{
}

/// The length of the encoding of a value that is encoded fits a 32-bit
/// length.
pub proof fn lemma_value_encoding_fits(value: ValueView)
    requires
        value.wf(),
        value_encodable(value),
    ensures
        encode_value(value).len() <= LENGTH_MAX,
{
    match value {
        ValueView::ListInt32(list) => {
            crate::bytesrepr::lemma_i32_list_length(list);
        },
        ValueView::NamedKey(_, key) => {
            crate::key::lemma_key_encoding_length(key);
        },
        _ => {},
    }
}

/// Decoding undoes encoding of a value, whatever follows the value. With
/// nothing behind the value, nothing is left over.
pub proof fn lemma_value_round_trip(value: ValueView, tail: Seq<u8>)
    requires
        value.wf(),
        value_encodable(value),
    ensures
        parse_value(encode_value(value) + tail) == Ok::<(ValueView, Seq<u8>), DecodeError>(
            (value, tail),
        ),
        parse_value(encode_value(value)) == Ok::<(ValueView, Seq<u8>), DecodeError>(
            (value, Seq::empty()),
        ),
{
    lemma_round_trip_before(value, tail);
    lemma_round_trip_before(value, Seq::empty());
    assert(encode_value(value) + Seq::<u8>::empty() =~= encode_value(value));
}

/// What is read as a value is a well-formed value and was written as that
/// value: the input is the encoding of the value and then the bytes that are
/// left. So a value has one encoding, and no other bytes are read as it.
pub proof fn lemma_value_canonical(bytes: Seq<u8>)
    ensures
        parse_value(bytes) matches Ok((value, rest)) ==> value.wf() && bytes == encode_value(value)
            + rest,
{
    match parse_u8(bytes) {
        Err(_) => {},
        Ok((tag, body)) => {
            lemma_body_canonical(tag, body);
            match parse_value_body(tag, body) {
                Ok((value, rest)) => {
                    lemma_behind_tag(bytes, tag, encode_value_body(value), rest);
                },
                Err(_) => {},
            }
        },
    }
}

/// Reading a value from a part of its encoding ends early.
pub proof fn lemma_value_truncated(value: ValueView, k: int)
    requires
        value.wf(),
        value_encodable(value),
        0 <= k < encode_value(value).len(),
    ensures
        parse_value(encode_value(value).take(k)) == Err::<(ValueView, Seq<u8>), DecodeError>(
            DecodeError::EarlyEnd,
        ),
{
    if k >= 1 {
        let body = encode_value_body(value);
        let part = (seq![value.tag()] + body).take(k);
        assert(part[0] == value.tag());
        assert(part.skip(1) =~= body.take(k - 1));
        lemma_body_truncated(value, k - 1);
    }
}

/// The encoding delimits itself: where the encoding of one value goes on
/// as the encoding of another does, the two are one value and nothing
/// follows. So two values with one encoding are the same value, and no
/// encoding starts another one.
pub proof fn lemma_value_self_delimiting(a: ValueView, b: ValueView, tail: Seq<u8>)
    requires
        a.wf(),
        b.wf(),
        value_encodable(a),
        value_encodable(b),
        encode_value(a) + tail == encode_value(b),
    ensures
        a == b,
        tail == Seq::<u8>::empty(),
{
    lemma_value_round_trip(a, tail);
    lemma_value_round_trip(b, Seq::empty());
}

/// A tag in front of `body` and `rest` is the tagged body in front of `rest`.
proof fn lemma_behind_tag(bytes: Seq<u8>, tag: u8, body: Seq<u8>, rest: Seq<u8>)
    requires
        bytes.len() >= 1,
        bytes[0] == tag,
        bytes.skip(1) == body + rest,
    ensures
        bytes == (seq![tag] + body) + rest,
        ((seq![tag] + body) + rest).skip(1) == body + rest,
        ((seq![tag] + body) + rest)[0] == tag,
{
    assert(bytes =~= seq![tag] + bytes.skip(1));
    assert(bytes =~= (seq![tag] + body) + rest);
    assert(((seq![tag] + body) + rest).skip(1) =~= body + rest);
}

proof fn lemma_round_trip_before(value: ValueView, tail: Seq<u8>)
    requires
        value.wf(),
        value_encodable(value),
    ensures
        parse_value(encode_value(value) + tail) == Ok::<(ValueView, Seq<u8>), DecodeError>(
            (value, tail),
        ),
{
    let body = encode_value_body(value);
    let bytes = (seq![value.tag()] + body) + tail;
    assert(bytes.skip(1) =~= body + tail);
    lemma_behind_tag(bytes, value.tag(), body, tail);
    lemma_body_round_trip(value, tail);
}

/// Reading what follows the tag gives back the value.
proof fn lemma_body_round_trip(value: ValueView, tail: Seq<u8>)
    requires
        value.wf(),
        value_encodable(value),
    ensures
        parse_value_body(value.tag(), encode_value_body(value) + tail) == Ok::<
            (ValueView, Seq<u8>),
            DecodeError,
        >((value, tail)),
{
    match value {
        ValueView::Int32(i) => lemma_int32_round_trip(i, tail),
        ValueView::UInt128(u) => lemma_uint128_round_trip(u, tail),
        ValueView::UInt256(u) => lemma_uint256_round_trip(u, tail),
        ValueView::UInt512(u) => lemma_uint512_round_trip(u, tail),
        ValueView::ByteArray(content) => lemma_byte_array_round_trip(content, tail),
        ValueView::ListInt32(list) => lemma_list_int32_round_trip(list, tail),
        ValueView::String(text) => lemma_string_round_trip(text, tail),
        ValueView::Account(account) => lemma_account_round_trip(account, tail),
        ValueView::Contract(contract) => lemma_contract_round_trip(contract, tail),
        ValueView::ListString(list) => lemma_list_string_round_trip(list, tail),
        ValueView::NamedKey(name, key) => lemma_named_key_round_trip(name, key, tail),
    }
}

/// What is read behind a tag was written behind that tag.
proof fn lemma_body_canonical(tag: u8, body: Seq<u8>)
    ensures
        parse_value_body(tag, body) matches Ok((value, rest)) ==> value.wf() && value.tag() == tag
            && body == encode_value_body(value) + rest,
{
    if tag == INT32_ID {
        lemma_int32_canonical(body);
    }     else if tag == U128_ID {
        lemma_uint128_canonical(body);
    }     else if tag == U256_ID {
        lemma_uint256_canonical(body);
    }     else if tag == U512_ID {
        lemma_uint512_canonical(body);
    }     else if tag == BYTEARRAY_ID {
        lemma_byte_array_canonical(body);
    }     else if tag == LISTINT32_ID {
        lemma_list_int32_canonical(body);
    }     else if tag == STRING_ID {
        lemma_string_canonical(body);
    }     else if tag == ACCT_ID {
        lemma_account_canonical(body);
    }     else if tag == CONTRACT_ID {
        lemma_contract_canonical(body);
    }     else if tag == LISTSTRING_ID {
        lemma_list_string_canonical(body);
    } else if tag == NAMEDKEY_ID {
        lemma_named_key_canonical(body);
    }
}

/// Reading what follows the tag from a part of it ends early.
proof fn lemma_body_truncated(value: ValueView, k: int)
    requires
        value.wf(),
        value_encodable(value),
        0 <= k < encode_value_body(value).len(),
    ensures
        parse_value_body(value.tag(), encode_value_body(value).take(k)) == Err::<
            (ValueView, Seq<u8>),
            DecodeError,
        >(DecodeError::EarlyEnd),
{
    match value {
        ValueView::Int32(i) => lemma_int32_truncated(i, k),
        ValueView::UInt128(u) => lemma_uint128_truncated(u, k),
        ValueView::UInt256(u) => lemma_uint256_truncated(u, k),
        ValueView::UInt512(u) => lemma_uint512_truncated(u, k),
        ValueView::ByteArray(content) => lemma_byte_array_truncated(content, k),
        ValueView::ListInt32(list) => lemma_list_int32_truncated(list, k),
        ValueView::String(text) => lemma_string_truncated(text, k),
        ValueView::Account(account) => lemma_account_truncated(account, k),
        ValueView::Contract(contract) => lemma_contract_truncated(contract, k),
        ValueView::ListString(list) => lemma_list_string_truncated(list, k),
        ValueView::NamedKey(name, key) => lemma_named_key_truncated(name, key, k),
    }
}

// The laws for one kind of value at a time, stated of what follows the tag.
proof fn lemma_int32_round_trip(i: i32, tail: Seq<u8>)
    ensures
        parse_value_body(INT32_ID, i32_le_bytes(i) + tail) == Ok::<(ValueView, Seq<u8>), DecodeError>(
            (ValueView::Int32(i), tail),
        ),
{
    crate::bytesrepr::lemma_i32_round_trip(i, tail);
}

proof fn lemma_int32_canonical(body: Seq<u8>)
    ensures
        parse_value_body(INT32_ID, body) matches Ok((value, rest)) ==> value.wf() && value.tag()
            == INT32_ID && body == encode_value_body(value) + rest,
{
    crate::bytesrepr::lemma_i32_canonical(body);
}

proof fn lemma_int32_truncated(i: i32, k: int)
    requires
        0 <= k < i32_le_bytes(i).len(),
    ensures
        parse_value_body(INT32_ID, i32_le_bytes(i).take(k)) == Err::<(ValueView, Seq<u8>), DecodeError>(
            DecodeError::EarlyEnd,
        ),
{
    crate::bytesrepr::lemma_u32_truncated(crate::bytesrepr::i32_bits(i), k);
}

proof fn lemma_uint128_round_trip(u: Seq<u8>, tail: Seq<u8>)
    requires
        u.len() == U128_SIZE,
    ensures
        parse_value_body(U128_ID, u + tail) == Ok::<(ValueView, Seq<u8>), DecodeError>(
            (ValueView::UInt128(u), tail),
        ),
{
    crate::bytesrepr::lemma_fixed_round_trip(u, tail);
}

proof fn lemma_uint128_canonical(body: Seq<u8>)
    ensures
        parse_value_body(U128_ID, body) matches Ok((value, rest)) ==> value.wf() && value.tag()
            == U128_ID && body == encode_value_body(value) + rest,
{
    crate::bytesrepr::lemma_fixed_canonical(body, U128_SIZE as nat);
}

proof fn lemma_uint128_truncated(u: Seq<u8>, k: int)
    requires
        u.len() == U128_SIZE,
        0 <= k < u.len(),
    ensures
        parse_value_body(U128_ID, u.take(k)) == Err::<(ValueView, Seq<u8>), DecodeError>(
            DecodeError::EarlyEnd,
        ),
{
    crate::bytesrepr::lemma_fixed_truncated(u, k);
}

proof fn lemma_uint256_round_trip(u: Seq<u8>, tail: Seq<u8>)
    requires
        u.len() == U256_SIZE,
    ensures
        parse_value_body(U256_ID, u + tail) == Ok::<(ValueView, Seq<u8>), DecodeError>(
            (ValueView::UInt256(u), tail),
        ),
{
    crate::bytesrepr::lemma_fixed_round_trip(u, tail);
}

proof fn lemma_uint256_canonical(body: Seq<u8>)
    ensures
        parse_value_body(U256_ID, body) matches Ok((value, rest)) ==> value.wf() && value.tag()
            == U256_ID && body == encode_value_body(value) + rest,
{
    crate::bytesrepr::lemma_fixed_canonical(body, U256_SIZE as nat);
}

proof fn lemma_uint256_truncated(u: Seq<u8>, k: int)
    requires
        u.len() == U256_SIZE,
        0 <= k < u.len(),
    ensures
        parse_value_body(U256_ID, u.take(k)) == Err::<(ValueView, Seq<u8>), DecodeError>(
            DecodeError::EarlyEnd,
        ),
{
    crate::bytesrepr::lemma_fixed_truncated(u, k);
}

proof fn lemma_uint512_round_trip(u: Seq<u8>, tail: Seq<u8>)
    requires
        u.len() == U512_SIZE,
    ensures
        parse_value_body(U512_ID, u + tail) == Ok::<(ValueView, Seq<u8>), DecodeError>(
            (ValueView::UInt512(u), tail),
        ),
{
    crate::bytesrepr::lemma_fixed_round_trip(u, tail);
}

proof fn lemma_uint512_canonical(body: Seq<u8>)
    ensures
        parse_value_body(U512_ID, body) matches Ok((value, rest)) ==> value.wf() && value.tag()
            == U512_ID && body == encode_value_body(value) + rest,
{
    crate::bytesrepr::lemma_fixed_canonical(body, U512_SIZE as nat);
}

proof fn lemma_uint512_truncated(u: Seq<u8>, k: int)
    requires
        u.len() == U512_SIZE,
        0 <= k < u.len(),
    ensures
        parse_value_body(U512_ID, u.take(k)) == Err::<(ValueView, Seq<u8>), DecodeError>(
            DecodeError::EarlyEnd,
        ),
{
    crate::bytesrepr::lemma_fixed_truncated(u, k);
}

proof fn lemma_byte_array_round_trip(content: Seq<u8>, tail: Seq<u8>)
    requires
        content.len() <= LENGTH_MAX,
    ensures
        parse_value_body(BYTEARRAY_ID, encode_bytes(content) + tail) == Ok::<(ValueView, Seq<u8>), DecodeError>(
            (ValueView::ByteArray(content), tail),
        ),
{
    crate::bytesrepr::lemma_bytes_round_trip(content, tail);
}

proof fn lemma_byte_array_canonical(body: Seq<u8>)
    ensures
        parse_value_body(BYTEARRAY_ID, body) matches Ok((value, rest)) ==> value.wf() && value.tag()
            == BYTEARRAY_ID && body == encode_value_body(value) + rest,
{
    crate::bytesrepr::lemma_bytes_canonical(body);
}

proof fn lemma_byte_array_truncated(content: Seq<u8>, k: int)
    requires
        content.len() <= LENGTH_MAX,
        0 <= k < encode_bytes(content).len(),
    ensures
        parse_value_body(BYTEARRAY_ID, encode_bytes(content).take(k)) == Err::<(ValueView, Seq<u8>), DecodeError>(
            DecodeError::EarlyEnd,
        ),
{
    crate::bytesrepr::lemma_bytes_truncated(content, k);
}

proof fn lemma_list_int32_round_trip(list: Seq<i32>, tail: Seq<u8>)
    requires
        list.len() <= LENGTH_MAX,
    ensures
        parse_value_body(LISTINT32_ID, Vec::<i32>::encoding(list) + tail) == Ok::<(ValueView, Seq<u8>), DecodeError>(
            (ValueView::ListInt32(list), tail),
        ),
{
    crate::bytesrepr::lemma_i32_list_round_trip(list, tail);
}

proof fn lemma_list_int32_canonical(body: Seq<u8>)
    ensures
        parse_value_body(LISTINT32_ID, body) matches Ok((value, rest)) ==> value.wf() && value.tag()
            == LISTINT32_ID && body == encode_value_body(value) + rest,
{
    crate::bytesrepr::lemma_i32_list_canonical(body);
}

proof fn lemma_list_int32_truncated(list: Seq<i32>, k: int)
    requires
        list.len() <= LENGTH_MAX,
        0 <= k < Vec::<i32>::encoding(list).len(),
    ensures
        parse_value_body(LISTINT32_ID, Vec::<i32>::encoding(list).take(k)) == Err::<(ValueView, Seq<u8>), DecodeError>(
            DecodeError::EarlyEnd,
        ),
{
    crate::bytesrepr::lemma_i32_list_truncated(list, k);
}

proof fn lemma_string_round_trip(text: Seq<char>, tail: Seq<u8>)
    requires
        encode_utf8(text).len() <= LENGTH_MAX,
    ensures
        parse_value_body(STRING_ID, encode_string(text) + tail) == Ok::<(ValueView, Seq<u8>), DecodeError>(
            (ValueView::String(text), tail),
        ),
{
    crate::bytesrepr::lemma_string_round_trip(text, tail);
}

proof fn lemma_string_canonical(body: Seq<u8>)
    ensures
        parse_value_body(STRING_ID, body) matches Ok((value, rest)) ==> value.wf() && value.tag()
            == STRING_ID && body == encode_value_body(value) + rest,
{
    crate::bytesrepr::lemma_string_canonical(body);
}

proof fn lemma_string_truncated(text: Seq<char>, k: int)
    requires
        encode_utf8(text).len() <= LENGTH_MAX,
        0 <= k < encode_string(text).len(),
    ensures
        parse_value_body(STRING_ID, encode_string(text).take(k)) == Err::<(ValueView, Seq<u8>), DecodeError>(
            DecodeError::EarlyEnd,
        ),
{
    crate::bytesrepr::lemma_string_truncated(text, k);
}

proof fn lemma_list_string_round_trip(list: Seq<Seq<char>>, tail: Seq<u8>)
    requires
        Vec::<String>::encodable(list),
    ensures
        parse_value_body(LISTSTRING_ID, Vec::<String>::encoding(list) + tail) == Ok::<(ValueView, Seq<u8>), DecodeError>(
            (ValueView::ListString(list), tail),
        ),
{
    crate::bytesrepr::lemma_string_list_round_trip(list, tail);
}

proof fn lemma_list_string_canonical(body: Seq<u8>)
    ensures
        parse_value_body(LISTSTRING_ID, body) matches Ok((value, rest)) ==> value.wf() && value.tag()
            == LISTSTRING_ID && body == encode_value_body(value) + rest,
{
    crate::bytesrepr::lemma_string_list_canonical(body);
}

proof fn lemma_list_string_truncated(list: Seq<Seq<char>>, k: int)
    requires
        Vec::<String>::encodable(list),
        0 <= k < Vec::<String>::encoding(list).len(),
    ensures
        parse_value_body(LISTSTRING_ID, Vec::<String>::encoding(list).take(k)) == Err::<(ValueView, Seq<u8>), DecodeError>(
            DecodeError::EarlyEnd,
        ),
{
    crate::bytesrepr::lemma_string_list_truncated(list, k);
}

proof fn lemma_named_key_round_trip(name: Seq<char>, key: KeyView, tail: Seq<u8>)
    requires
        key.wf(),
        encode_utf8(name).len() <= LENGTH_MAX,
    ensures
        parse_value_body(NAMEDKEY_ID, (encode_string(name) + encode_key(key)) + tail) == Ok::<
            (ValueView, Seq<u8>),
            DecodeError,
        >((ValueView::NamedKey(name, key), tail)),
{
    let after = encode_key(key) + tail;
    assert((encode_string(name) + encode_key(key)) + tail =~= encode_string(name) + after);
    crate::bytesrepr::lemma_string_round_trip(name, after);
    crate::key::lemma_key_round_trip(key, tail);
}

proof fn lemma_named_key_canonical(body: Seq<u8>)
    ensures
        parse_value_body(NAMEDKEY_ID, body) matches Ok((value, rest)) ==> value.wf() && value.tag()
            == NAMEDKEY_ID && body == encode_value_body(value) + rest,
{
    crate::bytesrepr::lemma_string_canonical(body);
    match parse_string(body) {
        Ok((name, after)) => {
            crate::key::lemma_key_canonical(after);
            match parse_key(after) {
                Ok((key, rest)) => {
                    assert(body =~= (encode_string(name) + encode_key(key)) + rest);
                },
                Err(_) => {},
            }
        },
        Err(_) => {},
    }
}

proof fn lemma_named_key_truncated(name: Seq<char>, key: KeyView, k: int)
    requires
        key.wf(),
        encode_utf8(name).len() <= LENGTH_MAX,
        0 <= k < (encode_string(name) + encode_key(key)).len(),
    ensures
        parse_value_body(NAMEDKEY_ID, (encode_string(name) + encode_key(key)).take(k)) == Err::<
            (ValueView, Seq<u8>),
            DecodeError,
        >(DecodeError::EarlyEnd),
{
    let front = encode_string(name);
    let part = (front + encode_key(key)).take(k);
    if k < front.len() {
        assert(part =~= front.take(k));
        crate::bytesrepr::lemma_string_truncated(name, k);
    } else {
        let after = encode_key(key).take(k - front.len());
        assert(part =~= front + after);
        crate::bytesrepr::lemma_string_round_trip(name, after);
        crate::key::lemma_key_truncated(key, k - front.len());
    }
}

proof fn lemma_account_round_trip(account: Seq<u8>, tail: Seq<u8>)
    requires
        account.len() <= LENGTH_MAX,
    ensures
        parse_value_body(ACCT_ID, encode_bytes(account) + tail) == Ok::<(ValueView, Seq<u8>), DecodeError>(
            (ValueView::Account(account), tail),
        ),
{
    crate::bytesrepr::lemma_bytes_round_trip(account, tail);
}

proof fn lemma_account_canonical(body: Seq<u8>)
    ensures
        parse_value_body(ACCT_ID, body) matches Ok((value, rest)) ==> value.wf() && value.tag()
            == ACCT_ID && body == encode_value_body(value) + rest,
{
    crate::bytesrepr::lemma_bytes_canonical(body);
}

proof fn lemma_account_truncated(account: Seq<u8>, k: int)
    requires
        account.len() <= LENGTH_MAX,
        0 <= k < encode_bytes(account).len(),
    ensures
        parse_value_body(ACCT_ID, encode_bytes(account).take(k)) == Err::<(ValueView, Seq<u8>), DecodeError>(
            DecodeError::EarlyEnd,
        ),
{
    crate::bytesrepr::lemma_bytes_truncated(account, k);
}

proof fn lemma_contract_round_trip(contract: Seq<u8>, tail: Seq<u8>)
    requires
        contract.len() <= LENGTH_MAX,
    ensures
        parse_value_body(CONTRACT_ID, encode_bytes(contract) + tail) == Ok::<(ValueView, Seq<u8>), DecodeError>(
            (ValueView::Contract(contract), tail),
        ),
{
    crate::bytesrepr::lemma_bytes_round_trip(contract, tail);
}

proof fn lemma_contract_canonical(body: Seq<u8>)
    ensures
        parse_value_body(CONTRACT_ID, body) matches Ok((value, rest)) ==> value.wf() && value.tag()
            == CONTRACT_ID && body == encode_value_body(value) + rest,
{
    crate::bytesrepr::lemma_bytes_canonical(body);
}

proof fn lemma_contract_truncated(contract: Seq<u8>, k: int)
    requires
        contract.len() <= LENGTH_MAX,
        0 <= k < encode_bytes(contract).len(),
    ensures
        parse_value_body(CONTRACT_ID, encode_bytes(contract).take(k)) == Err::<(ValueView, Seq<u8>), DecodeError>(
            DecodeError::EarlyEnd,
        ),
{
    crate::bytesrepr::lemma_bytes_truncated(contract, k);
}

} // verus!
