//! The binary encoding that every stored type shares.
//!
//! A value is written as a byte sequence that delimits itself, so that values
//! can be read one after another from one buffer. Integers are little-endian.
//! A sequence is written as the number of its elements, in four bytes, and
//! then its elements.
use vstd::prelude::*;
use vstd::slice::slice_subrange;
use vstd::slice::slice_to_vec;
use vstd::utf8::decode_utf8;
use vstd::utf8::encode_utf8;
use vstd::utf8::valid_utf8;

verus! {

/// The number of bytes of an encoded `u8`.
pub const U8_SIZE: usize = 1;

/// The number of bytes of an encoded `i32`.
pub const I32_SIZE: usize = 4;

/// The number of bytes of an encoded `u32`, and so of a length field.
pub const U32_SIZE: usize = 4;

/// The number of bytes of an encoded 128-bit integer.
pub const U128_SIZE: usize = 16;

/// The number of bytes of an encoded 256-bit integer.
pub const U256_SIZE: usize = 32;

/// The number of bytes of an encoded 512-bit integer.
pub const U512_SIZE: usize = 64;

/// The number of bytes of a hash.
pub const N32: usize = 32;

/// The largest number that a length field can hold.
pub const LENGTH_MAX: usize = 4294967295;

/// Why a value could not be encoded.
#[derive(Debug, Clone, Copy, PartialEq, Eq, Structural)]
pub enum EncodeError {
    /// A length is too close to what a 32-bit length field can hold.
    OutOfMemory,
}

/// Why a byte sequence could not be decoded.
#[derive(Debug, Clone, Copy, PartialEq, Eq, Structural)]
pub enum DecodeError {
    /// The input ended before the value was complete.
    EarlyEnd,
    /// A tag byte is unknown, or a field does not have the form it must have.
    Formatting,
}

/// A type with a canonical binary encoding. The encoding is stated of the
/// mathematical value that `deep_view` gives.
pub trait ToBytes: DeepView {
    /// Whether the value is small enough to be encoded.
    spec fn encodable(value: Self::V) -> bool;

    /// The encoding of an encodable value.
    spec fn encoding(value: Self::V) -> Seq<u8>;

    /// The encoding of `self`, or `OutOfMemory` where `self` is too large.
    fn to_bytes(&self) -> (r: Result<Vec<u8>, EncodeError>)
        ensures
            r is Ok <==> Self::encodable(self.deep_view()),
            r matches Ok(out) ==> out@ == Self::encoding(self.deep_view()),
    ;
}

/// A type that can be read from the front of a byte sequence.
pub trait FromBytes: Sized + DeepView {
    /// The value at the front of `bytes` and the bytes that follow it.
    spec fn parse(bytes: Seq<u8>) -> Result<(Self::V, Seq<u8>), DecodeError>;

    /// Reads one value from the front of `bytes` and returns it with the
    /// bytes that it did not consume.
    fn from_bytes(bytes: &[u8]) -> (r: Result<(Self, &[u8]), DecodeError>)
        ensures
            match r {
                Ok((value, rest)) => Self::parse(bytes@) == Ok::<(Self::V, Seq<u8>), DecodeError>(
                    (value.deep_view(), rest@),
                ),
                Err(e) => Self::parse(bytes@) == Err::<(Self::V, Seq<u8>), DecodeError>(e),
            },
    ;
}

/// Whether a sequence of `len` elements fits a length field that shares its
/// buffer with `overhead` bytes of framing. A length at or above
/// `LENGTH_MAX - overhead` does not.
pub open spec fn length_fits(len: nat, overhead: nat) -> bool {
    len + overhead < LENGTH_MAX
}

/// Decides `length_fits`.
pub fn check_length(len: usize, overhead: usize) -> (r: Result<(), EncodeError>)
    ensures
        r is Ok <==> length_fits(len as nat, overhead as nat),
{
    if overhead >= LENGTH_MAX || len >= LENGTH_MAX - overhead {
        Err(EncodeError::OutOfMemory)
    } else {
        Ok(())
    }
}

// ---------------------------------------------------------------------------
// Integers
// ---------------------------------------------------------------------------
/// The four bytes of `x`, least significant first.
pub open spec fn u32_le_bytes(x: u32) -> Seq<u8> {
    seq![
        (x % 256) as u8,
        ((x / 256) % 256) as u8,
        ((x / 65536) % 256) as u8,
        ((x / 16777216) % 256) as u8,
    ]
}

/// The number whose little-endian bytes are the first four of `b`.
pub open spec fn u32_from_le_bytes(b: Seq<u8>) -> u32 {
    (b[0] + 256 * b[1] + 65536 * b[2] + 16777216 * b[3]) as u32
}

/// The unsigned number with the bit pattern of `x` in two's complement.
pub open spec fn i32_bits(x: i32) -> u32 {
    if x >= 0 {
        x as u32
    } else {
        (x + 4294967296) as u32
    }
}

/// The signed number with the bit pattern of `u` in two's complement.
pub open spec fn i32_from_bits(u: u32) -> i32 {
    if u < 2147483648 {
        u as i32
    } else {
        (u - 4294967296) as i32
    }
}

/// The four bytes of `x` in two's complement, least significant first.
pub open spec fn i32_le_bytes(x: i32) -> Seq<u8> {
    u32_le_bytes(i32_bits(x))
}

/// The first byte, and what follows it.
pub open spec fn parse_u8(bytes: Seq<u8>) -> Result<(u8, Seq<u8>), DecodeError> {
    if bytes.len() < 1 {
        Err(DecodeError::EarlyEnd)
    } else {
        Ok((bytes[0], bytes.skip(1)))
    }
}

/// The number in the first four bytes, and what follows them.
pub open spec fn parse_u32(bytes: Seq<u8>) -> Result<(u32, Seq<u8>), DecodeError> {
    if bytes.len() < 4 {
        Err(DecodeError::EarlyEnd)
    } else {
        Ok((u32_from_le_bytes(bytes), bytes.skip(4)))
    }
}

/// The signed number in the first four bytes, and what follows them.
pub open spec fn parse_i32(bytes: Seq<u8>) -> Result<(i32, Seq<u8>), DecodeError> {
    if bytes.len() < 4 {
        Err(DecodeError::EarlyEnd)
    } else {
        Ok((i32_from_bits(u32_from_le_bytes(bytes)), bytes.skip(4)))
    }
}

/// The base-256 digits of a number below 2^32 make up the number.
proof fn lemma_digits_of_number(x: int)
    requires
        0 <= x < 4294967296,
    ensures
        x == x % 256 + 256 * ((x / 256) % 256) + 65536 * ((x / 65536) % 256) + 16777216 * ((x
            / 16777216) % 256),
{
}

/// A number made up of four base-256 digits has those digits.
proof fn lemma_number_of_digits(d0: int, d1: int, d2: int, d3: int)
    requires
        0 <= d0 < 256,
        0 <= d1 < 256,
        0 <= d2 < 256,
        0 <= d3 < 256,
    ensures
        ({
            let x = d0 + 256 * d1 + 65536 * d2 + 16777216 * d3;
            &&& 0 <= x < 4294967296
            &&& x % 256 == d0
            &&& (x / 256) % 256 == d1
            &&& (x / 65536) % 256 == d2
            &&& (x / 16777216) % 256 == d3
        }),
{
}

/// Decoding undoes encoding of a `u32`, whatever follows the four bytes.
pub proof fn lemma_u32_round_trip(x: u32, tail: Seq<u8>)
    ensures
        u32_le_bytes(x).len() == 4,
        parse_u32(u32_le_bytes(x) + tail) == Ok::<(u32, Seq<u8>), DecodeError>((x, tail)),
{
    let b = u32_le_bytes(x) + tail;
    lemma_digits_of_number(x as int);
    assert(b[0] == (x % 256) as u8);
    assert(b[1] == ((x / 256) % 256) as u8);
    assert(b[2] == ((x / 65536) % 256) as u8);
    assert(b[3] == ((x / 16777216) % 256) as u8);
    assert(b.skip(4) =~= tail);
}

/// Decoding undoes encoding of an `i32`, whatever follows the four bytes.
pub proof fn lemma_i32_round_trip(x: i32, tail: Seq<u8>)
    ensures
        i32_le_bytes(x).len() == 4,
        parse_i32(i32_le_bytes(x) + tail) == Ok::<(i32, Seq<u8>), DecodeError>((x, tail)),
{
    lemma_u32_round_trip(i32_bits(x), tail);
}

/// What is read as a `u32` was written as one: the input is the encoding of
/// the number and then the bytes that are left.
pub proof fn lemma_u32_canonical(bytes: Seq<u8>)
    ensures
        parse_u32(bytes) matches Ok((x, rest)) ==> bytes == u32_le_bytes(x) + rest,
{
    if bytes.len() >= 4 {
        let x = u32_from_le_bytes(bytes);
        lemma_number_of_digits(bytes[0] as int, bytes[1] as int, bytes[2] as int, bytes[3] as int);
        assert(u32_le_bytes(x)[0] == bytes[0]);
        assert(u32_le_bytes(x)[1] == bytes[1]);
        assert(u32_le_bytes(x)[2] == bytes[2]);
        assert(u32_le_bytes(x)[3] == bytes[3]);
        assert(bytes =~= u32_le_bytes(x) + bytes.skip(4));
    }
}

/// What is read as an `i32` was written as one.
pub proof fn lemma_i32_canonical(bytes: Seq<u8>)
    ensures
        parse_i32(bytes) matches Ok((x, rest)) ==> bytes == i32_le_bytes(x) + rest,
{
    lemma_u32_canonical(bytes);
}

/// Reading a number from a part of its encoding ends early.
pub proof fn lemma_u32_truncated(x: u32, k: int)
    requires
        0 <= k < 4,
    ensures
        parse_u32(u32_le_bytes(x).take(k)) == Err::<(u32, Seq<u8>), DecodeError>(
            DecodeError::EarlyEnd,
        ),
        parse_i32(u32_le_bytes(x).take(k)) == Err::<(i32, Seq<u8>), DecodeError>(
            DecodeError::EarlyEnd,
        ),
{
}

/// Appends the little-endian bytes of `x` to `out`.
pub fn write_u32(out: &mut Vec<u8>, x: u32)
    ensures
        final(out)@ == old(out)@ + u32_le_bytes(x),
{
    out.push((x % 256) as u8);
    out.push(((x / 256) % 256) as u8);
    out.push(((x / 65536) % 256) as u8);
    out.push(((x / 16777216) % 256) as u8);
    assert(out@ =~= old(out)@ + u32_le_bytes(x));
}

/// Appends the little-endian bytes of `x` to `out`.
pub fn write_i32(out: &mut Vec<u8>, x: i32)
    ensures
        final(out)@ == old(out)@ + i32_le_bytes(x),
{
    let bits: u32 = if x >= 0 {
        x as u32
    } else {
        ((x as i64) + 4294967296) as u32
    };
    write_u32(out, bits);
}

impl ToBytes for u8 {
    open spec fn encodable(value: Self) -> bool {
        true
    }

    open spec fn encoding(value: u8) -> Seq<u8> {
        seq![value]
    }

    fn to_bytes(&self) -> (r: Result<Vec<u8>, EncodeError>) {
        let mut out: Vec<u8> = Vec::with_capacity(U8_SIZE);
        out.push(*self);
        Ok(out)
    }
}

impl FromBytes for u8 {
    open spec fn parse(bytes: Seq<u8>) -> Result<(u8, Seq<u8>), DecodeError> {
        parse_u8(bytes)
    }

    fn from_bytes(bytes: &[u8]) -> (r: Result<(u8, &[u8]), DecodeError>) {
        if bytes.len() < 1 {
            Err(DecodeError::EarlyEnd)
        } else {
            Ok((bytes[0], slice_subrange(bytes, 1, bytes.len())))
        }
    }
}

impl ToBytes for u32 {
    open spec fn encodable(value: Self) -> bool {
        true
    }

    open spec fn encoding(value: u32) -> Seq<u8> {
        u32_le_bytes(value)
    }

    fn to_bytes(&self) -> (r: Result<Vec<u8>, EncodeError>) {
        let mut out: Vec<u8> = Vec::with_capacity(U32_SIZE);
        write_u32(&mut out, *self);
        Ok(out)
    }
}

impl FromBytes for u32 {
    open spec fn parse(bytes: Seq<u8>) -> Result<(u32, Seq<u8>), DecodeError> {
        parse_u32(bytes)
    }

    fn from_bytes(bytes: &[u8]) -> (r: Result<(u32, &[u8]), DecodeError>) {
        if bytes.len() < 4 {
            Err(DecodeError::EarlyEnd)
        } else {
            let x: u32 = (bytes[0] as u32) + 256 * (bytes[1] as u32) + 65536 * (bytes[2] as u32)
                + 16777216 * (bytes[3] as u32);
            Ok((x, slice_subrange(bytes, 4, bytes.len())))
        }
    }
}

impl ToBytes for i32 {
    open spec fn encodable(value: Self) -> bool {
        true
    }

    open spec fn encoding(value: i32) -> Seq<u8> {
        i32_le_bytes(value)
    }

    fn to_bytes(&self) -> (r: Result<Vec<u8>, EncodeError>) {
        let mut out: Vec<u8> = Vec::with_capacity(I32_SIZE);
        write_i32(&mut out, *self);
        Ok(out)
    }
}

impl FromBytes for i32 {
    open spec fn parse(bytes: Seq<u8>) -> Result<(i32, Seq<u8>), DecodeError> {
        parse_i32(bytes)
    }

    fn from_bytes(bytes: &[u8]) -> (r: Result<(i32, &[u8]), DecodeError>) {
        match u32::from_bytes(bytes) {
            Err(e) => Err(e),
            Ok((bits, rest)) => {
                let x: i32 = if bits < 2147483648 {
                    bits as i32
                } else {
                    ((bits as i64) - 4294967296) as i32
                };
                Ok((x, rest))
            },
        }
    }
}

// ---------------------------------------------------------------------------
// Byte sequences
// ---------------------------------------------------------------------------
/// The first `n` bytes as they stand, and what follows them.
pub open spec fn parse_fixed(bytes: Seq<u8>, n: nat) -> Result<(Seq<u8>, Seq<u8>), DecodeError> {
    if bytes.len() < n {
        Err(DecodeError::EarlyEnd)
    } else {
        Ok((bytes.take(n as int), bytes.skip(n as int)))
    }
}

/// Reading a fixed number of bytes gives back what was written, whatever
/// follows it.
pub proof fn lemma_fixed_round_trip(content: Seq<u8>, tail: Seq<u8>)
    ensures
        parse_fixed(content + tail, content.len()) == Ok::<(Seq<u8>, Seq<u8>), DecodeError>(
            (content, tail),
        ),
{
    assert((content + tail).take(content.len() as int) =~= content);
    assert((content + tail).skip(content.len() as int) =~= tail);
}

/// A byte sequence behind its length.
pub open spec fn encode_bytes(content: Seq<u8>) -> Seq<u8> {
    u32_le_bytes(content.len() as u32) + content
}

/// A length, and that many bytes behind it.
pub open spec fn parse_bytes(bytes: Seq<u8>) -> Result<(Seq<u8>, Seq<u8>), DecodeError> {
    match parse_u32(bytes) {
        Ok((n, rest)) => parse_fixed(rest, n as nat),
        Err(e) => Err(e),
    }
}

/// Decoding undoes encoding of a byte sequence whose length fits a `u32`.
pub proof fn lemma_bytes_round_trip(content: Seq<u8>, tail: Seq<u8>)
    requires
        content.len() <= LENGTH_MAX,
    ensures
        parse_bytes(encode_bytes(content) + tail) == Ok::<(Seq<u8>, Seq<u8>), DecodeError>(
            (content, tail),
        ),
{
    let n = content.len() as u32;
    lemma_u32_round_trip(n, content + tail);
    assert(encode_bytes(content) + tail =~= u32_le_bytes(n) + (content + tail));
    lemma_fixed_round_trip(content, tail);
}

/// A fixed number of bytes is read off the front, and the rest is left.
pub proof fn lemma_fixed_canonical(bytes: Seq<u8>, n: nat)
    ensures
        parse_fixed(bytes, n) matches Ok((content, rest)) ==> content.len() == n && bytes
            == content + rest,
{
    if bytes.len() >= n {
        assert(bytes =~= bytes.take(n as int) + bytes.skip(n as int));
    }
}

/// What is read as a byte sequence was written as one.
pub proof fn lemma_bytes_canonical(bytes: Seq<u8>)
    ensures
        parse_bytes(bytes) matches Ok((content, rest)) ==> content.len() <= LENGTH_MAX && bytes
            == encode_bytes(content) + rest,
{
    lemma_u32_canonical(bytes);
    match parse_u32(bytes) {
        Ok((n, body)) => {
            lemma_fixed_canonical(body, n as nat);
            match parse_fixed(body, n as nat) {
                Ok((content, rest)) => {
                    assert(bytes =~= encode_bytes(content) + rest);
                },
                Err(_) => {},
            }
        },
        Err(_) => {},
    }
}

/// Reading a fixed number of bytes from fewer bytes ends early.
pub proof fn lemma_fixed_truncated(content: Seq<u8>, k: int)
    requires
        0 <= k < content.len(),
    ensures
        parse_fixed(content.take(k), content.len()) == Err::<(Seq<u8>, Seq<u8>), DecodeError>(
            DecodeError::EarlyEnd,
        ),
{
}

/// Reading a byte sequence from a part of its encoding ends early.
pub proof fn lemma_bytes_truncated(content: Seq<u8>, k: int)
    requires
        content.len() <= LENGTH_MAX,
        0 <= k < encode_bytes(content).len(),
    ensures
        parse_bytes(encode_bytes(content).take(k)) == Err::<(Seq<u8>, Seq<u8>), DecodeError>(
            DecodeError::EarlyEnd,
        ),
{
    let n = content.len() as u32;
    let part = encode_bytes(content).take(k);
    if k >= 4 {
        let body = content.take(k - 4);
        assert(part =~= u32_le_bytes(n) + body);
        lemma_u32_round_trip(n, body);
    }
}

/// Appends `bytes` to `out` as they stand.
pub fn write_raw(out: &mut Vec<u8>, bytes: &[u8])
    ensures
        final(out)@ == old(out)@ + bytes@,
{
    out.extend_from_slice(bytes);
    assert(out@ =~= old(out)@ + bytes@);
}

/// Appends the length of `bytes` and then `bytes` to `out`.
pub fn write_bytes(out: &mut Vec<u8>, bytes: &[u8])
    requires
        bytes@.len() <= LENGTH_MAX,
    ensures
        final(out)@ == old(out)@ + encode_bytes(bytes@),
{
    write_u32(out, bytes.len() as u32);
    write_raw(out, bytes);
    assert(out@ =~= old(out)@ + encode_bytes(bytes@));
}

/// Splits `bytes` behind its first `n` bytes.
pub fn read_fixed(bytes: &[u8], n: usize) -> (r: Result<(&[u8], &[u8]), DecodeError>)
    ensures
        match r {
            Ok((front, rest)) => parse_fixed(bytes@, n as nat) == Ok::<
                (Seq<u8>, Seq<u8>),
                DecodeError,
            >((front@, rest@)),
            Err(e) => parse_fixed(bytes@, n as nat) == Err::<(Seq<u8>, Seq<u8>), DecodeError>(e),
        },
{
    if bytes.len() < n {
        Err(DecodeError::EarlyEnd)
    } else {
        Ok((slice_subrange(bytes, 0, n), slice_subrange(bytes, n, bytes.len())))
    }
}

/// Reads a length and the bytes that it announces.
pub fn read_bytes(bytes: &[u8]) -> (r: Result<(Vec<u8>, &[u8]), DecodeError>)
    ensures
        match r {
            Ok((content, rest)) => parse_bytes(bytes@) == Ok::<(Seq<u8>, Seq<u8>), DecodeError>(
                (content@, rest@),
            ),
            Err(e) => parse_bytes(bytes@) == Err::<(Seq<u8>, Seq<u8>), DecodeError>(e),
        },
{
    match u32::from_bytes(bytes) {
        Err(e) => Err(e),
        Ok((n, rest)) => match read_fixed(rest, n as usize) {
            Err(e) => Err(e),
            Ok((front, rest)) => Ok((slice_to_vec(front), rest)),
        },
    }
}

impl<const N: usize> ToBytes for [u8; N] {
    open spec fn encodable(value: Seq<u8>) -> bool {
        true
    }

    open spec fn encoding(value: Seq<u8>) -> Seq<u8> {
        value
    }

    fn to_bytes(&self) -> (r: Result<Vec<u8>, EncodeError>) {
        let out = slice_to_vec(self.as_slice());
        assert(out@ =~= self.deep_view());
        Ok(out)
    }
}

impl<const N: usize> FromBytes for [u8; N] {
    open spec fn parse(bytes: Seq<u8>) -> Result<(Seq<u8>, Seq<u8>), DecodeError> {
        parse_fixed(bytes, N as nat)
    }

    fn from_bytes(bytes: &[u8]) -> (r: Result<([u8; N], &[u8]), DecodeError>) {
        match read_fixed(bytes, N) {
            Err(e) => Err(e),
            Ok((front, rest)) => {
                let mut array: [u8; N] = [0u8; N];
                let mut i: usize = 0;
                while i < N
                    invariant
                        i <= N,
                        front@.len() == N,
                        forall|j: int| 0 <= j < i ==> array@[j] == front@[j],
                    decreases N - i,
                {
                    array[i] = front[i];
                    i += 1;
                }
                assert(array.deep_view() =~= front@);
                Ok((array, rest))
            },
        }
    }
}

// ---------------------------------------------------------------------------
// Sequences of encodable elements
// ---------------------------------------------------------------------------
/// The encodings of `items`, one behind the other.
pub open spec fn encode_items<T>(encode: spec_fn(T) -> Seq<u8>, items: Seq<T>) -> Seq<u8>
    decreases items.len(),
{
    if items.len() == 0 {
        Seq::empty()
    } else {
        encode(items.first()) + encode_items(encode, items.drop_first())
    }
}

/// `n` values read one after the other from the front of `bytes`, and what
/// follows the last of them. The first value that cannot be read gives its
/// error to the whole.
pub open spec fn parse_items<T>(
    parse: spec_fn(Seq<u8>) -> Result<(T, Seq<u8>), DecodeError>,
    bytes: Seq<u8>,
    n: nat,
) -> Result<(Seq<T>, Seq<u8>), DecodeError>
    decreases n,
{
    if n == 0 {
        Ok((Seq::empty(), bytes))
    } else {
        match parse(bytes) {
            Err(e) => Err(e),
            Ok((first, rest)) => prepend(seq![first], parse_items(parse, rest, (n - 1) as nat)),
        }
    }
}

/// The outcome `later` behind the values `done` that were read before it.
pub open spec fn prepend<T>(done: Seq<T>, later: Result<(Seq<T>, Seq<u8>), DecodeError>) -> Result<
    (Seq<T>, Seq<u8>),
    DecodeError,
> {
    match later {
        Ok((more, rest)) => Ok((done + more, rest)),
        Err(e) => Err(e),
    }
}

/// A sequence behind the number of its elements.
pub open spec fn encode_list<T>(encode: spec_fn(T) -> Seq<u8>, items: Seq<T>) -> Seq<u8> {
    u32_le_bytes(items.len() as u32) + encode_items(encode, items)
}

/// A number, and that many elements behind it.
pub open spec fn parse_list<T>(
    parse: spec_fn(Seq<u8>) -> Result<(T, Seq<u8>), DecodeError>,
    bytes: Seq<u8>,
) -> Result<(Seq<T>, Seq<u8>), DecodeError> {
    match parse_u32(bytes) {
        Ok((n, rest)) => parse_items(parse, rest, n as nat),
        Err(e) => Err(e),
    }
}

/// The encoding of a sequence grows at its end as the sequence does.
pub proof fn lemma_encode_items_push<T>(encode: spec_fn(T) -> Seq<u8>, items: Seq<T>, last: T)
    ensures
        encode_items(encode, items.push(last)) == encode_items(encode, items) + encode(last),
    decreases items.len(),
{
    if items.len() == 0 {
        let one = items.push(last);
        assert(one.first() == last);
        assert(encode_items(encode, one.drop_first()) =~= Seq::<u8>::empty());
        assert(encode_items(encode, one) =~= encode(last));
        assert(encode_items(encode, items) + encode(last) =~= encode(last));
    } else {
        lemma_encode_items_push(encode, items.drop_first(), last);
        assert(items.push(last).drop_first() =~= items.drop_first().push(last));
        assert(encode_items(encode, items.push(last)) =~= encode_items(encode, items) + encode(
            last,
        ));
    }
}

/// Where decoding undoes encoding of each element, it undoes encoding of the
/// sequence, whatever follows it.
pub proof fn lemma_items_round_trip<T>(
    encode: spec_fn(T) -> Seq<u8>,
    parse: spec_fn(Seq<u8>) -> Result<(T, Seq<u8>), DecodeError>,
    items: Seq<T>,
    tail: Seq<u8>,
)
    requires
        forall|i: int, after: Seq<u8>|
            0 <= i < items.len() ==> #[trigger] parse(encode(items[i]) + after) == Ok::<
                (T, Seq<u8>),
                DecodeError,
            >((items[i], after)),
    ensures
        parse_items(parse, encode_items(encode, items) + tail, items.len()) == Ok::<
            (Seq<T>, Seq<u8>),
            DecodeError,
        >((items, tail)),
    decreases items.len(),
{
    if items.len() == 0 {
        assert(encode_items(encode, items) + tail =~= tail);
        assert(items =~= Seq::<T>::empty());
    } else {
        let others = items.drop_first();
        let after = encode_items(encode, others) + tail;
        assert(encode_items(encode, items) + tail =~= encode(items[0]) + after);
        assert(parse(encode(items[0]) + after) == Ok::<(T, Seq<u8>), DecodeError>(
            (items[0], after),
        ));
        assert forall|i: int, after: Seq<u8>| 0 <= i < others.len() implies #[trigger] parse(
            encode(others[i]) + after,
        ) == Ok::<(T, Seq<u8>), DecodeError>((others[i], after)) by {
            assert(others[i] == items[i + 1]);
        }
        lemma_items_round_trip(encode, parse, others, tail);
        assert(seq![items[0]] + others =~= items);
    }
}

/// Where decoding undoes encoding of each element, it undoes encoding of a
/// sequence whose length fits a `u32`.
pub proof fn lemma_list_round_trip<T>(
    encode: spec_fn(T) -> Seq<u8>,
    parse: spec_fn(Seq<u8>) -> Result<(T, Seq<u8>), DecodeError>,
    items: Seq<T>,
    tail: Seq<u8>,
)
    requires
        items.len() <= LENGTH_MAX,
        forall|i: int, after: Seq<u8>|
            0 <= i < items.len() ==> #[trigger] parse(encode(items[i]) + after) == Ok::<
                (T, Seq<u8>),
                DecodeError,
            >((items[i], after)),
    ensures
        parse_list(parse, encode_list(encode, items) + tail) == Ok::<
            (Seq<T>, Seq<u8>),
            DecodeError,
        >((items, tail)),
{
    let n = items.len() as u32;
    let body = encode_items(encode, items) + tail;
    lemma_u32_round_trip(n, body);
    assert(encode_list(encode, items) + tail =~= u32_le_bytes(n) + body);
    lemma_items_round_trip(encode, parse, items, tail);
}

/// Where each element that is read was written as it is read, so was the
/// sequence: the input is the encoding of the elements and then the bytes
/// that are left.
pub proof fn lemma_items_canonical<T>(
    encode: spec_fn(T) -> Seq<u8>,
    parse: spec_fn(Seq<u8>) -> Result<(T, Seq<u8>), DecodeError>,
    bytes: Seq<u8>,
    n: nat,
)
    requires
        forall|input: Seq<u8>| #[trigger]
            parse(input) matches Ok((item, rest)) ==> input == encode(item) + rest,
    ensures
        parse_items(parse, bytes, n) matches Ok((items, rest)) ==> items.len() == n && bytes
            == encode_items(encode, items) + rest,
    decreases n,
{
    if n == 0 {
        assert(bytes =~= encode_items(encode, Seq::<T>::empty()) + bytes);
    } else {
        match parse(bytes) {
            Err(_) => {},
            Ok((first, after)) => {
                lemma_items_canonical(encode, parse, after, (n - 1) as nat);
                match parse_items(parse, after, (n - 1) as nat) {
                    Err(_) => {},
                    Ok((others, rest)) => {
                        let items = seq![first] + others;
                        assert(items.first() == first);
                        assert(items.drop_first() =~= others);
                        assert(bytes =~= encode_items(encode, items) + rest);
                    },
                }
            },
        }
    }
}

/// Where each element that is read was written as it is read, so was the
/// list.
pub proof fn lemma_list_canonical<T>(
    encode: spec_fn(T) -> Seq<u8>,
    parse: spec_fn(Seq<u8>) -> Result<(T, Seq<u8>), DecodeError>,
    bytes: Seq<u8>,
)
    requires
        forall|input: Seq<u8>| #[trigger]
            parse(input) matches Ok((item, rest)) ==> input == encode(item) + rest,
    ensures
        parse_list(parse, bytes) matches Ok((items, rest)) ==> items.len() <= LENGTH_MAX && bytes
            == encode_list(encode, items) + rest,
{
    lemma_u32_canonical(bytes);
    match parse_u32(bytes) {
        Ok((n, body)) => {
            lemma_items_canonical(encode, parse, body, n as nat);
            match parse_items(parse, body, n as nat) {
                Ok((items, rest)) => {
                    assert(bytes =~= encode_list(encode, items) + rest);
                },
                Err(_) => {},
            }
        },
        Err(_) => {},
    }
}

/// Where each element is read back from its encoding, and reading it from
/// a part of its encoding ends early, reading the sequence from a part of
/// its encoding ends early.
pub proof fn lemma_items_truncated<T>(
    encode: spec_fn(T) -> Seq<u8>,
    parse: spec_fn(Seq<u8>) -> Result<(T, Seq<u8>), DecodeError>,
    items: Seq<T>,
    k: int,
)
    requires
        0 <= k < encode_items(encode, items).len(),
        forall|i: int, after: Seq<u8>|
            0 <= i < items.len() ==> #[trigger] parse(encode(items[i]) + after) == Ok::<
                (T, Seq<u8>),
                DecodeError,
            >((items[i], after)),
        forall|i: int, j: int|
            0 <= i < items.len() && 0 <= j < encode(items[i]).len() ==> #[trigger] parse(
                encode(items[i]).take(j),
            ) == Err::<(T, Seq<u8>), DecodeError>(DecodeError::EarlyEnd),
    ensures
        parse_items(parse, encode_items(encode, items).take(k), items.len()) == Err::<
            (Seq<T>, Seq<u8>),
            DecodeError,
        >(DecodeError::EarlyEnd),
    decreases items.len(),
{
    let first = encode(items[0]);
    let others = items.drop_first();
    let later = encode_items(encode, others);
    let part = (first + later).take(k);
    if k < first.len() {
        assert(part =~= first.take(k));
    } else {
        let after = later.take(k - first.len());
        assert(part =~= first + after);
        assert(parse(first + after) == Ok::<(T, Seq<u8>), DecodeError>((items[0], after)));
        assert forall|i: int, after: Seq<u8>| 0 <= i < others.len() implies #[trigger] parse(
            encode(others[i]) + after,
        ) == Ok::<(T, Seq<u8>), DecodeError>((others[i], after)) by {
            assert(others[i] == items[i + 1]);
        }
        assert forall|i: int, j: int|
            0 <= i < others.len() && 0 <= j < encode(others[i]).len() implies #[trigger] parse(
            encode(others[i]).take(j),
        ) == Err::<(T, Seq<u8>), DecodeError>(DecodeError::EarlyEnd) by {
            assert(others[i] == items[i + 1]);
        }
        lemma_items_truncated(encode, parse, others, k - first.len());
    }
}

/// Where each element is read back from its encoding, and reading it from
/// a part of its encoding ends early, reading a list from a part of its
/// encoding ends early.
pub proof fn lemma_list_truncated<T>(
    encode: spec_fn(T) -> Seq<u8>,
    parse: spec_fn(Seq<u8>) -> Result<(T, Seq<u8>), DecodeError>,
    items: Seq<T>,
    k: int,
)
    requires
        items.len() <= LENGTH_MAX,
        0 <= k < encode_list(encode, items).len(),
        forall|i: int, after: Seq<u8>|
            0 <= i < items.len() ==> #[trigger] parse(encode(items[i]) + after) == Ok::<
                (T, Seq<u8>),
                DecodeError,
            >((items[i], after)),
        forall|i: int, j: int|
            0 <= i < items.len() && 0 <= j < encode(items[i]).len() ==> #[trigger] parse(
                encode(items[i]).take(j),
            ) == Err::<(T, Seq<u8>), DecodeError>(DecodeError::EarlyEnd),
    ensures
        parse_list(parse, encode_list(encode, items).take(k)) == Err::<
            (Seq<T>, Seq<u8>),
            DecodeError,
        >(DecodeError::EarlyEnd),
{
    let n = items.len() as u32;
    let part = encode_list(encode, items).take(k);
    if k >= 4 {
        let body = encode_items(encode, items).take(k - 4);
        assert(part =~= u32_le_bytes(n) + body);
        lemma_u32_round_trip(n, body);
        lemma_items_truncated(encode, parse, items, k - 4);
    }
}

/// How `T` encodes one element.
pub open spec fn item_encoder<T: ToBytes>() -> spec_fn(T::V) -> Seq<u8> {
    |value: T::V| T::encoding(value)
}

/// How `T` reads one element.
pub open spec fn item_parser<T: FromBytes>() -> spec_fn(Seq<u8>) -> Result<
    (T::V, Seq<u8>),
    DecodeError,
> {
    |bytes: Seq<u8>| T::parse(bytes)
}

impl<T: ToBytes> ToBytes for Vec<T> {
    /// The number of elements fits the length field, and each element can be
    /// encoded.
    open spec fn encodable(value: Seq<T::V>) -> bool {
        &&& length_fits(value.len(), U32_SIZE as nat)
        &&& forall|i: int| 0 <= i < value.len() ==> T::encodable(#[trigger] value[i])
    }

    open spec fn encoding(value: Seq<T::V>) -> Seq<u8> {
        encode_list(item_encoder::<T>(), value)
    }

    fn to_bytes(&self) -> (r: Result<Vec<u8>, EncodeError>) {
        if check_length(self.len(), U32_SIZE).is_err() {
            return Err(EncodeError::OutOfMemory);
        }
        let ghost items = self.deep_view();
        let mut out: Vec<u8> = Vec::new();
        write_u32(&mut out, self.len() as u32);
        let mut i: usize = 0;
        while i < self.len()
            invariant
                i <= self.len(),
                items == self.deep_view(),
                items.len() == self.len(),
                forall|j: int| 0 <= j < i ==> T::encodable(#[trigger] items[j]),
                out@ == u32_le_bytes(items.len() as u32) + encode_items(
                    item_encoder::<T>(),
                    items.take(i as int),
                ),
            decreases self.len() - i,
        {
            assert(self[i as int].deep_view() == items[i as int]);
            match self[i].to_bytes() {
                Err(e) => {
                    return Err(e);
                },
                Ok(mut item) => {
                    out.append(&mut item);
                },
            }
            proof {
                lemma_encode_items_push(item_encoder::<T>(), items.take(i as int), items[i as int]);
                assert(items.take(i as int).push(items[i as int]) =~= items.take(i + 1));
                assert(out@ =~= u32_le_bytes(items.len() as u32) + encode_items(
                    item_encoder::<T>(),
                    items.take(i + 1),
                ));
            }
            i += 1;
        }
        assert(items.take(i as int) =~= items);
        Ok(out)
    }
}

impl<T: FromBytes> FromBytes for Vec<T> {
    open spec fn parse(bytes: Seq<u8>) -> Result<(Seq<T::V>, Seq<u8>), DecodeError> {
        parse_list(item_parser::<T>(), bytes)
    }

    fn from_bytes(bytes: &[u8]) -> (r: Result<(Vec<T>, &[u8]), DecodeError>) {
        let (n, body) = match u32::from_bytes(bytes) {
            Err(e) => {
                return Err(e);
            },
            Ok(pair) => pair,
        };
        let mut items: Vec<T> = Vec::new();
        let mut stream = body;
        let mut i: u32 = 0;
        while i < n
            invariant
                i <= n,
                parse_u32(bytes@) == Ok::<(u32, Seq<u8>), DecodeError>((n, body@)),
                parse_items(item_parser::<T>(), body@, n as nat) == prepend(
                    items.deep_view(),
                    parse_items(item_parser::<T>(), stream@, (n - i) as nat),
                ),
            decreases n - i,
        {
            let ghost done = items.deep_view();
            let ghost here = parse_items(item_parser::<T>(), stream@, (n - i) as nat);
            match T::from_bytes(stream) {
                Err(e) => {
                    assert(here == Err::<(Seq<T::V>, Seq<u8>), DecodeError>(e));
                    return Err(e);
                },
                Ok((item, rest)) => {
                    items.push(item);
                    stream = rest;
                    proof {
                        assert(items.deep_view() =~= done + seq![item.deep_view()]);
                        let later = parse_items(item_parser::<T>(), rest@, (n - i - 1) as nat);
                        assert(here == prepend(seq![item.deep_view()], later));
                        match later {
                            Ok((more, _)) => {
                                assert(done + (seq![item.deep_view()] + more) =~= (done
                                    + seq![item.deep_view()]) + more);
                            },
                            Err(_) => {},
                        }
                    }
                },
            }
            i += 1;
        }
        proof {
            let done = items.deep_view();
            assert(done + Seq::<T::V>::empty() =~= done);
        }
        Ok((items, stream))
    }
}

/// A byte vector is encoded as its length and then its bytes as they stand.
pub proof fn lemma_byte_vector_encoding(content: Seq<u8>)
    ensures
        <Vec<u8> as ToBytes>::encoding(content) == encode_bytes(content),
{
    lemma_byte_items(content);
}

/// Bytes encoded one by one are the bytes themselves.
pub proof fn lemma_byte_items(content: Seq<u8>)
    ensures
        encode_items(item_encoder::<u8>(), content) == content,
    decreases content.len(),
{
    if content.len() == 0 {
        assert(content =~= Seq::<u8>::empty());
    } else {
        lemma_byte_items(content.drop_first());
        assert(seq![content[0]] + content.drop_first() =~= content);
    }
}

/// Reading a byte vector takes the announced number of bytes as they stand.
pub proof fn lemma_byte_vector_parse(bytes: Seq<u8>)
    ensures
        <Vec<u8> as FromBytes>::parse(bytes) == parse_bytes(bytes),
{
    match parse_u32(bytes) {
        Ok((n, rest)) => {
            lemma_parse_byte_items(rest, n as nat);
        },
        Err(_) => {},
    }
}

/// Bytes read one by one are the bytes themselves.
pub proof fn lemma_parse_byte_items(bytes: Seq<u8>, n: nat)
    ensures
        parse_items(item_parser::<u8>(), bytes, n) == parse_fixed(bytes, n),
    decreases n,
{
    if n == 0 {
        assert(bytes.take(0) =~= Seq::<u8>::empty());
        assert(bytes.skip(0) =~= bytes);
    } else if bytes.len() == 0 {
    } else {
        let rest = bytes.skip(1);
        lemma_parse_byte_items(rest, (n - 1) as nat);
        if rest.len() >= n - 1 {
            assert(seq![bytes[0]] + rest.take(n - 1) =~= bytes.take(n as int));
            assert(rest.skip(n - 1) =~= bytes.skip(n as int));
        }
    }
}

// ---------------------------------------------------------------------------
// Strings
// ---------------------------------------------------------------------------
/// A string as the length of its UTF-8 form, in bytes, and then that form.
pub open spec fn encode_string(chars: Seq<char>) -> Seq<u8> {
    encode_bytes(encode_utf8(chars))
}

/// A length-prefixed byte sequence that is UTF-8, as the string it encodes.
/// Bytes that are not UTF-8 are a formatting error.
pub open spec fn parse_string(bytes: Seq<u8>) -> Result<(Seq<char>, Seq<u8>), DecodeError> {
    match parse_bytes(bytes) {
        Err(e) => Err(e),
        Ok((raw, rest)) => if valid_utf8(raw) {
            Ok((decode_utf8(raw), rest))
        } else {
            Err(DecodeError::Formatting)
        },
    }
}

/// Decoding undoes encoding of a string whose UTF-8 form fits a `u32`.
pub proof fn lemma_string_round_trip(chars: Seq<char>, tail: Seq<u8>)
    requires
        encode_utf8(chars).len() <= LENGTH_MAX,
    ensures
        parse_string(encode_string(chars) + tail) == Ok::<(Seq<char>, Seq<u8>), DecodeError>(
            (chars, tail),
        ),
{
    lemma_bytes_round_trip(encode_utf8(chars), tail);
    vstd::utf8::encode_utf8_valid_utf8(chars);
    vstd::utf8::encode_utf8_decode_utf8(chars);
}

/// What is read as a string was written as one.
pub proof fn lemma_string_canonical(bytes: Seq<u8>)
    ensures
        parse_string(bytes) matches Ok((chars, rest)) ==> encode_utf8(chars).len() <= LENGTH_MAX
            && bytes == encode_string(chars) + rest,
{
    lemma_bytes_canonical(bytes);
    match parse_bytes(bytes) {
        Ok((raw, rest)) => {
            if valid_utf8(raw) {
                vstd::utf8::decode_utf8_encode_utf8(raw);
            }
        },
        Err(_) => {},
    }
}

/// Reading a string from a part of its encoding ends early.
pub proof fn lemma_string_truncated(chars: Seq<char>, k: int)
    requires
        encode_utf8(chars).len() <= LENGTH_MAX,
        0 <= k < encode_string(chars).len(),
    ensures
        parse_string(encode_string(chars).take(k)) == Err::<(Seq<char>, Seq<u8>), DecodeError>(
            DecodeError::EarlyEnd,
        ),
{
    lemma_bytes_truncated(encode_utf8(chars), k);
}

/// `String::from_utf8`: the string whose UTF-8 form is `bytes`. There is one
/// exactly where `bytes` are valid UTF-8.
#[verifier::external_body]
fn string_from_utf8(bytes: Vec<u8>) -> (r: Option<String>)
    ensures
        r is Some <==> valid_utf8(bytes@),
        r matches Some(text) ==> encode_utf8(text@) == bytes@,
{
    String::from_utf8(bytes).ok()
}

impl ToBytes for String {
    /// The UTF-8 form fits the length field.
    open spec fn encodable(value: Seq<char>) -> bool {
        length_fits(encode_utf8(value).len(), U32_SIZE as nat)
    }

    open spec fn encoding(value: Seq<char>) -> Seq<u8> {
        encode_string(value)
    }

    fn to_bytes(&self) -> (r: Result<Vec<u8>, EncodeError>) {
        let raw = self.as_str().as_bytes();
        if check_length(raw.len(), U32_SIZE).is_err() {
            return Err(EncodeError::OutOfMemory);
        }
        let mut out: Vec<u8> = Vec::new();
        write_bytes(&mut out, raw);
        Ok(out)
    }
}

impl FromBytes for String {
    open spec fn parse(bytes: Seq<u8>) -> Result<(Seq<char>, Seq<u8>), DecodeError> {
        parse_string(bytes)
    }

    fn from_bytes(bytes: &[u8]) -> (r: Result<(String, &[u8]), DecodeError>) {
        match read_bytes(bytes) {
            Err(e) => Err(e),
            Ok((raw, rest)) => match string_from_utf8(raw) {
                None => Err(DecodeError::Formatting),
                Some(text) => {
                    proof {
                        vstd::utf8::encode_utf8_decode_utf8(text@);
                    }
                    Ok((text, rest))
                },
            },
        }
    }
}

/// Decoding undoes encoding of a list of integers whose length fits a `u32`.
pub proof fn lemma_i32_list_round_trip(list: Seq<i32>, tail: Seq<u8>)
    requires
        list.len() <= LENGTH_MAX,
    ensures
        Vec::<i32>::parse(Vec::<i32>::encoding(list) + tail) == Ok::<
            (Seq<i32>, Seq<u8>),
            DecodeError,
        >((list, tail)),
{
    let encode = item_encoder::<i32>();
    let parse = item_parser::<i32>();
    assert forall|i: int, after: Seq<u8>| 0 <= i < list.len() implies #[trigger] parse(
        encode(list[i]) + after,
    ) == Ok::<(i32, Seq<u8>), DecodeError>((list[i], after)) by {
        lemma_i32_round_trip(list[i], after);
    }
    lemma_list_round_trip(encode, parse, list, tail);
}

/// Decoding undoes encoding of a list of strings that can be encoded.
pub proof fn lemma_string_list_round_trip(list: Seq<Seq<char>>, tail: Seq<u8>)
    requires
        Vec::<String>::encodable(list),
    ensures
        Vec::<String>::parse(Vec::<String>::encoding(list) + tail) == Ok::<
            (Seq<Seq<char>>, Seq<u8>),
            DecodeError,
        >((list, tail)),
{
    let encode = item_encoder::<String>();
    let parse = item_parser::<String>();
    assert forall|i: int, after: Seq<u8>| 0 <= i < list.len() implies #[trigger] parse(
        encode(list[i]) + after,
    ) == Ok::<(Seq<char>, Seq<u8>), DecodeError>((list[i], after)) by {
        assert(String::encodable(list[i]));
        lemma_string_round_trip(list[i], after);
    }
    lemma_list_round_trip(encode, parse, list, tail);
}

/// A list of integers takes four bytes for its length and four for each
/// integer.
pub proof fn lemma_i32_list_length(list: Seq<i32>)
    ensures
        Vec::<i32>::encoding(list).len() == 4 + 4 * list.len(),
{
    lemma_i32_items_length(list);
}

proof fn lemma_i32_items_length(list: Seq<i32>)
    ensures
        encode_items(item_encoder::<i32>(), list).len() == 4 * list.len(),
    decreases list.len(),
{
    if list.len() != 0 {
        lemma_i32_items_length(list.drop_first());
    }
}

/// What is read as a list of integers was written as one.
pub proof fn lemma_i32_list_canonical(bytes: Seq<u8>)
    ensures
        Vec::<i32>::parse(bytes) matches Ok((list, rest)) ==> list.len() <= LENGTH_MAX && bytes
            == Vec::<i32>::encoding(list) + rest,
{
    let encode = item_encoder::<i32>();
    let parse = item_parser::<i32>();
    assert forall|input: Seq<u8>| #[trigger]
        parse(input) matches Ok((item, rest)) ==> input == encode(item) + rest by {
        lemma_i32_canonical(input);
    }
    lemma_list_canonical(encode, parse, bytes);
}

/// What is read as a list of strings was written as one.
pub proof fn lemma_string_list_canonical(bytes: Seq<u8>)
    ensures
        Vec::<String>::parse(bytes) matches Ok((list, rest)) ==> list.len() <= LENGTH_MAX && bytes
            == Vec::<String>::encoding(list) + rest,
{
    let encode = item_encoder::<String>();
    let parse = item_parser::<String>();
    assert forall|input: Seq<u8>| #[trigger]
        parse(input) matches Ok((item, rest)) ==> input == encode(item) + rest by {
        lemma_string_canonical(input);
    }
    lemma_list_canonical(encode, parse, bytes);
}

/// Reading a list of integers from a part of its encoding ends early.
pub proof fn lemma_i32_list_truncated(list: Seq<i32>, k: int)
    requires
        list.len() <= LENGTH_MAX,
        0 <= k < Vec::<i32>::encoding(list).len(),
    ensures
        Vec::<i32>::parse(Vec::<i32>::encoding(list).take(k)) == Err::<
            (Seq<i32>, Seq<u8>),
            DecodeError,
        >(DecodeError::EarlyEnd),
{
    let encode = item_encoder::<i32>();
    let parse = item_parser::<i32>();
    assert forall|i: int, after: Seq<u8>| 0 <= i < list.len() implies #[trigger] parse(
        encode(list[i]) + after,
    ) == Ok::<(i32, Seq<u8>), DecodeError>((list[i], after)) by {
        lemma_i32_round_trip(list[i], after);
    }
    assert forall|i: int, j: int|
        0 <= i < list.len() && 0 <= j < encode(list[i]).len() implies #[trigger] parse(
        encode(list[i]).take(j),
    ) == Err::<(i32, Seq<u8>), DecodeError>(DecodeError::EarlyEnd) by {
        lemma_u32_truncated(i32_bits(list[i]), j);
    }
    lemma_list_truncated(encode, parse, list, k);
}

/// Reading a list of strings from a part of its encoding ends early.
pub proof fn lemma_string_list_truncated(list: Seq<Seq<char>>, k: int)
    requires
        Vec::<String>::encodable(list),
        0 <= k < Vec::<String>::encoding(list).len(),
    ensures
        Vec::<String>::parse(Vec::<String>::encoding(list).take(k)) == Err::<
            (Seq<Seq<char>>, Seq<u8>),
            DecodeError,
        >(DecodeError::EarlyEnd),
{
    let encode = item_encoder::<String>();
    let parse = item_parser::<String>();
    assert forall|i: int, after: Seq<u8>| 0 <= i < list.len() implies #[trigger] parse(
        encode(list[i]) + after,
    ) == Ok::<(Seq<char>, Seq<u8>), DecodeError>((list[i], after)) by {
        assert(String::encodable(list[i]));
        lemma_string_round_trip(list[i], after);
    }
    assert forall|i: int, j: int|
        0 <= i < list.len() && 0 <= j < encode(list[i]).len() implies #[trigger] parse(
        encode(list[i]).take(j),
    ) == Err::<(Seq<char>, Seq<u8>), DecodeError>(DecodeError::EarlyEnd) by {
        assert(String::encodable(list[i]));
        lemma_string_truncated(list[i], j);
    }
    lemma_list_truncated(encode, parse, list, k);
}

} // verus!
