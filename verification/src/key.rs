//! Keys of the global state, and the rights that a reference carries.
use crate::bytesrepr::encode_bytes;
use crate::bytesrepr::parse_bytes;
use crate::bytesrepr::parse_fixed;
use crate::bytesrepr::parse_u8;
use crate::bytesrepr::read_bytes;
use crate::bytesrepr::write_bytes;
use crate::bytesrepr::write_raw;
use crate::bytesrepr::DecodeError;
use crate::bytesrepr::EncodeError;
use crate::bytesrepr::FromBytes;
use crate::bytesrepr::ToBytes;
use crate::bytesrepr::N32;
use crate::bytesrepr::U32_SIZE;
use crate::contract_api::pointers::ContractPointer;
use crate::contract_api::pointers::UPointer;
use core::cmp::Ordering;
use vstd::prelude::*;

verus! {

/// What the holder of a reference may do with the value it refers to.
///
/// The rights form a partial order. `Eqv` is below all others.
/// `Read < ReadAdd < ReadWrite`; `Add` is below `ReadAdd`, `AddWrite` and
/// `ReadWrite`; `Write` is below `ReadWrite` and `AddWrite`. All other pairs
/// of different rights cannot be compared.
#[derive(PartialEq, Eq, Clone, Copy, Debug, Hash, Structural)]
pub enum AccessRights {
    Eqv,
    Read,
    Write,
    Add,
    ReadAdd,
    ReadWrite,
    AddWrite,
}

impl AccessRights {
    /// `self` is strictly below `other` in the partial order.
    pub open spec fn below(self, other: AccessRights) -> bool {
        match (self, other) {
            (AccessRights::Eqv, o) => o != AccessRights::Eqv,
            (AccessRights::Read, AccessRights::ReadAdd) => true,
            (AccessRights::Read, AccessRights::ReadWrite) => true,
            (AccessRights::ReadAdd, AccessRights::ReadWrite) => true,
            (AccessRights::Add, AccessRights::ReadAdd) => true,
            (AccessRights::Add, AccessRights::AddWrite) => true,
            (AccessRights::Add, AccessRights::ReadWrite) => true,
            (AccessRights::Write, AccessRights::ReadWrite) => true,
            (AccessRights::Write, AccessRights::AddWrite) => true,
            _ => false,
        }
    }

    /// How `self` stands to `other` in the partial order; `None` where the
    /// two cannot be compared.
    pub open spec fn partial_compare(self, other: AccessRights) -> Option<Ordering> {
        if self == other {
            Some(Ordering::Equal)
        } else if self.below(other) {
            Some(Ordering::Less)
        } else if other.below(self) {
            Some(Ordering::Greater)
        } else {
            None
        }
    }

    /// `self` is `other` or above it.
    pub open spec fn at_least(self, other: AccessRights) -> bool {
        self.partial_compare(other) matches Some(Ordering::Greater | Ordering::Equal)
    }

    /// The holder may read: the rights are `Read` or above it.
    pub open spec fn can_read(self) -> bool {
        self.at_least(AccessRights::Read)
    }

    /// The holder may write: the rights are `Write` or above it.
    pub open spec fn can_write(self) -> bool {
        self.at_least(AccessRights::Write)
    }

    /// The holder may add: the rights are `Add` or above it.
    pub open spec fn can_add(self) -> bool {
        self.at_least(AccessRights::Add)
    }

    /// The rights that allow what is asked for. Who may read and write may
    /// also add.
    pub open spec fn of_capabilities(read: bool, write: bool, add: bool) -> AccessRights {
        if read && write {
            AccessRights::ReadWrite
        } else if read && add {
            AccessRights::ReadAdd
        } else if write && add {
            AccessRights::AddWrite
        } else if read {
            AccessRights::Read
        } else if write {
            AccessRights::Write
        } else if add {
            AccessRights::Add
        } else {
            AccessRights::Eqv
        }
    }

    /// The rights of a holder who has both `self` and `other`: what either
    /// allows, the merged rights allow.
    pub open spec fn merge(self, other: AccessRights) -> AccessRights {
        AccessRights::of_capabilities(
            self.can_read() || other.can_read(),
            self.can_write() || other.can_write(),
            self.can_add() || other.can_add(),
        )
    }

    /// Everything that `other` allows, `self` allows too.
    pub open spec fn covers(self, other: AccessRights) -> bool {
        &&& other.can_read() ==> self.can_read()
        &&& other.can_write() ==> self.can_write()
        &&& other.can_add() ==> self.can_add()
    }

    /// The byte that stands for `self` in an encoding.
    pub open spec fn tag(self) -> u8 {
        match self {
            AccessRights::Eqv => 1,
            AccessRights::Read => 2,
            AccessRights::Add => 3,
            AccessRights::Write => 4,
            AccessRights::ReadAdd => 5,
            AccessRights::ReadWrite => 6,
            AccessRights::AddWrite => 7,
        }
    }

    /// The rights that `tag` stands for, if any.
    pub open spec fn from_tag(tag: u8) -> Option<AccessRights> {
        if tag == 1 {
            Some(AccessRights::Eqv)
        } else if tag == 2 {
            Some(AccessRights::Read)
        } else if tag == 3 {
            Some(AccessRights::Add)
        } else if tag == 4 {
            Some(AccessRights::Write)
        } else if tag == 5 {
            Some(AccessRights::ReadAdd)
        } else if tag == 6 {
            Some(AccessRights::ReadWrite)
        } else if tag == 7 {
            Some(AccessRights::AddWrite)
        } else {
            None
        }
    }

    /// Whether the holder may read.
    pub fn is_readable(self) -> (r: bool)
        ensures
            r == self.can_read(),
    {
        self >= AccessRights::Read
    }

    /// Whether the holder may write.
    pub fn is_writeable(self) -> (r: bool)
        ensures
            r == self.can_write(),
    {
        self >= AccessRights::Write
    }

    /// Whether the holder may add.
    pub fn is_addable(self) -> (r: bool)
        ensures
            r == self.can_add(),
    {
        self >= AccessRights::Add
    }
}

impl PartialOrd for AccessRights {
    fn partial_cmp(&self, other: &AccessRights) -> (r: Option<Ordering>) {
        match (*self, *other) {
            (AccessRights::Eqv, AccessRights::Eqv) => Some(Ordering::Equal),
            (AccessRights::Eqv, _) => Some(Ordering::Less),
            (_, AccessRights::Eqv) => Some(Ordering::Greater),
            (AccessRights::Read, AccessRights::Write) => None,
            (AccessRights::Write, AccessRights::Read) => None,
            (AccessRights::Read, AccessRights::Add) => None,
            (AccessRights::Add, AccessRights::Read) => None,
            (AccessRights::Read, AccessRights::ReadAdd) => Some(Ordering::Less),
            (AccessRights::ReadAdd, AccessRights::Read) => Some(Ordering::Greater),
            (AccessRights::Read, AccessRights::ReadWrite) => Some(Ordering::Less),
            (AccessRights::ReadWrite, AccessRights::Read) => Some(Ordering::Greater),
            (AccessRights::Write, AccessRights::Add) => None,
            (AccessRights::Add, AccessRights::Write) => None,
            (AccessRights::Read, AccessRights::AddWrite) => None,
            (AccessRights::Add, AccessRights::AddWrite) => Some(Ordering::Less),
            (AccessRights::Write, AccessRights::AddWrite) => Some(Ordering::Less),
            (AccessRights::ReadAdd, AccessRights::AddWrite) => None,
            (AccessRights::ReadWrite, AccessRights::AddWrite) => None,
            (AccessRights::AddWrite, AccessRights::Read) => None,
            (AccessRights::AddWrite, AccessRights::Add) => Some(Ordering::Greater),
            (AccessRights::AddWrite, AccessRights::Write) => Some(Ordering::Greater),
            (AccessRights::AddWrite, AccessRights::ReadAdd) => None,
            (AccessRights::AddWrite, AccessRights::ReadWrite) => None,
            (AccessRights::Write, AccessRights::ReadWrite) => Some(Ordering::Less),
            (AccessRights::ReadWrite, AccessRights::Write) => Some(Ordering::Greater),
            (AccessRights::Add, AccessRights::ReadAdd) => Some(Ordering::Less),
            (AccessRights::ReadAdd, AccessRights::Add) => Some(Ordering::Greater),
            // Reading and writing together can do what adding does.
            (AccessRights::Add, AccessRights::ReadWrite) => Some(Ordering::Less),
            (AccessRights::ReadWrite, AccessRights::Add) => Some(Ordering::Greater),
            // Adding cannot undo, so reading and adding together do not
            // amount to writing.
            (AccessRights::Write, AccessRights::ReadAdd) => None,
            (AccessRights::ReadAdd, AccessRights::Write) => None,
            (AccessRights::ReadAdd, AccessRights::ReadWrite) => Some(Ordering::Less),
            (AccessRights::ReadWrite, AccessRights::ReadAdd) => Some(Ordering::Greater),
            (a, b) => {
                if a == b {
                    Some(Ordering::Equal)
                } else {
                    None
                }
            },
        }
    }
}

impl vstd::std_specs::cmp::PartialOrdSpecImpl for AccessRights {
    open spec fn obeys_partial_cmp_spec() -> bool {
        true
    }

    open spec fn partial_cmp_spec(&self, other: &AccessRights) -> Option<Ordering> {
        self.partial_compare(*other)
    }
}

impl AccessRights {
    /// The rights of a holder who has both `self` and `other`.
    pub fn add(self, other: AccessRights) -> (r: AccessRights)
        ensures
            r == self.merge(other),
    {
        match (self, other) {
            (AccessRights::Eqv, _) => other,
            (_, AccessRights::Eqv) => self,
            (AccessRights::Read, AccessRights::Read) => AccessRights::Read,
            (AccessRights::Write, AccessRights::Write) => AccessRights::Write,
            (AccessRights::Add, AccessRights::Add) => AccessRights::Add,
            (AccessRights::ReadAdd, AccessRights::ReadAdd) => AccessRights::ReadAdd,
            (AccessRights::ReadWrite, AccessRights::ReadWrite) => AccessRights::ReadWrite,
            (AccessRights::AddWrite, AccessRights::AddWrite) => AccessRights::AddWrite,
            (AccessRights::Read, AccessRights::Write) | (AccessRights::Write, AccessRights::Read) => {
                AccessRights::ReadWrite
            },
            (AccessRights::Read, AccessRights::Add) | (AccessRights::Add, AccessRights::Read) => {
                AccessRights::ReadAdd
            },
            (AccessRights::Write, AccessRights::Add) | (AccessRights::Add, AccessRights::Write) => {
                AccessRights::AddWrite
            },
            (AccessRights::ReadAdd, AccessRights::AddWrite)
            | (AccessRights::AddWrite, AccessRights::ReadAdd) => AccessRights::ReadWrite,
            (AccessRights::ReadWrite, AccessRights::AddWrite)
            | (AccessRights::AddWrite, AccessRights::ReadWrite) => AccessRights::ReadWrite,
            (AccessRights::Read, AccessRights::AddWrite)
            | (AccessRights::AddWrite, AccessRights::Read) => AccessRights::ReadWrite,
            (AccessRights::Write, AccessRights::ReadAdd)
            | (AccessRights::ReadAdd, AccessRights::Write) => AccessRights::ReadWrite,
            (AccessRights::Add, AccessRights::ReadWrite)
            | (AccessRights::ReadWrite, AccessRights::Add) => AccessRights::ReadWrite,
            (AccessRights::ReadAdd, AccessRights::ReadWrite)
            | (AccessRights::ReadWrite, AccessRights::ReadAdd) => AccessRights::ReadWrite,
            (AccessRights::Read, AccessRights::ReadAdd)
            | (AccessRights::ReadAdd, AccessRights::Read) => AccessRights::ReadAdd,
            (AccessRights::Read, AccessRights::ReadWrite)
            | (AccessRights::ReadWrite, AccessRights::Read) => AccessRights::ReadWrite,
            (AccessRights::Write, AccessRights::ReadWrite)
            | (AccessRights::ReadWrite, AccessRights::Write) => AccessRights::ReadWrite,
            (AccessRights::Write, AccessRights::AddWrite)
            | (AccessRights::AddWrite, AccessRights::Write) => AccessRights::AddWrite,
            (AccessRights::Add, AccessRights::ReadAdd)
            | (AccessRights::ReadAdd, AccessRights::Add) => AccessRights::ReadAdd,
            (AccessRights::Add, AccessRights::AddWrite)
            | (AccessRights::AddWrite, AccessRights::Add) => AccessRights::AddWrite,
        }
    }
}

/// `Eqv` is the identity of merging.
pub proof fn lemma_merge_identity(a: AccessRights)
    ensures
        AccessRights::Eqv.merge(a) == a,
        a.merge(AccessRights::Eqv) == a,
{
}

/// Merging does not depend on the order of its operands.
pub proof fn lemma_merge_commutative(a: AccessRights, b: AccessRights)
    ensures
        a.merge(b) == b.merge(a),
{
}

/// Merging rights with themselves changes nothing.
pub proof fn lemma_merge_idempotent(a: AccessRights)
    ensures
        a.merge(a) == a,
{
}

/// Merging three rights does not depend on which two are merged first.
pub proof fn lemma_merge_associative(a: AccessRights, b: AccessRights, c: AccessRights)
    ensures
        a.merge(b).merge(c) == a.merge(b.merge(c)),
{
}

/// Merging widens. Of two rights that can be compared, the merge is the
/// greater. Of two that cannot, the merge absorbs both: merging either into
/// it again changes nothing.
pub proof fn lemma_merge_widens(a: AccessRights, b: AccessRights)
    ensures
        a.partial_compare(b) == Some(Ordering::Greater) ==> a.merge(b) == a,
        a.partial_compare(b) == Some(Ordering::Less) ==> a.merge(b) == b,
        a.partial_compare(b) == Some(Ordering::Equal) ==> a.merge(b) == a && a.merge(b) == b,
        a.partial_compare(b) is None ==> a.merge(b).merge(a) == a.merge(b) && a.merge(b).merge(b)
            == a.merge(b),
{
}

/// `Eqv` is below or equal to all rights.
pub proof fn lemma_eqv_is_least(r: AccessRights)
    ensures
        r.at_least(AccessRights::Eqv),
        AccessRights::Eqv.partial_compare(r) matches Some(Ordering::Less | Ordering::Equal),
{
}

/// The comparison is a partial order: it is reflexive, what it says of a
/// pair is the reverse of what it says of the swapped pair, and it is
/// transitive.
pub proof fn lemma_partial_order(a: AccessRights, b: AccessRights, c: AccessRights)
    ensures
        a.partial_compare(a) == Some(Ordering::Equal),
        a.partial_compare(b) == Some(Ordering::Equal) <==> a == b,
        a.partial_compare(b) == Some(Ordering::Less) <==> b.partial_compare(a) == Some(
            Ordering::Greater,
        ),
        a.partial_compare(b) is None <==> b.partial_compare(a) is None,
        a.below(b) && b.below(c) ==> a.below(c),
{
}

/// Rights are above other rights exactly where they allow all that the others
/// allow, with one exception: `ReadWrite` allows all that `AddWrite` allows,
/// and the two cannot be compared.
pub proof fn lemma_order_by_capabilities(a: AccessRights, b: AccessRights)
    ensures
        a.at_least(b) <==> a.covers(b) && !(a == AccessRights::ReadWrite && b
            == AccessRights::AddWrite),
{
}

/// The merge of two rights allows what either allows, and is the least to do
/// so: all rights that allow what both allow, allow what the merge allows.
pub proof fn lemma_merge_is_least_cover(a: AccessRights, b: AccessRights, c: AccessRights)
    ensures
        a.merge(b).covers(a),
        a.merge(b).covers(b),
        c.covers(a) && c.covers(b) ==> c.covers(a.merge(b)),
{
}

/// Where rights exist that are at least both operands, the merge is at least
/// both, and none of those rights is strictly below it.
pub proof fn lemma_merge_is_minimal_upper_bound(a: AccessRights, b: AccessRights, c: AccessRights)
    requires
        c.at_least(a),
        c.at_least(b),
    ensures
        a.merge(b).at_least(a),
        a.merge(b).at_least(b),
        !c.below(a.merge(b)),
{
}

/// The merge is below all rights that are at least both operands, with one
/// exception: `Write` and `Add` are both below `ReadWrite` and `AddWrite`,
/// which cannot be compared, and their merge is `AddWrite`.
pub proof fn lemma_merge_is_least_upper_bound(a: AccessRights, b: AccessRights, c: AccessRights)
    requires
        c.at_least(a),
        c.at_least(b),
        !(a.merge(b) == AccessRights::AddWrite && c == AccessRights::ReadWrite),
    ensures
        c.at_least(a.merge(b)),
{
}

/// The rights are told apart by what they allow.
pub proof fn lemma_capabilities_determine_rights(a: AccessRights)
    ensures
        AccessRights::of_capabilities(a.can_read(), a.can_write(), a.can_add()) == a,
{
}

/// Each of the rights has a tag between 1 and 7, and the tag determines it.
pub proof fn lemma_tags(a: AccessRights)
    ensures
        1 <= a.tag() <= 7,
        AccessRights::from_tag(a.tag()) == Some(a),
{
}

/// Only the tags 1 to 7 stand for rights.
pub proof fn lemma_unknown_rights_tag(tag: u8)
    ensures
        AccessRights::from_tag(tag) is None <==> tag < 1 || tag > 7,
        AccessRights::from_tag(tag) matches Some(a) ==> a.tag() == tag,
{
}

impl View for AccessRights {
    type V = AccessRights;

    open spec fn view(&self) -> AccessRights {
        *self
    }
}

impl DeepView for AccessRights {
    type V = AccessRights;

    open spec fn deep_view(&self) -> AccessRights {
        *self
    }
}

/// One tag byte, and the rights that it stands for. A byte that is no tag is
/// a formatting error.
pub open spec fn parse_rights(bytes: Seq<u8>) -> Result<(AccessRights, Seq<u8>), DecodeError> {
    match parse_u8(bytes) {
        Err(e) => Err(e),
        Ok((tag, rest)) => match AccessRights::from_tag(tag) {
            Some(rights) => Ok((rights, rest)),
            None => Err(DecodeError::Formatting),
        },
    }
}

impl ToBytes for AccessRights {
    open spec fn encodable(value: AccessRights) -> bool {
        true
    }

    /// The tag, in one byte.
    open spec fn encoding(value: AccessRights) -> Seq<u8> {
        seq![value.tag()]
    }

    fn to_bytes(&self) -> (r: Result<Vec<u8>, EncodeError>) {
        match self {
            AccessRights::Eqv => 1u8.to_bytes(),
            AccessRights::Read => 2u8.to_bytes(),
            AccessRights::Add => 3u8.to_bytes(),
            AccessRights::Write => 4u8.to_bytes(),
            AccessRights::ReadAdd => 5u8.to_bytes(),
            AccessRights::ReadWrite => 6u8.to_bytes(),
            AccessRights::AddWrite => 7u8.to_bytes(),
        }
    }
}

impl FromBytes for AccessRights {
    open spec fn parse(bytes: Seq<u8>) -> Result<(AccessRights, Seq<u8>), DecodeError> {
        parse_rights(bytes)
    }

    fn from_bytes(bytes: &[u8]) -> (r: Result<(AccessRights, &[u8]), DecodeError>) {
        let (id, rest) = match u8::from_bytes(bytes) {
            Err(e) => {
                return Err(e);
            },
            Ok(pair) => pair,
        };
        let rights = match id {
            1 => AccessRights::Eqv,
            2 => AccessRights::Read,
            3 => AccessRights::Add,
            4 => AccessRights::Write,
            5 => AccessRights::ReadAdd,
            6 => AccessRights::ReadWrite,
            7 => AccessRights::AddWrite,
            _ => {
                return Err(DecodeError::Formatting);
            },
        };
        Ok((rights, rest))
    }
}

/// Decoding undoes encoding of rights, whatever follows the tag. With
/// nothing behind the tag, nothing is left over.
pub proof fn lemma_rights_round_trip(rights: AccessRights, tail: Seq<u8>)
    ensures
        parse_rights(AccessRights::encoding(rights) + tail) == Ok::<
            (AccessRights, Seq<u8>),
            DecodeError,
        >((rights, tail)),
        parse_rights(AccessRights::encoding(rights)) == Ok::<(AccessRights, Seq<u8>), DecodeError>(
            (rights, Seq::empty()),
        ),
{
    let bytes = AccessRights::encoding(rights) + tail;
    assert(bytes[0] == rights.tag());
    assert(bytes.skip(1) =~= tail);
    assert(AccessRights::encoding(rights).skip(1) =~= Seq::<u8>::empty());
}

/// What is read as rights was written as rights: the input is the tag and
/// then the bytes that are left.
pub proof fn lemma_rights_canonical(bytes: Seq<u8>)
    ensures
        parse_rights(bytes) matches Ok((rights, rest)) ==> bytes == AccessRights::encoding(rights)
            + rest,
{
    match parse_rights(bytes) {
        Ok((rights, rest)) => {
            assert(bytes =~= seq![rights.tag()] + rest);
        },
        Err(_) => {},
    }
}

/// Bytes that do not start with the tag of some rights are not read as
/// rights.
pub proof fn lemma_rights_tag_rejected(bytes: Seq<u8>)
    requires
        bytes.len() > 0,
        bytes[0] < 1 || bytes[0] > 7,
    ensures
        parse_rights(bytes) == Err::<(AccessRights, Seq<u8>), DecodeError>(
            DecodeError::Formatting,
        ),
{
}

/// The length of the identifier of a hash or a reference.
pub const KEY_SIZE: usize = 32;

/// The tag of an account key.
pub const ACCOUNT_ID: u8 = 0;

/// The tag of a hash key.
pub const HASH_ID: u8 = 1;

/// The tag of a reference.
pub const UREF_ID: u8 = 2;

/// The length of an account's identifier.
pub const ACCOUNT_ID_SIZE: usize = 20;

/// The number of bytes of the tag of a key.
pub const KEY_ID_SIZE: usize = 1;

/// The number of bytes of encoded rights.
pub const ACCESS_RIGHTS_SIZE: usize = 1;

/// An upper bound on the length of an encoded key.
pub const UREF_SIZE: usize = U32_SIZE + N32 + KEY_ID_SIZE + ACCESS_RIGHTS_SIZE;

/// A place in the global state.
///
/// Two keys are equal where they are of one kind and have one identifier
/// and, for references, the same rights. The order of keys is coarser: it
/// leaves the rights out.
#[derive(Eq, Clone, Copy, Debug, Hash)]
pub enum Key {
    /// An account, by its identifier.
    Account([u8; 20]),
    /// A value that is found by its hash.
    Hash([u8; 32]),
    /// A reference that cannot be forged, with what its holder may do.
    URef([u8; 32], AccessRights),
}

/// What a key stands for: its kind, its identifier as a byte sequence, and
/// for a reference its rights.
pub enum KeyView {
    Account(Seq<u8>),
    Hash(Seq<u8>),
    URef(Seq<u8>, AccessRights),
}

impl KeyView {
    /// The identifier has the length that the kind of key asks for.
    pub open spec fn wf(self) -> bool {
        match self {
            KeyView::Account(id) => id.len() == ACCOUNT_ID_SIZE,
            KeyView::Hash(id) => id.len() == KEY_SIZE,
            KeyView::URef(id, _) => id.len() == KEY_SIZE,
        }
    }

    /// The tag of the key's kind. Keys of different kinds are ordered by it.
    pub open spec fn tag(self) -> u8 {
        match self {
            KeyView::Account(_) => ACCOUNT_ID,
            KeyView::Hash(_) => HASH_ID,
            KeyView::URef(_, _) => UREF_ID,
        }
    }

    /// The identifier of the key.
    pub open spec fn id(self) -> Seq<u8> {
        match self {
            KeyView::Account(id) => id,
            KeyView::Hash(id) => id,
            KeyView::URef(id, _) => id,
        }
    }
}

impl View for Key {
    type V = KeyView;

    open spec fn view(&self) -> KeyView {
        match self {
            Key::Account(id) => KeyView::Account(id@),
            Key::Hash(id) => KeyView::Hash(id@),
            Key::URef(id, rights) => KeyView::URef(id@, *rights),
        }
    }
}

impl DeepView for Key {
    type V = KeyView;

    open spec fn deep_view(&self) -> KeyView {
        self@
    }
}

/// The tag of the key's kind, and then: for an account, the identifier
/// behind its length; for a hash, the identifier as it stands; for a
/// reference, the identifier as it stands and the tag of the rights.
pub open spec fn encode_key(key: KeyView) -> Seq<u8> {
    match key {
        KeyView::Account(id) => seq![ACCOUNT_ID] + encode_bytes(id),
        KeyView::Hash(id) => seq![HASH_ID] + id,
        KeyView::URef(id, rights) => seq![UREF_ID] + id + seq![rights.tag()],
    }
}

/// The key at the front of `bytes`. An unknown tag is a formatting error,
/// and so is an account's identifier of another length than 20.
pub open spec fn parse_key(bytes: Seq<u8>) -> Result<(KeyView, Seq<u8>), DecodeError> {
    match parse_u8(bytes) {
        Err(e) => Err(e),
        Ok((tag, rest)) => if tag == ACCOUNT_ID {
            match parse_bytes(rest) {
                Err(e) => Err(e),
                Ok((id, rest)) => if id.len() == ACCOUNT_ID_SIZE {
                    Ok((KeyView::Account(id), rest))
                } else {
                    Err(DecodeError::Formatting)
                },
            }
        } else if tag == HASH_ID {
            match parse_fixed(rest, KEY_SIZE as nat) {
                Err(e) => Err(e),
                Ok((id, rest)) => Ok((KeyView::Hash(id), rest)),
            }
        } else if tag == UREF_ID {
            match parse_fixed(rest, KEY_SIZE as nat) {
                Err(e) => Err(e),
                Ok((id, rest)) => match parse_rights(rest) {
                    Err(e) => Err(e),
                    Ok((rights, rest)) => Ok((KeyView::URef(id, rights), rest)),
                },
            }
        } else {
            Err(DecodeError::Formatting)
        },
    }
}

impl ToBytes for Key {
    open spec fn encodable(value: KeyView) -> bool {
        true
    }

    open spec fn encoding(value: KeyView) -> Seq<u8> {
        encode_key(value)
    }

    fn to_bytes(&self) -> (r: Result<Vec<u8>, EncodeError>) {
        match self {
            Key::Account(addr) => {
                let mut result: Vec<u8> = Vec::with_capacity(25);
                result.push(ACCOUNT_ID);
                write_bytes(&mut result, addr.as_slice());
                Ok(result)
            },
            Key::Hash(hash) => {
                let mut result: Vec<u8> = Vec::with_capacity(33);
                result.push(HASH_ID);
                write_raw(&mut result, hash.as_slice());
                Ok(result)
            },
            Key::URef(rf, access_rights) => {
                let mut result: Vec<u8> = Vec::with_capacity(UREF_SIZE);
                result.push(UREF_ID);
                write_raw(&mut result, rf.as_slice());
                let mut rights = match access_rights.to_bytes() {
                    Ok(bytes) => bytes,
                    Err(e) => {
                        return Err(e);
                    },
                };
                result.append(&mut rights);
                Ok(result)
            },
        }
    }
}

impl FromBytes for Key {
    open spec fn parse(bytes: Seq<u8>) -> Result<(KeyView, Seq<u8>), DecodeError> {
        parse_key(bytes)
    }

    fn from_bytes(bytes: &[u8]) -> (r: Result<(Key, &[u8]), DecodeError>) {
        let (id, rest) = match u8::from_bytes(bytes) {
            Err(e) => {
                return Err(e);
            },
            Ok(pair) => pair,
        };
        match id {
            ACCOUNT_ID => {
                let (addr, rem) = match read_bytes(rest) {
                    Err(e) => {
                        return Err(e);
                    },
                    Ok(pair) => pair,
                };
                if addr.len() != ACCOUNT_ID_SIZE {
                    Err(DecodeError::Formatting)
                } else {
                    match <[u8; 20]>::from_bytes(addr.as_slice()) {
                        Err(e) => Err(e),
                        Ok((addr_array, _)) => {
                            assert(addr_array@ =~= addr_array.deep_view());
                            assert(addr@.take(20) =~= addr@);
                            Ok((Key::Account(addr_array), rem))
                        },
                    }
                }
            },
            HASH_ID => {
                match <[u8; 32]>::from_bytes(rest) {
                    Err(e) => Err(e),
                    Ok((hash, rem)) => {
                        assert(hash@ =~= hash.deep_view());
                        Ok((Key::Hash(hash), rem))
                    },
                }
            },
            UREF_ID => {
                let (rf, rem) = match <[u8; 32]>::from_bytes(rest) {
                    Err(e) => {
                        return Err(e);
                    },
                    Ok(pair) => pair,
                };
                assert(rf@ =~= rf.deep_view());
                match AccessRights::from_bytes(rem) {
                    Err(e) => Err(e),
                    Ok((access_right, rem2)) => Ok((Key::URef(rf, access_right), rem2)),
                }
            },
            _ => Err(DecodeError::Formatting),
        }
    }
}

/// An encoded key takes at most `UREF_SIZE` bytes.
pub proof fn lemma_key_encoding_length(key: KeyView)
    requires
        key.wf(),
    ensures
        encode_key(key).len() <= UREF_SIZE,
        key is Account ==> encode_key(key).len() == 25,
        key is Hash ==> encode_key(key).len() == 33,
        key is URef ==> encode_key(key).len() == 34,
{
}

/// Decoding undoes encoding of a key, whatever follows the key. With nothing
/// behind the key, nothing is left over.
pub proof fn lemma_key_round_trip(key: KeyView, tail: Seq<u8>)
    requires
        key.wf(),
    ensures
        parse_key(encode_key(key) + tail) == Ok::<(KeyView, Seq<u8>), DecodeError>((key, tail)),
        parse_key(encode_key(key)) == Ok::<(KeyView, Seq<u8>), DecodeError>((key, Seq::empty())),
{
    lemma_key_round_trip_before(key, tail);
    lemma_key_round_trip_before(key, Seq::empty());
    assert(encode_key(key) + Seq::<u8>::empty() =~= encode_key(key));
}

proof fn lemma_key_round_trip_before(key: KeyView, tail: Seq<u8>)
    requires
        key.wf(),
    ensures
        parse_key(encode_key(key) + tail) == Ok::<(KeyView, Seq<u8>), DecodeError>((key, tail)),
{
    let bytes = encode_key(key) + tail;
    assert(bytes[0] == key.tag());
    match key {
        KeyView::Account(id) => {
            assert(bytes.skip(1) =~= encode_bytes(id) + tail);
            crate::bytesrepr::lemma_bytes_round_trip(id, tail);
        },
        KeyView::Hash(id) => {
            assert(bytes.skip(1) =~= id + tail);
            assert((id + tail).take(32) =~= id);
            assert((id + tail).skip(32) =~= tail);
        },
        KeyView::URef(id, rights) => {
            let after = seq![rights.tag()] + tail;
            assert(bytes.skip(1) =~= id + after);
            assert((id + after).take(32) =~= id);
            assert((id + after).skip(32) =~= after);
            lemma_rights_round_trip(rights, tail);
        },
    }
}

/// Reading a key from a part of its encoding ends early.
pub proof fn lemma_key_truncated(key: KeyView, k: int)
    requires
        key.wf(),
        0 <= k < encode_key(key).len(),
    ensures
        parse_key(encode_key(key).take(k)) == Err::<(KeyView, Seq<u8>), DecodeError>(
            DecodeError::EarlyEnd,
        ),
{
    let part = encode_key(key).take(k);
    if k >= 1 {
        assert(part[0] == key.tag());
        match key {
            KeyView::Account(id) => {
                assert(part.skip(1) =~= encode_bytes(id).take(k - 1));
                crate::bytesrepr::lemma_bytes_truncated(id, k - 1);
            },
            KeyView::Hash(id) => {
                assert(part.skip(1) =~= id.take(k - 1));
            },
            KeyView::URef(id, rights) => {
                if k < 33 {
                    assert(part.skip(1) =~= id.take(k - 1));
                } else {
                    assert(part.skip(1) =~= id);
                    assert(id.take(32) =~= id);
                    assert(id.skip(32) =~= Seq::<u8>::empty());
                }
            },
        }
    }
}

/// The encoding delimits itself: where the encoding of one key goes on as
/// the encoding of another does, the two are one key and nothing follows.
pub proof fn lemma_key_self_delimiting(a: KeyView, b: KeyView, tail: Seq<u8>)
    requires
        a.wf(),
        b.wf(),
        encode_key(a) + tail == encode_key(b),
    ensures
        a == b,
        tail == Seq::<u8>::empty(),
{
    lemma_key_round_trip(a, tail);
    lemma_key_round_trip(b, Seq::empty());
}

/// What is read as a key is a well-formed key and was written as that key:
/// the input is the encoding of the key and then the bytes that are left.
pub proof fn lemma_key_canonical(bytes: Seq<u8>)
    ensures
        parse_key(bytes) matches Ok((key, rest)) ==> key.wf() && bytes == encode_key(key) + rest,
{
    match parse_u8(bytes) {
        Err(_) => {},
        Ok((tag, body)) => {
            assert(bytes =~= seq![tag] + body);
            if tag == ACCOUNT_ID {
                crate::bytesrepr::lemma_bytes_canonical(body);
                match parse_bytes(body) {
                    Ok((id, rest)) => {
                        assert(bytes =~= seq![tag] + encode_bytes(id) + rest);
                    },
                    Err(_) => {},
                }
            } else if tag == HASH_ID {
                crate::bytesrepr::lemma_fixed_canonical(body, KEY_SIZE as nat);
                match parse_fixed(body, KEY_SIZE as nat) {
                    Ok((id, rest)) => {
                        assert(bytes =~= seq![tag] + id + rest);
                    },
                    Err(_) => {},
                }
            } else if tag == UREF_ID {
                crate::bytesrepr::lemma_fixed_canonical(body, KEY_SIZE as nat);
                match parse_fixed(body, KEY_SIZE as nat) {
                    Ok((id, after)) => {
                        lemma_rights_canonical(after);
                        match parse_rights(after) {
                            Ok((rights, rest)) => {
                                assert(bytes =~= seq![tag] + id + seq![rights.tag()] + rest);
                            },
                            Err(_) => {},
                        }
                    },
                    Err(_) => {},
                }
            }
        },
    }
}

/// Decoding undoes encoding of a list of well-formed keys whose length fits
/// the length field.
pub proof fn lemma_key_list_round_trip(keys: Seq<KeyView>, tail: Seq<u8>)
    requires
        Vec::<Key>::encodable(keys),
        forall|i: int| 0 <= i < keys.len() ==> (#[trigger] keys[i]).wf(),
    ensures
        Vec::<Key>::parse(Vec::<Key>::encoding(keys) + tail) == Ok::<
            (Seq<KeyView>, Seq<u8>),
            DecodeError,
        >((keys, tail)),
{
    let encode = crate::bytesrepr::item_encoder::<Key>();
    let parse = crate::bytesrepr::item_parser::<Key>();
    assert forall|i: int, after: Seq<u8>| 0 <= i < keys.len() implies #[trigger] parse(
        encode(keys[i]) + after,
    ) == Ok::<(KeyView, Seq<u8>), DecodeError>((keys[i], after)) by {
        lemma_key_round_trip(keys[i], after);
    }
    crate::bytesrepr::lemma_list_round_trip(encode, parse, keys, tail);
}

/// What is read as a list of keys was written as that list.
pub proof fn lemma_key_list_canonical(bytes: Seq<u8>)
    ensures
        Vec::<Key>::parse(bytes) matches Ok((keys, rest)) ==> bytes == Vec::<Key>::encoding(keys)
            + rest,
{
    let encode = crate::bytesrepr::item_encoder::<Key>();
    let parse = crate::bytesrepr::item_parser::<Key>();
    assert forall|input: Seq<u8>| #[trigger]
        parse(input) matches Ok((item, rest)) ==> input == encode(item) + rest by {
        lemma_key_canonical(input);
    }
    crate::bytesrepr::lemma_list_canonical(encode, parse, bytes);
}

/// Bytes that do not start with the tag of a kind of key are not read as a
/// key.
pub proof fn lemma_key_tag_rejected(bytes: Seq<u8>)
    requires
        bytes.len() > 0,
        bytes[0] > 2,
    ensures
        parse_key(bytes) == Err::<(KeyView, Seq<u8>), DecodeError>(DecodeError::Formatting),
{
}

/// The view of a key is well formed.
pub proof fn lemma_key_view_wf(key: Key)
    ensures
        key@.wf(),
{
}

/// How `a` stands to `b` in the order of a dictionary: negative where `a`
/// comes first, positive where `b` does, zero where the two are equal. The
/// first place at which the two differ decides; a sequence comes before its
/// extensions.
pub open spec fn lexicographic(a: Seq<u8>, b: Seq<u8>) -> int
    decreases a.len(),
{
    if a.len() == 0 {
        if b.len() == 0 {
            0
        } else {
            -1
        }
    } else if b.len() == 0 {
        1
    } else if a[0] < b[0] {
        -1
    } else if a[0] > b[0] {
        1
    } else {
        lexicographic(a.drop_first(), b.drop_first())
    }
}

/// Decides `lexicographic` for two byte slices.
pub fn lexicographic_sign(a: &[u8], b: &[u8]) -> (r: i8)
    ensures
        r == lexicographic(a@, b@),
{
    let mut i: usize = 0;
    assert(a@.skip(0) =~= a@);
    assert(b@.skip(0) =~= b@);
    while i < a.len() && i < b.len()
        invariant
            i <= a.len(),
            i <= b.len(),
            lexicographic(a@, b@) == lexicographic(a@.skip(i as int), b@.skip(i as int)),
        decreases a.len() - i,
    {
        if a[i] < b[i] {
            return -1;
        }
        if a[i] > b[i] {
            return 1;
        }
        proof {
            assert(a@.skip(i as int).drop_first() =~= a@.skip(i + 1));
            assert(b@.skip(i as int).drop_first() =~= b@.skip(i + 1));
        }
        i += 1;
    }
    if i < b.len() {
        -1
    } else if i < a.len() {
        1
    } else {
        0
    }
}

/// Whether `a` and `b` hold the same bytes.
pub fn same_bytes(a: &[u8], b: &[u8]) -> (r: bool)
    ensures
        r == (a@ == b@),
{
    proof {
        lemma_lexicographic_equal(a@, b@);
    }
    lexicographic_sign(a, b) == 0
}

/// Two sequences are equal in the order of a dictionary only where they are
/// the same sequence.
pub proof fn lemma_lexicographic_equal(a: Seq<u8>, b: Seq<u8>)
    ensures
        lexicographic(a, b) == 0 <==> a == b,
    decreases a.len(),
{
    if a.len() == 0 || b.len() == 0 {
        if a.len() == 0 && b.len() == 0 {
            assert(a =~= b);
        }
    } else {
        lemma_lexicographic_equal(a.drop_first(), b.drop_first());
        if a[0] == b[0] && a.drop_first() == b.drop_first() {
            assert(a =~= seq![a[0]] + a.drop_first());
            assert(b =~= seq![b[0]] + b.drop_first());
        }
    }
}

/// Swapping the two sequences swaps the sign.
pub proof fn lemma_lexicographic_swap(a: Seq<u8>, b: Seq<u8>)
    ensures
        lexicographic(a, b) == -lexicographic(b, a),
    decreases a.len(),
{
    if a.len() != 0 && b.len() != 0 {
        lemma_lexicographic_swap(a.drop_first(), b.drop_first());
    }
}

/// The order of a dictionary is transitive.
pub proof fn lemma_lexicographic_transitive(a: Seq<u8>, b: Seq<u8>, c: Seq<u8>)
    ensures
        lexicographic(a, b) <= 0 && lexicographic(b, c) <= 0 ==> lexicographic(a, c) <= 0,
        lexicographic(a, b) <= 0 && lexicographic(b, c) < 0 ==> lexicographic(a, c) < 0,
        lexicographic(a, b) < 0 && lexicographic(b, c) <= 0 ==> lexicographic(a, c) < 0,
    decreases a.len(),
{
    if a.len() != 0 && b.len() != 0 && c.len() != 0 {
        lemma_lexicographic_transitive(a.drop_first(), b.drop_first(), c.drop_first());
    }
}

/// How key `a` stands to key `b`: by kind first (accounts, then hashes, then
/// references), by identifier among keys of one kind. The rights of a
/// reference play no part.
pub open spec fn key_order(a: KeyView, b: KeyView) -> Ordering {
    if a.tag() < b.tag() {
        Ordering::Less
    } else if a.tag() > b.tag() {
        Ordering::Greater
    } else if lexicographic(a.id(), b.id()) < 0 {
        Ordering::Less
    } else if lexicographic(a.id(), b.id()) > 0 {
        Ordering::Greater
    } else {
        Ordering::Equal
    }
}

/// The ordering that the sign `s` stands for.
fn ordering_of_sign(s: i8) -> (r: Ordering)
    ensures
        s < 0 ==> r == Ordering::Less,
        s == 0 ==> r == Ordering::Equal,
        s > 0 ==> r == Ordering::Greater,
{
    if s < 0 {
        Ordering::Less
    } else if s > 0 {
        Ordering::Greater
    } else {
        Ordering::Equal
    }
}

impl Key {
    /// The total order of keys. It is coarser than equality: two references
    /// with one identifier and different rights are equal in this order.
    pub fn cmp(&self, other: &Key) -> (r: Ordering)
        ensures
            r == key_order(self@, other@),
    {
        match (self, other) {
            (Key::Account(id_1), Key::Account(id_2)) => ordering_of_sign(
                lexicographic_sign(id_1.as_slice(), id_2.as_slice()),
            ),
            (Key::Account(_), Key::Hash(_)) => Ordering::Less,
            (Key::Account(_), Key::URef(_, _)) => Ordering::Less,
            (Key::Hash(id_1), Key::Hash(id_2)) => ordering_of_sign(
                lexicographic_sign(id_1.as_slice(), id_2.as_slice()),
            ),
            (Key::Hash(_), Key::URef(_, _)) => Ordering::Less,
            (Key::Hash(_), Key::Account(_)) => Ordering::Greater,
            (Key::URef(id_1, _), Key::URef(id_2, _)) => ordering_of_sign(
                lexicographic_sign(id_1.as_slice(), id_2.as_slice()),
            ),
            (Key::URef(_, _), Key::Account(_)) => Ordering::Greater,
            (Key::URef(_, _), Key::Hash(_)) => Ordering::Greater,
        }
    }

    /// The handle for the value behind a reference; none for other keys.
    pub fn to_u_ptr<T>(self) -> (r: Option<UPointer<T>>)
        ensures
            match self {
                Key::URef(id, rights) => r matches Some(p) && p.0 == id && p.1 == rights,
                _ => r is None,
            },
    {
        if let Key::URef(id, access_right) = self {
            Some(UPointer::new(id, access_right))
        } else {
            None
        }
    }

    /// The handle for the contract behind a hash or a reference; none for an
    /// account.
    pub fn to_c_ptr(self) -> (r: Option<ContractPointer>)
        ensures
            match self {
                Key::URef(id, rights) => r matches Some(ContractPointer::URef(p)) && p.0 == id
                    && p.1 == rights,
                Key::Hash(id) => r == Some(ContractPointer::Hash(id)),
                Key::Account(_) => r is None,
            },
    {
        match self {
            Key::URef(id, rights) => Some(ContractPointer::URef(UPointer::new(id, rights))),
            Key::Hash(id) => Some(ContractPointer::Hash(id)),
            _ => None,
        }
    }
}

impl PartialEq for Key {
    fn eq(&self, other: &Key) -> (r: bool) {
        match (self, other) {
            (Key::Account(id_1), Key::Account(id_2)) => same_bytes(
                id_1.as_slice(),
                id_2.as_slice(),
            ),
            (Key::Hash(id_1), Key::Hash(id_2)) => same_bytes(id_1.as_slice(), id_2.as_slice()),
            (Key::URef(id_1, rights_1), Key::URef(id_2, rights_2)) => same_bytes(
                id_1.as_slice(),
                id_2.as_slice(),
            ) && *rights_1 == *rights_2,
            _ => false,
        }
    }
}

impl vstd::std_specs::cmp::PartialEqSpecImpl for Key {
    open spec fn obeys_eq_spec() -> bool {
        true
    }

    open spec fn eq_spec(&self, other: &Key) -> bool {
        self@ == other@
    }
}

impl PartialOrd for Key {
    fn partial_cmp(&self, other: &Key) -> (r: Option<Ordering>) {
        Some(self.cmp(other))
    }
}

impl vstd::std_specs::cmp::PartialOrdSpecImpl for Key {
    open spec fn obeys_partial_cmp_spec() -> bool {
        true
    }

    open spec fn partial_cmp_spec(&self, other: &Key) -> Option<Ordering> {
        Some(key_order(self@, other@))
    }
}

impl AsRef<[u8]> for Key {
    fn as_ref(&self) -> (r: &[u8])
        ensures
            r@ == self@.id(),
    {
        match self {
            Key::Account(a) => a.as_slice(),
            Key::Hash(h) => h.as_slice(),
            Key::URef(u, _) => u.as_slice(),
        }
    }
}

/// Two keys are equal in the order exactly where they are of one kind and
/// have one identifier.
pub proof fn lemma_key_order_equal(a: KeyView, b: KeyView)
    ensures
        key_order(a, b) == Ordering::Equal <==> a.tag() == b.tag() && a.id() == b.id(),
{
    lemma_lexicographic_equal(a.id(), b.id());
}

/// Two references with one identifier are equal in the order, whatever their
/// rights; they are equal keys only where the rights are equal.
pub proof fn lemma_key_order_ignores_rights(id: Seq<u8>, r1: AccessRights, r2: AccessRights)
    ensures
        key_order(KeyView::URef(id, r1), KeyView::URef(id, r2)) == Ordering::Equal,
        KeyView::URef(id, r1) == KeyView::URef(id, r2) <==> r1 == r2,
{
    lemma_lexicographic_equal(id, id);
}

/// The order of keys is transitive.
pub proof fn lemma_key_order_transitive(a: KeyView, b: KeyView, c: KeyView)
    requires
        key_order(a, b) != Ordering::Greater,
        key_order(b, c) != Ordering::Greater,
    ensures
        key_order(a, c) != Ordering::Greater,
        key_order(a, b) == Ordering::Less || key_order(b, c) == Ordering::Less ==> key_order(a, c)
            == Ordering::Less,
{
    lemma_lexicographic_transitive(a.id(), b.id(), c.id());
}

/// Swapping two keys reverses how they stand to each other.
pub proof fn lemma_key_order_swap(a: KeyView, b: KeyView)
    ensures
        key_order(a, b) == Ordering::Less <==> key_order(b, a) == Ordering::Greater,
        key_order(a, b) == Ordering::Equal <==> key_order(b, a) == Ordering::Equal,
{
    lemma_lexicographic_swap(a.id(), b.id());
}

} // verus!
