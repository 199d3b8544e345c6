//! Typed handles that are made from keys.
use crate::key::AccessRights;
use crate::value::contract::Contract;
use core::marker::PhantomData;
use vstd::prelude::*;

verus! {

/// A reference to a value of type `T` in the global state, with the rights
/// that its holder has.
#[derive(Debug, PartialEq, Eq)]
pub struct UPointer<T>(pub [u8; 32], pub AccessRights, pub PhantomData<T>);

impl<T> UPointer<T> {
    /// The reference with the identifier `id` and the rights `rights`.
    pub fn new(id: [u8; 32], rights: AccessRights) -> (r: UPointer<T>)
        ensures
            r.0 == id,
            r.1 == rights,
    {
        UPointer(id, rights, PhantomData)
    }
}

impl<T> Clone for UPointer<T> {
    fn clone(&self) -> (r: UPointer<T>)
        ensures
            r == *self,
    {
        UPointer(self.0, self.1, PhantomData)
    }
}

impl<T> Copy for UPointer<T> {

}

/// A reference to a stored contract: by the hash of the contract, or by a
/// reference with rights.
#[derive(Debug, Clone, Copy, PartialEq, Eq)]
pub enum ContractPointer {
    Hash([u8; 32]),
    URef(UPointer<Contract>),
}

} // verus!
