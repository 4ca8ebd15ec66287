//! A small part of the runtime that stores one number, and the selector by
//! which a function of a contract is called.

use vstd::prelude::*;
use crate::system::{AccountId, Origin, ensure_signed};

verus! {

/// The selector of a contract function: the first four bytes of the hash of
/// the function's name.
#[derive(Debug, Clone, Copy, PartialEq, Eq)]
pub struct FunctionSelector(pub [u8; 4]);

/// The number that four bytes spell, least significant byte first.
pub open spec fn little_endian(bytes: Seq<u8>) -> int {
    bytes[0] + 256 * bytes[1] + 65536 * bytes[2] + 16777216 * bytes[3]
}

impl FunctionSelector {
    /// Returns the underlying four bytes.
    pub fn as_bytes(&self) -> (bytes: &[u8; 4])
        ensures
            *bytes == self.0,
    {
        &self.0
    }

    /// Returns a unique identifier as `usize`: the four bytes read as a
    /// number, least significant byte first.
    pub fn unique_id(self) -> (id: usize)
        ensures
            id == little_endian(self.0@),
    {
        let b0: u32 = self.0[0] as u32;
        let b1: u32 = self.0[1] as u32;
        let b2: u32 = self.0[2] as u32;
        let b3: u32 = self.0[3] as u32;
        let id: u32 = b0 + 256 * b1 + 65536 * b2 + 16777216 * b3;
        id as usize
    }

    /// The selector of the function whose name has the given hash: the
    /// first four bytes of the hash.
    pub fn from_hash(hash: &[u8; 32]) -> (selector: Self)
        ensures
            selector.0@ == hash@.subrange(0, 4),
    {
        let selector = Self([hash[0], hash[1], hash[2], hash[3]]);
        assert(selector.0@ =~= hash@.subrange(0, 4));
        selector
    }
}

/// Why a call was refused.
#[derive(Clone, Copy, PartialEq, Eq, Debug, Structural)]
pub enum Error {
    /// Value was None
    NoneValue,
    /// Value reached maximum and cannot be incremented further
    StorageOverflow,
}

/// Why a call was refused.
pub type DispatchError = crate::system::DispatchError<Error>;

/// What a call announces to the outside.
#[derive(Clone, Copy, PartialEq, Eq, Debug, Structural)]
pub enum Event {
    /// A number was stored: the number, the caller.
    SomethingStored(u32, AccountId),
}

pub type RawEvent = Event;

/// The storage: one number, or nothing.
#[derive(Clone, Copy, PartialEq, Eq, Debug)]
pub struct Module {
    pub something: Option<u32>,
}

impl Module {
    /// Nothing stored.
    pub fn new() -> (module: Module)
        ensures
            module.something.is_none(),
    {
        Module { something: None }
    }

    /// What is stored.
    pub fn something(&self) -> (stored: Option<u32>)
        ensures
            stored == self.something,
    {
        self.something
    }

    /// Stores a number for a signed caller and announces it.
    pub fn do_something(&mut self, origin: Origin, something: u32) -> (result: Result<
        Event,
        DispatchError,
    >)
        ensures
            match result {
                Ok(event) => {
                    &&& origin is Signed
                    &&& final(self).something == Some(something)
                    &&& event == Event::SomethingStored(something, origin->Signed_0)
                },
                Err(e) => {
                    &&& !(origin is Signed)
                    &&& e == DispatchError::BadOrigin
                    &&& *final(self) == *old(self)
                },
            },
    {
        let who = match ensure_signed::<Error>(origin) {
            Ok(who) => who,
            Err(e) => {
                return Err(e);
            },
        };
        self.something = Some(something);
        Ok(Event::SomethingStored(something, who))
    }

    /// Raises the stored number by one for a signed caller. With nothing
    /// stored, and at the largest number, the call is refused and nothing
    /// changes.
    pub fn cause_error(&mut self, origin: Origin) -> (result: Result<(), DispatchError>)
        ensures
            match result {
                Ok(_) => {
                    &&& origin is Signed
                    &&& old(self).something is Some
                    &&& old(self).something->Some_0 < u32::MAX
                    &&& final(self).something == Some(
                        (old(self).something->Some_0 + 1) as u32,
                    )
                },
                Err(e) => {
                    &&& *final(self) == *old(self)
                    &&& e == if !(origin is Signed) {
                        DispatchError::BadOrigin
                    } else if old(self).something is None {
                        DispatchError::Module(Error::NoneValue)
                    } else {
                        DispatchError::Module(Error::StorageOverflow)
                    }
                    &&& origin is Signed && old(self).something is Some ==> old(
                        self,
                    ).something->Some_0 == u32::MAX
                },
            },
    {
        if let Err(e) = ensure_signed::<Error>(origin) {
            return Err(e);
        }
        match self.something {
            None => Err(DispatchError::Module(Error::NoneValue)),
            Some(old) => {
                match old.checked_add(1) {
                    Some(new) => {
                        self.something = Some(new);
                        Ok(())
                    },
                    None => Err(DispatchError::Module(Error::StorageOverflow)),
                }
            },
        }
    }
}

} // verus!
