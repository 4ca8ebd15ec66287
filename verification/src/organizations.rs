//! A small part of the runtime that stores one number and names a
//! validator as the caller's delegate.

use vstd::prelude::*;
use crate::system::{AccountId, Origin, ensure_signed};

pub use crate::template::{DispatchError, Error, FunctionSelector};

verus! {

/// How long a validator stays a delegate, in blocks.
pub const VALIDATOR_DELEGATE_BLOCKS: u32 = 1000;

/// The kind of delegate that a validator is: `validator`.
pub open spec fn validator_delegate() -> Seq<u8> {
    seq![118u8, 97u8, 108u8, 105u8, 100u8, 97u8, 116u8, 111u8, 114u8]
}

/// What a call announces to the outside.
#[derive(Clone, Copy, PartialEq, Eq, Debug, Structural)]
pub enum Event {
    /// A number was stored: the number, the caller.
    SomethingStored(u32, AccountId),
    /// A smart contract was called from the runtime.
    ContractCalled(AccountId, bool),
}

pub type RawEvent = Event;

/// What is to be done elsewhere in the runtime once a number was stored:
/// the validator is made a delegate of the caller for
/// `VALIDATOR_DELEGATE_BLOCKS` blocks and is added to the validators.
#[derive(Clone, PartialEq, Eq, Debug)]
pub struct ValidatorEnrolment {
    pub identity: AccountId,
    pub delegate: AccountId,
    pub delegate_type: Vec<u8>,
    pub valid_for: u32,
}

/// The storage: one number, or nothing.
#[derive(Clone, Copy, PartialEq, Eq, Debug)]
pub struct Module {
    pub something: Option<u32>,
}

impl Module {
    /// Nothing stored.
    pub fn new() -> (module: Module)
        ensures
            module.something.is_none(),
    {
        Module { something: None }
    }

    /// What is stored.
    pub fn something(&self) -> (stored: Option<u32>)
        ensures
            stored == self.something,
    {
        self.something
    }

    /// Stores a number for a signed caller. What is handed back is the
    /// enrolment of the validator, which is to be carried out, and the
    /// announcement, which is to be made once that has succeeded.
    pub fn do_something(&mut self, origin: Origin, something: u32, validator_id: AccountId) -> (result:
        Result<(ValidatorEnrolment, Event), DispatchError>)
        ensures
            match result {
                Ok((enrolment, event)) => {
                    &&& origin is Signed
                    &&& final(self).something == Some(something)
                    &&& enrolment.identity == origin->Signed_0
                    &&& enrolment.delegate == validator_id
                    &&& enrolment.delegate_type@ == validator_delegate()
                    &&& enrolment.valid_for == VALIDATOR_DELEGATE_BLOCKS
                    &&& event == Event::SomethingStored(something, origin->Signed_0)
                },
                Err(e) => {
                    &&& !(origin is Signed)
                    &&& e == DispatchError::BadOrigin
                    &&& *final(self) == *old(self)
                },
            },
    {
        let who = match ensure_signed::<Error>(origin) {
            Ok(who) => who,
            Err(e) => {
                return Err(e);
            },
        };
        self.something = Some(something);
        let delegate_type = vec![118u8, 97u8, 108u8, 105u8, 100u8, 97u8, 116u8, 111u8, 114u8];
        assert(delegate_type@ =~= validator_delegate());
        Ok(
            (
                ValidatorEnrolment {
                    identity: who,
                    delegate: validator_id,
                    delegate_type,
                    valid_for: VALIDATOR_DELEGATE_BLOCKS,
                },
                Event::SomethingStored(something, who),
            ),
        )
    }

    /// Raises the stored number by one for a signed caller. With nothing
    /// stored, and at the largest number, the call is refused and nothing
    /// changes.
    pub fn cause_error(&mut self, origin: Origin) -> (result: Result<(), DispatchError>)
        ensures
            match result {
                Ok(_) => {
                    &&& origin is Signed
                    &&& old(self).something is Some
                    &&& old(self).something->Some_0 < u32::MAX
                    &&& final(self).something == Some(
                        (old(self).something->Some_0 + 1) as u32,
                    )
                },
                Err(e) => {
                    &&& *final(self) == *old(self)
                    &&& e == if !(origin is Signed) {
                        DispatchError::BadOrigin
                    } else if old(self).something is None {
                        DispatchError::Module(Error::NoneValue)
                    } else {
                        DispatchError::Module(Error::StorageOverflow)
                    }
                    &&& origin is Signed && old(self).something is Some ==> old(
                        self,
                    ).something->Some_0 == u32::MAX
                },
            },
    {
        if let Err(e) = ensure_signed::<Error>(origin) {
            return Err(e);
        }
        match self.something {
            None => Err(DispatchError::Module(Error::NoneValue)),
            Some(old) => {
                match old.checked_add(1) {
                    Some(new) => {
                        self.something = Some(new);
                        Ok(())
                    },
                    None => Err(DispatchError::Module(Error::StorageOverflow)),
                }
            },
        }
    }
}

} // verus!
