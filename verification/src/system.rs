//! What every part of the runtime shares: accounts, time, block heights, and
//! who makes a call.

use vstd::prelude::*;

verus! {

/// The account on whose behalf something is registered or done.
pub type AccountId = u64;

/// A point in time, in milliseconds.
pub type Moment = u64;

/// Height of a block of the ledger.
pub type BlockNumber = u32;

/// Who makes a call.
#[derive(Clone, Copy, PartialEq, Eq, Debug, Structural)]
pub enum Origin {
    Root,
    Signed(AccountId),
    Unsigned,
}

/// Why a call was refused: for what the caller is, or for a reason of the
/// part of the runtime that was called.
#[derive(Clone, Copy, PartialEq, Eq, Debug)]
pub enum DispatchError<E> {
    BadOrigin,
    Module(E),
}

/// The account that signed the call; a call that no account signed is
/// refused.
pub fn ensure_signed<E>(origin: Origin) -> (who: Result<AccountId, DispatchError<E>>)
    ensures
        who == match origin {
            Origin::Signed(account) => Ok::<AccountId, DispatchError<E>>(account),
            _ => Err::<AccountId, DispatchError<E>>(DispatchError::BadOrigin),
        },
{
    match origin {
        Origin::Signed(account) => Ok(account),
        _ => Err(DispatchError::BadOrigin),
    }
}

/// Accepts the call of the root; any other call is refused.
pub fn ensure_root<E>(origin: Origin) -> (checked: Result<(), DispatchError<E>>)
    ensures
        checked is Ok <==> origin is Root,
        checked is Err ==> checked->Err_0 == DispatchError::<E>::BadOrigin,
{
    match origin {
        Origin::Root => Ok(()),
        _ => Err(DispatchError::BadOrigin),
    }
}

/// Whether a call goes on: the authorization says yes and an account signed
/// it.
pub open spec fn admitted(origin: Origin, may_invoke: bool) -> bool {
    may_invoke && origin is Signed
}

/// The account of an admitted call. Where the authorization says no, and
/// where no account signed, the call is refused.
pub fn ensure_admitted<E>(origin: Origin, may_invoke: bool) -> (who: Result<
    AccountId,
    DispatchError<E>,
>)
    ensures
        who is Ok <==> admitted(origin, may_invoke),
        who is Ok ==> origin == Origin::Signed(who->Ok_0),
        who is Err ==> who->Err_0 == DispatchError::<E>::BadOrigin,
{
    if !may_invoke {
        return Err(DispatchError::BadOrigin);
    }
    ensure_signed(origin)
}

} // verus!
