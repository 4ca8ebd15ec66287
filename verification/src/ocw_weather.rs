//! The decisions of the worker that submits numbers to the ledger and
//! fetches a weather report: what to do in a block, whether the lock was
//! obtained, and what a fetch or a submission amounts to. The requests, the
//! signing and the worker's own storage are the caller's business.

use vstd::prelude::*;
use crate::system::{AccountId, BlockNumber, Origin, ensure_signed};

verus! {

/// Largest number of numbers kept.
pub const NUM_VEC_LEN: usize = 10;

/// Status code with which the remote side answers a request it served.
pub const HTTP_OK: u16 = 200;

/// Zero degrees Celsius, in Kelvin.
pub const KELVIN_OFFSET: u32 = 273;

/// The weather at a place: temperatures in Kelvin, pressure and humidity.
#[derive(Clone, Copy, PartialEq, Eq, Debug, Default)]
pub struct WeatherInfo {
    pub temp: u32,
    pub feels_like: u32,
    pub temp_min: u32,
    pub temp_max: u32,
    pub pressure: u32,
    pub humidity: u32,
}

impl WeatherInfo {
    /// The temperature in degrees Celsius, for a temperature that is not
    /// below zero degrees Celsius.
    pub fn celsius(&self) -> (degrees: u32)
        requires
            self.temp >= KELVIN_OFFSET,
        ensures
            degrees == self.temp - KELVIN_OFFSET,
    {
        self.temp - KELVIN_OFFSET
    }
}

/// A weather report: the weather and the name of the place.
#[derive(Clone, PartialEq, Eq, Debug, Default)]
pub struct WeatherForecast {
    pub main: WeatherInfo,
    pub name: Vec<u8>,
}

/// What the worker does in a block.
#[derive(Clone, Copy, PartialEq, Eq, Debug, Structural)]
pub enum TransactionType {
    SignedSubmitNumber,
    HttpFetching,
    Nothing,
}

/// Why the worker or a call failed.
#[derive(Clone, Copy, PartialEq, Eq, Debug, Structural)]
pub enum Error {
    /// A signed transaction could not be made or was not accepted.
    SignedSubmitNumberError,
    /// The remote request failed or its answer could not be read.
    HttpFetchingError,
    /// The weather report is being fetched, or was fetched, by another run.
    AlreadyFetched,
}

/// Why a call was refused.
pub type DispatchError = crate::system::DispatchError<Error>;

/// What a call announces to the outside.
#[derive(Clone, Copy, PartialEq, Eq, Debug, Structural)]
pub enum Event {
    /// A number was accepted: who sent it, if known, and the number.
    NewNumber(Option<AccountId>, u32),
}

pub type RawEvent = Event;

/// How a request to the remote side ended.
#[derive(Clone, Copy, PartialEq, Eq, Debug, Structural)]
pub enum RemoteReply {
    /// The request could not be sent.
    NotSent,
    /// No answer came before the deadline, or the transport failed.
    NoAnswer,
    /// The remote side answered with this status code.
    Answered(u16),
}

/// What the worker does once it has tried to take the lock.
#[derive(Clone, Copy, PartialEq, Eq, Debug, Structural)]
pub enum FetchStep {
    /// The lock is held by this run: fetch the report.
    Fetch,
    /// The lock is not held by this run: do nothing.
    Skip,
}

/// What the worker does once the fetch has ended. The lock is released in
/// either case.
#[derive(Clone, PartialEq, Eq, Debug)]
pub enum FetchEnd {
    /// Store the report and release the lock.
    Store(WeatherForecast),
    /// Release the lock and report the failure.
    Fail(Error),
}

/// The numbers after one more was accepted: it is added while there is
/// room, and afterwards put in the place that the count of numbers gives,
/// modulo `NUM_VEC_LEN`.
pub open spec fn appended_or_replaced(numbers: Seq<u32>, number: u32) -> Seq<u32> {
    if numbers.len() < NUM_VEC_LEN {
        numbers.push(number)
    } else {
        numbers.update((numbers.len() % (NUM_VEC_LEN as nat)) as int, number)
    }
}

/// What the worker does in a block: it submits a number in blocks of even
/// height and fetches the report in blocks of odd height.
pub open spec fn tx_type_of(block_number: BlockNumber) -> TransactionType {
    if block_number % 2 == 0 {
        TransactionType::SignedSubmitNumber
    } else {
        TransactionType::HttpFetching
    }
}

/// The numbers that were submitted, oldest first while there was room.
#[derive(Clone, PartialEq, Eq, Debug)]
pub struct Module {
    pub numbers: Vec<u32>,
}

impl Module {
    /// No number submitted.
    pub fn new() -> (module: Module)
        ensures
            module.numbers@ == Seq::<u32>::empty(),
    {
        Module { numbers: Vec::new() }
    }

    /// Accepts a number from a signed caller and announces it.
    pub fn submit_number_signed(&mut self, origin: Origin, number: u32) -> (result: Result<
        Event,
        DispatchError,
    >)
        ensures
            match result {
                Ok(event) => {
                    &&& origin is Signed
                    &&& final(self).numbers@ == appended_or_replaced(old(self).numbers@, number)
                    &&& event == Event::NewNumber(Some(origin->Signed_0), number)
                },
                Err(e) => {
                    &&& !(origin is Signed)
                    &&& e == DispatchError::BadOrigin
                    &&& final(self).numbers@ == old(self).numbers@
                },
            },
    {
        let who = match ensure_signed::<Error>(origin) {
            Ok(who) => who,
            Err(e) => {
                return Err(e);
            },
        };
        Ok(self.append_or_replace_number(Some(who), number))
    }

    /// Add a new number to the list.
    pub fn append_or_replace_number(&mut self, who: Option<AccountId>, number: u32) -> (event:
        Event)
        ensures
            final(self).numbers@ == appended_or_replaced(old(self).numbers@, number),
            event == Event::NewNumber(who, number),
    {
        let num_len = self.numbers.len();
        if num_len < NUM_VEC_LEN {
            self.numbers.push(number);
        } else {
            self.numbers.set(num_len % NUM_VEC_LEN, number);
        }
        Event::NewNumber(who, number)
    }

    /// The mean of the numbers, rounded down; 0 without numbers.
    pub fn average(&self) -> (mean: u32)
        ensures
            mean == if self.numbers@.len() == 0 {
                0
            } else {
                total(self.numbers@) / (self.numbers@.len() as int)
            },
    {
        let num_len = self.numbers.len();
        if num_len == 0 {
            return 0;
        }
        let mut sum: u128 = 0;
        let mut i: usize = 0;
        while i < num_len
            invariant
                num_len == self.numbers@.len(),
                i <= num_len,
                sum == total(self.numbers@.subrange(0, i as int)),
                sum <= i * 0xffff_ffff,
            decreases num_len - i,
        {
            assert(self.numbers@.subrange(0, i + 1).drop_last() =~= self.numbers@.subrange(
                0,
                i as int,
            ));
            assert(i * 0xffff_ffff + 0xffff_ffff == (i + 1) * 0xffff_ffff) by (nonlinear_arith);
            assert(i * 0xffff_ffff <= usize::MAX * 0xffff_ffff) by (nonlinear_arith)
                requires
                    i <= usize::MAX,
            ;
            sum = sum + self.numbers[i] as u128;
            i += 1;
        }
        assert(self.numbers@.subrange(0, num_len as int) =~= self.numbers@);
        let mean = sum / (num_len as u128);
        assert(mean <= 0xffff_ffff) by (nonlinear_arith)
            requires
                mean == sum / (num_len as u128),
                sum <= num_len * 0xffff_ffff,
                num_len > 0,
        ;
        mean as u32
    }

    /// Decide what type of transaction to send based on block number.
    pub fn choose_tx_type(block_number: BlockNumber) -> (tx_type: TransactionType)
        ensures
            tx_type == tx_type_of(block_number),
    {
        match block_number % 2 {
            0 => TransactionType::SignedSubmitNumber,
            1 => TransactionType::HttpFetching,
            _ => TransactionType::Nothing,
        }
    }

    /// Whether the lock can be taken, given what is stored for it: a lock
    /// that was never set or is free is taken; a lock that is held, and a
    /// value that cannot be read, count as taken by another run.
    pub fn try_lock(stored: Option<Option<bool>>) -> (taken: Result<bool, Error>)
        ensures
            taken == match stored {
                None => Ok::<bool, Error>(true),
                Some(Some(false)) => Ok::<bool, Error>(true),
                _ => Err::<bool, Error>(Error::AlreadyFetched),
            },
    {
        match stored {
            None => Ok(true),
            Some(Some(false)) => Ok(true),
            _ => Err(Error::AlreadyFetched),
        }
    }

    /// What to do once the lock was tried: `locked` is what the attempt to
    /// write the lock came to. The report is fetched only if the lock was
    /// written as taken; if another run wrote in between, or the lock was
    /// not free, this run does nothing.
    pub fn fetch_if_needed(locked: Result<Result<bool, bool>, Error>) -> (step: FetchStep)
        ensures
            step == if locked == Ok::<Result<bool, bool>, Error>(Ok(true)) {
                FetchStep::Fetch
            } else {
                FetchStep::Skip
            },
    {
        match locked {
            Ok(Ok(true)) => FetchStep::Fetch,
            _ => FetchStep::Skip,
        }
    }

    /// What to do once the fetch has ended: a report is stored, a failure is
    /// passed on.
    pub fn fetch_n_parse(fetched: Result<WeatherForecast, Error>) -> (end: FetchEnd)
        ensures
            end == match fetched {
                Ok(forecast) => FetchEnd::Store(forecast),
                Err(e) => FetchEnd::Fail(e),
            },
    {
        match fetched {
            Ok(forecast) => FetchEnd::Store(forecast),
            Err(e) => FetchEnd::Fail(e),
        }
    }

    /// The verdict on a request to the remote side: it succeeded exactly if
    /// the remote side answered with `HTTP_OK`.
    pub fn fetch_from_remote(reply: RemoteReply) -> (verdict: Result<(), Error>)
        ensures
            verdict is Ok <==> reply == RemoteReply::Answered(HTTP_OK),
            verdict is Err ==> verdict->Err_0 == Error::HttpFetchingError,
    {
        match reply {
            RemoteReply::Answered(code) => {
                if code != HTTP_OK {
                    return Err(Error::HttpFetchingError);
                }
                Ok(())
            },
            _ => Err(Error::HttpFetchingError),
        }
    }

    /// The number that the worker submits in a block: the block's height.
    pub fn submission(block_number: BlockNumber) -> (number: u32)
        ensures
            number == block_number,
    {
        block_number
    }

    /// The verdict on a submission: `can_sign` says whether an account was
    /// at hand to sign, `accepted` whether the transaction of each account
    /// was accepted. The submission succeeded if an account was at hand and
    /// every transaction was accepted.
    pub fn signed_submit_number(can_sign: bool, accepted: &[bool]) -> (verdict: Result<(), Error>)
        ensures
            verdict is Ok <==> can_sign && forall|i: int|
                0 <= i < accepted@.len() ==> accepted@[i],
            verdict is Err ==> verdict->Err_0 == Error::SignedSubmitNumberError,
    {
        if !can_sign {
            return Err(Error::SignedSubmitNumberError);
        }
        let mut i: usize = 0;
        while i < accepted.len()
            invariant
                i <= accepted.len(),
                forall|j: int| 0 <= j < i ==> accepted@[j],
            decreases accepted.len() - i,
        {
            if !accepted[i] {
                return Err(Error::SignedSubmitNumberError);
            }
            i += 1;
        }
        Ok(())
    }
}

/// The sum of a list of numbers.
pub open spec fn total(numbers: Seq<u32>) -> int
    decreases numbers.len(),
{
    if numbers.len() == 0 {
        0
    } else {
        total(numbers.drop_last()) + numbers.last()
    }
}

/// The list of numbers never grows beyond `NUM_VEC_LEN`: from a list within
/// that length, accepting a number gives a list within that length, and a
/// full list stays full.
pub proof fn numbers_stay_bounded(numbers: Seq<u32>, number: u32)
    requires
        numbers.len() <= NUM_VEC_LEN,
    ensures
        appended_or_replaced(numbers, number).len() <= NUM_VEC_LEN,
        numbers.len() == NUM_VEC_LEN ==> appended_or_replaced(numbers, number) == numbers.update(
            0,
            number,
        ),
        numbers.len() < NUM_VEC_LEN ==> appended_or_replaced(numbers, number).last() == number,
{
}

} // verus!
