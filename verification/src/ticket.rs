use std::time::Duration;
use vstd::prelude::*;

use crate::datetime::Datetime;
use crate::duration::duration_secs;
use crate::stamp::{count_at, increment, incremented, trim, trimmed, Stamp};
use crate::store::{fetch, fetch_failure, fetched_record, render, rendered_record, LimitError};
use worker_kv::KvError;

verus! {

/// The permission to record one event that was allowed: the storage key of
/// the identifier, the instant of the check, and the longest window among
/// the rules that allowed it.
#[derive(Debug, PartialEq)]
pub struct Ticket {
    pub key: String,
    pub datetime: Datetime,
    pub max: Duration,
}

/// What a redemption hands to the store: the bytes to put under the key,
/// and the number of seconds after which the store may drop them.
#[derive(Debug, PartialEq)]
pub struct Put {
    pub key: String,
    pub value: Vec<u8>,
    pub expiration_ttl: u64,
}

impl Ticket {
    /// The timestamp before which this ticket lets a record forget its
    /// entries: the ticket's instant less its longest window.
    pub open spec fn cutoff(&self) -> int {
        self.datetime.timestamp - duration_secs(self.max)
    }

    /// The record that redeeming this ticket makes of `record`: trimmed to
    /// the ticket's cutoff, with one more event at the ticket's instant.
    pub open spec fn applied(&self, record: Map<u64, u64>) -> Map<u64, u64> {
        incremented(trimmed(record, self.cutoff()), self.datetime.timestamp)
    }

    /// Discards from `stamp` every entry that lies before the ticket's cutoff.
    pub fn expire(&self, stamp: &mut Stamp)
        ensures
            final(stamp)@ == trimmed(old(stamp)@, self.cutoff()),
    {
        let cutoff = self.datetime.timestamp.saturating_sub(self.max.as_secs());
        trim(stamp, cutoff);
        assert(trimmed(old(stamp)@, cutoff as int) =~= trimmed(old(stamp)@, self.cutoff()));
    }

    /// Expires `stamp` and records the ticket's event in it.
    pub fn apply(&self, stamp: &mut Stamp)
        ensures
            final(stamp)@ == self.applied(old(stamp)@),
    {
        self.expire(stamp);
        increment(stamp, self.datetime.timestamp);
    }

    /// The write that stores `value` under the ticket's key, to expire one
    /// second after the ticket's longest window has passed.
    pub fn put(self, value: Vec<u8>) -> (put: Put)
        requires
            duration_secs(self.max) < u64::MAX,
        ensures
            put.key == self.key,
            put.value == value,
            put.expiration_ttl == duration_secs(self.max) + 1,
    {
        let expiration_ttl = self.max.as_secs() + 1;
        Put { key: self.key, value, expiration_ttl }
    }

    /// Redeems the ticket against what the store answered to a get of the
    /// ticket's key: the record is read afresh, expired, given one more
    /// event at the ticket's instant, and rendered for the one write that
    /// stores it. A failed get, bytes that hold no record and a record that
    /// cannot be rendered are errors, and then nothing is to be written.
    pub fn redeem(self, answer: Result<Option<Vec<u8>>, KvError>) -> (res: Result<Put, LimitError>)
        requires
            duration_secs(self.max) < u64::MAX,
        ensures
            match fetched_record(answer) {
                Some(record) => match rendered_record(self.applied(record)) {
                    Some(bytes) => {
                        &&& res matches Ok(put)
                        &&& put.key == self.key
                        &&& put.value@ == bytes
                        &&& put.expiration_ttl == duration_secs(self.max) + 1
                    },
                    None => res matches Err(LimitError::Json(_)),
                },
                None => res matches Err(error) && fetch_failure(answer, error),
            },
    {
        let mut stamp = match fetch(answer) {
            Ok(stamp) => stamp,
            Err(error) => {
                return Err(error);
            },
        };
        self.apply(&mut stamp);
        match render(&stamp) {
            Ok(value) => Ok(self.put(value)),
            Err(error) => Err(error),
        }
    }
}

/// What redeeming a ticket does to each timestamp of a record: the ticket's
/// instant holds one event more, unless its count was the largest number
/// already; the timestamps before the cutoff hold nothing; every other
/// timestamp holds what it held.
pub proof fn lemma_applied_counts(ticket: Ticket, record: Map<u64, u64>, t: int)
    ensures
        count_at(ticket.applied(record), t) == if t == ticket.datetime.timestamp {
            if count_at(record, t) < u64::MAX {
                count_at(record, t) + 1
            } else {
                u64::MAX as nat
            }
        } else if t < ticket.cutoff() {
            0
        } else {
            count_at(record, t)
        },
{
}

} // verus!
