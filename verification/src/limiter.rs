use std::collections::BTreeMap;
use std::time::Duration;
use vstd::prelude::*;
use vstd::std_specs::btree::increasing_seq;
use vstd::std_specs::iter::IteratorSpec;
use vstd::string::StringExecFns;

use crate::datetime::Datetime;
use crate::duration::{duration_key, key_of};
use crate::order::{key_le, lemma_increasing_keys};
use crate::stamp::{
    lemma_window_sum_clamped, lemma_window_sum_empty, range_sum, window_sum, Stamp,
};
use crate::store::{fetch, fetch_failure, fetched_record, LimitError};
use crate::ticket::Ticket;
use worker_kv::KvError;

verus! {

/// The outcome of a check: the event is denied, or it is allowed, with a
/// ticket to record it where there is anything to record.
#[derive(Debug, PartialEq)]
pub enum Permit {
    Allow(Option<Ticket>),
    Deny,
}

/// A set of rate rules under one namespace. A rule is a duration and an
/// amount: it denies a new event once the window of that duration holds
/// `amount` events. `rules` holds each rule under the key of its duration,
/// so that there is one rule for a duration and the rules come out by
/// ascending duration.
pub struct RateLimiter {
    pub prefix: String,
    pub rules: BTreeMap<(u64, u32), (Duration, u64)>,
}

/// Whether `record` violates, at the instant `now`, the rule of `amount`
/// events within `window` seconds: the timestamps from `now - window` to
/// `now`, both included, hold `amount` events or more.
pub open spec fn rule_violated(record: Map<u64, u64>, now: u64, window: u64, amount: u64) -> bool {
    window_sum(record, now - window, now as int) >= amount
}

/// Whether `k` is the key of the longest window in `rules`.
pub open spec fn is_longest(rules: Map<(u64, u32), (Duration, u64)>, k: (u64, u32)) -> bool {
    rules.contains_key(k) && forall|other: (u64, u32)|
        rules.contains_key(other) ==> key_le(other, k)
}

/// The key that an identifier's record is stored under: the prefix, a
/// slash, and the identifier.
pub open spec fn storage_key_of(prefix: Seq<char>, identifier: Seq<char>) -> Seq<char> {
    prefix + seq!['/'] + identifier
}

impl RateLimiter {
    /// Whether every rule stands under the key of its own duration, as the
    /// rules of a limiter made by `new` and `add_limit` do. The window of
    /// such a rule is the whole seconds of its duration.
    pub open spec fn well_formed(&self) -> bool {
        forall|k: (u64, u32)|
            self.rules@.contains_key(k) ==> duration_key(self.rules@[k].0) == k
    }

    /// Whether at least one rule is violated by `record` at the instant `now`.
    pub open spec fn denies(&self, record: Map<u64, u64>, now: u64) -> bool {
        exists|k: (u64, u32)|
            self.rules@.contains_key(k) && rule_violated(record, now, k.0, self.rules@[k].1)
    }

    /// The longest window among the rules, `None` where there is no rule.
    pub open spec fn longest(&self) -> Option<Duration> {
        if exists|k: (u64, u32)| is_longest(self.rules@, k) {
            Some(self.rules@[choose|k: (u64, u32)| is_longest(self.rules@, k)].0)
        } else {
            None
        }
    }

    /// Whether `permit` is what a check of `identifier` at the instant `now`
    /// owes for `record`: a denial where a rule is violated; otherwise an
    /// allowance, with a ticket for the identifier's storage key, the
    /// instant and the longest window, unless there is no rule at all.
    pub open spec fn grants(
        &self,
        identifier: Seq<char>,
        record: Map<u64, u64>,
        now: Datetime,
        permit: Permit,
    ) -> bool {
        if self.denies(record, now.timestamp) {
            permit == Permit::Deny
        } else {
            match self.longest() {
                None => permit == Permit::Allow(None),
                Some(max) => {
                    &&& permit matches Permit::Allow(Some(ticket))
                    &&& ticket.key@ == storage_key_of(self.prefix@, identifier)
                    &&& ticket.datetime == now
                    &&& ticket.max == max
                },
            }
        }
    }

    /// A limiter without rules, whose records are stored under `prefix`.
    pub fn new(prefix: &str) -> (limiter: Self)
        ensures
            limiter.prefix@ == prefix@,
            limiter.rules@ == Map::<(u64, u32), (Duration, u64)>::empty(),
            limiter.well_formed(),
    {
        Self { prefix: String::from_str(prefix), rules: BTreeMap::new() }
    }

    /// Adds the rule of `amount` events within `duration`, in place of any
    /// earlier rule for the same duration.
    pub fn add_limit(&mut self, duration: Duration, amount: u64)
        ensures
            final(self).prefix == old(self).prefix,
            final(self).rules@ == old(self).rules@.insert(
                duration_key(duration),
                (duration, amount),
            ),
            old(self).well_formed() ==> final(self).well_formed(),
    {
        let key = key_of(&duration);
        self.rules.insert(key, (duration, amount));
    }

    /// Evaluates every rule against `stamp` at the instant `now`. The event
    /// is denied as soon as one rule is violated; otherwise it is allowed,
    /// and the longest window among the rules comes with the permit.
    pub fn check_stamp(&self, stamp: &Stamp, now: Datetime) -> (res: (Permit, Option<Duration>))
        ensures
            self.denies(stamp@, now.timestamp) ==> res.0 == Permit::Deny && res.1 is None,
            !self.denies(stamp@, now.timestamp) ==> res.0 == Permit::Allow(None) && res.1
                == self.longest(),
    {
        let mut max: Option<Duration> = None;
        let rules = self.rules.iter();
        let ghost listed = rules.remaining();
        let ghost mut done: int = 0;
        proof {
            lemma_walk_lists_rules(&self.rules, listed);
        }
        for entry in it: rules
            invariant
                it.seq() == listed,
                it.index() == done,
                lists_rules(listed, self.rules@),
                forall|i: int|
                    #![trigger listed[i]]
                    0 <= i < done ==> !rule_violated(
                        stamp@,
                        now.timestamp,
                        (*listed[i].0).0,
                        (*listed[i].1).1,
                    ),
                max == if done == 0 {
                    None
                } else {
                    Some((*listed[done - 1].1).0)
                },
        {
            let (key, rule) = entry;
            let start = now.timestamp.saturating_sub(key.0);
            let sum = range_sum(stamp, start, now.timestamp);
            proof {
                if now.timestamp < key.0 {
                    lemma_window_sum_clamped(stamp@, now.timestamp - key.0, now.timestamp as int);
                }
            }
            if sum >= rule.1 as u128 {
                return (Permit::Deny, None);
            }
            max = Some(rule.0);
            proof {
                done = done + 1;
            }
        }
        proof {
            lemma_last_listed_is_longest(listed, self.rules@);
            if listed.len() > 0 {
                assert(is_longest(self.rules@, *listed.last().0));
                assert(self.rules@[*listed.last().0] == *listed.last().1);
            }
            assert forall|k: (u64, u32)| self.rules@.contains_key(k) implies !rule_violated(
                stamp@,
                now.timestamp,
                k.0,
                self.rules@[k].1,
            ) by {
                let i = choose|i: int| 0 <= i < listed.len() && *listed[i].0 == k;
                assert(self.rules@[*listed[i].0] == *listed[i].1);
            }
        }
        (Permit::Allow(None), max)
    }

    /// Builds the key under which the record of `identifier` is stored.
    pub fn storage_key(&self, identifier: &str) -> (key: String)
        ensures
            key@ == storage_key_of(self.prefix@, identifier@),
    {
        let mut key = self.prefix.clone();
        key.append("/");
        key.append(identifier);
        proof {
            reveal_strlit("/");
        }
        key
    }

    /// Checks `identifier` against its record `stamp` at the instant `now`
    /// and, where the event is allowed and a rule exists, issues the ticket
    /// that records it later. The record itself is left as it is.
    pub fn issue(&self, identifier: &str, stamp: &Stamp, now: Datetime) -> (permit: Permit)
        ensures
            self.grants(identifier@, stamp@, now, permit),
    {
        let (permit, max) = self.check_stamp(stamp, now);
        match (permit, max) {
            (Permit::Allow(_), Some(max)) => {
                let key = self.storage_key(identifier);
                Permit::Allow(Some(Ticket { key, datetime: now, max }))
            },
            (permit, _) => permit,
        }
    }

    /// Checks `identifier` at the instant `now` against what the store
    /// answered to a get of the identifier's storage key. A failed get and
    /// bytes that hold no record are errors; nothing is written.
    pub fn check_kv(
        &self,
        answer: Result<Option<Vec<u8>>, KvError>,
        identifier: &str,
        now: Datetime,
    ) -> (res: Result<Permit, LimitError>)
        ensures
            match fetched_record(answer) {
                Some(record) => res matches Ok(permit) && self.grants(
                    identifier@,
                    record,
                    now,
                    permit,
                ),
                None => res matches Err(error) && fetch_failure(answer, error),
            },
    {
        match fetch(answer) {
            Ok(stamp) => Ok(self.issue(identifier, &stamp, now)),
            Err(error) => Err(error),
        }
    }
}

/// Whether `entries` lists the rules in `rules`: every rule once, by
/// ascending key.
pub open spec fn lists_rules(
    entries: Seq<(&(u64, u32), &(Duration, u64))>,
    rules: Map<(u64, u32), (Duration, u64)>,
) -> bool {
    &&& forall|i: int, j: int|
        #![trigger entries[i], entries[j]]
        0 <= i < j < entries.len() ==> *entries[i].0 != *entries[j].0 && key_le(
            *entries[i].0,
            *entries[j].0,
        )
    &&& forall|i: int|
        #![trigger entries[i]]
        0 <= i < entries.len() ==> rules.contains_key(*entries[i].0) && rules[*entries[i].0]
            == *entries[i].1
    &&& forall|k: (u64, u32)| #[trigger]
        rules.contains_key(k) ==> exists|i: int|
            0 <= i < entries.len() && *(#[trigger] entries[i]).0 == k
}

/// What a walk over the rules hands out lists the rules.
proof fn lemma_walk_lists_rules(
    rules: &BTreeMap<(u64, u32), (Duration, u64)>,
    entries: Seq<(&(u64, u32), &(Duration, u64))>,
)
    requires
        entries == rules.iter().remaining(),
        increasing_seq(entries.map_values(|kv: (&(u64, u32), &(Duration, u64))| *kv.0)),
    ensures
        lists_rules(entries, rules@),
{
    let keys = entries.map_values(|kv: (&(u64, u32), &(Duration, u64))| *kv.0);
    lemma_increasing_keys(keys);
    assert forall|i: int, j: int|
        #![trigger entries[i], entries[j]]
        0 <= i < j < entries.len() implies *entries[i].0 != *entries[j].0 && key_le(
        *entries[i].0,
        *entries[j].0,
    ) by {
        assert(keys[i] == *entries[i].0 && keys[j] == *entries[j].0);
    }
}

/// The rule that a listing ends with has the longest window, and a listing
/// without entries is that of no rule at all.
proof fn lemma_last_listed_is_longest(
    entries: Seq<(&(u64, u32), &(Duration, u64))>,
    rules: Map<(u64, u32), (Duration, u64)>,
)
    requires
        lists_rules(entries, rules),
    ensures
        entries.len() == 0 ==> forall|k: (u64, u32)| !is_longest(rules, k),
        entries.len() > 0 ==> forall|k: (u64, u32)|
            is_longest(rules, k) <==> k == *entries.last().0,
{
    if entries.len() > 0 {
        let last = *entries.last().0;
        assert forall|other: (u64, u32)| rules.contains_key(other) implies key_le(other, last) by {
            let i = choose|i: int| 0 <= i < entries.len() && *entries[i].0 == other;
            if i < entries.len() - 1 {
                assert(key_le(*entries[i].0, *entries[entries.len() - 1].0));
            }
        }
        assert forall|k: (u64, u32)| is_longest(rules, k) implies k == last by {
            assert(key_le(k, last) && key_le(last, k));
        }
    } else {
        assert forall|k: (u64, u32)| !is_longest(rules, k) by {
            if rules.contains_key(k) {
                let i = choose|i: int| 0 <= i < entries.len() && *entries[i].0 == k;
            }
        }
    }
}

/// Among finitely many keys, at least one, there is a greatest.
proof fn lemma_greatest_key(keys: Set<(u64, u32)>)
    requires
        keys.finite(),
        !keys.is_empty(),
    ensures
        exists|k: (u64, u32)|
            keys.contains(k) && forall|other: (u64, u32)|
                keys.contains(other) ==> key_le(other, k),
    decreases keys.len(),
{
    let first = keys.choose();
    let rest = keys.remove(first);
    if rest.is_empty() {
        assert forall|other: (u64, u32)| keys.contains(other) implies key_le(other, first) by {
            if other != first {
                assert(rest.contains(other));
            }
        }
    } else {
        lemma_greatest_key(rest);
        let best = choose|k: (u64, u32)|
            rest.contains(k) && forall|other: (u64, u32)|
                rest.contains(other) ==> key_le(other, k);
        let top = if key_le(best, first) {
            first
        } else {
            best
        };
        assert forall|other: (u64, u32)| keys.contains(other) implies key_le(other, top) by {
            if other != first {
                assert(rest.contains(other));
            }
        }
    }
}

/// A limiter has a longest window exactly where it has a rule, and then it
/// is the duration of the rule whose key is greatest.
pub proof fn lemma_longest_window(limiter: RateLimiter)
    ensures
        limiter.longest() is None <==> limiter.rules@.dom().is_empty(),
        limiter.longest() matches Some(max) ==> exists|k: (u64, u32)|
            is_longest(limiter.rules@, k) && limiter.rules@[k].0 == max,
{
    if !limiter.rules@.dom().is_empty() {
        lemma_greatest_key(limiter.rules@.dom());
        let k = choose|k: (u64, u32)|
            limiter.rules@.dom().contains(k) && forall|other: (u64, u32)|
                limiter.rules@.dom().contains(other) ==> key_le(other, k);
        assert(is_longest(limiter.rules@, k));
    } else {
        assert forall|k: (u64, u32)| !is_longest(limiter.rules@, k) by {
            assert(!limiter.rules@.dom().contains(k));
        }
    }
}

/// Where nothing was recorded, no rule with a positive limit is violated:
/// a limiter whose limits are all positive allows an empty record at every
/// instant.
pub proof fn lemma_empty_record_allowed(limiter: RateLimiter, now: u64)
    requires
        forall|k: (u64, u32)| limiter.rules@.contains_key(k) ==> limiter.rules@[k].1 > 0,
    ensures
        !limiter.denies(Map::empty(), now),
{
    assert forall|k: (u64, u32)| limiter.rules@.contains_key(k) implies !rule_violated(
        Map::empty(),
        now,
        k.0,
        limiter.rules@[k].1,
    ) by {
        lemma_window_sum_empty(now - k.0, now as int);
    }
}

/// The order in which two rules of different durations are added makes no
/// difference to the rules that result, and so none to any check.
pub proof fn lemma_rule_order_irrelevant(
    rules: Map<(u64, u32), (Duration, u64)>,
    first: Duration,
    first_amount: u64,
    second: Duration,
    second_amount: u64,
)
    requires
        duration_key(first) != duration_key(second),
    ensures
        rules.insert(duration_key(first), (first, first_amount)).insert(
            duration_key(second),
            (second, second_amount),
        ) == rules.insert(duration_key(second), (second, second_amount)).insert(
            duration_key(first),
            (first, first_amount),
        ),
{
    assert(rules.insert(duration_key(first), (first, first_amount)).insert(
        duration_key(second),
        (second, second_amount),
    ) =~= rules.insert(duration_key(second), (second, second_amount)).insert(
        duration_key(first),
        (first, first_amount),
    ));
}

} // verus!
