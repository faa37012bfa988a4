//! The event-counting protocol: the producer side that derives a bucket key
//! and an event payload for the shared queue, and the consumer side that
//! applies one event to the shared store by a read-modify-write guarded with
//! compare-and-swap, retrying when a concurrent writer got there first.

use vstd::prelude::*;
use crate::action::Do;
use crate::action::get_key;
use crate::action::key_of;
use crate::action::opt_do_view;
use crate::action::DoView;
use crate::json::count_payload;
use crate::json::decode_request_count;
use crate::json::decode_request_event;
use crate::json::encode_request_count;
use crate::json::encode_request_event;
use crate::json::event_payload;
use crate::json::lemma_count_round_trip;
use crate::json::lemma_event_round_trip;
use crate::json::plain_key;
use crate::json::spec_parse_count;
use crate::json::spec_parse_event;
use crate::store::SharedStore;

verus! {

/// Everything that can go wrong while counting.
#[derive(Clone, Copy, PartialEq, Eq, Structural, Debug)]
pub enum CounterError {
    /// The stored counter bytes are not a canonical counter record.
    MalformedCount,
    /// The stored counter cannot be incremented any further.
    CounterOverflow,
    /// The queue message is not a canonical event record.
    MalformedEvent,
    /// The queue handed out no message.
    EmptyMessage,
    /// Every permitted write attempt lost the compare-and-swap race.
    CasConflict,
}

/// The view of an optional byte vector.
pub open spec fn opt_bytes_view(v: Option<Vec<u8>>) -> Option<Seq<u8>> {
    match v {
        Option::None => Option::None,
        Option::Some(b) => Option::Some(b@),
    }
}

/// The count a stored value denotes: an absent or empty value counts as
/// zero, anything else must be a canonical counter record.
pub open spec fn stored_count(v: Option<Seq<u8>>) -> Option<u64> {
    match v {
        Option::None => Option::Some(0u64),
        Option::Some(b) => if b.len() == 0 {
            Option::Some(0u64)
        } else {
            spec_parse_count(b)
        },
    }
}

/// The counter a store holds under `key`.
pub open spec fn counter_value(s: SharedStore, key: Seq<u8>) -> Option<u64> {
    stored_count(s.spec_value(key))
}

// --- producer side ---

/// The bucket key and the queue payload for one observed request: the key
/// names the classification's kind, the payload is the canonical event
/// record carrying that key.
pub fn produce_event(action: &Option<Do>) -> (r: (Vec<u8>, Vec<u8>))
    ensures
        r.0@ == key_of(opt_do_view(*action)),
        r.1@ == event_payload(key_of(opt_do_view(*action))),
{
    let key = get_key(action);
    let payload = encode_request_event(&key);
    (key, payload)
}

/// Every bucket key is free of quote and backslash bytes, so the canonical
/// event record needs no escaping.
pub proof fn lemma_key_is_plain(a: Option<DoView>)
    ensures
        plain_key(key_of(a)),
{
    assert forall|i: int| 0 <= i < key_of(a).len() implies key_of(a)[i] != 34 && key_of(a)[i]
        != 92 by {
        if i >= 28 {
            assert(key_of(a)[i] == crate::action::kind_of(a)[i - 28]);
        }
    }
}

/// A produced event decodes back to exactly its bucket key: what the
/// producer enqueues, the consumer counts under the same bucket.
pub proof fn lemma_event_key_round_trip(a: Option<DoView>)
    ensures
        spec_parse_event(event_payload(key_of(a))) == Option::Some(key_of(a)),
{
    lemma_key_is_plain(a);
    lemma_event_round_trip(key_of(a));
}

/// The count after one more event lands on a stored value: one more than
/// what is stored, where absent-or-empty stores count as zero. The producer
/// reports this value locally (without writing it back); the consumer
/// persists it.
pub fn next_count(stored: &Option<Vec<u8>>) -> (r: Result<u64, CounterError>)
    ensures
        r == (match stored_count(opt_bytes_view(*stored)) {
            Option::None => Result::<u64, CounterError>::Err(CounterError::MalformedCount),
            Option::Some(c) => if c < u64::MAX {
                Result::<u64, CounterError>::Ok((c + 1) as u64)
            } else {
                Result::<u64, CounterError>::Err(CounterError::CounterOverflow)
            },
        }),
{
    match stored {
        None => Ok(1),
        Some(b) => {
            if b.len() == 0 {
                Ok(1)
            } else {
                match decode_request_count(b) {
                    None => Err(CounterError::MalformedCount),
                    Some(c) => {
                        if c < u64::MAX {
                            Ok(c + 1)
                        } else {
                            Err(CounterError::CounterOverflow)
                        }
                    },
                }
            }
        },
    }
}

// --- consumer side ---

/// One read-modify-write attempt, prepared: the key, the version token the
/// read handed out, and the record to write conditionally on that token.
pub struct PendingWrite {
    pub key: Vec<u8>,
    pub token: u64,
    pub new_count: u64,
    pub payload: Vec<u8>,
}

impl PendingWrite {
    /// The payload is the canonical record of the prepared count.
    pub open spec fn wf(self) -> bool {
        self.payload@ == count_payload(self.new_count) && self.new_count >= 1
    }
}

/// The consumer's read-decode-increment-serialize steps for `key`, up to but
/// not including the conditional write. On success the prepared record holds
/// one more than the count the store held at the read.
pub fn begin_increment(store: &SharedStore, key: &Vec<u8>) -> (r: Result<
    PendingWrite,
    CounterError,
>)
    ensures
        r matches Ok(p) ==> p.wf() && p.key@ == key@ && p.token == store.spec_version(key@)
            && counter_value(*store, key@) == Option::Some((p.new_count - 1) as u64),
        r matches Err(e) ==> ((e == CounterError::MalformedCount && counter_value(*store, key@)
            is None) || (e == CounterError::CounterOverflow && counter_value(*store, key@)
            == Option::Some(u64::MAX))),
        counter_value(*store, key@) matches Some(c) && c < u64::MAX ==> r is Ok,
{
    let (stored, token) = store.read(key);
    match next_count(&stored) {
        Err(e) => Err(e),
        Ok(n) => {
            let payload = encode_request_count(n);
            let mut key_copy: Vec<u8> = Vec::new();
            crate::bytes::push_all(&mut key_copy, key);
            Ok(PendingWrite { key: key_copy, token, new_count: n, payload })
        },
    }
}

/// The consumer's conditional write: accepted exactly when no concurrent
/// writer moved the key's version since the attempt's read. On acceptance
/// the stored counter becomes the prepared count; on refusal the store is
/// untouched and the caller must retry from a fresh read. No other key is
/// ever touched.
pub fn commit_increment(store: &mut SharedStore, p: PendingWrite) -> (ok: bool)
    requires
        p.wf(),
    ensures
        ok == (p.token == old(store).spec_version(p.key@) && p.token < u64::MAX),
        ok ==> counter_value(*final(store), p.key@) == Option::Some(p.new_count) && final(store).spec_version(p.key@) == p.token + 1,
        !ok ==> *final(store) == *old(store),
        forall|k2: Seq<u8>| k2 != p.key@ ==> final(store).spec_get(k2) == old(store).spec_get(k2),
{
    let PendingWrite { key, token, new_count, payload } = p;
    let ok = store.write(key, payload, token);
    proof {
        if ok {
            lemma_count_round_trip(new_count);
            assert(count_payload(new_count).len() > 0);
        }
    }
    ok
}

/// One full, uninterrupted read-modify-write on the store model. Under
/// exclusive access the compare-and-swap cannot lose, so this names the
/// per-write law: a successful update moves the counter from `n - 1` to
/// `n`, and the first write on an absent key stores one.
pub fn counter_increment(store: &mut SharedStore, key: &Vec<u8>) -> (r: Result<u64, CounterError>)
    ensures
        r matches Ok(n) ==> n >= 1 && counter_value(*old(store), key@) == Option::Some(
            (n - 1) as u64,
        ) && counter_value(*final(store), key@) == Option::Some(n),
        counter_value(*old(store), key@) matches Some(c) ==> ((c < u64::MAX && old(store).spec_version(key@) < u64::MAX) ==> r == Result::<u64, CounterError>::Ok((c + 1) as u64)),
        r is Err ==> *final(store) == *old(store),
        r matches Err(e) ==> ((e == CounterError::MalformedCount && counter_value(
            *old(store),
            key@,
        ) is None) || (e == CounterError::CounterOverflow && counter_value(*old(store), key@)
            == Option::Some(u64::MAX)) || (e == CounterError::CasConflict && old(store).spec_version(key@) == u64::MAX)),
        forall|k2: Seq<u8>| k2 != key@ ==> final(store).spec_get(k2) == old(store).spec_get(k2),
{
    match begin_increment(store, key) {
        Err(e) => Err(e),
        Ok(p) => {
            let n = p.new_count;
            if commit_increment(store, p) {
                Ok(n)
            } else {
                Err(CounterError::CasConflict)
            }
        },
    }
}

/// The consumer's whole turn for one dequeued message: decode the event,
/// then apply its increment to the store. The error says exactly what
/// stopped it; the store changes only on success, and only under the
/// event's own key.
pub fn consume_message(store: &mut SharedStore, msg: &Option<Vec<u8>>) -> (r: Result<
    u64,
    CounterError,
>)
    ensures
        msg is None ==> r == Result::<u64, CounterError>::Err(CounterError::EmptyMessage),
        msg matches Some(b) && spec_parse_event(b@) is None ==> r == Result::<
            u64,
            CounterError,
        >::Err(CounterError::MalformedEvent),
        msg matches Some(b) ==> (spec_parse_event(b@) matches Some(k) ==> (r matches Ok(n) ==> n
            >= 1 && counter_value(*old(store), k) == Option::Some((n - 1) as u64)
            && counter_value(*final(store), k) == Option::Some(n))),
        msg matches Some(b) ==> (spec_parse_event(b@) matches Some(k) ==> (counter_value(
            *old(store),
            k,
        ) matches Some(c) ==> ((c < u64::MAX && old(store).spec_version(k) < u64::MAX) ==> r
            == Result::<u64, CounterError>::Ok((c + 1) as u64)))),
        msg matches Some(b) ==> (spec_parse_event(b@) matches Some(k) ==> (forall|k2: Seq<u8>|
            k2 != k ==> final(store).spec_get(k2) == old(store).spec_get(k2))),
        r is Err ==> *final(store) == *old(store),
{
    match msg {
        None => Err(CounterError::EmptyMessage),
        Some(b) => {
            match decode_request_event(b) {
                None => Err(CounterError::MalformedEvent),
                Some(key) => counter_increment(store, &key),
            }
        },
    }
}

/// A stale attempt resolved by bounded retry: try the prepared write, and on
/// a lost race run fresh read-modify-write rounds until one lands or the
/// budget is spent. This is the conflict handling the protocol needs so that
/// concurrent increments are not lost: a lost race never aborts the count,
/// it re-reads and re-applies.
pub fn commit_with_retry(store: &mut SharedStore, p: PendingWrite, attempts: u64) -> (r: Result<
    u64,
    CounterError,
>)
    requires
        p.wf(),
    ensures
        r matches Ok(n) ==> n >= 1 && counter_value(*final(store), p.key@) == Option::Some(n),
        p.token == old(store).spec_version(p.key@) && p.token < u64::MAX ==> r == Result::<
            u64,
            CounterError,
        >::Ok(p.new_count),
        !(p.token == old(store).spec_version(p.key@) && p.token < u64::MAX) && attempts >= 1 ==> (
        counter_value(*old(store), p.key@) matches Some(c) ==> ((c < u64::MAX && old(store).spec_version(p.key@) < u64::MAX) ==> r == Result::<u64, CounterError>::Ok(
            (c + 1) as u64,
        ))),
        r is Err ==> *final(store) == *old(store),
        forall|k2: Seq<u8>| k2 != p.key@ ==> final(store).spec_get(k2) == old(store).spec_get(k2),
{
    let ghost p_key = p.key@;
    let ghost p_token = p.token;
    let key = crate::bytes::copy_bytes(&p.key);
    let n = p.new_count;
    if commit_increment(store, p) {
        return Ok(n);
    }
    let mut i: u64 = 0;
    while i < attempts
        invariant
            *store == *old(store),
            key@ == p_key,
            p_key == p.key@,
            p_token == p.token,
            !(p_token == old(store).spec_version(p_key) && p_token < u64::MAX),
            p.new_count >= 1,
            i > 0 ==> (counter_value(*old(store), p_key) matches Some(c) ==> !(c < u64::MAX && old(store).spec_version(p_key) < u64::MAX)),
        decreases attempts - i,
    {
        match begin_increment(store, &key) {
            Err(e) => {
                return Err(e);
            },
            Ok(p2) => {
                let n2 = p2.new_count;
                if commit_increment(store, p2) {
                    return Ok(n2);
                }
            },
        }
        i = i + 1;
    }
    Err(CounterError::CasConflict)
}

// --- counting laws ---

/// One applied increment on `key` between two store states: the stored
/// count moved up by exactly one. A refused compare-and-swap leaves the
/// store untouched, so it gives no such step.
pub open spec fn counter_step(s1: SharedStore, s2: SharedStore, key: Seq<u8>) -> bool {
    match counter_value(s1, key) {
        Option::Some(c) => c < u64::MAX && counter_value(s2, key) == Option::Some((c + 1) as u64),
        Option::None => false,
    }
}

/// Counts are never lost: across any chain of store states in which each
/// link is one applied increment on `key` — regardless of which writer made
/// it or how attempts interleaved, since refused writes change nothing — the
/// final count is the initial count plus the number of applied increments.
pub proof fn lemma_no_lost_increments(hist: Seq<SharedStore>, key: Seq<u8>, c0: u64)
    requires
        hist.len() >= 1,
        counter_value(hist[0], key) == Option::Some(c0),
        forall|i: int| 0 <= i < hist.len() - 1 ==> #[trigger] counter_step(hist[i], hist[i + 1], key),
    ensures
        c0 + hist.len() - 1 <= u64::MAX,
        counter_value(hist.last(), key) == Option::Some((c0 + hist.len() - 1) as u64),
    decreases hist.len(),
{
    if hist.len() == 1 {
    } else {
        assert(counter_step(hist[0], hist[1], key));
        assert(c0 < u64::MAX && counter_value(hist[1], key) == Option::Some((c0 + 1) as u64));
        let rest = hist.skip(1);
        assert(rest[0] == hist[1]);
        assert forall|i: int| 0 <= i < rest.len() - 1 implies #[trigger] counter_step(
            rest[i],
            rest[i + 1],
            key,
        ) by {
            assert(rest[i] == hist[i + 1]);
            assert(rest[i + 1] == hist[i + 2]);
        }
        lemma_no_lost_increments(rest, key, (c0 + 1) as u64);
        assert(rest.last() == hist.last());
    }
}

/// Sequential counting from nothing: N increments applied one after another
/// to an initially absent key leave exactly N stored — no double counting.
pub proof fn lemma_sequential_counting(hist: Seq<SharedStore>, key: Seq<u8>)
    requires
        hist.len() >= 1,
        hist[0].spec_get(key) is None,
        forall|i: int| 0 <= i < hist.len() - 1 ==> #[trigger] counter_step(hist[i], hist[i + 1], key),
    ensures
        hist.len() - 1 <= u64::MAX,
        counter_value(hist.last(), key) == Option::Some((hist.len() - 1) as u64),
{
    lemma_no_lost_increments(hist, key, 0);
}

} // verus!
