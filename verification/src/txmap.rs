//! The transaction map: correlates the transaction id of an outbound query
//! with the requester waiting for its response. One entry lives exactly one
//! round trip: registered before the datagram goes out, completed when the
//! response is delivered or the caller cancels.

use std::collections::HashMap;
use vstd::prelude::*;

use crate::errors::ErrorKind;

verus! {

/// The state of one in-flight transaction. The waker is an opaque handle
/// the caller chooses; delivering a response hands it back so the caller
/// can wake whoever waits.
pub enum TxState<E> {
    /// The response has not arrived yet.
    AwaitingResponse { waker: Option<u64> },
    /// The response arrived and waits to be collected by one poll.
    GotResponse { envelope: E },
}

/// What one poll observes.
pub enum PollOutcome<E> {
    /// The response: handed out exactly once, the entry is gone now.
    Ready(E),
    /// Still waiting; the waker was stored.
    Pending,
    /// No such transaction: never registered, already collected, cancelled,
    /// or timed out.
    Missing,
}

/// In-flight transactions, keyed by their 16-bit transaction id.
pub struct TransactionMap<E> {
    inner: HashMap<u16, TxState<E>>,
}

/// What `register` leaves in the map.
pub open spec fn spec_register<E>(m: Map<u16, TxState<E>>, tid: u16) -> Map<u16, TxState<E>> {
    if m.contains_key(tid) {
        m
    } else {
        m.insert(tid, TxState::AwaitingResponse { waker: None })
    }
}

/// What `deliver` leaves in the map.
pub open spec fn spec_deliver<E>(m: Map<u16, TxState<E>>, tid: u16, envelope: E) -> Map<
    u16,
    TxState<E>,
> {
    if m.contains_key(tid) && (m[tid] matches TxState::AwaitingResponse { .. }) {
        m.insert(tid, TxState::GotResponse { envelope })
    } else {
        m
    }
}

/// What one poll returns.
pub open spec fn spec_poll_outcome<E>(m: Map<u16, TxState<E>>, tid: u16) -> PollOutcome<E> {
    if !m.contains_key(tid) {
        PollOutcome::Missing
    } else {
        match m[tid] {
            TxState::AwaitingResponse { .. } => PollOutcome::Pending,
            TxState::GotResponse { envelope } => PollOutcome::Ready(envelope),
        }
    }
}

/// What one poll leaves in the map: a collected response is removed, a
/// pending entry keeps the fresh waker.
pub open spec fn spec_poll_map<E>(m: Map<u16, TxState<E>>, tid: u16, w: u64) -> Map<
    u16,
    TxState<E>,
> {
    if !m.contains_key(tid) {
        m
    } else {
        match m[tid] {
            TxState::AwaitingResponse { .. } => m.insert(
                tid,
                TxState::AwaitingResponse { waker: Some(w) },
            ),
            TxState::GotResponse { .. } => m.remove(tid),
        }
    }
}

impl<E> TransactionMap<E> {
    /// The abstract state: which ids are in flight, and where each stands.
    pub closed spec fn view(&self) -> Map<u16, TxState<E>> {
        self.inner@
    }

    /// An empty map: nothing in flight.
    pub fn new() -> (r: TransactionMap<E>)
        ensures
            r@ == Map::<u16, TxState<E>>::empty(),
    {
        TransactionMap { inner: HashMap::new() }
    }

    /// Opens a transaction: the id now awaits a response with no waker
    /// stored. Registering an id already in flight is refused.
    pub fn register(&mut self, tid: u16) -> (r: Result<(), ErrorKind>)
        ensures
            final(self)@ == spec_register(old(self)@, tid),
            r is Ok <==> !old(self)@.contains_key(tid),
            r matches Err(e) ==> e == ErrorKind::DuplicateTransaction,
    {
        proof {
            broadcast use vstd::std_specs::hash::group_hash_axioms;

        }
        if self.inner.contains_key(&tid) {
            Err(ErrorKind::DuplicateTransaction)
        } else {
            self.inner.insert(tid, TxState::AwaitingResponse { waker: None });
            Ok(())
        }
    }

    /// Hands an arrived response to the waiting transaction, if any. An
    /// unknown id — unsolicited, late, cancelled — is dropped silently, as
    /// is a second response to the same id. Returns the stored waker when
    /// the entry moved to `GotResponse`.
    pub fn deliver(&mut self, tid: u16, envelope: E) -> (r: Option<u64>)
        ensures
            final(self)@ == spec_deliver(old(self)@, tid, envelope),
            r is Some <==> (old(self)@.contains_key(tid) && (old(self)@[tid] matches TxState::AwaitingResponse {
                waker: Some(_),
            })),
            old(self)@.contains_key(tid) ==> (old(self)@[tid] matches TxState::AwaitingResponse {
                waker,
            } ==> r == waker),
    {
        proof {
            broadcast use vstd::std_specs::hash::group_hash_axioms;

        }
        let current: Option<u64> = match self.inner.get(&tid) {
            Option::Some(TxState::AwaitingResponse { waker }) => *waker,
            _ => {
                return None;
            },
        };
        self.inner.insert(tid, TxState::GotResponse { envelope });
        current
    }

    /// Polls a transaction with a fresh waker handle: a delivered response
    /// is handed out and its entry removed, a pending one stores the waker,
    /// a missing one reports so.
    pub fn poll(&mut self, tid: u16, w: u64) -> (r: PollOutcome<E>)
        ensures
            final(self)@ == spec_poll_map(old(self)@, tid, w),
            r == spec_poll_outcome(old(self)@, tid),
    {
        proof {
            broadcast use vstd::std_specs::hash::group_hash_axioms;

        }
        let got: bool = match self.inner.get(&tid) {
            Option::None => {
                return PollOutcome::Missing;
            },
            Option::Some(TxState::AwaitingResponse { .. }) => false,
            Option::Some(TxState::GotResponse { .. }) => true,
        };
        if got {
            match self.inner.remove(&tid) {
                Option::Some(TxState::GotResponse { envelope }) => PollOutcome::Ready(envelope),
                _ => vstd::pervasive::unreached(),
            }
        } else {
            self.inner.insert(tid, TxState::AwaitingResponse { waker: Some(w) });
            PollOutcome::Pending
        }
    }

    /// Whether this transaction id is currently in flight.
    pub fn is_registered(&self, tid: u16) -> (r: bool)
        ensures
            r == self@.contains_key(tid),
    {
        proof {
            broadcast use vstd::std_specs::hash::group_hash_axioms;

        }
        self.inner.contains_key(&tid)
    }

    /// Closes a transaction, used on timeout or when the caller gives up.
    /// A response arriving later will find nothing and be dropped.
    pub fn cancel(&mut self, tid: u16)
        ensures
            final(self)@ == old(self)@.remove(tid),
    {
        proof {
            broadcast use vstd::std_specs::hash::group_hash_axioms;

        }
        self.inner.remove(&tid);
        proof {
            if !old(self)@.contains_key(tid) {
                assert(self@ =~= old(self)@.remove(tid));
            }
        }
    }

    /// How many transactions are in flight.
    pub fn len(&self) -> (r: usize)
        ensures
            r == self@.dom().len(),
    {
        proof {
            broadcast use vstd::std_specs::hash::group_hash_axioms;

        }
        self.inner.len()
    }
}

/// A delivered response is collected exactly once. After `register(tid)`
/// and `deliver(tid, envelope)` on a map that did not hold `tid`, one poll
/// observes `Ready(envelope)` and removes the entry; every later poll of
/// `tid` observes `Missing` — never a stale `Ready`.
pub proof fn lemma_response_collected_once<E>(
    m: Map<u16, TxState<E>>,
    tid: u16,
    envelope: E,
    w: u64,
)
    requires
        !m.contains_key(tid),
    ensures
        ({
            let m2 = spec_deliver(spec_register(m, tid), tid, envelope);
            let m3 = spec_poll_map(m2, tid, w);
            &&& spec_poll_outcome(m2, tid) == PollOutcome::Ready(envelope)
            &&& spec_poll_outcome(m3, tid) == PollOutcome::Missing::<E>
            &&& spec_poll_map(m3, tid, w) == m3
        }),
{
    let m2 = spec_deliver(spec_register(m, tid), tid, envelope);
    assert(m2[tid] == (TxState::GotResponse { envelope }));
    assert(!spec_poll_map(m2, tid, w).contains_key(tid));
}

} // verus!
