//! The ingest coordinator and broadcast hub.
//!
//! One event-processing context exclusively owns the store and the observer
//! registry. It decides, per event, what to send and to whom; the caller
//! performs the sends and the reads, and observes the stop flag.

use vstd::prelude::*;

use crate::compose::{compose_init_message, compose_push_record_message, spec_init_message, Message};
use crate::record::{ParseError, Record};
use crate::storage::{Storage, StorageError};

verus! {

/// A message telling the other execution contexts to stop. Single-fire,
/// idempotent to receive.
pub struct StopAppMessage;

impl StopAppMessage {
    /// Construct the stop message.
    pub fn new() -> Self {
        Self {  }
    }
}

/// Internal error: any failure of the ingest pipeline, each of which is
/// fatal for the whole process.
#[derive(Clone, Copy, Debug, PartialEq, Eq, Structural)]
pub enum InternalError {
    /// The input line could not be parsed.
    Parse,
    /// The record did not fit the store's schema.
    Storage(StorageError),
}

#[verifier::external_type_specification]
#[verifier::external_body]
pub struct ExSmallRng(rand::rngs::SmallRng);

/// Relies on rand's `SeedableRng::from_entropy` for `SmallRng`: seeds a
/// small pseudo-random generator from operating-system entropy. Nothing is
/// promised of the state it returns; it panics only if the operating
/// system cannot supply entropy.
#[verifier::external_body]
fn rng_from_entropy() -> rand::rngs::SmallRng {
    <rand::rngs::SmallRng as rand::SeedableRng>::from_entropy()
}

/// Relies on rand's `Rng::gen::<u64>`: draws the next value of the
/// generator. Nothing is promised of the result: the registry below is
/// correct for every identifier this returns.
#[verifier::external_body]
fn rng_next(rng: &mut rand::rngs::SmallRng) -> u64 {
    rand::Rng::gen(rng)
}

/// The internal server: owns the store and the observer registry, and
/// decides what each event changes and what must be sent out.
pub struct Server {
    /// The identifiers of the connected observers, each holding one
    /// delivery channel on the caller's side.
    pub sessions: Vec<u64>,
    /// The columnar record store.
    pub storage: Storage,
    /// Generator for fresh session identifiers.
    pub rng: rand::rngs::SmallRng,
    /// False once a fatal error or an external termination request has
    /// fired the stop signal.
    pub running: bool,
}

impl Server {
    /// Well-formed: observer identifiers are unique and the store is
    /// well-formed.
    pub open spec fn wf(self) -> bool {
        &&& self.sessions@.no_duplicates()
        &&& self.storage.wf()
    }

    /// Create a new server with an empty store and no observers.
    pub fn new() -> (s: Server)
        ensures
            s.wf(),
            s.sessions@ =~= Seq::<u64>::empty(),
            s.storage.empty,
            s.running,
    {
        Server {
            sessions: Vec::new(),
            storage: Storage::new(),
            rng: rng_from_entropy(),
            running: true,
        }
    }

    /// True until the stop signal has fired.
    pub fn is_running(&self) -> (r: bool)
        ensures
            r == self.running,
    {
        self.running
    }

    /// Fire the stop signal. Idempotent: receiving it twice is harmless.
    pub fn stop(&mut self)
        ensures
            !final(self).running,
            final(self).sessions == old(self).sessions,
            final(self).storage == old(self).storage,
    {
        self.running = false;
    }

    /// Register an observer under the given identifier. Registering an
    /// identifier twice leaves the registry unchanged.
    pub fn register(&mut self, id: u64)
        requires
            old(self).wf(),
        ensures
            final(self).wf(),
            final(self).storage == old(self).storage,
            final(self).running == old(self).running,
            final(self).sessions@.to_set() =~= old(self).sessions@.to_set().insert(id),
            old(self).sessions@.contains(id) ==> final(self).sessions == old(self).sessions,
            !old(self).sessions@.contains(id) ==> final(self).sessions@ == old(
                self,
            ).sessions@.push(id),
    {
        let n = self.sessions.len();
        let mut i: usize = 0;
        while i < n
            invariant
                self.sessions == old(self).sessions,
                self.storage == old(self).storage,
                self.running == old(self).running,
                self.wf(),
                n == self.sessions@.len(),
                i <= n,
                forall|k: int| 0 <= k < i ==> self.sessions@[k] != id,
            decreases n - i,
        {
            if self.sessions[i] == id {
                proof {
                    assert(self.sessions@[i as int] == id);
                    assert(self.sessions@.contains(id));
                    assert(self.sessions@.to_set().contains(id));
                    assert(self.sessions@.to_set() =~= self.sessions@.to_set().insert(id));
                }
                return ;
            }
            i += 1;
        }
        self.sessions.push(id);
        proof {
            assert(!old(self).sessions@.contains(id));
            assert(self.sessions@.drop_last() =~= old(self).sessions@);
            assert(self.sessions@.no_duplicates());
            assert forall|x: u64| self.sessions@.to_set().contains(x) implies old(
                self,
            ).sessions@.to_set().insert(id).contains(x) by {
                let k = choose|k: int| 0 <= k < self.sessions@.len() && self.sessions@[k] == x;
                if k < self.sessions@.len() - 1 {
                    assert(old(self).sessions@[k] == x);
                }
            }
            assert forall|x: u64| old(self).sessions@.to_set().insert(id).contains(x) implies self
                .sessions@.to_set().contains(x) by {
                if x == id {
                    assert(self.sessions@.last() == id);
                } else {
                    let k = choose|k: int|
                        0 <= k < old(self).sessions@.len() && old(self).sessions@[k] == x;
                    assert(self.sessions@[k] == x);
                }
            }
            assert(self.sessions@.to_set() =~= old(self).sessions@.to_set().insert(id));
        }
    }

    /// Connect a new observer: draw a fresh random identifier, register it,
    /// and compose — as the sole message owed at connection time — exactly
    /// one Init message carrying the store's current snapshot (or the
    /// explicit empty marker). The caller delivers it to this observer
    /// alone.
    pub fn connect(&mut self) -> (r: (u64, Message))
        requires
            old(self).wf(),
        ensures
            final(self).wf(),
            final(self).storage == old(self).storage,
            final(self).running == old(self).running,
            final(self).sessions@.to_set() =~= old(self).sessions@.to_set().insert(r.0),
            spec_init_message(old(self).storage, r.1),
    {
        let id = rng_next(&mut self.rng);
        self.register(id);
        let message = compose_init_message(&self.storage);
        (id, message)
    }

    /// Disconnect an observer. Idempotent: removing an absent identifier
    /// changes nothing.
    pub fn disconnect(&mut self, id: u64)
        requires
            old(self).wf(),
        ensures
            final(self).wf(),
            final(self).storage == old(self).storage,
            final(self).running == old(self).running,
            final(self).sessions@.to_set() =~= old(self).sessions@.to_set().remove(id),
            !old(self).sessions@.contains(id) ==> final(self).sessions == old(self).sessions,
    {
        let n = self.sessions.len();
        let mut i: usize = 0;
        while i < n
            invariant
                self.sessions == old(self).sessions,
                self.storage == old(self).storage,
                self.running == old(self).running,
                self.wf(),
                n == self.sessions@.len(),
                i <= n,
                forall|k: int| 0 <= k < i ==> self.sessions@[k] != id,
            decreases n - i,
        {
            if self.sessions[i] == id {
                self.sessions.remove(i);
                proof {
                    let olds = old(self).sessions@;
                    let news = self.sessions@;
                    assert(olds.no_duplicates());
                    assert(olds[i as int] == id);
                    assert(news =~= olds.subrange(0, i as int) + olds.subrange(
                        i as int + 1,
                        olds.len() as int,
                    ));
                    assert forall|a: int, b: int|
                        0 <= a < b < news.len() implies news[a] != news[b] by {
                        let a0: int = if a < i as int {
                            a
                        } else {
                            a + 1
                        };
                        let b0: int = if b < i as int {
                            b
                        } else {
                            b + 1
                        };
                        assert(news[a] == olds[a0] && news[b] == olds[b0]);
                        assert(olds[a0] != olds[b0]);
                    }
                    assert forall|x: u64| news.to_set().contains(x) implies olds.to_set().remove(
                        id,
                    ).contains(x) by {
                        assert(news.contains(x));
                        let k = choose|k: int| 0 <= k < news.len() && news[k] == x;
                        let k0: int = if k < i as int {
                            k
                        } else {
                            k + 1
                        };
                        assert(news[k] == olds[k0]);
                        assert(olds.contains(x));
                        assert(k0 != i as int);
                        assert(olds[k0] != olds[i as int]);
                        assert(x != id);
                    }
                    assert forall|x: u64| olds.to_set().remove(id).contains(x) implies news
                        .to_set().contains(x) by {
                        assert(olds.contains(x));
                        let k0 = choose|k0: int| 0 <= k0 < olds.len() && olds[k0] == x;
                        assert(x != id);
                        assert(k0 != i as int);
                        if k0 < i as int {
                            assert(news[k0] == x);
                        } else {
                            assert(news[k0 - 1] == x);
                        }
                        assert(news.contains(x));
                    }
                    assert(self.sessions@.to_set() =~= old(self).sessions@.to_set().remove(id));
                }
                return ;
            }
            i += 1;
        }
        proof {
            assert(!self.sessions@.contains(id));
            assert forall|x: u64| self.sessions@.to_set().contains(x) implies old(
                self,
            ).sessions@.to_set().remove(id).contains(x) by {
                assert(self.sessions@.contains(x));
                let k = choose|k: int| 0 <= k < self.sessions@.len() && self.sessions@[k] == x;
                assert(self.sessions@[k] != id);
            }
            assert(self.sessions@.to_set() =~= old(self).sessions@.to_set().remove(id));
        }
    }

    /// Decide one ingest event: the outcome of parsing one input line.
    ///
    /// On a parsed record that the store accepts, the store grows by that
    /// record and the caller is handed the Append notification to
    /// broadcast. On any failure — a parse error or a rejected record — the
    /// store is left unchanged, the stop signal is fired, and the error is
    /// returned: a single bad line terminates ingestion for the whole
    /// process.
    pub fn handle_input(&mut self, parsed: Result<Record, ParseError>) -> (r: Result<
        Message,
        InternalError,
    >)
        requires
            old(self).wf(),
            old(self).running,
            parsed matches Ok(rec) ==> rec.wf(),
        ensures
            final(self).wf(),
            final(self).sessions == old(self).sessions,
            match parsed {
                Err(_) => {
                    &&& r == Err::<Message, InternalError>(InternalError::Parse)
                    &&& final(self).storage == old(self).storage
                    &&& !final(self).running
                },
                Ok(rec) => match r {
                    Ok(m) => {
                        &&& m == (Message::PushRecord { record: rec })
                        &&& final(self).running
                        &&& Storage::push_result(
                            old(self).storage,
                            final(self).storage,
                            rec,
                            Ok(()),
                        )
                    },
                    Err(e) => {
                        &&& e matches InternalError::Storage(se) && Storage::push_result(
                            old(self).storage,
                            final(self).storage,
                            rec,
                            Err(se),
                        )
                        &&& final(self).storage == old(self).storage
                        &&& !final(self).running
                    },
                },
            },
    {
        match parsed {
            Err(_) => {
                self.running = false;
                Err(InternalError::Parse)
            },
            Ok(rec) => {
                match self.storage.push_record(&rec) {
                    Ok(()) => Ok(compose_push_record_message(rec)),
                    Err(e) => {
                        self.running = false;
                        Err(InternalError::Storage(e))
                    },
                }
            },
        }
    }

    /// Plan the fan-out of one serialized message: one delivery per
    /// registered observer, every one carrying the identical payload.
    /// Deliveries are independent: the caller attempts each one and
    /// recovers locally from any that fails, so no observer can block the
    /// rest.
    pub fn broadcast_ws_message(&self, message: &str) -> (deliveries: Vec<(u64, String)>)
        ensures
            deliveries@.len() == self.sessions@.len(),
            forall|i: int|
                #![trigger deliveries@[i]]
                0 <= i < deliveries@.len() ==> deliveries@[i].0 == self.sessions@[i]
                    && deliveries@[i].1@ == message@,
    {
        let n = self.sessions.len();
        let mut deliveries: Vec<(u64, String)> = Vec::new();
        let mut i: usize = 0;
        while i < n
            invariant
                n == self.sessions@.len(),
                i <= n,
                deliveries@.len() == i,
                forall|k: int|
                    #![trigger deliveries@[k]]
                    0 <= k < i ==> deliveries@[k].0 == self.sessions@[k] && deliveries@[k].1@
                        == message@,
            decreases n - i,
        {
            let payload = message.to_owned();
            deliveries.push((self.sessions[i], payload));
            i += 1;
        }
        deliveries
    }
}

} // verus!
