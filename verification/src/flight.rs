//! The keys whose output is being produced right now. A request that misses
//! the cache may claim its key before it fetches and transforms; while the
//! claim stands, another request for the same key is told to wait for the
//! first one's result instead of doing the work again. Whether requests claim
//! at all is up to the caller: the cache stays consistent either way.

use vstd::prelude::*;

verus! {

/// The set of keys in flight.
pub struct Flights {
    keys: Vec<u64>,
}

impl View for Flights {
    type V = Set<u64>;

    closed spec fn view(&self) -> Set<u64> {
        self.keys@.to_set()
    }
}

impl Flights {
    /// No key is listed twice.
    pub closed spec fn wf(&self) -> bool {
        self.keys@.no_duplicates()
    }

    /// No key in flight.
    pub fn new() -> (flights: Flights)
        ensures
            flights.wf(),
            flights@ == Set::<u64>::empty(),
    {
        let flights = Flights { keys: Vec::new() };
        proof {
            assert(flights.keys@.to_set() =~= Set::<u64>::empty());
        }
        flights
    }

    /// The place of `key` in the list, if it is in flight.
    fn find(&self, key: u64) -> (place: Option<usize>)
        ensures
            match place {
                Some(i) => i < self.keys@.len() && self.keys@[i as int] == key,
                None => !self@.contains(key),
            },
            place is Some <==> self@.contains(key),
    {
        let mut i: usize = 0;
        while i < self.keys.len()
            invariant
                i <= self.keys.len(),
                forall|j: int| 0 <= j < i ==> self.keys@[j] != key,
            decreases self.keys.len() - i,
        {
            if self.keys[i] == key {
                proof {
                    assert(self.keys@.contains(key));
                }
                return Some(i);
            }
            i = i + 1;
        }
        None
    }

    /// Whether `key` is in flight.
    pub fn in_flight(&self, key: u64) -> (b: bool)
        ensures
            b == self@.contains(key),
    {
        self.find(key).is_some()
    }

    /// Claims `key`: granted exactly where the key was not in flight; it is in
    /// flight afterwards either way, and no other key is touched.
    pub fn claim(&mut self, key: u64) -> (granted: bool)
        requires
            old(self).wf(),
        ensures
            final(self).wf(),
            granted == !old(self)@.contains(key),
            final(self)@ == old(self)@.insert(key),
    {
        match self.find(key) {
            Some(_) => {
                proof {
                    assert(self@.insert(key) =~= self@);
                }
                false
            },
            None => {
                self.keys.push(key);
                proof {
                    assert(self.keys@.to_set() =~= old(self).keys@.to_set().insert(key)) by {
                        assert forall|k: u64|
                            self.keys@.contains(k) <==> old(self).keys@.contains(k) || k
                                == key by {
                            if old(self).keys@.contains(k) {
                                let j = old(self).keys@.index_of(k);
                                assert(self.keys@[j] == k);
                            }
                            if k == key {
                                assert(self.keys@[self.keys@.len() - 1] == k);
                            }
                        }
                    }
                }
                true
            },
        }
    }

    /// Gives `key` up: it is no longer in flight, and no other key is
    /// touched. A key that was not in flight changes nothing.
    pub fn release(&mut self, key: u64)
        requires
            old(self).wf(),
        ensures
            final(self).wf(),
            final(self)@ == old(self)@.remove(key),
    {
        match self.find(key) {
            Some(i) => {
                self.keys.remove(i);
                proof {
                    let before = old(self).keys@;
                    let after = self.keys@;
                    assert(after =~= before.remove(i as int));
                    assert forall|k: u64| after.contains(k) <==> before.contains(k) && k
                        != key by {
                        if after.contains(k) {
                            let j = after.index_of(k);
                            if j < i {
                                assert(before[j] == k);
                            } else {
                                assert(before[j + 1] == k);
                            }
                        }
                        if before.contains(k) && k != key {
                            let j = before.index_of(k);
                            if j < i {
                                assert(after[j] == k);
                            } else {
                                assert(after[j - 1] == k);
                            }
                        }
                    }
                    assert(after.to_set() =~= before.to_set().remove(key));
                }
            },
            None => {
                proof {
                    assert(self@.remove(key) =~= self@);
                }
            },
        }
    }
}

/// One flight for each key: between a claim that was granted and the release
/// of its key, no claim of that key is granted, whatever else is claimed and
/// released in between.
pub proof fn lemma_one_flight(claimed: Set<u64>, key: u64, other: u64)
    requires
        other != key,
    ensures
        claimed.insert(key).contains(key),
        claimed.insert(key).insert(other).contains(key),
        claimed.insert(key).remove(other).contains(key),
        !claimed.insert(key).remove(key).contains(key),
{
}

} // verus!
