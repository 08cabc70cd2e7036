//! The reactor's bookkeeping: a slab of per-token machines with an
//! `Active` sentinel against re-entrant dispatch, and the interest-set
//! arithmetic the event loop applies on every readiness change.

use vstd::prelude::*;

verus! {

/// One slab slot: free, holding a machine, or checked out while its
/// machine's readiness is being handled. While a machine runs, its slot
/// reads `Active`, so re-entrant dispatch on the same token is detectable.
pub enum Slot<T> {
    Empty,
    Active,
    Full(T),
}

/// A dense array of reusable slots indexed by token. Tokens are reused
/// after `clear`, and the slab never grows beyond the capacity it was
/// created with.
pub struct Slab<T> {
    slots: Vec<Slot<T>>,
    capacity: usize,
}

impl<T> Slab<T> {
    /// The slots, in token order; tokens at or past `len` are free.
    pub closed spec fn slots_view(&self) -> Seq<Slot<T>> {
        self.slots@
    }

    /// The most slots this slab will ever hold.
    pub closed spec fn capacity_view(&self) -> nat {
        self.capacity as nat
    }

    /// The slab only grows up to its capacity.
    pub closed spec fn wf(&self) -> bool {
        self.slots@.len() <= self.capacity
    }

    /// An empty slab for up to `capacity` machines.
    pub fn new(capacity: usize) -> (r: Slab<T>)
        ensures
            r.wf(),
            r.slots_view().len() == 0,
            r.capacity_view() == capacity,
    {
        Slab { slots: Vec::new(), capacity }
    }

    /// Store a machine in the lowest free slot and hand back its token;
    /// `None` when every slot is taken and the slab is at capacity.
    pub fn insert(&mut self, v: T) -> (r: Option<usize>)
        requires
            old(self).wf(),
        ensures
            final(self).wf(),
            final(self).capacity_view() == old(self).capacity_view(),
            match r {
                Some(t) => {
                    &&& (t < old(self).slots_view().len() && old(self).slots_view()[t as int]
                        is Empty) || (t == old(self).slots_view().len() && t < old(
                        self,
                    ).capacity_view())
                    &&& if t < old(self).slots_view().len() {
                        final(self).slots_view() == old(self).slots_view().update(
                            t as int,
                            Slot::Full(v),
                        )
                    } else {
                        final(self).slots_view() == old(self).slots_view().push(Slot::Full(v))
                    }
                    &&& forall|j: int|
                        0 <= j < t ==> !(#[trigger] old(self).slots_view()[j] is Empty)
                },
                None => {
                    &&& final(self).slots_view() == old(self).slots_view()
                    &&& old(self).slots_view().len() == old(self).capacity_view()
                    &&& forall|j: int|
                        0 <= j < old(self).slots_view().len() ==> !(#[trigger] old(
                            self,
                        ).slots_view()[j] is Empty)
                },
            },
    {
        let n = self.slots.len();
        let mut i: usize = 0;
        while i < n
            invariant
                i <= n,
                n == self.slots@.len(),
                self.slots@ == old(self).slots@,
                self.capacity == old(self).capacity,
                self.wf(),
                forall|j: int| 0 <= j < i ==> !(#[trigger] self.slots@[j] is Empty),
            decreases n - i,
        {
            let free = match self.slots[i] {
                Slot::Empty => true,
                _ => false,
            };
            if free {
                self.slots[i] = Slot::Full(v);
                return Some(i);
            }
            i = i + 1;
        }
        if n < self.capacity {
            self.slots.push(Slot::Full(v));
            Some(n)
        } else {
            None
        }
    }

    /// Take the machine at a token out for dispatch, leaving the `Active`
    /// sentinel in its place: observing the slot during the machine's
    /// `ready` call yields `Active`, so re-entry cannot go unnoticed.
    pub fn checkout(&mut self, token: usize) -> (r: Option<T>)
        ensures
            final(self).capacity_view() == old(self).capacity_view(),
            old(self).wf() ==> final(self).wf(),
            match r {
                Some(v) => {
                    &&& token < old(self).slots_view().len()
                    &&& old(self).slots_view()[token as int] == Slot::Full(v)
                    &&& final(self).slots_view() == old(self).slots_view().update(
                        token as int,
                        Slot::<T>::Active,
                    )
                },
                None => {
                    &&& final(self).slots_view() == old(self).slots_view()
                    &&& token < old(self).slots_view().len() ==> !(old(
                        self,
                    ).slots_view()[token as int] is Full)
                },
            },
    {
        if token >= self.slots.len() {
            return None;
        }
        let is_full = match self.slots[token] {
            Slot::Full(_) => true,
            _ => false,
        };
        if !is_full {
            return None;
        }
        let mut taken: Slot<T> = Slot::Active;
        core::mem::swap(&mut taken, &mut self.slots[token]);
        match taken {
            Slot::Full(v) => Some(v),
            _ => {
                proof {
                    assert(false);
                }
                None
            },
        }
    }

    /// Put a machine back after its dispatch; only an `Active` slot takes
    /// it, and the call says whether it did.
    pub fn checkin(&mut self, token: usize, v: T) -> (r: bool)
        ensures
            final(self).capacity_view() == old(self).capacity_view(),
            old(self).wf() ==> final(self).wf(),
            r == (token < old(self).slots_view().len() && old(self).slots_view()[token as int]
                is Active),
            if r {
                final(self).slots_view() == old(self).slots_view().update(
                    token as int,
                    Slot::Full(v),
                )
            } else {
                final(self).slots_view() == old(self).slots_view()
            },
    {
        if token >= self.slots.len() {
            return false;
        }
        let is_active = match self.slots[token] {
            Slot::Active => true,
            _ => false,
        };
        if !is_active {
            return false;
        }
        self.slots[token] = Slot::Full(v);
        true
    }

    /// Free a token whose machine went away during dispatch; only an
    /// `Active` slot is freed, and the call says whether it was.
    pub fn clear(&mut self, token: usize) -> (r: bool)
        ensures
            final(self).capacity_view() == old(self).capacity_view(),
            old(self).wf() ==> final(self).wf(),
            r == (token < old(self).slots_view().len() && old(self).slots_view()[token as int]
                is Active),
            if r {
                final(self).slots_view() == old(self).slots_view().update(
                    token as int,
                    Slot::<T>::Empty,
                )
            } else {
                final(self).slots_view() == old(self).slots_view()
            },
    {
        if token >= self.slots.len() {
            return false;
        }
        let is_active = match self.slots[token] {
            Slot::Active => true,
            _ => false,
        };
        if !is_active {
            return false;
        }
        self.slots[token] = Slot::Empty;
        true
    }

    /// Whether this token is checked out right now.
    pub fn is_active(&self, token: usize) -> (r: bool)
        ensures
            r == (token < self.slots_view().len() && self.slots_view()[token as int] is Active),
    {
        if token >= self.slots.len() {
            return false;
        }
        match self.slots[token] {
            Slot::Active => true,
            _ => false,
        }
    }
}

/// A readiness interest set, as the reactor registers it for one token.
#[derive(Clone, Copy, Debug, PartialEq, Eq, Structural)]
pub struct Interest {
    /// Readiness for reading (always kept while a connection lives).
    pub readable: bool,
    /// Readiness for writing (kept only while output is owed).
    pub writable: bool,
    /// Peer hangup.
    pub hup: bool,
}

impl Interest {
    /// No interest at all.
    pub fn none() -> (r: Interest)
        ensures
            r == (Interest { readable: false, writable: false, hup: false }),
    {
        Interest { readable: false, writable: false, hup: false }
    }

    /// This interest with another's bits removed.
    pub fn minus(self, other: Interest) -> (r: Interest)
        ensures
            r == (Interest {
                readable: self.readable && !other.readable,
                writable: self.writable && !other.writable,
                hup: self.hup && !other.hup,
            }),
    {
        Interest {
            readable: self.readable && !other.readable,
            writable: self.writable && !other.writable,
            hup: self.hup && !other.hup,
        }
    }

    /// Whether nothing but hangup is left: the token no longer needs to be
    /// registered.
    pub fn is_none_or_hup(self) -> (r: bool)
        ensures
            r == (!self.readable && !self.writable),
    {
        !self.readable && !self.writable
    }
}

/// What the reactor must do to a token's registration after an interest
/// change.
#[derive(Clone, Copy, Debug, PartialEq, Eq, Structural)]
pub enum RegAction {
    /// Remove the token from the poller.
    Deregister,
    /// Re-register the token with this interest set (edge-triggered polling
    /// requires re-registering on every change).
    Reregister(Interest),
}

/// The decision the event loop takes when asked to drop some interest
/// bits: deregister once neither readable nor writable remains, else
/// re-register with what is left.
pub fn deregister_action(current: Interest, remove: Interest) -> (r: (Interest, RegAction))
    ensures
        r.0 == (Interest {
            readable: current.readable && !remove.readable,
            writable: current.writable && !remove.writable,
            hup: current.hup && !remove.hup,
        }),
        r.1 == if !r.0.readable && !r.0.writable {
            RegAction::Deregister
        } else {
            RegAction::Reregister(r.0)
        },
{
    let next = current.minus(remove);
    if next.is_none_or_hup() {
        (next, RegAction::Deregister)
    } else {
        (next, RegAction::Reregister(next))
    }
}

/// The decision the connection's readiness handler takes after running:
/// if output is owed and writable interest is not yet set, add it and
/// re-register; otherwise leave the registration alone.
pub fn ready_interest_update(current: Interest, output_owed: bool) -> (r: Option<Interest>)
    ensures
        r == if !current.writable && output_owed {
            Some(
                Interest { readable: current.readable, writable: true, hup: current.hup },
            )
        } else {
            None::<Interest>
        },
{
    if !current.writable && output_owed {
        Some(Interest { readable: current.readable, writable: true, hup: current.hup })
    } else {
        None
    }
}

} // verus!
