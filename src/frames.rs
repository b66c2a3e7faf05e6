use vstd::prelude::*;
use vstd::arithmetic::div_mod::lemma_fundamental_div_mod_converse;

verus! {

/// A ring of frame slots, one per frame in flight.
///
/// Each slot holds a per-frame descriptor set and the objects that the frame which last
/// used the slot handed in. The ring advances once per tick; entering a tick empties the
/// slot it lands on, whose previous frame is `frames_in_flight` ticks old and finished on
/// the device by then. Until that moment everything a frame submitted stays held.
pub struct FrameScheduler<D, R> {
    descriptor_sets: Vec<D>,
    retained: Vec<Vec<R>>,
    index: usize,
    tick: u64,
    round: Ghost<int>,
    history: Ghost<Seq<Seq<R>>>,
}

impl<D, R> FrameScheduler<D, R> {
    /// Number of frames in flight: the length of the ring.
    pub closed spec fn frames_in_flight(&self) -> nat {
        self.retained@.len()
    }

    /// Number of ticks entered so far.
    pub closed spec fn current_tick(&self) -> nat {
        self.tick as nat
    }

    /// The slot the current tick uses.
    pub closed spec fn current_index(&self) -> nat {
        self.index as nat
    }

    /// The descriptor sets of the slots, in ring order.
    pub closed spec fn descriptor_sets(&self) -> Seq<D> {
        self.descriptor_sets@
    }

    /// What slot `s` holds now.
    pub closed spec fn retained_in(&self, s: int) -> Seq<R> {
        self.retained@[s]@
    }

    /// Everything submitted during tick `t`; empty for a tick not entered yet.
    pub closed spec fn submitted_at(&self, t: int) -> Seq<R> {
        if 0 <= t < self.history@.len() {
            self.history@[t]
        } else {
            Seq::empty()
        }
    }

    /// The tick whose submissions slot `s` holds: the latest tick, up to the current one,
    /// that used that slot.
    closed spec fn owner(&self, s: int) -> int {
        if s <= self.index {
            self.tick - self.index + s
        } else {
            self.tick - self.index + s - self.retained@.len()
        }
    }

    /// The ring is non-empty, the current index is the tick modulo its length, and each
    /// slot holds exactly what was submitted during the tick that owns it.
    pub closed spec fn wf(&self) -> bool {
        &&& self.retained@.len() > 0
        &&& self.descriptor_sets@.len() == self.retained@.len()
        &&& self.index < self.retained@.len()
        &&& self.tick == self.round@ * self.retained@.len() + self.index
        &&& self.round@ >= 0
        &&& self.history@.len() == self.tick + 1
        &&& forall|s: int|
            0 <= s < self.retained@.len() ==> #[trigger] self.retained@[s]@ == self.submitted_at(
                self.owner(s),
            )
    }

    /// A ring with one slot per descriptor set, at tick 0, every slot empty.
    pub fn new(descriptor_sets: Vec<D>) -> (r: Self)
        requires
            descriptor_sets@.len() > 0,
        ensures
            r.wf(),
            r.frames_in_flight() == descriptor_sets@.len(),
            r.descriptor_sets() == descriptor_sets@,
            r.current_tick() == 0,
            r.current_index() == 0,
            forall|s: int| 0 <= s < r.frames_in_flight() ==> r.retained_in(s).len() == 0,
            forall|t: int| r.submitted_at(t).len() == 0,
    {
        let n = descriptor_sets.len();
        let mut retained: Vec<Vec<R>> = Vec::new();
        let mut i: usize = 0;
        while i < n
            invariant
                i <= n,
                retained@.len() == i,
                forall|s: int| 0 <= s < i ==> (#[trigger] retained@[s])@.len() == 0,
            decreases n - i,
        {
            retained.push(Vec::new());
            i += 1;
        }
        let ghost first: Seq<Seq<R>> = seq![Seq::empty()];
        let r = FrameScheduler {
            descriptor_sets,
            retained,
            index: 0,
            tick: 0,
            round: Ghost(0),
            history: Ghost(first),
        };
        proof {
            assert forall|s: int| 0 <= s < r.retained@.len() implies #[trigger] r.retained@[s]@
                == r.submitted_at(r.owner(s)) by {
                assert(r.retained@[s]@ =~= Seq::<R>::empty());
            }
        }
        r
    }

    /// Number of frames in flight.
    pub fn frames_in_flight_count(&self) -> (r: usize)
        requires
            self.wf(),
        ensures
            r == self.frames_in_flight(),
    {
        self.retained.len()
    }

    /// The current tick.
    pub fn tick(&self) -> (r: u64)
        ensures
            r == self.current_tick(),
    {
        self.tick
    }

    /// The slot of the current tick: the tick modulo the number of frames in flight.
    pub fn frame_index(&self) -> (r: usize)
        requires
            self.wf(),
        ensures
            r == self.current_index(),
            r == self.current_tick() % self.frames_in_flight(),
    {
        proof {
            lemma_fundamental_div_mod_converse(
                self.tick as int,
                self.retained@.len() as int,
                self.round@,
                self.index as int,
            );
        }
        self.index
    }

    /// The descriptor set of the current slot.
    pub fn frame(&self) -> (r: &D)
        requires
            self.wf(),
        ensures
            *r == self.descriptor_sets()[self.current_index() as int],
    {
        &self.descriptor_sets[self.index]
    }

    /// The descriptor set of the current slot, for writing.
    pub fn frame_mut(&mut self) -> (r: &mut D)
        requires
            old(self).wf(),
        ensures
            *r == old(self).descriptor_sets()[old(self).current_index() as int],
            final(self).wf(),
            final(self).descriptor_sets() == old(self).descriptor_sets().update(
                old(self).current_index() as int,
                *final(r),
            ),
            final(self).current_tick() == old(self).current_tick(),
            final(self).current_index() == old(self).current_index(),
            final(self).frames_in_flight() == old(self).frames_in_flight(),
            forall|s: int| #[trigger] final(self).retained_in(s) == old(self).retained_in(s),
            forall|t: int| #[trigger] final(self).submitted_at(t) == old(self).submitted_at(t),
    {
        &mut self.descriptor_sets[self.index]
    }

    /// Enters the next tick and hands back what its slot held, for the caller to release.
    ///
    /// The slot that the new tick uses was last used `frames_in_flight` ticks ago: what it
    /// gives back is exactly what was submitted then. Every other slot keeps its contents.
    pub fn begin_frame(&mut self) -> (released: Vec<R>)
        requires
            old(self).wf(),
            old(self).current_tick() < u64::MAX,
        ensures
            final(self).wf(),
            final(self).frames_in_flight() == old(self).frames_in_flight(),
            final(self).descriptor_sets() == old(self).descriptor_sets(),
            final(self).current_tick() == old(self).current_tick() + 1,
            released@ == old(self).submitted_at(
                final(self).current_tick() - final(self).frames_in_flight(),
            ),
            final(self).retained_in(final(self).current_index() as int).len() == 0,
            forall|s: int|
                0 <= s < final(self).frames_in_flight() && s != final(self).current_index()
                    ==> #[trigger] final(self).retained_in(s) == old(self).retained_in(s),
            forall|t: int|
                t <= old(self).current_tick() ==> #[trigger] final(self).submitted_at(t)
                    == old(self).submitted_at(t),
            final(self).submitted_at(final(self).current_tick() as int).len() == 0,
    {
        let n = self.retained.len();
        let next = if self.index + 1 == n {
            0
        } else {
            self.index + 1
        };
        proof {
            assert(self.owner(next as int) == self.tick + 1 - n);
        }
        let mut released: Vec<R> = Vec::new();
        std::mem::swap(&mut self.retained[next], &mut released);
        let ghost old_round = self.round@;
        self.index = next;
        self.tick = self.tick + 1;
        proof {
            if next == 0 {
                self.round@ = old_round + 1;
                assert((old_round + 1) * n == old_round * n + n) by (nonlinear_arith);
            }
            self.history@ = self.history@.push(Seq::empty());
            assert forall|s: int| 0 <= s < self.retained@.len() implies #[trigger] self.retained@[s]@
                == self.submitted_at(self.owner(s)) by {
                if s == next {
                    assert(self.retained@[s]@ =~= Seq::<R>::empty());
                } else {
                    assert(self.owner(s) == old(self).owner(s));
                    assert(self.retained@[s] == old(self).retained@[s]);
                }
            }
        }
        released
    }

    /// Adds what the current frame's work uses to the current slot, where it stays until
    /// the ring comes back to this slot.
    pub fn submit_frame(&mut self, used: Vec<R>)
        requires
            old(self).wf(),
        ensures
            final(self).wf(),
            final(self).frames_in_flight() == old(self).frames_in_flight(),
            final(self).descriptor_sets() == old(self).descriptor_sets(),
            final(self).current_tick() == old(self).current_tick(),
            final(self).current_index() == old(self).current_index(),
            final(self).retained_in(old(self).current_index() as int) == old(self).retained_in(
                old(self).current_index() as int,
            ) + used@,
            forall|s: int|
                0 <= s < final(self).frames_in_flight() && s != final(self).current_index()
                    ==> #[trigger] final(self).retained_in(s) == old(self).retained_in(s),
            final(self).submitted_at(old(self).current_tick() as int) == old(self).submitted_at(
                old(self).current_tick() as int,
            ) + used@,
            forall|t: int|
                t != old(self).current_tick() ==> #[trigger] final(self).submitted_at(t)
                    == old(self).submitted_at(t),
    {
        let mut used = used;
        let i = self.index;
        let ghost added = used@;
        self.retained[i].append(&mut used);
        proof {
            let t = self.tick as int;
            self.history@ = self.history@.update(t, self.history@[t] + added);
            assert(self.owner(i as int) == t);
            assert forall|s: int| 0 <= s < self.retained@.len() implies #[trigger] self.retained@[s]@
                == self.submitted_at(self.owner(s)) by {
                if s != i {
                    assert(self.owner(s) == old(self).owner(s));
                    assert(self.retained@[s] == old(self).retained@[s]);
                    assert(self.owner(s) != t);
                }
            }
        }
    }
}

/// No early release: whatever was submitted during any of the last `frames_in_flight` ticks,
/// the current one included, is still held, whole, by one of the slots.
pub proof fn lemma_recent_submissions_retained<D, R>(f: FrameScheduler<D, R>, k: int)
    requires
        f.wf(),
        0 <= k <= f.current_tick(),
        f.current_tick() < k + f.frames_in_flight(),
    ensures
        exists|s: int| 0 <= s < f.frames_in_flight() && f.retained_in(s) == f.submitted_at(k),
{
    let n = f.retained@.len() as int;
    let s = if k - f.tick + f.index >= 0 {
        k - f.tick + f.index
    } else {
        k - f.tick + f.index + n
    };
    assert(f.owner(s) == k);
    assert(0 <= s < n);
    assert(f.retained@[s]@ == f.submitted_at(f.owner(s)));
    assert(f.retained_in(s) == f.submitted_at(k));
}

} // verus!
