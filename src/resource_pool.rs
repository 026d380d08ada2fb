use vstd::prelude::*;

verus! {

/// What a [`ResourcePool`] holds: the idle resources in FIFO order, the
/// number of live slots (idle or checked out), and the bound on that number.
pub struct PoolView<R> {
    pub idle: Seq<R>,
    pub total: nat,
    pub max: nat,
}

impl<R> PoolView<R> {
    /// `0 <= len(idle) <= total <= max`.
    pub open spec fn wf(self) -> bool {
        &&& self.idle.len() <= self.total
        &&& self.total <= self.max
        &&& self.max <= u8::MAX
    }

    /// Slots given out and not yet returned or rolled back.
    pub open spec fn checked_out(self) -> nat {
        (self.total - self.idle.len()) as nat
    }

    pub open spec fn after_acquire_idle(self) -> PoolView<R> {
        if self.idle.len() > 0 {
            PoolView { idle: self.idle.drop_first(), ..self }
        } else {
            self
        }
    }

    pub open spec fn after_reserve(self) -> PoolView<R> {
        if self.total < self.max {
            PoolView { total: self.total + 1, ..self }
        } else {
            self
        }
    }

    pub open spec fn after_release(self, r: R) -> PoolView<R> {
        if self.idle.len() < self.total {
            PoolView { idle: self.idle.push(r), ..self }
        } else {
            self
        }
    }

    pub open spec fn after_rollback(self) -> PoolView<R> {
        if self.idle.len() < self.total {
            PoolView { total: (self.total - 1) as nat, ..self }
        } else {
            self
        }
    }

    pub open spec fn after_remove_idle(self, i: int) -> PoolView<R> {
        PoolView { idle: self.idle.remove(i), total: (self.total - 1) as nat, ..self }
    }
}

/// A bounded pool: idle resources ready for reuse plus a count of every
/// live slot, checked out or idle. The count is the authority on capacity.
pub struct ResourcePool<R> {
    idle: Vec<R>,
    total: u8,
    max: u8,
}

impl<R> View for ResourcePool<R> {
    type V = PoolView<R>;

    closed spec fn view(&self) -> PoolView<R> {
        PoolView { idle: self.idle@, total: self.total as nat, max: self.max as nat }
    }
}

impl<R> ResourcePool<R> {
    pub closed spec fn inv(&self) -> bool {
        self@.wf()
    }

    /// An empty pool that admits at most `max` live slots.
    pub fn new(max: u8) -> (p: Self)
        ensures
            p@ == (PoolView::<R> { idle: Seq::empty(), total: 0, max: max as nat }),
            p.inv(),
    {
        ResourcePool { idle: Vec::new(), total: 0, max }
    }

    pub proof fn lemma_inv(&self)
        requires
            self.inv(),
        ensures
            self@.wf(),
    {
    }

    pub fn total(&self) -> (r: u8)
        ensures
            r as nat == self@.total,
    {
        self.total
    }

    pub fn max(&self) -> (r: u8)
        ensures
            r as nat == self@.max,
    {
        self.max
    }

    pub fn idle_len(&self) -> (r: usize)
        ensures
            r == self@.idle.len(),
    {
        self.idle.len()
    }

    /// The idle resource at position `i`.
    pub fn idle_at(&self, i: usize) -> (r: &R)
        requires
            i < self@.idle.len(),
        ensures
            *r == self@.idle[i as int],
    {
        &self.idle[i]
    }

    /// Mutable access to the idle resource at position `i`; the slot count
    /// and the other idle resources stay as they are.
    pub fn idle_mut(&mut self, i: usize) -> (r: &mut R)
        requires
            old(self).inv(),
            i < old(self)@.idle.len(),
        ensures
            *r == old(self)@.idle[i as int],
            final(self)@ == (PoolView {
                idle: old(self)@.idle.update(i as int, *final(r)),
                ..old(self)@
            }),
            final(self).inv(),
    {
        &mut self.idle[i]
    }

    /// Whether one more slot can be reserved.
    pub fn has_capacity(&self) -> (r: bool)
        ensures
            r == (self@.total < self@.max),
    {
        self.total < self.max
    }

    /// Pops the oldest idle resource, if any; the slot count is unchanged
    /// because the resource stays live, only checked out.
    pub fn try_acquire_idle(&mut self) -> (r: Option<R>)
        requires
            old(self).inv(),
        ensures
            final(self).inv(),
            final(self)@ == old(self)@.after_acquire_idle(),
            old(self)@.idle.len() > 0 ==> r == Some(old(self)@.idle[0]),
            old(self)@.idle.len() == 0 ==> r is None,
    {
        if self.idle.len() > 0 {
            let r = self.idle.remove(0);
            proof {
                assert(self.idle@ =~= old(self)@.idle.drop_first());
            }
            Some(r)
        } else {
            None
        }
    }

    /// Takes one more slot if the bound allows it.
    pub fn reserve_slot(&mut self) -> (ok: bool)
        requires
            old(self).inv(),
        ensures
            final(self).inv(),
            ok == (old(self)@.total < old(self)@.max),
            final(self)@ == old(self)@.after_reserve(),
    {
        if self.total < self.max {
            self.total = self.total + 1;
            true
        } else {
            false
        }
    }

    /// Gives a checked-out resource back for reuse. It is kept only while
    /// some slot is checked out; otherwise it is handed back to be dropped.
    pub fn release(&mut self, r: R) -> (rejected: Option<R>)
        requires
            old(self).inv(),
        ensures
            final(self).inv(),
            final(self)@ == old(self)@.after_release(r),
            rejected is None <==> old(self)@.idle.len() < old(self)@.total,
            rejected is Some ==> rejected == Some(r),
    {
        if self.idle.len() < self.total as usize {
            self.idle.push(r);
            None
        } else {
            Some(r)
        }
    }

    /// Gives back a checked-out slot whose resource is gone.
    pub fn rollback_slot(&mut self)
        requires
            old(self).inv(),
        ensures
            final(self).inv(),
            final(self)@ == old(self)@.after_rollback(),
    {
        if self.idle.len() < self.total as usize {
            self.total = self.total - 1;
        }
    }

    /// Removes the idle resource at position `i` and retires its slot.
    pub fn remove_idle(&mut self, i: usize) -> (r: R)
        requires
            old(self).inv(),
            i < old(self)@.idle.len(),
        ensures
            final(self).inv(),
            r == old(self)@.idle[i as int],
            final(self)@ == old(self)@.after_remove_idle(i as int),
    {
        let r = self.idle.remove(i);
        self.total = self.total - 1;
        r
    }
}

} // verus!
