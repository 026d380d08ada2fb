use vstd::prelude::*;

use crate::error::PoolError;
use crate::resource_pool::{PoolView, ResourcePool};

verus! {

/// What a connection's children are. Channels are single-use: a returned
/// channel is discarded and only its slot comes back. SFTP sessions are
/// reusable and go back to the idle queue.
#[derive(PartialEq, Eq, Structural, Clone, Copy, Debug)]
pub enum ConnectionKind {
    Channel,
    Sftp,
}

/// Abstract state of a [`Connection`].
pub struct ConnView<T, R> {
    pub id: Seq<char>,
    pub kind: ConnectionKind,
    pub transport: T,
    pub children: PoolView<R>,
    /// Numbers of the leases currently held against this connection.
    pub leased: Seq<u64>,
    pub next_lease: nat,
    pub expired: bool,
    pub closed: bool,
}

impl<T, R> ConnView<T, R> {
    pub open spec fn wf(self) -> bool {
        &&& self.children.wf()
        &&& self.children.total == self.leased.len() + self.children.idle.len()
        &&& self.leased.no_duplicates()
        &&& forall|i: int| 0 <= i < self.leased.len() ==> #[trigger] self.leased[i] < self.next_lease
        &&& self.next_lease <= u64::MAX
        &&& self.kind == ConnectionKind::Channel ==> self.children.idle.len() == 0
    }

    /// Whether a new child may be reserved on this connection.
    pub open spec fn has_spare(self) -> bool {
        &&& !self.expired
        &&& self.children.total < self.children.max
        &&& self.next_lease < u64::MAX
    }

    /// No lease is held against the connection.
    pub open spec fn drained(self) -> bool {
        self.leased.len() == 0
    }

    /// An expired connection with nothing checked out is due to be closed.
    pub open spec fn due_to_close(self) -> bool {
        self.expired && !self.closed && self.drained()
    }

    /// A lease taken by popping the oldest idle child.
    pub open spec fn after_lease_idle(self) -> ConnView<T, R> {
        ConnView {
            children: self.children.after_acquire_idle(),
            leased: self.leased.push(self.next_lease as u64),
            next_lease: self.next_lease + 1,
            ..self
        }
    }

    /// A lease taken by reserving a slot for a child still to be made.
    pub open spec fn after_lease_new(self) -> ConnView<T, R> {
        ConnView {
            children: self.children.after_reserve(),
            leased: self.leased.push(self.next_lease as u64),
            next_lease: self.next_lease + 1,
            ..self
        }
    }

    /// Lease `n` ends and its child is gone: the slot is given back.
    pub open spec fn after_rollback(self, n: u64) -> ConnView<T, R> {
        if self.leased.contains(n) {
            ConnView {
                children: PoolView { total: (self.children.total - 1) as nat, ..self.children },
                leased: self.leased.remove_value(n),
                ..self
            }
        } else {
            self
        }
    }

    /// Lease `n` ends and hands back child `r`: an SFTP session goes to the
    /// back of the idle queue, a channel is discarded.
    pub open spec fn after_return(self, n: u64, r: R) -> ConnView<T, R> {
        if self.kind == ConnectionKind::Sftp && self.leased.contains(n) {
            ConnView {
                children: PoolView { idle: self.children.idle.push(r), ..self.children },
                leased: self.leased.remove_value(n),
                ..self
            }
        } else {
            self.after_rollback(n)
        }
    }
}

/// A lease on one child of a connection: its number, and the child itself
/// when an idle one was reused. Without a child the caller makes one on the
/// connection's transport, or rolls the lease back if that fails.
pub struct ChildLease<R> {
    pub lease: u64,
    pub ready: Option<R>,
}

/// One SSH transport and the bounded pool of its children.
pub struct Connection<T, R> {
    id: String,
    kind: ConnectionKind,
    transport: T,
    children: ResourcePool<R>,
    leased: Vec<u64>,
    next_lease: u64,
    expired: bool,
    closed: bool,
}

impl<T, R> View for Connection<T, R> {
    type V = ConnView<T, R>;

    closed spec fn view(&self) -> ConnView<T, R> {
        ConnView {
            id: self.id@,
            kind: self.kind,
            transport: self.transport,
            children: self.children@,
            leased: self.leased@,
            next_lease: self.next_lease as nat,
            expired: self.expired,
            closed: self.closed,
        }
    }
}

impl<T, R> Connection<T, R> {
    pub closed spec fn inv(&self) -> bool {
        self.children.inv() && self@.wf()
    }

    pub proof fn lemma_inv(&self)
        requires
            self.inv(),
        ensures
            self@.wf(),
    {
    }

    /// A live connection over `transport` with no children yet.
    pub fn new(id: String, kind: ConnectionKind, transport: T, max_children: u8) -> (c: Self)
        ensures
            c.inv(),
            c@ == (ConnView::<T, R> {
                id: id@,
                kind,
                transport,
                children: PoolView { idle: Seq::empty(), total: 0, max: max_children as nat },
                leased: Seq::empty(),
                next_lease: 0,
                expired: false,
                closed: false,
            }),
    {
        Connection {
            id,
            kind,
            transport,
            children: ResourcePool::new(max_children),
            leased: Vec::new(),
            next_lease: 0,
            expired: false,
            closed: false,
        }
    }

    pub fn id(&self) -> (r: &String)
        ensures
            r@ == self@.id,
    {
        &self.id
    }

    pub fn kind(&self) -> (r: ConnectionKind)
        ensures
            r == self@.kind,
    {
        self.kind
    }

    pub fn transport(&self) -> (r: &T)
        ensures
            *r == self@.transport,
    {
        &self.transport
    }

    pub fn is_expired(&self) -> (r: bool)
        ensures
            r == self@.expired,
    {
        self.expired
    }

    pub fn is_closed(&self) -> (r: bool)
        ensures
            r == self@.closed,
    {
        self.closed
    }

    /// Number of children given out and not yet returned.
    pub fn outstanding(&self) -> (r: usize)
        requires
            self.inv(),
        ensures
            r == self@.leased.len(),
    {
        self.leased.len()
    }

    pub fn has_spare(&self) -> (r: bool)
        requires
            self.inv(),
        ensures
            r == self@.has_spare(),
    {
        !self.expired && self.children.total() < self.children.max() && self.next_lease < u64::MAX
    }

    /// Hands out a child. An expired connection refuses. An SFTP
    /// connection first reuses its oldest idle session; otherwise a slot is
    /// reserved for a child that the caller makes.
    pub fn acquire(&mut self) -> (r: Result<ChildLease<R>, PoolError>)
        requires
            old(self).inv(),
        ensures
            final(self).inv(),
            old(self)@.expired ==> r == Err::<ChildLease<R>, PoolError>(PoolError::ConnectionExpired)
                && final(self)@ == old(self)@,
            !old(self)@.expired && old(self)@.kind == ConnectionKind::Sftp
                && old(self)@.children.idle.len() > 0 && old(self)@.next_lease < u64::MAX ==> {
                &&& r matches Ok(l)
                &&& l.lease == old(self)@.next_lease
                &&& l.ready == Some(old(self)@.children.idle[0])
                &&& final(self)@ == old(self)@.after_lease_idle()
            },
            !old(self)@.expired && (old(self)@.kind == ConnectionKind::Channel
                || old(self)@.children.idle.len() == 0) ==> {
                if old(self)@.has_spare() {
                    &&& r matches Ok(l)
                    &&& l.lease == old(self)@.next_lease
                    &&& l.ready is None
                    &&& final(self)@ == old(self)@.after_lease_new()
                } else {
                    &&& r == Err::<ChildLease<R>, PoolError>(PoolError::CapacityExhausted)
                    &&& final(self)@ == old(self)@
                }
            },
            old(self)@.next_lease == u64::MAX ==> final(self)@ == old(self)@ && r is Err,
    {
        proof {
            self.children.lemma_inv();
        }
        if self.expired {
            return Err(PoolError::ConnectionExpired);
        }
        if self.next_lease == u64::MAX {
            return Err(PoolError::CapacityExhausted);
        }
        let n = self.next_lease;
        if self.kind == ConnectionKind::Sftp && self.children.idle_len() > 0 {
            let child = self.children.try_acquire_idle();
            self.leased.push(n);
            self.next_lease = n + 1;
            proof {
                assert(self@.leased =~= old(self)@.leased.push(n));
                assert(self@.wf());
            }
            return Ok(ChildLease { lease: n, ready: child });
        }
        if !self.children.reserve_slot() {
            return Err(PoolError::CapacityExhausted);
        }
        self.leased.push(n);
        self.next_lease = n + 1;
        proof {
            assert(self@.wf());
        }
        Ok(ChildLease { lease: n, ready: None })
    }

    /// Position of lease `n` among the held leases, if it is held.
    fn find_lease(&self, n: u64) -> (r: Option<usize>)
        requires
            self.inv(),
        ensures
            r is None <==> self@.leased.index_of_first(n) is None,
            r matches Some(i) ==> self@.leased.index_of_first(n) == Some(i as int),
    {
        proof {
            self@.leased.index_of_first_ensures(n);
        }
        let mut i: usize = 0;
        while i < self.leased.len()
            invariant
                0 <= i <= self.leased@.len(),
                forall|j: int| 0 <= j < i ==> self.leased@[j] != n,
            decreases self.leased@.len() - i,
        {
            if self.leased[i] == n {
                proof {
                    self@.leased.index_of_first_ensures(n);
                    assert(self@.leased[i as int] == n);
                    assert(self@.leased.contains(n));
                }
                return Some(i);
            }
            i = i + 1;
        }
        proof {
            self@.leased.index_of_first_ensures(n);
        }
        None
    }

    /// Ends lease `n` without a child to give back (a channel, or a child
    /// that could not be made). A lease not held is ignored.
    pub fn rollback(&mut self, n: u64)
        requires
            old(self).inv(),
        ensures
            final(self).inv(),
            final(self)@ == old(self)@.after_rollback(n),
    {
        proof {
            self.children.lemma_inv();
            self@.leased.index_of_first_ensures(n);
        }
        match self.find_lease(n) {
            Some(i) => {
                self.leased.remove(i);
                self.children.rollback_slot();
                proof {
                    lemma_remove_keeps_bounds(old(self)@.leased, i as int, old(self)@.next_lease);
                    assert(self@.children =~= PoolView {
                        total: (old(self)@.children.total - 1) as nat,
                        ..old(self)@.children
                    });
                }
            },
            None => {},
        }
    }

    /// Ends lease `n` and hands back its child `r`. An SFTP session is kept
    /// for reuse; a channel is dropped and only its slot comes back.
    pub fn give_back(&mut self, n: u64, r: R)
        requires
            old(self).inv(),
        ensures
            final(self).inv(),
            final(self)@ == old(self)@.after_return(n, r),
    {
        proof {
            self.children.lemma_inv();
            self@.leased.index_of_first_ensures(n);
        }
        if self.kind == ConnectionKind::Channel {
            self.rollback(n);
            return;
        }
        match self.find_lease(n) {
            Some(i) => {
                self.leased.remove(i);
                let rejected = self.children.release(r);
                proof {
                    lemma_remove_keeps_bounds(old(self)@.leased, i as int, old(self)@.next_lease);
                    assert(rejected is None);
                }
            },
            None => {},
        }
    }

    /// Retires the connection: it hands out nothing more.
    pub fn mark_expired(&mut self)
        requires
            old(self).inv(),
        ensures
            final(self).inv(),
            final(self)@ == (ConnView { expired: true, ..old(self)@ }),
    {
        self.expired = true;
    }

    /// Records that the transport is, or is being, disconnected.
    pub fn mark_closed(&mut self)
        requires
            old(self).inv(),
        ensures
            final(self).inv(),
            final(self)@ == (ConnView { closed: true, ..old(self)@ }),
    {
        self.closed = true;
    }
}

proof fn lemma_remove_keeps_bounds(s: Seq<u64>, i: int, bound: nat)
    requires
        0 <= i < s.len(),
        s.no_duplicates(),
        forall|j: int| 0 <= j < s.len() ==> #[trigger] s[j] < bound,
    ensures
        s.remove(i).no_duplicates(),
        forall|j: int| 0 <= j < s.remove(i).len() ==> #[trigger] s.remove(i)[j] < bound,
        s.remove(i).len() == s.len() - 1,
{
    let t = s.remove(i);
    assert forall|a: int, b: int| 0 <= a < t.len() && 0 <= b < t.len() && a != b implies t[a] != t[b] by {
        let a2 = if a < i { a } else { a + 1 };
        let b2 = if b < i { b } else { b + 1 };
        assert(t[a] == s[a2]);
        assert(t[b] == s[b2]);
    }
    assert forall|j: int| 0 <= j < t.len() implies #[trigger] t[j] < bound by {
        let j2 = if j < i { j } else { j + 1 };
        assert(t[j] == s[j2]);
    }
}

} // verus!
