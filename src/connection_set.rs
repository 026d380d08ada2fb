use vstd::prelude::*;

use crate::connection::{ChildLease, ConnView, Connection, ConnectionKind};
use crate::error::PoolError;
use crate::info::{describes, ConnectionInfo};
use crate::resource_pool::{PoolView, ResourcePool};

verus! {

/// Index of the first connection in `s` at or after `i` that can take a
/// new child, or -1.
pub open spec fn first_spare_from<T, R>(s: Seq<ConnView<T, R>>, i: int) -> int
    decreases s.len() - i,
{
    if i < 0 || i >= s.len() {
        -1
    } else if s[i].has_spare() {
        i
    } else {
        first_spare_from(s, i + 1)
    }
}

pub open spec fn first_spare<T, R>(s: Seq<ConnView<T, R>>) -> int {
    first_spare_from(s, 0)
}

/// Index of the first connection in `s` at or after `i` whose id is `id`,
/// or -1.
pub open spec fn index_of_id_from<T, R>(s: Seq<ConnView<T, R>>, id: Seq<char>, i: int) -> int
    decreases s.len() - i,
{
    if i < 0 || i >= s.len() {
        -1
    } else if s[i].id == id {
        i
    } else {
        index_of_id_from(s, id, i + 1)
    }
}

pub open spec fn index_of_id<T, R>(s: Seq<ConnView<T, R>>, id: Seq<char>) -> int {
    index_of_id_from(s, id, 0)
}

pub open spec fn has_id<T, R>(s: Seq<ConnView<T, R>>, id: Seq<char>) -> bool {
    exists|j: int| 0 <= j < s.len() && #[trigger] s[j].id == id
}

/// The child lease a connection hands out when the pool picks it: an idle
/// SFTP session if there is one, else a freshly reserved slot.
pub open spec fn after_lease<T, R>(c: ConnView<T, R>) -> ConnView<T, R> {
    if c.kind == ConnectionKind::Sftp && c.children.idle.len() > 0 {
        c.after_lease_idle()
    } else {
        c.after_lease_new()
    }
}

pub open spec fn distinct_ids<T, R>(s: Seq<ConnView<T, R>>) -> bool {
    forall|a: int, b: int|
        0 <= a < s.len() && 0 <= b < s.len() && a != b ==> #[trigger] s[a].id != #[trigger] s[b].id
}

/// A lease ends: with a child handed back, or without one.
pub open spec fn after_end<T, R>(c: ConnView<T, R>, n: u64, child: Option<R>) -> ConnView<T, R> {
    match child {
        Some(r) => c.after_return(n, r),
        None => c.after_rollback(n),
    }
}

pub open spec fn views<T, R>(s: Seq<Connection<T, R>>) -> Seq<ConnView<T, R>> {
    s.map_values(|c: Connection<T, R>| c@)
}

/// Abstract state of a [`ConnectionSet`]: the live connections of one kind
/// with the slot count that bounds them, and the expired connections that
/// still have leases out.
pub struct SetView<T, R> {
    pub kind: ConnectionKind,
    pub idle: Seq<ConnView<T, R>>,
    pub total: nat,
    pub max: nat,
    pub graveyard: Seq<ConnView<T, R>>,
    pub max_children: nat,
}

impl<T, R> SetView<T, R> {
    pub open spec fn all(self) -> Seq<ConnView<T, R>> {
        self.idle + self.graveyard
    }

    pub open spec fn ids_distinct(self) -> bool {
        distinct_ids(self.all())
    }

    pub open spec fn live_ok(self, c: ConnView<T, R>) -> bool {
        &&& c.wf()
        &&& c.kind == self.kind
        &&& c.children.max == self.max_children
        &&& !c.expired
        &&& !c.closed
    }

    pub open spec fn retired_ok(self, c: ConnView<T, R>) -> bool {
        &&& c.wf()
        &&& c.kind == self.kind
        &&& c.children.max == self.max_children
        &&& c.expired
        &&& !c.closed
        &&& !c.drained()
    }

    pub open spec fn wf(self) -> bool {
        &&& self.idle.len() <= self.total <= self.max <= u8::MAX
        &&& self.max_children <= u8::MAX
        &&& forall|i: int| 0 <= i < self.idle.len() ==> self.live_ok(#[trigger] self.idle[i])
        &&& forall|i: int| 0 <= i < self.graveyard.len() ==> self.retired_ok(#[trigger] self.graveyard[i])
        &&& self.ids_distinct()
    }

    /// Whether a connection with this id is live or retired here.
    pub open spec fn has_id(self, id: Seq<char>) -> bool {
        has_id(self.all(), id)
    }

    /// Every id in `t` was already in `self`.
    pub open spec fn ids_cover(self, t: SetView<T, R>) -> bool {
        forall|id: Seq<char>| #[trigger] t.has_id(id) ==> self.has_id(id)
    }

    /// Connection slots reserved for transports still being built.
    pub open spec fn pending(self) -> nat {
        (self.total - self.idle.len()) as nat
    }

    /// What [`ConnectionSet::begin`] does: lease from the first live connection
    /// with room, else reserve a connection slot, else refuse.
    pub open spec fn begin_post(self, t: SetView<T, R>, r: Result<Begin<R>, PoolError>) -> bool {
        let s = self;
        let i = first_spare(s.idle);
        if i != -1 {
            &&& r matches Ok(Begin::Leased(id, l))
            &&& id@ == s.idle[i].id
            &&& l.lease == s.idle[i].next_lease
            &&& (s.idle[i].kind == ConnectionKind::Sftp && s.idle[i].children.idle.len() > 0
                ==> l.ready == Some(s.idle[i].children.idle[0]))
            &&& (!(s.idle[i].kind == ConnectionKind::Sftp && s.idle[i].children.idle.len() > 0)
                ==> l.ready is None)
            &&& t == (SetView { idle: s.idle.update(i, after_lease(s.idle[i])), ..s })
        } else if s.total < s.max {
            &&& r matches Ok(Begin::Build)
            &&& t == (SetView { total: s.total + 1, ..s })
        } else {
            &&& r == Err::<Begin<R>, PoolError>(PoolError::CapacityExhausted)
            &&& t == s
        }
    }

    /// What ending lease `n` on connection `id` does, with or without a
    /// child handed back.
    pub open spec fn end_post(self, t: SetView<T, R>, id: Seq<char>, n: u64, child: Option<R>, r: Option<Connection<T, R>>) -> bool {
        let s = self;
        let i = index_of_id(s.idle, id);
        let g = index_of_id(s.graveyard, id);
        if i != -1 {
            &&& r is None
            &&& t == (SetView { idle: s.idle.update(i, after_end(s.idle[i], n, child)), ..s })
        } else if g != -1 {
            let c = after_end(s.graveyard[g], n, child);
            if c.drained() {
                &&& r matches Some(x) && x@ == (ConnView { closed: true, ..c }) && x.inv()
                &&& t == (SetView { graveyard: s.graveyard.remove(g), ..s })
            } else {
                &&& r is None
                &&& t == (SetView { graveyard: s.graveyard.update(g, c), ..s })
            }
        } else {
            &&& r is None
            &&& t == s
        }
    }

    /// What retiring connection `id` does.
    pub open spec fn expire_post(self, t: SetView<T, R>, id: Seq<char>, r: (bool, Option<Connection<T, R>>)) -> bool {
        let s = self;
        let i = index_of_id(s.idle, id);
        if i != -1 {
            let c = ConnView { expired: true, ..s.idle[i] };
            &&& r.0
            &&& c.drained() ==> (r.1 matches Some(x) && x@ == (ConnView { closed: true, ..c })
                && x.inv())
                && t == (SetView {
                    idle: s.idle.remove(i),
                    total: (s.total - 1) as nat,
                    ..s
                })
            &&& !c.drained() ==> r.1 is None && t == (SetView {
                idle: s.idle.remove(i),
                total: (s.total - 1) as nat,
                graveyard: s.graveyard.push(c),
                ..s
            })
        } else {
            &&& !r.0
            &&& r.1 is None
            &&& t == s
        }
    }

    /// What taking out connection `id` after a disconnect does.
    pub open spec fn remove_post(self, t: SetView<T, R>, id: Seq<char>, r: Option<Connection<T, R>>) -> bool {
        let s = self;
        let i = index_of_id(s.idle, id);
        let g = index_of_id(s.graveyard, id);
        if i != -1 {
            &&& r matches Some(x) && x@ == (ConnView { closed: true, ..s.idle[i] })
            &&& t == (SetView { idle: s.idle.remove(i), total: (s.total - 1) as nat, ..s })
        } else if g != -1 {
            &&& r matches Some(x) && x@ == (ConnView { closed: true, ..s.graveyard[g] })
            &&& t == (SetView { graveyard: s.graveyard.remove(g), ..s })
        } else {
            &&& r is None
            &&& t == s
        }
    }

    /// A reserved connection slot given back.
    pub open spec fn after_abort(self) -> SetView<T, R> {
        if self.pending() > 0 {
            SetView { total: (self.total - 1) as nat, ..self }
        } else {
            self
        }
    }

    /// The connection a new connection starts as.
    pub open spec fn fresh(self, id: Seq<char>, transport: T) -> ConnView<T, R> {
        ConnView {
            id,
            kind: self.kind,
            transport,
            children: PoolView { idle: Seq::empty(), total: 0, max: self.max_children },
            leased: Seq::empty(),
            next_lease: 0,
            expired: false,
            closed: false,
        }
    }
}

pub proof fn lemma_index_of_id_from<T, R>(s: Seq<ConnView<T, R>>, id: Seq<char>, i: int)
    requires
        0 <= i <= s.len(),
    ensures
        index_of_id_from(s, id, i) == -1 ==> forall|j: int| i <= j < s.len() ==> #[trigger] s[j].id != id,
        index_of_id_from(s, id, i) != -1 ==> {
            let k = index_of_id_from(s, id, i);
            &&& i <= k < s.len()
            &&& s[k].id == id
            &&& forall|j: int| i <= j < k ==> #[trigger] s[j].id != id
        },
    decreases s.len() - i,
{
    if i < s.len() {
        lemma_index_of_id_from(s, id, i + 1);
    }
}

pub proof fn lemma_first_spare_from<T, R>(s: Seq<ConnView<T, R>>, i: int)
    requires
        0 <= i <= s.len(),
    ensures
        first_spare_from(s, i) == -1 ==> forall|j: int| i <= j < s.len() ==> !(#[trigger] s[j].has_spare()),
        first_spare_from(s, i) != -1 ==> {
            let k = first_spare_from(s, i);
            &&& i <= k < s.len()
            &&& s[k].has_spare()
            &&& forall|j: int| i <= j < k ==> !(#[trigger] s[j].has_spare())
        },
    decreases s.len() - i,
{
    if i < s.len() {
        lemma_first_spare_from(s, i + 1);
    }
}

/// With distinct ids, the first match is the only one.
pub proof fn lemma_index_of_id<T, R>(s: Seq<ConnView<T, R>>, id: Seq<char>)
    ensures
        index_of_id(s, id) == -1 <==> !has_id(s, id),
        index_of_id(s, id) != -1 ==> 0 <= index_of_id(s, id) < s.len() && s[index_of_id(s, id)].id == id,
{
    lemma_index_of_id_from(s, id, 0);
}

pub open spec fn same_ids<T, R>(a: Seq<ConnView<T, R>>, b: Seq<ConnView<T, R>>) -> bool {
    &&& a.len() == b.len()
    &&& forall|i: int| 0 <= i < a.len() ==> #[trigger] a[i].id == b[i].id
}

pub proof fn lemma_same_ids_distinct<T, R>(s: SetView<T, R>, t: SetView<T, R>)
    requires
        s.ids_distinct(),
        same_ids(s.all(), t.all()),
    ensures
        t.ids_distinct(),
        s.ids_cover(t),
{
    lemma_distinct_from_map(s.all(), t.all(), |j: int| j);
}

pub proof fn lemma_has_id_all<T, R>(s: SetView<T, R>, id: Seq<char>)
    ensures
        s.has_id(id) <==> has_id(s.idle, id) || has_id(s.graveyard, id),
{
    if has_id(s.idle, id) {
        let j = choose|j: int| 0 <= j < s.idle.len() && #[trigger] s.idle[j].id == id;
        assert(s.all()[j] == s.idle[j]);
    }
    if has_id(s.graveyard, id) {
        let j = choose|j: int| 0 <= j < s.graveyard.len() && #[trigger] s.graveyard[j].id == id;
        assert(s.all()[s.idle.len() + j] == s.graveyard[j]);
    }
    if s.has_id(id) {
        let j = choose|j: int| 0 <= j < s.all().len() && #[trigger] s.all()[j].id == id;
        if j < s.idle.len() {
            assert(s.all()[j] == s.idle[j]);
        } else {
            assert(s.all()[j] == s.graveyard[j - s.idle.len()]);
        }
    }
}

/// Ids stay distinct in `t` when each of its entries carries the id of a
/// different entry of `s`.
pub proof fn lemma_distinct_from_map<T, R>(
    s: Seq<ConnView<T, R>>,
    t: Seq<ConnView<T, R>>,
    f: spec_fn(int) -> int,
)
    requires
        distinct_ids(s),
        forall|j: int| 0 <= j < t.len() ==> 0 <= #[trigger] f(j) < s.len() && t[j].id == s[f(j)].id,
        forall|a: int, b: int| 0 <= a < t.len() && 0 <= b < t.len() && a != b ==> #[trigger] f(a) != #[trigger] f(b),
    ensures
        distinct_ids(t),
        forall|id: Seq<char>| #[trigger] has_id(t, id) ==> has_id(s, id),
{
    assert forall|a: int, b: int| 0 <= a < t.len() && 0 <= b < t.len() && a != b
        implies #[trigger] t[a].id != #[trigger] t[b].id by {
        assert(f(a) != f(b));
        assert(s[f(a)].id != s[f(b)].id);
    }
    assert forall|id: Seq<char>| #[trigger] has_id(t, id) implies has_id(s, id) by {
        let j = choose|j: int| 0 <= j < t.len() && #[trigger] t[j].id == id;
        assert(s[f(j)].id == id);
    }
}

/// Once the entry at `k` of `s.all()` is taken out, its id is gone.
pub proof fn lemma_gone<T, R>(s: SetView<T, R>, t: SetView<T, R>, id: Seq<char>, k: int)
    requires
        s.ids_distinct(),
        0 <= k < s.all().len(),
        s.all()[k].id == id,
        t.all() =~= s.all().remove(k),
    ensures
        !t.has_id(id),
{
    assert(t.all().len() == s.all().len() - 1);
    assert forall|j: int| 0 <= j < t.all().len() implies #[trigger] t.all()[j].id != id by {
        let j2 = if j < k { j } else { j + 1 };
        assert(t.all()[j] == s.all()[j2]);
    }
}

/// What the pool decided for a new lease.
pub enum Begin<R> {
    /// A live connection took the lease; its id and the child lease.
    Leased(String, ChildLease<R>),
    /// No live connection had room: a connection slot is reserved and the
    /// caller builds a transport, then commits or aborts.
    Build,
}

/// The connections of one kind for one target: a bounded pool of live
/// connections and the expired ones that still have leases out.
pub struct ConnectionSet<T, R> {
    kind: ConnectionKind,
    live: ResourcePool<Connection<T, R>>,
    graveyard: Vec<Connection<T, R>>,
    max_children: u8,
}

impl<T, R> View for ConnectionSet<T, R> {
    type V = SetView<T, R>;

    closed spec fn view(&self) -> SetView<T, R> {
        SetView {
            kind: self.kind,
            idle: views(self.live@.idle),
            total: self.live@.total,
            max: self.live@.max,
            graveyard: views(self.graveyard@),
            max_children: self.max_children as nat,
        }
    }
}

impl<T, R> ConnectionSet<T, R> {
    pub closed spec fn inv(&self) -> bool {
        &&& self.live.inv()
        &&& forall|i: int| 0 <= i < self.live@.idle.len() ==> (#[trigger] self.live@.idle[i]).inv()
        &&& forall|i: int| 0 <= i < self.graveyard@.len() ==> (#[trigger] self.graveyard@[i]).inv()
        &&& self@.wf()
    }

    pub proof fn lemma_inv(&self)
        requires
            self.inv(),
        ensures
            self@.wf(),
    {
    }

    pub fn new(kind: ConnectionKind, max_connections: u8, max_children: u8) -> (s: Self)
        ensures
            s.inv(),
            s@ == (SetView::<T, R> {
                kind,
                idle: Seq::empty(),
                total: 0,
                max: max_connections as nat,
                graveyard: Seq::empty(),
                max_children: max_children as nat,
            }),
    {
        let s = ConnectionSet {
            kind,
            live: ResourcePool::new(max_connections),
            graveyard: Vec::new(),
            max_children,
        };
        proof {
            assert(s@.idle =~= Seq::empty());
            assert(s@.graveyard =~= Seq::empty());
        }
        s
    }
    pub fn kind(&self) -> (r: ConnectionKind)
        ensures
            r == self@.kind,
    {
        self.kind
    }

    /// Position of the live connection with this id.
    fn find_live(&self, id: &String) -> (r: Option<usize>)
        requires
            self.inv(),
        ensures
            r is None <==> index_of_id(self@.idle, id@) == -1,
            r matches Some(i) ==> i == index_of_id(self@.idle, id@),
    {
        proof {
            lemma_index_of_id_from(self@.idle, id@, 0);
        }
        let n = self.live.idle_len();
        let mut i: usize = 0;
        while i < n
            invariant
                self.inv(),
                n == self@.idle.len(),
                0 <= i <= n,
                index_of_id(self@.idle, id@) == index_of_id_from(self@.idle, id@, i as int),
            decreases n - i,
        {
            let c = self.live.idle_at(i);
            proof {
                assert(self@.idle[i as int] == c@);
            }
            let same = c.id().eq(id);
            if same {
                proof {
                    assert(index_of_id_from(self@.idle, id@, i as int) == i);
                }
                return Some(i);
            }
            i = i + 1;
        }
        None
    }

    /// Position of the retired connection with this id.
    fn find_retired(&self, id: &String) -> (r: Option<usize>)
        requires
            self.inv(),
        ensures
            r is None <==> index_of_id(self@.graveyard, id@) == -1,
            r matches Some(i) ==> i == index_of_id(self@.graveyard, id@),
    {
        let n = self.graveyard.len();
        let mut i: usize = 0;
        while i < n
            invariant
                self.inv(),
                n == self@.graveyard.len(),
                0 <= i <= n,
                index_of_id(self@.graveyard, id@) == index_of_id_from(self@.graveyard, id@, i as int),
            decreases n - i,
        {
            let c = &self.graveyard[i];
            proof {
                assert(self@.graveyard[i as int] == c@);
            }
            let same = c.id().eq(id);
            if same {
                proof {
                    assert(index_of_id_from(self@.graveyard, id@, i as int) == i);
                }
                return Some(i);
            }
            i = i + 1;
        }
        None
    }

    /// Whether a connection with this id is live or retired here.
    pub fn contains_id(&self, id: &String) -> (r: bool)
        requires
            self.inv(),
        ensures
            r == self@.has_id(id@),
    {
        proof {
            lemma_index_of_id(self@.idle, id@);
            lemma_index_of_id(self@.graveyard, id@);
            lemma_has_id_all(self@, id@);
        }
        self.find_live(id).is_some() || self.find_retired(id).is_some()
    }

    /// Live connections plus slots reserved for ones being built.
    pub fn total(&self) -> (r: u8)
        requires
            self.inv(),
        ensures
            r as nat == self@.total,
    {
        self.live.total()
    }

    pub fn max_children(&self) -> (r: u8)
        requires
            self.inv(),
        ensures
            r as nat == self@.max_children,
    {
        self.max_children
    }

    /// Whether a connection slot is reserved for a transport being built.
    pub fn has_pending(&self) -> (r: bool)
        requires
            self.inv(),
        ensures
            r == (self@.pending() > 0),
    {
        self.live.idle_len() < self.live.total() as usize
    }

    /// Picks the first live connection that has room for one more child
    /// and leases from it. With none, reserves a connection slot if the cap
    /// allows, so that the caller builds a new transport.
    pub fn begin(&mut self) -> (r: Result<Begin<R>, PoolError>)
        requires
            old(self).inv(),
        ensures
            final(self).inv(),
            old(self)@.ids_cover(final(self)@),
            old(self)@.begin_post(final(self)@, r),
    {
        proof {
            lemma_first_spare_from(self@.idle, 0);
            self.live.lemma_inv();
        }
        let n = self.live.idle_len();
        let mut i: usize = 0;
        while i < n
            invariant
                *self == *old(self),
                self.inv(),
                n == self@.idle.len(),
                0 <= i <= n,
                first_spare(self@.idle) == first_spare_from(self@.idle, i as int),
            decreases n - i,
        {
            let spare = self.live.idle_at(i).has_spare();
            proof {
                assert(self@.idle[i as int] == self.live@.idle[i as int]@);
            }
            if spare {
                let ghost s = self@;
                let ghost lv = self.live@;
                let conn = self.live.idle_mut(i);
                let l = conn.acquire();
                let id = conn.id().clone();
                proof {
                    assert(self.live@.idle =~= lv.idle.update(i as int, *conn));
                    assert(views(self.live@.idle) =~= s.idle.update(i as int, after_lease(s.idle[i as int])));
                    assert(same_ids(s.all(), self@.all()));
                    lemma_same_ids_distinct(s, self@);
                }
                match l {
                    Ok(l) => {
                        return Ok(Begin::Leased(id, l));
                    },
                    Err(e) => {
                        return Err(e);
                    },
                }
            }
            i = i + 1;
        }
        if self.live.reserve_slot() {
            Ok(Begin::Build)
        } else {
            Err(PoolError::CapacityExhausted)
        }
    }
    /// Gives back a connection slot whose transport could not be built.
    pub fn abort(&mut self)
        requires
            old(self).inv(),
        ensures
            final(self).inv(),
            old(self)@.ids_cover(final(self)@),
            final(self)@ == old(self)@.after_abort(),
    {
        self.live.rollback_slot();
    }

    /// Turns the reserved slot into a live connection over `transport`, and
    /// takes its first child lease, number 0.
    pub fn commit(&mut self, id: String, transport: T) -> (r: Result<u64, PoolError>)
        requires
            old(self).inv(),
            old(self)@.pending() > 0,
            !old(self)@.has_id(id@),
        ensures
            final(self).inv(),
            forall|x: Seq<char>| #[trigger] final(self)@.has_id(x) ==> old(self)@.has_id(x) || x == id@,
            ({
                let s = old(self)@;
                let f = s.fresh(id@, transport);
                &&& s.max_children > 0 ==> r == Ok::<u64, PoolError>(0)
                    && final(self)@ == (SetView { idle: s.idle.push(f.after_lease_new()), ..s })
                &&& s.max_children == 0 ==> r == Err::<u64, PoolError>(PoolError::CapacityExhausted)
                    && final(self)@ == (SetView { idle: s.idle.push(f), ..s })
            }),
    {
        let ghost s = self@;
        let ghost lv = self.live@;
        let mut c = Connection::new(id, self.kind, transport, self.max_children);
        let l = c.acquire();
        let ghost cv = c@;
        proof {
            self.live.lemma_inv();
        }
        let rejected = self.live.release(c);
        proof {
            assert(rejected is None);
            assert(self.live@.idle =~= lv.idle.push(c));
            assert(views(self.live@.idle) =~= s.idle.push(cv));
            let t = self@;
            let k = s.idle.len() as int;
            assert(t.all().len() == s.all().len() + 1);
            assert(t.all()[k].id == id@);
            assert forall|o: int| 0 <= o < t.all().len() && o != k implies #[trigger] t.all()[o] == s.all()[
                if o < k { o } else { o - 1 }
            ] by {
                if o < k {
                    assert(t.all()[o] == s.idle[o]);
                    assert(s.all()[o] == s.idle[o]);
                } else {
                    assert(t.all()[o] == s.graveyard[o - k - 1]);
                    assert(s.all()[o - 1] == s.graveyard[o - k - 1]);
                }
            }
            assert forall|a: int, b: int| 0 <= a < t.all().len() && 0 <= b < t.all().len() && a != b
                implies #[trigger] t.all()[a].id != #[trigger] t.all()[b].id by {
                if a == k || b == k {
                    let o = if a == k { b } else { a };
                    let o2 = if o < k { o } else { o - 1 };
                    assert(t.all()[o] == s.all()[o2]);
                    assert(s.all()[o2].id != id@);
                } else {
                    let a2 = if a < k { a } else { a - 1 };
                    let b2 = if b < k { b } else { b - 1 };
                    assert(t.all()[a] == s.all()[a2]);
                    assert(t.all()[b] == s.all()[b2]);
                }
            }
            assert forall|x: Seq<char>| #[trigger] t.has_id(x) implies s.has_id(x) || x == id@ by {
                let j = choose|j: int| 0 <= j < t.all().len() && #[trigger] t.all()[j].id == x;
                if j != k {
                    let j2 = if j < k { j } else { j - 1 };
                    assert(t.all()[j] == s.all()[j2]);
                }
            }
        }
        match l {
            Ok(l) => Ok(l.lease),
            Err(e) => Err(e),
        }
    }

    /// Ends lease `n` on the connection with this id, handing back `child`
    /// if there is one. An expired connection left with no lease is taken
    /// out, marked closed and returned, for its transport to be disconnected.
    fn end_lease(&mut self, id: &String, n: u64, child: Option<R>) -> (r: Option<Connection<T, R>>)
        requires
            old(self).inv(),
        ensures
            final(self).inv(),
            old(self)@.ids_cover(final(self)@),
            old(self)@.end_post(final(self)@, id@, n, child, r),
    {
        let ghost s = self@;
        proof {
            lemma_index_of_id(s.idle, id@);
            lemma_index_of_id(s.graveyard, id@);
        }
        match self.find_live(id) {
            Some(i) => {
                let ghost lv = self.live@;
                let conn = self.live.idle_mut(i);
                match child {
                    Some(c) => conn.give_back(n, c),
                    None => conn.rollback(n),
                }
                proof {
                    assert(self.live@.idle =~= lv.idle.update(i as int, *conn));
                    assert(views(self.live@.idle) =~= s.idle.update(i as int, after_end(s.idle[i as int], n, child)));
                    assert(same_ids(s.all(), self@.all()));
                    lemma_same_ids_distinct(s, self@);
                    self.live@.idle[i as int].lemma_inv();
                    assert(self@.wf());
                    assert forall|j: int| 0 <= j < self.live@.idle.len()
                        implies (#[trigger] self.live@.idle[j]).inv() by {
                        if j != i {
                            assert(self.live@.idle[j] == lv.idle[j]);
                        }
                    }
                    assert(self.inv());
                }
                None
            },
            None => match self.find_retired(id) {
                Some(g) => {
                    let ghost gv = self.graveyard@;
                    let conn = &mut self.graveyard[g];
                    match child {
                        Some(c) => conn.give_back(n, c),
                        None => conn.rollback(n),
                    }
                    let left = conn.outstanding();
                    proof {
                        assert(self.graveyard@ =~= gv.update(g as int, *conn));
                        assert(views(self.graveyard@) =~= s.graveyard.update(g as int, after_end(s.graveyard[g as int], n, child)));
                        assert(same_ids(s.all(), self@.all()));
                        lemma_same_ids_distinct(s, self@);
                    }
                    proof {
                        self.graveyard@[g as int].lemma_inv();
                        assert forall|j: int| 0 <= j < self.graveyard@.len()
                            implies (#[trigger] self.graveyard@[j]).inv() by {
                            if j != g {
                                assert(self.graveyard@[j] == gv[j]);
                            }
                        }
                    }
                    if left == 0 {
                        let ghost s1 = self@;
                        let ghost gv1 = self.graveyard@;
                        let mut c = self.graveyard.remove(g);
                        c.mark_closed();
                        proof {
                            assert(views(self.graveyard@) =~= s1.graveyard.remove(g as int));
                            assert(views(self.graveyard@) =~= s.graveyard.remove(g as int));
                            assert forall|j: int| 0 <= j < self.graveyard@.len()
                                implies (#[trigger] self.graveyard@[j]).inv() by {
                                let j2 = if j < g { j } else { j + 1 };
                                assert(self.graveyard@[j] == gv1[j2]);
                            }
                            let k = s1.idle.len() as int;
                            lemma_distinct_from_map(s1.all(), self@.all(), |j: int| if j < k + g { j } else { j + 1 });
                            assert forall|x: Seq<char>| #[trigger] self@.has_id(x) implies s.has_id(x) by {
                                assert(s1.has_id(x));
                            }
                        }
                        Some(c)
                    } else {
                        None
                    }
                },
                None => None,
            },
        }
    }

    /// Ends lease `n` on the connection with this id without a child to
    /// give back: a channel, or a child that could not be made.
    pub fn rollback(&mut self, id: &String, n: u64) -> (r: Option<Connection<T, R>>)
        requires
            old(self).inv(),
        ensures
            final(self).inv(),
            old(self)@.ids_cover(final(self)@),
            old(self)@.end_post(final(self)@, id@, n, None, r),
    {
        self.end_lease(id, n, None)
    }

    /// Ends lease `n` on the connection with this id, handing back its child.
    pub fn give_back(&mut self, id: &String, n: u64, child: R) -> (r: Option<Connection<T, R>>)
        requires
            old(self).inv(),
        ensures
            final(self).inv(),
            old(self)@.ids_cover(final(self)@),
            old(self)@.end_post(final(self)@, id@, n, Some(child), r),
    {
        self.end_lease(id, n, Some(child))
    }

    /// Retires the live connection with this id: it leaves the pool and
    /// frees its slot. With leases still out it waits among the retired
    /// connections; with none it is closed at once and returned.
    pub fn expire(&mut self, id: &String) -> (r: (bool, Option<Connection<T, R>>))
        requires
            old(self).inv(),
        ensures
            final(self).inv(),
            old(self)@.ids_cover(final(self)@),
            old(self)@.expire_post(final(self)@, id@, r),
    {
        let ghost s = self@;
        proof {
            lemma_index_of_id(s.idle, id@);
            self.live.lemma_inv();
        }
        match self.find_live(id) {
            Some(i) => {
                let ghost lv = self.live@;
                let mut c = self.live.remove_idle(i);
                c.mark_expired();
                proof {
                    assert(self.live@.idle =~= lv.idle.remove(i as int));
                    assert(views(self.live@.idle) =~= s.idle.remove(i as int));
                }
                if c.outstanding() == 0 {
                    c.mark_closed();
                    proof {
                        lemma_distinct_from_map(s.all(), self@.all(), |j: int| if j < i { j } else { j + 1 });
                    }
                    (true, Some(c))
                } else {
                    let ghost gv = self.graveyard@;
                    self.graveyard.push(c);
                    proof {
                        assert(views(self.graveyard@) =~= s.graveyard.push(c@));
                        let t = self@;
                        assert(t.all().len() == s.all().len());
                        lemma_distinct_from_map(
                            s.all(),
                            t.all(),
                            |j: int| if j < i { j } else if j < t.all().len() - 1 { j + 1 } else { i as int },
                        );
                    }
                    (true, None)
                }
            },
            None => (false, None),
        }
    }

    /// Takes out the connection with this id, live or retired, after its
    /// transport went away, and returns it marked closed.
    pub fn remove(&mut self, id: &String) -> (r: Option<Connection<T, R>>)
        requires
            old(self).inv(),
        ensures
            final(self).inv(),
            old(self)@.ids_cover(final(self)@),
            !final(self)@.has_id(id@),
            old(self)@.remove_post(final(self)@, id@, r),
    {
        let ghost s = self@;
        proof {
            lemma_index_of_id(s.idle, id@);
            lemma_index_of_id(s.graveyard, id@);
            self.live.lemma_inv();
        }
        match self.find_live(id) {
            Some(i) => {
                let ghost lv = self.live@;
                let mut c = self.live.remove_idle(i);
                c.mark_closed();
                proof {
                    assert(self.live@.idle =~= lv.idle.remove(i as int));
                    assert(views(self.live@.idle) =~= s.idle.remove(i as int));
                    lemma_distinct_from_map(s.all(), self@.all(), |j: int| if j < i { j } else { j + 1 });
                    assert(self@.all() =~= s.all().remove(i as int));
                    lemma_gone(s, self@, id@, i as int);
                }
                Some(c)
            },
            None => match self.find_retired(id) {
                Some(g) => {
                    let mut c = self.graveyard.remove(g);
                    c.mark_closed();
                    proof {
                        assert(views(self.graveyard@) =~= s.graveyard.remove(g as int));
                        let k = s.idle.len() as int;
                        lemma_distinct_from_map(s.all(), self@.all(), |j: int| if j < k + g { j } else { j + 1 });
                        assert(self@.all() =~= s.all().remove(k + g));
                        lemma_gone(s, self@, id@, k + g);
                    }
                    Some(c)
                },
                None => None,
            },
        }
    }
    /// The transport of the live connection with this id.
    pub fn transport_of(&self, id: &String) -> (r: Option<&T>)
        requires
            self.inv(),
        ensures
            ({
                let i = index_of_id(self@.idle, id@);
                &&& i == -1 ==> r is None
                &&& i != -1 ==> (r matches Some(t) && *t == self@.idle[i].transport)
            }),
    {
        proof {
            lemma_index_of_id(self@.idle, id@);
        }
        match self.find_live(id) {
            Some(i) => {
                let c = self.live.idle_at(i);
                proof {
                    assert(self@.idle[i as int] == c@);
                }
                Some(c.transport())
            },
            None => None,
        }
    }

    /// Appends a snapshot of every connection here, live ones first, then
    /// retired ones, each in order.
    pub fn append_infos(&self, target_id: i32, out: &mut Vec<ConnectionInfo>)
        requires
            self.inv(),
        ensures
            final(out)@.len() == old(out)@.len() + self@.all().len(),
            forall|k: int| 0 <= k < old(out)@.len() ==> #[trigger] final(out)@[k] == old(out)@[k],
            forall|j: int| 0 <= j < self@.all().len() ==> describes(
                #[trigger] final(out)@[old(out)@.len() + j],
                self@.all()[j],
                target_id,
            ),
    {
        let ghost start = old(out)@.len();
        let n = self.live.idle_len();
        let mut i: usize = 0;
        while i < n
            invariant
                self.inv(),
                n == self@.idle.len(),
                0 <= i <= n,
                start == old(out)@.len(),
                out@.len() == start + i,
                forall|k: int| 0 <= k < start ==> #[trigger] out@[k] == old(out)@[k],
                forall|j: int| 0 <= j < i ==> describes(#[trigger] out@[start + j], self@.all()[j], target_id),
            decreases n - i,
        {
            let c = self.live.idle_at(i);
            proof {
                assert(self@.idle[i as int] == c@);
                assert(self@.all()[i as int] == c@);
            }
            out.push(ConnectionInfo {
                id: c.id().clone(),
                expired: c.is_expired(),
                closed: c.is_closed(),
                kind: c.kind().label(),
                target_id,
            });
            i = i + 1;
        }
        let m = self.graveyard.len();
        let mut g: usize = 0;
        while g < m
            invariant
                self.inv(),
                n == self@.idle.len(),
                m == self@.graveyard.len(),
                0 <= g <= m,
                start == old(out)@.len(),
                out@.len() == start + n + g,
                forall|k: int| 0 <= k < start ==> #[trigger] out@[k] == old(out)@[k],
                forall|j: int| 0 <= j < n + g ==> describes(#[trigger] out@[start + j], self@.all()[j], target_id),
            decreases m - g,
        {
            let c = &self.graveyard[g];
            proof {
                assert(self@.graveyard[g as int] == c@);
                assert(self@.all()[n + g] == c@);
            }
            out.push(ConnectionInfo {
                id: c.id().clone(),
                expired: c.is_expired(),
                closed: c.is_closed(),
                kind: c.kind().label(),
                target_id,
            });
            g = g + 1;
        }
    }
}

} // verus!
