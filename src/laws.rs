//! Properties of the pool that relate its steps, proved over the same spec
//! functions the steps' contracts are written in.
use vstd::prelude::*;

use crate::connection::{ConnView, ConnectionKind};
use crate::connection_set::{distinct_ids, has_id, index_of_id, lemma_index_of_id, Begin, SetView};
use crate::error::PoolError;
use crate::pool::PoolStateView;
use crate::session::SessionView;

verus! {

/// Capacity bound: in a well-formed pool, each target has at most
/// `max_connections` live connections of each kind, and no connection has
/// more than `max_children` children out.
pub proof fn lemma_capacity_bound<T, R>(p: PoolStateView<T, R>, i: int, kind: ConnectionKind, j: int)
    requires
        p.wf(),
        0 <= i < p.sessions.len(),
        0 <= j < p.sessions[i].set(kind).all().len(),
    ensures
        p.sessions[i].set(kind).idle.len() <= p.sessions[i].set(kind).total <= p.max_connections,
        p.sessions[i].set(kind).all()[j].leased.len() <= p.max_children,
{
    let s = p.sessions[i].set(kind);
    assert(p.sessions[i].wf());
    if j < s.idle.len() {
        assert(s.all()[j] == s.idle[j]);
        assert(s.live_ok(s.idle[j]));
    } else {
        assert(s.all()[j] == s.graveyard[j - s.idle.len()]);
        assert(s.retired_ok(s.graveyard[j - s.idle.len()]));
    }
}

/// Slot conservation: a connection's slot count is the number of leases
/// held against it plus the number of idle children.
pub proof fn lemma_slot_conservation<T, R>(c: ConnView<T, R>)
    requires
        c.wf(),
    ensures
        c.children.total == c.leased.len() + c.children.idle.len(),
{
}

proof fn lemma_distinct_idle<T, R>(s: SetView<T, R>)
    requires
        s.ids_distinct(),
    ensures
        distinct_ids(s.idle),
{
    assert forall|a: int, b: int| 0 <= a < s.idle.len() && 0 <= b < s.idle.len() && a != b
        implies #[trigger] s.idle[a].id != #[trigger] s.idle[b].id by {
        assert(s.all()[a] == s.idle[a]);
        assert(s.all()[b] == s.idle[b]);
    }
}

proof fn lemma_removed_gone<T, R>(q: Seq<ConnView<T, R>>, i: int, id: Seq<char>)
    requires
        distinct_ids(q),
        0 <= i < q.len(),
        q[i].id == id,
    ensures
        !has_id(q.remove(i), id),
{
    assert forall|j: int| 0 <= j < q.remove(i).len() implies #[trigger] q.remove(i)[j].id != id by {
        let j2 = if j < i { j } else { j + 1 };
        assert(q.remove(i)[j] == q[j2]);
    }
}

/// After connection `id` is retired, it is no longer among the live
/// connections of its kind.
pub proof fn lemma_expired_not_live<T, R>(s: SetView<T, R>, t: SetView<T, R>, id: Seq<char>, r: (bool, Option<crate::connection::Connection<T, R>>))
    requires
        s.wf(),
        s.expire_post(t, id, r),
        r.0 || !has_id(s.idle, id),
    ensures
        !has_id(t.idle, id),
{
    lemma_index_of_id(s.idle, id);
    lemma_distinct_idle(s);
    let i = index_of_id(s.idle, id);
    if i != -1 {
        lemma_removed_gone(s.idle, i, id);
    }
}

/// Expiry isolation: a connection that is not live is never picked for a
/// new lease, and stays not live through that step.
pub proof fn lemma_expiry_isolation<T, R>(
    t: SetView<T, R>,
    u: SetView<T, R>,
    id: Seq<char>,
    r: Result<Begin<R>, PoolError>,
)
    requires
        t.wf(),
        !has_id(t.idle, id),
        t.begin_post(u, r),
    ensures
        r matches Ok(Begin::Leased(cid, _)) ==> cid@ != id,
        !has_id(u.idle, id),
{
    crate::connection_set::lemma_first_spare_from(t.idle, 0);
    let i = crate::connection_set::first_spare(t.idle);
    if i != -1 {
        assert(t.idle[i].id != id);
        assert forall|j: int| 0 <= j < u.idle.len() implies #[trigger] u.idle[j].id != id by {
            assert(u.idle[j].id == t.idle[j].id);
        }
    }
}

/// Retiring keeps the leases of a busy connection: it waits, expired, with
/// the same leases and children, until they are given back.
pub proof fn lemma_expired_keeps_leases<T, R>(
    s: SetView<T, R>,
    t: SetView<T, R>,
    id: Seq<char>,
    r: (bool, Option<crate::connection::Connection<T, R>>),
)
    requires
        s.wf(),
        s.expire_post(t, id, r),
        index_of_id(s.idle, id) != -1,
        !s.idle[index_of_id(s.idle, id)].drained(),
    ensures
        t.graveyard.last() == (ConnView { expired: true, ..s.idle[index_of_id(s.idle, id)] }),
        r.1 is None,
{
}

/// Eventual drain: when the last lease on a retired connection ends, the
/// connection leaves the set and is handed back closed, for its transport
/// to be disconnected.
pub proof fn lemma_eventual_drain<T, R>(
    s: SetView<T, R>,
    t: SetView<T, R>,
    id: Seq<char>,
    n: u64,
    child: Option<R>,
    r: Option<crate::connection::Connection<T, R>>,
)
    requires
        s.wf(),
        !has_id(s.idle, id),
        has_id(s.graveyard, id),
        s.graveyard[index_of_id(s.graveyard, id)].leased == seq![n],
        s.end_post(t, id, n, child, r),
    ensures
        r matches Some(x) && x@.closed && x@.expired && x@.drained() && x@.id == id,
        !t.has_id(id),
{
    lemma_index_of_id(s.idle, id);
    lemma_index_of_id(s.graveyard, id);
    let g = index_of_id(s.graveyard, id);
    let c = s.graveyard[g];
    assert(s.retired_ok(c));
    c.leased.index_of_first_ensures(n);
    assert(c.leased[0] == n);
    assert(c.leased.contains(n));
    let k = s.idle.len() + g;
    assert(s.all()[k] == c);
    assert(t.all() =~= s.all().remove(k));
    crate::connection_set::lemma_gone(s, t, id, k);
}

/// Disconnect removal: once the connection of a vanished transport is taken
/// out, no set of its session holds it.
pub proof fn lemma_disconnect_removal<T, R>(
    s: SessionView<T, R>,
    t: SessionView<T, R>,
    id: Seq<char>,
    r: Option<crate::connection::Connection<T, R>>,
)
    requires
        s.wf(),
        s.remove_post(t, id, r),
    ensures
        !has_id(t.channel.idle, id),
        !has_id(t.sftp.idle, id),
        !t.has_id(id),
{
    crate::connection_set::lemma_has_id_all(s.channel, id);
    crate::connection_set::lemma_has_id_all(s.sftp, id);
    crate::connection_set::lemma_has_id_all(t.channel, id);
    crate::connection_set::lemma_has_id_all(t.sftp, id);
    lemma_set_removal(s.channel, t.channel, id, r);
    lemma_set_removal(s.sftp, t.sftp, id, r);
}

proof fn lemma_set_removal<T, R>(
    s: SetView<T, R>,
    t: SetView<T, R>,
    id: Seq<char>,
    r: Option<crate::connection::Connection<T, R>>,
)
    requires
        s.wf(),
        s.remove_post(t, id, r) || (t == s && !s.has_id(id)),
    ensures
        !t.has_id(id),
{
    lemma_index_of_id(s.idle, id);
    lemma_index_of_id(s.graveyard, id);
    crate::connection_set::lemma_has_id_all(s, id);
    let i = index_of_id(s.idle, id);
    let g = index_of_id(s.graveyard, id);
    if t != s || s.has_id(id) {
        if i != -1 {
            assert(s.all()[i] == s.idle[i]);
            assert(t.all() =~= s.all().remove(i));
            crate::connection_set::lemma_gone(s, t, id, i);
        } else if g != -1 {
            let k = s.idle.len() + g;
            assert(s.all()[k] == s.graveyard[g]);
            assert(t.all() =~= s.all().remove(k));
            crate::connection_set::lemma_gone(s, t, id, k);
        }
    }
}

/// Cancellation safety: a connection slot reserved for a new transport and
/// then given back leaves the set exactly as it was.
pub proof fn lemma_reserve_then_abort<T, R>(s: SetView<T, R>, t: SetView<T, R>)
    requires
        s.wf(),
        s.begin_post(t, Ok(Begin::Build)),
    ensures
        t.after_abort() == s,
{
}

/// Cancellation safety for children: a child slot reserved and rolled back
/// leaves the children and the held leases as they were.
pub proof fn lemma_child_reserve_then_rollback<T, R>(c: ConnView<T, R>)
    requires
        c.wf(),
        c.has_spare(),
    ensures
        c.after_lease_new().after_rollback(c.next_lease as u64).children == c.children,
        c.after_lease_new().after_rollback(c.next_lease as u64).leased == c.leased,
{
    let d = c.after_lease_new();
    let n = c.next_lease as u64;
    d.leased.index_of_first_ensures(n);
    assert(d.leased[c.leased.len() as int] == n);
    assert(d.leased.contains(n));
    assert forall|j: int| 0 <= j < c.leased.len() implies #[trigger] d.leased[j] != n by {
        assert(c.leased[j] < c.next_lease);
    }
    let k = d.leased.index_of_first(n)->0;
    assert(k == c.leased.len());
    assert(d.leased.remove_value(n) =~= c.leased);
}

/// Round trip on an idle connection: a channel leased and dropped leaves no
/// idle child and no slot in use.
pub proof fn lemma_channel_round_trip<T, R>(c: ConnView<T, R>)
    requires
        c.wf(),
        c.has_spare(),
        c.kind == ConnectionKind::Channel,
        c.children.total == 0,
    ensures
        c.after_lease_new().after_rollback(c.next_lease as u64).children.idle.len() == 0,
        c.after_lease_new().after_rollback(c.next_lease as u64).children.total == 0,
        c.after_lease_new().after_rollback(c.next_lease as u64).leased.len() == 0,
{
    lemma_child_reserve_then_rollback(c);
}

/// Round trip on an idle connection: an SFTP session leased and given back
/// stays as the one reusable idle child, the connection stays open, and
/// (with room for a second child) the next lease it serves takes that
/// session.
pub proof fn lemma_sftp_round_trip<T, R>(c: ConnView<T, R>, r: R)
    requires
        c.wf(),
        c.has_spare(),
        !c.closed,
        c.kind == ConnectionKind::Sftp,
        c.children.total == 0,
    ensures
        c.after_lease_new().after_return(c.next_lease as u64, r).children.idle == seq![r],
        c.after_lease_new().after_return(c.next_lease as u64, r).children.total == 1,
        c.after_lease_new().after_return(c.next_lease as u64, r).leased.len() == 0,
        !c.after_lease_new().after_return(c.next_lease as u64, r).expired,
        !c.after_lease_new().after_return(c.next_lease as u64, r).closed,
        c.next_lease + 1 < u64::MAX && c.children.max > 1 ==> c.after_lease_new().after_return(
            c.next_lease as u64,
            r,
        ).has_spare(),
        crate::connection_set::after_lease(c.after_lease_new().after_return(c.next_lease as u64, r)).children.idle.len() == 0,
{
    let d = c.after_lease_new();
    let n = c.next_lease as u64;
    assert(c.leased.len() == 0);
    assert(d.leased =~= seq![n]);
    d.leased.index_of_first_ensures(n);
    assert(d.leased[0] == n);
    assert(d.leased.contains(n));
    assert(c.children.idle.len() == 0);
    assert(seq![].push(r) =~= seq![r]);
}

/// Expiring is idempotent: retiring the same connection a second time
/// changes nothing and closes nothing.
pub proof fn lemma_expire_idempotent<T, R>(
    s: SessionView<T, R>,
    t: SessionView<T, R>,
    u: SessionView<T, R>,
    id: Seq<char>,
    r1: Option<crate::connection::Connection<T, R>>,
    r2: Option<crate::connection::Connection<T, R>>,
)
    requires
        s.wf(),
        t.wf(),
        s.expire_post(t, id, r1),
        t.expire_post(u, id, r2),
    ensures
        u == t,
        r2 is None,
{
    lemma_index_of_id(s.channel.idle, id);
    lemma_index_of_id(s.sftp.idle, id);
    lemma_index_of_id(t.channel.idle, id);
    lemma_index_of_id(t.sftp.idle, id);
    lemma_distinct_idle(s.channel);
    lemma_distinct_idle(s.sftp);
    let i = index_of_id(s.channel.idle, id);
    if i != -1 {
        lemma_removed_gone(s.channel.idle, i, id);
        assert(s.channel.all()[i] == s.channel.idle[i]);
        assert(s.channel.has_id(id));
        assert(!s.sftp.has_id(id));
        crate::connection_set::lemma_has_id_all(s.sftp, id);
    } else {
        let j = index_of_id(s.sftp.idle, id);
        if j != -1 {
            lemma_removed_gone(s.sftp.idle, j, id);
        }
    }
}

/// Committing a reserved slot on a target that has no connection yet
/// always succeeds: no drawn id can clash.
pub proof fn lemma_commit_on_empty_target<T, R>(
    s: SessionView<T, R>,
    t: SessionView<T, R>,
    kind: ConnectionKind,
    transport: T,
    r: Result<(String, u64), (PoolError, Option<T>)>,
)
    requires
        s.wf(),
        s.channel.all().len() == 0,
        s.sftp.all().len() == 0,
        s.set(kind).pending() > 0,
        s.set(kind).max_children > 0,
        s.commit_post(t, kind, transport, r),
    ensures
        r is Ok,
{
    if r is Err {
        let x = choose|x: Seq<char>| x.len() == 21 && #[trigger] s.has_id(x);
        assert(s.has_id(x));
    }
}

} // verus!
