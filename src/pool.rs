use vstd::prelude::*;

use crate::config::Config;
use crate::connection::{ConnView, Connection, ConnectionKind};
use crate::connection_set::{Begin, SetView};
use crate::error::PoolError;
use crate::info::{describes, ConnectionInfo};
use crate::session::{SessionView, SshSession};

verus! {

/// Index of the session of target `t` among `s`, or -1.
pub open spec fn index_of_target_from<T, R>(s: Seq<SessionView<T, R>>, t: i32, i: int) -> int
    decreases s.len() - i,
{
    if i < 0 || i >= s.len() {
        -1
    } else if s[i].target_id == t {
        i
    } else {
        index_of_target_from(s, t, i + 1)
    }
}

pub open spec fn index_of_target<T, R>(s: Seq<SessionView<T, R>>, t: i32) -> int {
    index_of_target_from(s, t, 0)
}

proof fn lemma_index_of_target_from<T, R>(s: Seq<SessionView<T, R>>, t: i32, i: int)
    requires
        0 <= i <= s.len(),
    ensures
        index_of_target_from(s, t, i) == -1 ==> forall|j: int| i <= j < s.len() ==> #[trigger] s[j].target_id != t,
        index_of_target_from(s, t, i) != -1 ==> {
            let k = index_of_target_from(s, t, i);
            &&& i <= k < s.len()
            &&& s[k].target_id == t
            &&& forall|j: int| i <= j < k ==> #[trigger] s[j].target_id != t
        },
    decreases s.len() - i,
{
    if i < s.len() {
        lemma_index_of_target_from(s, t, i + 1);
    }
}

/// Replacing the session at `i` (the one of target `t`) by another session
/// of the same target keeps the pool well formed and makes it the session
/// of `t`.
proof fn lemma_step<T, R>(
    before: PoolStateView<T, R>,
    mid: PoolStateView<T, R>,
    after: PoolStateView<T, R>,
    t: i32,
    i: int,
)
    requires
        before.wf(),
        mid.wf(),
        mid == before.with_session(before.session_for(t)),
        0 <= i < mid.sessions.len(),
        index_of_target(mid.sessions, t) == i,
        mid.sessions[i] == before.session_for(t),
        after.sessions == mid.sessions.update(i, after.sessions[i]),
        after.max_connections == mid.max_connections,
        after.max_children == mid.max_children,
        after.sessions[i].target_id == t,
        after.sessions[i].wf(),
        after.sessions[i].channel.max == mid.max_connections,
        after.sessions[i].channel.max_children == mid.max_children,
    ensures
        after.wf(),
        after == before.with_session(after.sessions[i]),
        after.session_for(t) == after.sessions[i],
        index_of_target(after.sessions, t) == i,
{
    lemma_index_of_target_from(mid.sessions, t, 0);
    lemma_index_of_target_from(after.sessions, t, 0);
    lemma_index_of_target_from(before.sessions, t, 0);
    let k = index_of_target(after.sessions, t);
    if k != i {
        if k == -1 {
            assert(after.sessions[i].target_id == t);
        } else if k < i {
            assert(after.sessions[k] == mid.sessions[k]);
        } else {
            assert(after.sessions[i].target_id == t);
        }
    }
    assert forall|a: int, b: int| 0 <= a < after.sessions.len() && 0 <= b < after.sessions.len() && a != b
        implies #[trigger] after.sessions[a].target_id != #[trigger] after.sessions[b].target_id by {
        assert(after.sessions[a].target_id == mid.sessions[a].target_id);
        assert(after.sessions[b].target_id == mid.sessions[b].target_id);
    }
    let j = index_of_target(before.sessions, t);
    if j != -1 {
        assert(after.sessions =~= before.sessions.update(j, after.sessions[i]));
    } else {
        assert(after.sessions =~= before.sessions.push(after.sessions[i]));
    }
}

/// Whether a session's target passes the optional filter.
pub open spec fn selected(filter: Option<i32>, t: i32) -> bool {
    match filter {
        Some(f) => f == t,
        None => true,
    }
}

/// The connections listed for `ss` under `filter`, each with its target:
/// session by session, in order.
pub open spec fn listed<T, R>(ss: Seq<SessionView<T, R>>, filter: Option<i32>) -> Seq<(ConnView<T, R>, i32)>
    decreases ss.len(),
{
    if ss.len() == 0 {
        Seq::empty()
    } else {
        let last = ss.last();
        let rest = listed(ss.drop_last(), filter);
        if selected(filter, last.target_id) {
            rest + last.all().map_values(|c: ConnView<T, R>| (c, last.target_id))
        } else {
            rest
        }
    }
}

/// Abstract state of an [`SshSessionPool`]: one session per target that
/// has been used, in order of first use, and the limits every session was
/// built with.
pub struct PoolStateView<T, R> {
    pub sessions: Seq<SessionView<T, R>>,
    pub max_connections: nat,
    pub max_children: nat,
}

impl<T, R> PoolStateView<T, R> {
    pub open spec fn wf(self) -> bool {
        &&& forall|i: int| 0 <= i < self.sessions.len() ==> (#[trigger] self.sessions[i]).wf()
        &&& forall|i: int| 0 <= i < self.sessions.len() ==> {
            &&& (#[trigger] self.sessions[i]).channel.max == self.max_connections
            &&& self.sessions[i].channel.max_children == self.max_children
        }
        &&& forall|a: int, b: int| 0 <= a < self.sessions.len() && 0 <= b < self.sessions.len() && a != b
            ==> #[trigger] self.sessions[a].target_id != #[trigger] self.sessions[b].target_id
    }

    /// The session a target starts with.
    pub open spec fn fresh_session(self, t: i32) -> SessionView<T, R> {
        SessionView {
            target_id: t,
            channel: SetView {
                kind: ConnectionKind::Channel,
                idle: Seq::empty(),
                total: 0,
                max: self.max_connections,
                graveyard: Seq::empty(),
                max_children: self.max_children,
            },
            sftp: SetView {
                kind: ConnectionKind::Sftp,
                idle: Seq::empty(),
                total: 0,
                max: self.max_connections,
                graveyard: Seq::empty(),
                max_children: self.max_children,
            },
        }
    }

    /// The session of target `t`, or the one it would start with.
    pub open spec fn session_for(self, t: i32) -> SessionView<T, R> {
        let i = index_of_target(self.sessions, t);
        if i != -1 {
            self.sessions[i]
        } else {
            self.fresh_session(t)
        }
    }

    /// This state with the session of its target replaced, or added last.
    pub open spec fn with_session(self, s: SessionView<T, R>) -> PoolStateView<T, R> {
        let i = index_of_target(self.sessions, s.target_id);
        if i != -1 {
            PoolStateView { sessions: self.sessions.update(i, s), ..self }
        } else {
            PoolStateView { sessions: self.sessions.push(s), ..self }
        }
    }
}

/// The process-wide pool: the sessions of every target, created on first
/// use and kept.
pub struct SshSessionPool<T, R> {
    sessions: Vec<SshSession<T, R>>,
    config: Config,
}

impl<T, R> View for SshSessionPool<T, R> {
    type V = PoolStateView<T, R>;

    closed spec fn view(&self) -> PoolStateView<T, R> {
        PoolStateView {
            sessions: self.sessions@.map_values(|s: SshSession<T, R>| s@),
            max_connections: self.config.max_session_per_target as nat,
            max_children: self.config.max_channel_per_session as nat,
        }
    }
}

impl<T, R> SshSessionPool<T, R> {
    pub closed spec fn inv(&self) -> bool {
        &&& forall|i: int| 0 <= i < self.sessions@.len() ==> (#[trigger] self.sessions@[i]).inv()
        &&& self@.wf()
    }

    pub proof fn lemma_inv(&self)
        requires
            self.inv(),
        ensures
            self@.wf(),
    {
    }

    pub fn new(config: Config) -> (p: Self)
        ensures
            p.inv(),
            p@.sessions.len() == 0,
            p@.max_connections == config.max_session_per_target,
            p@.max_children == config.max_channel_per_session,
    {
        let p = SshSessionPool { sessions: Vec::new(), config };
        proof {
            assert(p@.sessions =~= Seq::empty());
        }
        p
    }

    pub fn config(&self) -> (r: &Config)
        ensures
            r.max_session_per_target == self@.max_connections,
            r.max_channel_per_session == self@.max_children,
    {
        &self.config
    }

    fn find_session(&self, t: i32) -> (r: Option<usize>)
        requires
            self.inv(),
        ensures
            r is None <==> index_of_target(self@.sessions, t) == -1,
            r matches Some(i) ==> i == index_of_target(self@.sessions, t),
    {
        let n = self.sessions.len();
        let mut i: usize = 0;
        while i < n
            invariant
                self.inv(),
                n == self@.sessions.len(),
                0 <= i <= n,
                index_of_target(self@.sessions, t) == index_of_target_from(self@.sessions, t, i as int),
            decreases n - i,
        {
            let id = self.sessions[i].target_id();
            proof {
                assert(self@.sessions[i as int] == self.sessions@[i as int]@);
            }
            if id == t {
                return Some(i);
            }
            i = i + 1;
        }
        None
    }

    /// Position of the session of target `t`, created if there was none.
    fn session_index(&mut self, t: i32) -> (r: usize)
        requires
            old(self).inv(),
        ensures
            final(self).inv(),
            r < final(self)@.sessions.len(),
            final(self)@.sessions[r as int] == old(self)@.session_for(t),
            final(self)@.sessions[r as int].target_id == t,
            final(self)@ == old(self)@.with_session(old(self)@.session_for(t)),
            index_of_target(final(self)@.sessions, t) == r,
    {
        proof {
            lemma_index_of_target_from(self@.sessions, t, 0);
        }
        match self.find_session(t) {
            Some(i) => {
                proof {
                    assert(self@.sessions.update(i as int, self@.sessions[i as int]) =~= self@.sessions);
                }
                i
            },
            None => {
                let ghost s = self@;
                let session = SshSession::new(t, &self.config);
                self.sessions.push(session);
                let i = self.sessions.len() - 1;
                proof {
                    assert(self@.sessions =~= s.sessions.push(s.fresh_session(t)));
                    lemma_index_of_target_from(self@.sessions, t, 0);
                    assert forall|a: int, b: int|
                        0 <= a < self@.sessions.len() && 0 <= b < self@.sessions.len() && a != b
                        implies #[trigger] self@.sessions[a].target_id != #[trigger] self@.sessions[b].target_id by {
                        if a != i && b != i {
                            assert(self@.sessions[a] == s.sessions[a]);
                            assert(self@.sessions[b] == s.sessions[b]);
                        } else if a == i {
                            assert(self@.sessions[b] == s.sessions[b]);
                        } else {
                            assert(self@.sessions[a] == s.sessions[a]);
                        }
                    }
                    let k = index_of_target(self@.sessions, t);
                    assert(self@.sessions[i as int].target_id == t);
                    if k != -1 && k < i {
                        assert(self@.sessions[k] == s.sessions[k]);
                        assert(s.sessions[k].target_id != t);
                    }
                }
                i
            },
        }
    }
    /// Re-establishes the pool's invariant after the session at `i` took
    /// a step.
    proof fn lemma_after_step(&self, before: PoolStateView<T, R>, mid: PoolStateView<T, R>, old_sessions: Seq<SshSession<T, R>>, t: i32, i: int)
        requires
            before.wf(),
            mid.wf(),
            mid == before.with_session(before.session_for(t)),
            0 <= i < mid.sessions.len(),
            index_of_target(mid.sessions, t) == i,
            mid.sessions[i] == before.session_for(t),
            mid.sessions == old_sessions.map_values(|s: SshSession<T, R>| s@),
            forall|j: int| 0 <= j < old_sessions.len() ==> (#[trigger] old_sessions[j]).inv(),
            self.sessions@ == old_sessions.update(i, self.sessions@[i]),
            self.sessions@[i].inv(),
            self.sessions@[i]@.target_id == t,
            self.sessions@[i]@.channel.max == mid.max_connections,
            self.sessions@[i]@.channel.max_children == mid.max_children,
            self@.max_connections == mid.max_connections,
            self@.max_children == mid.max_children,
        ensures
            self.inv(),
            self@ == before.with_session(self@.sessions[i]),
            self@.session_for(t) == self@.sessions[i],
            self@.sessions[i] == self.sessions@[i]@,
    {
        assert(self@.sessions =~= mid.sessions.update(i, self.sessions@[i]@));
        self.sessions@[i].lemma_inv();
        lemma_step(before, mid, self@, t, i);
        assert forall|j: int| 0 <= j < self.sessions@.len() implies (#[trigger] self.sessions@[j]).inv() by {
            if j != i {
                assert(self.sessions@[j] == old_sessions[j]);
            }
        }
    }

    /// Starts a lease of the given kind on target `t`; see
    /// [`SetView::begin_post`]. The session of `t` is created if needed.
    pub fn begin_lease(&mut self, t: i32, kind: ConnectionKind) -> (r: Result<Begin<R>, PoolError>)
        requires
            old(self).inv(),
        ensures
            final(self).inv(),
            ({
                let s0 = old(self)@.session_for(t);
                let s1 = final(self)@.session_for(t);
                &&& s0.set(kind).begin_post(s1.set(kind), r)
                &&& s1 == s0.with_set(kind, s1.set(kind))
                &&& final(self)@ == old(self)@.with_session(s1)
            }),
    {
        let ghost before = self@;
        let i = self.session_index(t);
        let ghost mid = self@;
        let ghost old_sessions = self.sessions@;
        proof {
            assert(mid.sessions[i as int] == old_sessions[i as int]@);
        }
        let r = self.sessions[i].begin(kind);
        proof {
            self.lemma_after_step(before, mid, old_sessions, t, i as int);
        }
        r
    }

    /// Turns the slot reserved on target `t` into a live connection over
    /// `transport`; see [`SessionView::commit_post`].
    pub fn commit_connection(&mut self, t: i32, kind: ConnectionKind, transport: T) -> (r: Result<(String, u64), (PoolError, Option<T>)>)
        requires
            old(self).inv(),
        ensures
            final(self).inv(),
            ({
                let s0 = old(self)@.session_for(t);
                let s1 = final(self)@.session_for(t);
                &&& s0.commit_post(s1, kind, transport, r)
                &&& final(self)@ == old(self)@.with_session(s1)
            }),
    {
        let ghost before = self@;
        let i = self.session_index(t);
        let ghost mid = self@;
        let ghost old_sessions = self.sessions@;
        proof {
            assert(mid.sessions[i as int] == old_sessions[i as int]@);
        }
        let r = self.sessions[i].commit(kind, transport);
        proof {
            self.lemma_after_step(before, mid, old_sessions, t, i as int);
        }
        r
    }

    /// Turns the slot reserved on target `t` into a live connection over
    /// `transport` under the id `id`; see [`SessionView::commit_with_id_post`].
    pub fn commit_connection_with_id(&mut self, t: i32, kind: ConnectionKind, id: String, transport: T) -> (r: Result<u64, (PoolError, Option<T>)>)
        requires
            old(self).inv(),
        ensures
            final(self).inv(),
            ({
                let s0 = old(self)@.session_for(t);
                let s1 = final(self)@.session_for(t);
                &&& s0.commit_with_id_post(s1, kind, id@, transport, r)
                &&& final(self)@ == old(self)@.with_session(s1)
            }),
    {
        let ghost before = self@;
        let i = self.session_index(t);
        let ghost mid = self@;
        let ghost old_sessions = self.sessions@;
        proof {
            assert(mid.sessions[i as int] == old_sessions[i as int]@);
        }
        let r = self.sessions[i].commit_with_id(kind, id, transport);
        proof {
            self.lemma_after_step(before, mid, old_sessions, t, i as int);
        }
        r
    }

    /// Gives back the connection slot reserved on target `t` for a
    /// transport that could not be built.
    pub fn abort_connection(&mut self, t: i32, kind: ConnectionKind)
        requires
            old(self).inv(),
        ensures
            final(self).inv(),
            ({
                let s0 = old(self)@.session_for(t);
                let s1 = final(self)@.session_for(t);
                &&& s1 == s0.with_set(kind, s0.set(kind).after_abort())
                &&& final(self)@ == old(self)@.with_session(s1)
            }),
    {
        let ghost before = self@;
        let i = self.session_index(t);
        let ghost mid = self@;
        let ghost old_sessions = self.sessions@;
        proof {
            assert(mid.sessions[i as int] == old_sessions[i as int]@);
        }
        self.sessions[i].abort(kind);
        proof {
            self.lemma_after_step(before, mid, old_sessions, t, i as int);
        }
    }

    /// Ends lease `n` on connection `id` of target `t` without a child to
    /// give back; see [`SetView::end_post`]. A connection returned is
    /// closed and its transport is to be disconnected.
    pub fn rollback_lease(&mut self, t: i32, kind: ConnectionKind, id: &String, n: u64) -> (r: Option<Connection<T, R>>)
        requires
            old(self).inv(),
        ensures
            final(self).inv(),
            ({
                let s0 = old(self)@.session_for(t);
                let s1 = final(self)@.session_for(t);
                &&& s0.set(kind).end_post(s1.set(kind), id@, n, None, r)
                &&& s1 == s0.with_set(kind, s1.set(kind))
                &&& final(self)@ == old(self)@.with_session(s1)
            }),
    {
        let ghost before = self@;
        let i = self.session_index(t);
        let ghost mid = self@;
        let ghost old_sessions = self.sessions@;
        proof {
            assert(mid.sessions[i as int] == old_sessions[i as int]@);
        }
        let r = self.sessions[i].rollback(kind, id, n);
        proof {
            self.lemma_after_step(before, mid, old_sessions, t, i as int);
        }
        r
    }

    /// Ends lease `n` on connection `id` of target `t`, handing back its
    /// child; see [`SetView::end_post`].
    pub fn give_back(&mut self, t: i32, kind: ConnectionKind, id: &String, n: u64, child: R) -> (r: Option<Connection<T, R>>)
        requires
            old(self).inv(),
        ensures
            final(self).inv(),
            ({
                let s0 = old(self)@.session_for(t);
                let s1 = final(self)@.session_for(t);
                &&& s0.set(kind).end_post(s1.set(kind), id@, n, Some(child), r)
                &&& s1 == s0.with_set(kind, s1.set(kind))
                &&& final(self)@ == old(self)@.with_session(s1)
            }),
    {
        let ghost before = self@;
        let i = self.session_index(t);
        let ghost mid = self@;
        let ghost old_sessions = self.sessions@;
        proof {
            assert(mid.sessions[i as int] == old_sessions[i as int]@);
        }
        let r = self.sessions[i].give_back(kind, id, n, child);
        proof {
            self.lemma_after_step(before, mid, old_sessions, t, i as int);
        }
        r
    }

    /// Retires connection `id` of target `t`; see
    /// [`SessionView::expire_post`]. A target without a session is left
    /// alone. A connection returned had no lease out: it is closed and its
    /// transport is to be disconnected.
    pub fn expire_connection(&mut self, t: i32, id: &String) -> (r: Option<Connection<T, R>>)
        requires
            old(self).inv(),
        ensures
            final(self).inv(),
            index_of_target(old(self)@.sessions, t) == -1 ==> r is None && final(self)@ == old(self)@,
            index_of_target(old(self)@.sessions, t) != -1 ==> {
                let s0 = old(self)@.session_for(t);
                let s1 = final(self)@.session_for(t);
                &&& s0.expire_post(s1, id@, r)
                &&& final(self)@ == old(self)@.with_session(s1)
            },
    {
        match self.find_session(t) {
            None => None,
            Some(_) => {
                let ghost before = self@;
                let i = self.session_index(t);
                let ghost mid = self@;
                let ghost old_sessions = self.sessions@;
                proof {
                    assert(mid.sessions[i as int] == old_sessions[i as int]@);
                }
                let r = self.sessions[i].expire(id);
                proof {
                    self.lemma_after_step(before, mid, old_sessions, t, i as int);
                }
                r
            },
        }
    }

    /// Takes out connection `id` of target `t` once its transport has gone
    /// away; see [`SessionView::remove_post`].
    pub fn remove_connection(&mut self, t: i32, id: &String) -> (r: Option<Connection<T, R>>)
        requires
            old(self).inv(),
        ensures
            final(self).inv(),
            !final(self)@.session_for(t).has_id(id@),
            index_of_target(old(self)@.sessions, t) == -1 ==> r is None && final(self)@ == old(self)@,
            index_of_target(old(self)@.sessions, t) != -1 ==> {
                let s0 = old(self)@.session_for(t);
                let s1 = final(self)@.session_for(t);
                &&& s0.remove_post(s1, id@, r)
                &&& final(self)@ == old(self)@.with_session(s1)
            },
    {
        match self.find_session(t) {
            None => {
                proof {
                    let f = self@.fresh_session(t);
                    assert(f.channel.all() =~= Seq::empty());
                    assert(f.sftp.all() =~= Seq::empty());
                }
                None
            },
            Some(_) => {
                let ghost before = self@;
                let i = self.session_index(t);
                let ghost mid = self@;
                let ghost old_sessions = self.sessions@;
                proof {
                    assert(mid.sessions[i as int] == old_sessions[i as int]@);
                }
                let r = self.sessions[i].remove(id);
                proof {
                    self.lemma_after_step(before, mid, old_sessions, t, i as int);
                }
                r
            },
        }
    }

    /// Live connections of the given kind on target `t`, plus slots
    /// reserved for ones being built.
    pub fn total(&self, t: i32, kind: ConnectionKind) -> (r: u8)
        requires
            self.inv(),
        ensures
            r as nat == self@.session_for(t).set(kind).total,
    {
        proof {
            lemma_index_of_target_from(self@.sessions, t, 0);
        }
        match self.find_session(t) {
            Some(i) => {
                proof {
                    assert(self@.sessions[i as int] == self.sessions@[i as int]@);
                }
                self.sessions[i].total(kind)
            },
            None => 0,
        }
    }

    /// The transport of the live connection `id` of the given kind on
    /// target `t`, for making a child on it.
    pub fn transport_of(&self, t: i32, kind: ConnectionKind, id: &String) -> (r: Option<&T>)
        requires
            self.inv(),
        ensures
            ({
                let s = self@.session_for(t).set(kind);
                let i = crate::connection_set::index_of_id(s.idle, id@);
                &&& i == -1 ==> r is None
                &&& i != -1 ==> (r matches Some(x) && *x == s.idle[i].transport)
            }),
    {
        proof {
            lemma_index_of_target_from(self@.sessions, t, 0);
        }
        match self.find_session(t) {
            Some(i) => {
                proof {
                    assert(self@.sessions[i as int] == self.sessions@[i as int]@);
                }
                self.sessions[i].transport_of(kind, id)
            },
            None => {
                proof {
                    assert(self@.session_for(t).set(kind).idle =~= Seq::empty());
                }
                None
            },
        }
    }

    /// A snapshot of every connection of every session whose target passes
    /// `filter`: sessions in order of first use, and within a session in
    /// the order of [`SessionView::all`].
    pub fn list_all_connections(&self, filter: Option<i32>) -> (r: Vec<ConnectionInfo>)
        requires
            self.inv(),
        ensures
            r@.len() == listed(self@.sessions, filter).len(),
            forall|k: int| 0 <= k < r@.len() ==> describes(
                #[trigger] r@[k],
                listed(self@.sessions, filter)[k].0,
                listed(self@.sessions, filter)[k].1,
            ),
    {
        let mut out: Vec<ConnectionInfo> = Vec::new();
        let n = self.sessions.len();
        let mut i: usize = 0;
        while i < n
            invariant
                self.inv(),
                n == self@.sessions.len(),
                0 <= i <= n,
                out@.len() == listed(self@.sessions.take(i as int), filter).len(),
                forall|k: int| 0 <= k < out@.len() ==> describes(
                    #[trigger] out@[k],
                    listed(self@.sessions.take(i as int), filter)[k].0,
                    listed(self@.sessions.take(i as int), filter)[k].1,
                ),
            decreases n - i,
        {
            let session = &self.sessions[i];
            let ghost sv = self@.sessions[i as int];
            proof {
                assert(sv == session@);
                assert(self@.sessions.take(i as int + 1).drop_last() =~= self@.sessions.take(i as int));
                assert(self@.sessions.take(i as int + 1).last() == sv);
            }
            let ghost before = out@;
            let ghost prev = listed(self@.sessions.take(i as int), filter);
            let tid = session.target_id();
            let take = match filter {
                Some(f) => f == tid,
                None => true,
            };
            if take {
                session.append_infos(&mut out);
                proof {
                    let added = sv.all().map_values(|c: ConnView<T, R>| (c, sv.target_id));
                    let next = listed(self@.sessions.take(i as int + 1), filter);
                    assert(next == prev + added);
                    assert forall|k: int| 0 <= k < out@.len() implies describes(
                        #[trigger] out@[k],
                        next[k].0,
                        next[k].1,
                    ) by {
                        if k < before.len() {
                            assert(out@[k] == before[k]);
                        } else {
                            assert(out@[k] == out@[before.len() + (k - before.len())]);
                        }
                    }
                }
            }
            i = i + 1;
        }
        proof {
            assert(self@.sessions.take(n as int) =~= self@.sessions);
        }
        out
    }
}

} // verus!
