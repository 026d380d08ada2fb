use vstd::prelude::*;

use crate::config::Config;
use crate::connection::{ConnView, Connection, ConnectionKind};
use crate::connection_set::{index_of_id, Begin, ConnectionSet, SetView};
use crate::error::PoolError;
use crate::info::{describes, ConnectionInfo};

verus! {

/// Whether `c` is one of the characters a connection id is drawn from.
pub open spec fn is_id_char(c: char) -> bool {
    ('a' <= c && c <= 'z') || ('A' <= c && c <= 'Z') || ('0' <= c && c <= '9') || c == '_' || c == '-'
}

/// Relies on nanoid::format, called as nanoid's default macro form does (its
/// default random source, its SAFE alphabet, size 21): a random id of 21
/// characters, each a letter, a digit, `_` or `-`. The random source seeds
/// from the operating system and panics only where the system has no
/// entropy to give.
#[verifier::external_body]
fn fresh_connection_id() -> (r: String)
    ensures
        r@.len() == 21,
        forall|i: int| 0 <= i < r@.len() ==> is_id_char(#[trigger] r@[i]),
{
    nanoid::format(nanoid::rngs::default, &nanoid::alphabet::SAFE, 21)
}

/// Abstract state of an [`SshSession`]: the channel connections and the
/// SFTP connections of one target.
pub struct SessionView<T, R> {
    pub target_id: i32,
    pub channel: SetView<T, R>,
    pub sftp: SetView<T, R>,
}

impl<T, R> SessionView<T, R> {
    pub open spec fn set(self, kind: ConnectionKind) -> SetView<T, R> {
        match kind {
            ConnectionKind::Channel => self.channel,
            ConnectionKind::Sftp => self.sftp,
        }
    }

    pub open spec fn with_set(self, kind: ConnectionKind, s: SetView<T, R>) -> SessionView<T, R> {
        match kind {
            ConnectionKind::Channel => SessionView { channel: s, ..self },
            ConnectionKind::Sftp => SessionView { sftp: s, ..self },
        }
    }

    pub open spec fn has_id(self, id: Seq<char>) -> bool {
        self.channel.has_id(id) || self.sftp.has_id(id)
    }

    /// What [`SshSession::commit`] does.
    pub open spec fn commit_post(
        self,
        t: SessionView<T, R>,
        kind: ConnectionKind,
        transport: T,
        r: Result<(String, u64), (PoolError, Option<T>)>,
    ) -> bool {
        let s = self.set(kind);
        if s.pending() == 0 {
            &&& r == Err::<(String, u64), (PoolError, Option<T>)>((PoolError::ConnectFailure, Some(transport)))
            &&& t == self
        } else if s.max_children == 0 {
            &&& r == Err::<(String, u64), (PoolError, Option<T>)>((PoolError::CapacityExhausted, Some(transport)))
            &&& t == self.with_set(kind, SetView { total: (s.total - 1) as nat, ..s })
        } else {
            match r {
                Ok((id, n)) => {
                    &&& n == 0
                    &&& !self.has_id(id@)
                    &&& t == self.with_set(
                        kind,
                        SetView { idle: s.idle.push(s.fresh(id@, transport).after_lease_new()), ..s },
                    )
                },
                Err((e, back)) => {
                    &&& e == PoolError::ConnectFailure
                    &&& back == Some(transport)
                    &&& t == self.with_set(kind, SetView { total: (s.total - 1) as nat, ..s })
                    &&& exists|x: Seq<char>| x.len() == 21 && #[trigger] self.has_id(x)
                },
            }
        }
    }

    /// What [`SshSession::commit_with_id`] does: with a slot reserved and
    /// children allowed, the connection is added under `id` exactly when no
    /// connection of the target already has that id.
    pub open spec fn commit_with_id_post(
        self,
        t: SessionView<T, R>,
        kind: ConnectionKind,
        id: Seq<char>,
        transport: T,
        r: Result<u64, (PoolError, Option<T>)>,
    ) -> bool {
        let s = self.set(kind);
        if s.pending() == 0 {
            &&& r == Err::<u64, (PoolError, Option<T>)>((PoolError::ConnectFailure, Some(transport)))
            &&& t == self
        } else if s.max_children == 0 {
            &&& r == Err::<u64, (PoolError, Option<T>)>((PoolError::CapacityExhausted, Some(transport)))
            &&& t == self.with_set(kind, SetView { total: (s.total - 1) as nat, ..s })
        } else if self.has_id(id) {
            &&& r == Err::<u64, (PoolError, Option<T>)>((PoolError::ConnectFailure, Some(transport)))
            &&& t == self.with_set(kind, SetView { total: (s.total - 1) as nat, ..s })
        } else {
            &&& r == Ok::<u64, (PoolError, Option<T>)>(0)
            &&& t == self.with_set(
                kind,
                SetView { idle: s.idle.push(s.fresh(id, transport).after_lease_new()), ..s },
            )
        }
    }

    /// Every connection of this target, channel ones first, each kind live
    /// before retired.
    pub open spec fn all(self) -> Seq<ConnView<T, R>> {
        self.channel.all() + self.sftp.all()
    }


    /// What [`SshSession::expire`] does.
    pub open spec fn expire_post(self, t: SessionView<T, R>, id: Seq<char>, r: Option<Connection<T, R>>) -> bool {
        let s = self;
        if index_of_id(s.channel.idle, id) != -1 {
            &&& s.channel.expire_post(t.channel, id, (true, r))
            &&& t == s.with_set(ConnectionKind::Channel, t.channel)
        } else {
            &&& s.sftp.expire_post(t.sftp, id, (index_of_id(s.sftp.idle, id) != -1, r))
            &&& t == s.with_set(ConnectionKind::Sftp, t.sftp)
        }
    
    }

    /// What [`SshSession::remove`] does.
    pub open spec fn remove_post(self, t: SessionView<T, R>, id: Seq<char>, r: Option<Connection<T, R>>) -> bool {
        let s = self;
        if s.channel.has_id(id) {
            &&& s.channel.remove_post(t.channel, id, r)
            &&& t == s.with_set(ConnectionKind::Channel, t.channel)
        } else {
            &&& s.sftp.remove_post(t.sftp, id, r)
            &&& t == s.with_set(ConnectionKind::Sftp, t.sftp)
        }
    
    }

    pub open spec fn wf(self) -> bool {
        &&& self.channel.wf()
        &&& self.sftp.wf()
        &&& self.channel.kind == ConnectionKind::Channel
        &&& self.sftp.kind == ConnectionKind::Sftp
        &&& self.channel.max == self.sftp.max
        &&& self.channel.max_children == self.sftp.max_children
        &&& forall|id: Seq<char>|
            #![trigger self.channel.has_id(id)]
            #![trigger self.sftp.has_id(id)]
            !(self.channel.has_id(id) && self.sftp.has_id(id))
    }
}

/// A step that changes one of the two sets keeps the session well formed,
/// as long as that set stays well formed and gains no id but a fresh one.
pub proof fn lemma_wf_after<T, R>(
    s: SessionView<T, R>,
    t: SessionView<T, R>,
    kind: ConnectionKind,
    extra: Option<Seq<char>>,
)
    requires
        s.wf(),
        t == s.with_set(kind, t.set(kind)),
        t.set(kind).wf(),
        t.set(kind).kind == kind,
        t.set(kind).max == s.set(kind).max,
        t.set(kind).max_children == s.set(kind).max_children,
        forall|x: Seq<char>| #[trigger] t.set(kind).has_id(x) ==> s.set(kind).has_id(x) || (extra == Some(x) && !s.has_id(x)),
    ensures
        t.wf(),
{
    assert forall|x: Seq<char>| #![trigger t.channel.has_id(x)] #![trigger t.sftp.has_id(x)]
        !(t.channel.has_id(x) && t.sftp.has_id(x)) by {
        if t.channel.has_id(x) && t.sftp.has_id(x) {
            assert(t.set(kind).has_id(x));
            assert(s.channel.has_id(x) ==> !s.sftp.has_id(x));
        }
    }
}

/// The connections of one target, in two pools: one whose connections hand
/// out raw channels, one whose connections hand out SFTP sessions.
pub struct SshSession<T, R> {
    target_id: i32,
    channel: ConnectionSet<T, R>,
    sftp: ConnectionSet<T, R>,
}

impl<T, R> View for SshSession<T, R> {
    type V = SessionView<T, R>;

    closed spec fn view(&self) -> SessionView<T, R> {
        SessionView { target_id: self.target_id, channel: self.channel@, sftp: self.sftp@ }
    }
}

impl<T, R> SshSession<T, R> {
    pub closed spec fn inv(&self) -> bool {
        self.channel.inv() && self.sftp.inv() && self@.wf()
    }

    pub proof fn lemma_inv(&self)
        requires
            self.inv(),
        ensures
            self@.wf(),
    {
    }

    pub fn new(target_id: i32, config: &Config) -> (s: Self)
        ensures
            s.inv(),
            s@.target_id == target_id,
            s@.channel == (SetView::<T, R> {
                kind: ConnectionKind::Channel,
                idle: Seq::empty(),
                total: 0,
                max: config.max_session_per_target as nat,
                graveyard: Seq::empty(),
                max_children: config.max_channel_per_session as nat,
            }),
            s@.sftp == (SetView::<T, R> {
                kind: ConnectionKind::Sftp,
                idle: Seq::empty(),
                total: 0,
                max: config.max_session_per_target as nat,
                graveyard: Seq::empty(),
                max_children: config.max_channel_per_session as nat,
            }),
    {
        SshSession {
            target_id,
            channel: ConnectionSet::new(
                ConnectionKind::Channel,
                config.max_session_per_target,
                config.max_channel_per_session,
            ),
            sftp: ConnectionSet::new(
                ConnectionKind::Sftp,
                config.max_session_per_target,
                config.max_channel_per_session,
            ),
        }
    }

    pub fn target_id(&self) -> (r: i32)
        ensures
            r == self@.target_id,
    {
        self.target_id
    }

    /// Live connections of the given kind plus slots reserved for ones
    /// being built.
    pub fn total(&self, kind: ConnectionKind) -> (r: u8)
        requires
            self.inv(),
        ensures
            r as nat == self@.set(kind).total,
    {
        match kind {
            ConnectionKind::Channel => self.channel.total(),
            ConnectionKind::Sftp => self.sftp.total(),
        }
    }

    /// Starts a lease of the given kind: see [`SetView::begin_post`].
    pub fn begin(&mut self, kind: ConnectionKind) -> (r: Result<Begin<R>, PoolError>)
        requires
            old(self).inv(),
        ensures
            final(self).inv(),
            old(self)@.set(kind).begin_post(final(self)@.set(kind), r),
            final(self)@ == old(self)@.with_set(kind, final(self)@.set(kind)),
    {
        let ghost s = self@;
        let r = match kind {
            ConnectionKind::Channel => self.channel.begin(),
            ConnectionKind::Sftp => self.sftp.begin(),
        };
        proof {
            self.channel.lemma_inv();
            self.sftp.lemma_inv();
            lemma_wf_after(s, self@, kind, None);
        }
        r
    }

    /// Gives back the connection slot reserved by [`SshSession::begin`]
    /// when the transport could not be built.
    pub fn abort(&mut self, kind: ConnectionKind)
        requires
            old(self).inv(),
        ensures
            final(self).inv(),
            final(self)@ == old(self)@.with_set(kind, old(self)@.set(kind).after_abort()),
    {
        let ghost s = self@;
        match kind {
            ConnectionKind::Channel => self.channel.abort(),
            ConnectionKind::Sftp => self.sftp.abort(),
        }
        proof {
            self.channel.lemma_inv();
            self.sftp.lemma_inv();
            lemma_wf_after(s, self@, kind, None);
        }
    }

    /// Turns the slot reserved by [`SshSession::begin`] into a live
    /// connection over `transport` under the id `id`, and takes its first
    /// child lease (number 0). With no slot reserved, with no room for
    /// children, or with `id` already in use, nothing is added, the
    /// reservation (if any) is given back, and the transport is returned to
    /// be disconnected.
    pub fn commit_with_id(&mut self, kind: ConnectionKind, id: String, transport: T) -> (r: Result<u64, (PoolError, Option<T>)>)
        requires
            old(self).inv(),
        ensures
            final(self).inv(),
            old(self)@.commit_with_id_post(final(self)@, kind, id@, transport, r),
    {
        let pending = match kind {
            ConnectionKind::Channel => self.channel.has_pending(),
            ConnectionKind::Sftp => self.sftp.has_pending(),
        };
        if !pending {
            return Err((PoolError::ConnectFailure, Some(transport)));
        }
        let max_children = match kind {
            ConnectionKind::Channel => self.channel.max_children(),
            ConnectionKind::Sftp => self.sftp.max_children(),
        };
        if max_children == 0 || self.channel.contains_id(&id) || self.sftp.contains_id(&id) {
            let ghost s0 = self@;
            match kind {
                ConnectionKind::Channel => self.channel.abort(),
                ConnectionKind::Sftp => self.sftp.abort(),
            }
            proof {
                self.channel.lemma_inv();
                self.sftp.lemma_inv();
                lemma_wf_after(s0, self@, kind, None);
            }
            if max_children == 0 {
                return Err((PoolError::CapacityExhausted, Some(transport)));
            }
            return Err((PoolError::ConnectFailure, Some(transport)));
        }
        let ghost s = self@;
        let r = match kind {
            ConnectionKind::Channel => self.channel.commit(id, transport),
            ConnectionKind::Sftp => self.sftp.commit(id, transport),
        };
        proof {
            self.channel.lemma_inv();
            self.sftp.lemma_inv();
            lemma_wf_after(s, self@, kind, Some(id@));
        }
        match r {
            Ok(n) => Ok(n),
            Err(e) => Err((e, None)),
        }
    }

    /// [`SshSession::commit_with_id`] under a freshly drawn random id. With a
    /// slot reserved and children allowed, it fails only if the drawn id is
    /// already in use, so never on a target without connections.
    pub fn commit(&mut self, kind: ConnectionKind, transport: T) -> (r: Result<(String, u64), (PoolError, Option<T>)>)
        requires
            old(self).inv(),
        ensures
            final(self).inv(),
            old(self)@.commit_post(final(self)@, kind, transport, r),
    {
        let id = fresh_connection_id();
        let ghost s = self@;
        match self.commit_with_id(kind, id.clone(), transport) {
            Ok(n) => Ok((id, n)),
            Err(e) => {
                proof {
                    if s.set(kind).pending() > 0 && s.set(kind).max_children > 0 {
                        assert(s.has_id(id@));
                    }
                }
                Err(e)
            },
        }
    }

    /// Ends lease `n` on connection `id` of the given kind without a child
    /// to give back. Returns the connection if it was expired and this was
    /// its last lease: it is closed, and its transport is to be disconnected.
    pub fn rollback(&mut self, kind: ConnectionKind, id: &String, n: u64) -> (r: Option<Connection<T, R>>)
        requires
            old(self).inv(),
        ensures
            final(self).inv(),
            old(self)@.set(kind).end_post(final(self)@.set(kind), id@, n, None, r),
            final(self)@ == old(self)@.with_set(kind, final(self)@.set(kind)),
    {
        let ghost s = self@;
        let r = match kind {
            ConnectionKind::Channel => self.channel.rollback(id, n),
            ConnectionKind::Sftp => self.sftp.rollback(id, n),
        };
        proof {
            self.channel.lemma_inv();
            self.sftp.lemma_inv();
            lemma_wf_after(s, self@, kind, None);
        }
        r
    }

    /// Ends lease `n` on connection `id` of the given kind and hands back
    /// its child: an SFTP session is kept for reuse, a channel is dropped.
    /// Returns the connection if it was expired and this was its last
    /// lease.
    pub fn give_back(&mut self, kind: ConnectionKind, id: &String, n: u64, child: R) -> (r: Option<Connection<T, R>>)
        requires
            old(self).inv(),
        ensures
            final(self).inv(),
            old(self)@.set(kind).end_post(final(self)@.set(kind), id@, n, Some(child), r),
            final(self)@ == old(self)@.with_set(kind, final(self)@.set(kind)),
    {
        let ghost s = self@;
        let r = match kind {
            ConnectionKind::Channel => self.channel.give_back(id, n, child),
            ConnectionKind::Sftp => self.sftp.give_back(id, n, child),
        };
        proof {
            self.channel.lemma_inv();
            self.sftp.lemma_inv();
            lemma_wf_after(s, self@, kind, None);
        }
        r
    }

    /// Retires connection `id`, looked up among the live channel
    /// connections first, then the live SFTP ones. A connection already
    /// retired, or unknown, is left alone. Returns the connection if it had
    /// no lease out: it is closed at once.
    pub fn expire(&mut self, id: &String) -> (r: Option<Connection<T, R>>)
        requires
            old(self).inv(),
        ensures
            final(self).inv(),
            old(self)@.expire_post(final(self)@, id@, r),
    {
        let ghost s = self@;
        let (found, c) = self.channel.expire(id);
        proof {
            self.channel.lemma_inv();
            self.sftp.lemma_inv();
            lemma_wf_after(s, self@, ConnectionKind::Channel, None);
        }
        if found {
            return c;
        }
        let ghost s1 = self@;
        let (_, c) = self.sftp.expire(id);
        proof {
            self.channel.lemma_inv();
            self.sftp.lemma_inv();
            lemma_wf_after(s1, self@, ConnectionKind::Sftp, None);
        }
        c
    }

    /// Takes out connection `id`, live or retired, of either kind, once its
    /// transport has gone away, and returns it marked closed.
    pub fn remove(&mut self, id: &String) -> (r: Option<Connection<T, R>>)
        requires
            old(self).inv(),
        ensures
            final(self).inv(),
            !final(self)@.has_id(id@),
            old(self)@.remove_post(final(self)@, id@, r),
    {
        let ghost s = self@;
        proof {
            crate::connection_set::lemma_has_id_all(s.channel, id@);
            crate::connection_set::lemma_index_of_id(s.channel.idle, id@);
            crate::connection_set::lemma_index_of_id(s.channel.graveyard, id@);
        }
        let c = self.channel.remove(id);
        proof {
            self.channel.lemma_inv();
            self.sftp.lemma_inv();
            lemma_wf_after(s, self@, ConnectionKind::Channel, None);
        }
        if c.is_some() {
            return c;
        }
        let ghost s1 = self@;
        let c = self.sftp.remove(id);
        proof {
            self.channel.lemma_inv();
            self.sftp.lemma_inv();
            lemma_wf_after(s1, self@, ConnectionKind::Sftp, None);
        }
        c
    }

    /// The transport of the live connection `id` of the given kind.
    pub fn transport_of(&self, kind: ConnectionKind, id: &String) -> (r: Option<&T>)
        requires
            self.inv(),
        ensures
            ({
                let s = self@.set(kind);
                let i = index_of_id(s.idle, id@);
                &&& i == -1 ==> r is None
                &&& i != -1 ==> (r matches Some(t) && *t == s.idle[i].transport)
            }),
    {
        match kind {
            ConnectionKind::Channel => self.channel.transport_of(id),
            ConnectionKind::Sftp => self.sftp.transport_of(id),
        }
    }

    /// Appends a snapshot of every connection of this target, in the order
    /// of [`SessionView::all`].
    pub fn append_infos(&self, out: &mut Vec<ConnectionInfo>)
        requires
            self.inv(),
        ensures
            final(out)@.len() == old(out)@.len() + self@.all().len(),
            forall|k: int| 0 <= k < old(out)@.len() ==> #[trigger] final(out)@[k] == old(out)@[k],
            forall|j: int| 0 <= j < self@.all().len() ==> describes(
                #[trigger] final(out)@[old(out)@.len() + j],
                self@.all()[j],
                self@.target_id,
            ),
    {
        let ghost o = out@;
        self.channel.append_infos(self.target_id, out);
        let ghost o1 = out@;
        self.sftp.append_infos(self.target_id, out);
        proof {
            let a = self@.channel.all().len();
            assert forall|j: int| 0 <= j < self@.all().len() implies describes(
                #[trigger] out@[o.len() + j],
                self@.all()[j],
                self@.target_id,
            ) by {
                if j < a {
                    assert(out@[o.len() + j] == o1[o.len() + j]);
                    assert(self@.all()[j] == self@.channel.all()[j]);
                } else {
                    assert(out@[o.len() + j] == out@[o1.len() + (j - a)]);
                    assert(self@.all()[j] == self@.sftp.all()[j - a]);
                }
            }
        }
    }
}

} // verus!
