use vstd::prelude::*;

use crate::connection::{ConnView, ConnectionKind};

verus! {

/// A snapshot of one connection, for observability.
pub struct ConnectionInfo {
    pub id: String,
    pub expired: bool,
    pub closed: bool,
    pub kind: String,
    pub target_id: i32,
}

/// The label a connection kind is listed under.
pub open spec fn kind_name(kind: ConnectionKind) -> Seq<char> {
    match kind {
        ConnectionKind::Channel => seq!['S', 'S', 'H'],
        ConnectionKind::Sftp => seq!['S', 'F', 'T', 'P'],
    }
}

/// `info` describes connection `c` of target `target_id`.
pub open spec fn describes<T, R>(info: ConnectionInfo, c: ConnView<T, R>, target_id: i32) -> bool {
    &&& info.id@ == c.id
    &&& info.expired == c.expired
    &&& info.closed == c.closed
    &&& info.kind@ == kind_name(c.kind)
    &&& info.target_id == target_id
}

impl ConnectionKind {
    pub fn label(&self) -> (r: String)
        ensures
            r@ == kind_name(*self),
    {
        match self {
            ConnectionKind::Channel => {
                let r = String::from_str("SSH");
                proof {
                    reveal_strlit("SSH");
                    assert(r@ =~= kind_name(*self));
                }
                r
            },
            ConnectionKind::Sftp => {
                let r = String::from_str("SFTP");
                proof {
                    reveal_strlit("SFTP");
                    assert(r@ =~= kind_name(*self));
                }
                r
            },
        }
    }
}

} // verus!
