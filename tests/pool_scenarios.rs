use ssh_pool::{Begin, Config, ConnectionKind, PoolError, SshSessionPool};

type Pool = SshSessionPool<u32, u32>;

fn config(max_conn: u8, max_children: u8) -> Config {
    Config { max_session_per_target: max_conn, max_channel_per_session: max_children, connect_timeout_secs: 30 }
}

/// Leases a channel, building a connection over `transport` when needed.
/// Returns the connection id and the lease number.
fn lease(pool: &mut Pool, target: i32, kind: ConnectionKind, transport: u32) -> Result<(String, u64, Option<u32>), PoolError> {
    match pool.begin_lease(target, kind)? {
        Begin::Leased(id, l) => Ok((id, l.lease, l.ready)),
        Begin::Build => match pool.commit_connection(target, kind, transport) {
            Ok((id, n)) => Ok((id, n, None)),
            Err((e, _)) => Err(e),
        },
    }
}

#[test]
fn channel_caps_and_refill() {
    let mut pool = Pool::new(config(2, 2));
    let a = lease(&mut pool, 1, ConnectionKind::Channel, 10).unwrap();
    let b = lease(&mut pool, 1, ConnectionKind::Channel, 11).unwrap();
    assert_eq!(a.0, b.0, "second lease reuses the first connection");
    assert_ne!(a.1, b.1);
    let c = lease(&mut pool, 1, ConnectionKind::Channel, 12).unwrap();
    assert_ne!(c.0, a.0, "third lease opens a second connection");
    let d = lease(&mut pool, 1, ConnectionKind::Channel, 13).unwrap();
    assert_eq!(d.0, c.0);
    assert_eq!(pool.total(1, ConnectionKind::Channel), 2);
    assert_eq!(lease(&mut pool, 1, ConnectionKind::Channel, 14).err(), Some(PoolError::CapacityExhausted));
    assert!(pool.rollback_lease(1, ConnectionKind::Channel, &a.0, a.1).is_none());
    let e = lease(&mut pool, 1, ConnectionKind::Channel, 15).unwrap();
    assert_eq!(e.0, a.0);
}

#[test]
fn expire_with_outstanding_lease() {
    let mut pool = Pool::new(config(2, 2));
    let (id, n, _) = lease(&mut pool, 1, ConnectionKind::Channel, 10).unwrap();
    assert!(pool.expire_connection(1, &id).is_none());
    let list = pool.list_all_connections(Some(1));
    assert_eq!(list.len(), 1);
    assert_eq!(list[0].id, id);
    assert!(list[0].expired);
    assert!(!list[0].closed);
    assert_eq!(list[0].kind, "SSH");
    assert_eq!(pool.total(1, ConnectionKind::Channel), 0, "expiry frees the connection slot");
    let (other, _, _) = lease(&mut pool, 1, ConnectionKind::Channel, 11).unwrap();
    assert_ne!(other, id, "an expired connection serves no new lease");
    let closed = pool.rollback_lease(1, ConnectionKind::Channel, &id, n).unwrap();
    assert!(closed.is_closed());
    assert_eq!(*closed.transport(), 10);
    assert!(pool.list_all_connections(Some(1)).iter().all(|c| c.id != id));
}

#[test]
fn expire_idle_connection_closes_at_once_and_is_idempotent() {
    let mut pool = Pool::new(config(2, 2));
    let (id, n, _) = lease(&mut pool, 3, ConnectionKind::Channel, 10).unwrap();
    assert!(pool.rollback_lease(3, ConnectionKind::Channel, &id, n).is_none());
    let closed = pool.expire_connection(3, &id).unwrap();
    assert!(closed.is_closed());
    assert!(closed.is_expired());
    assert!(pool.expire_connection(3, &id).is_none());
    assert!(pool.list_all_connections(None).is_empty());
    assert!(pool.expire_connection(99, &id).is_none());
}

#[test]
fn sftp_reuse() {
    let mut pool = Pool::new(config(2, 2));
    let (id, n, ready) = lease(&mut pool, 1, ConnectionKind::Sftp, 20).unwrap();
    assert_eq!(ready, None);
    assert!(pool.give_back(1, ConnectionKind::Sftp, &id, n, 77).is_none());
    let (id2, _, ready2) = lease(&mut pool, 1, ConnectionKind::Sftp, 21).unwrap();
    assert_eq!(id2, id);
    assert_eq!(ready2, Some(77));
    let list = pool.list_all_connections(Some(1));
    assert_eq!(list.len(), 1);
    assert_eq!(list[0].kind, "SFTP");
}

#[test]
fn disconnect_removes_connection() {
    let mut pool = Pool::new(config(2, 2));
    let (id, n, _) = lease(&mut pool, 1, ConnectionKind::Channel, 10).unwrap();
    let gone = pool.remove_connection(1, &id).unwrap();
    assert!(gone.is_closed());
    assert!(pool.list_all_connections(Some(1)).is_empty());
    assert_eq!(pool.total(1, ConnectionKind::Channel), 0);
    assert!(pool.rollback_lease(1, ConnectionKind::Channel, &id, n).is_none());
    let (fresh, _, _) = lease(&mut pool, 1, ConnectionKind::Channel, 11).unwrap();
    assert_ne!(fresh, id);
}

#[test]
fn failed_build_rolls_back() {
    let mut pool = Pool::new(config(2, 2));
    assert!(matches!(pool.begin_lease(6, ConnectionKind::Channel), Ok(Begin::Build)));
    assert_eq!(pool.total(6, ConnectionKind::Channel), 1);
    pool.abort_connection(6, ConnectionKind::Channel);
    assert_eq!(pool.total(6, ConnectionKind::Channel), 0);
    pool.abort_connection(6, ConnectionKind::Channel);
    assert_eq!(pool.total(6, ConnectionKind::Channel), 0);
    assert!(lease(&mut pool, 6, ConnectionKind::Channel, 1).is_ok());
}

#[test]
fn channel_round_trip_leaves_connection_empty() {
    let mut pool = Pool::new(config(1, 1));
    let (id, n, _) = lease(&mut pool, 1, ConnectionKind::Channel, 10).unwrap();
    assert!(pool.rollback_lease(1, ConnectionKind::Channel, &id, n).is_none());
    let (id2, _, _) = lease(&mut pool, 1, ConnectionKind::Channel, 11).unwrap();
    assert_eq!(id2, id, "the slot came back, so the one connection serves again");
}

#[test]
fn commit_without_reservation_hands_transport_back() {
    let mut pool = Pool::new(config(1, 1));
    match pool.commit_connection(1, ConnectionKind::Sftp, 5) {
        Err((PoolError::ConnectFailure, Some(5))) => {}
        _ => panic!("expected the transport back"),
    }
    let mut zero = Pool::new(config(1, 0));
    assert!(matches!(zero.begin_lease(1, ConnectionKind::Channel), Ok(Begin::Build)));
    match zero.commit_connection(1, ConnectionKind::Channel, 5) {
        Err((PoolError::CapacityExhausted, Some(5))) => {}
        _ => panic!("expected capacity error"),
    }
    assert_eq!(zero.total(1, ConnectionKind::Channel), 0);
}

#[test]
fn ids_are_nanoids_and_listing_filters() {
    let mut pool = Pool::new(Config::default());
    let (a, _, _) = lease(&mut pool, 1, ConnectionKind::Channel, 1).unwrap();
    let (b, _, _) = lease(&mut pool, 2, ConnectionKind::Sftp, 2).unwrap();
    assert_eq!(a.len(), 21);
    assert!(a.chars().all(|c| c.is_ascii_alphanumeric() || c == '_' || c == '-'));
    assert_ne!(a, b);
    let all = pool.list_all_connections(None);
    assert_eq!(all.len(), 2);
    assert_eq!(all[0].target_id, 1);
    assert_eq!(all[1].target_id, 2);
    let only2 = pool.list_all_connections(Some(2));
    assert_eq!(only2.len(), 1);
    assert_eq!(only2[0].id, b);
    assert!(pool.transport_of(2, ConnectionKind::Sftp, &b).is_some());
    assert_eq!(*pool.transport_of(1, ConnectionKind::Channel, &a).unwrap(), 1);
    assert!(pool.transport_of(1, ConnectionKind::Sftp, &a).is_none());
}

#[test]
fn config_defaults() {
    let c = Config::default();
    assert_eq!(c.max_session_per_target, 10);
    assert_eq!(c.max_channel_per_session, 10);
    assert_eq!(c.connect_timeout_secs, 30);
}

#[test]
fn slots_follow_leases_and_idle_children() {
    let mut pool = Pool::new(config(1, 3));
    let (id, a, _) = lease(&mut pool, 4, ConnectionKind::Sftp, 40).unwrap();
    let (_, b, _) = lease(&mut pool, 4, ConnectionKind::Sftp, 41).unwrap();
    assert!(pool.give_back(4, ConnectionKind::Sftp, &id, a, 1).is_none());
    assert!(pool.give_back(4, ConnectionKind::Sftp, &id, a, 2).is_none(), "a lease ends once");
    assert!(pool.expire_connection(4, &id).is_none(), "one lease is still out");
    let closed = pool.give_back(4, ConnectionKind::Sftp, &id, b, 3).unwrap();
    assert_eq!(closed.outstanding(), 0);
    assert!(closed.is_closed());
    assert!(closed.is_expired());
    assert_eq!(closed.kind(), ConnectionKind::Sftp);
    assert_eq!(closed.id(), &id);
}

#[test]
fn commit_with_id_refuses_an_id_in_use() {
    let mut pool = Pool::new(config(3, 2));
    assert!(matches!(pool.begin_lease(1, ConnectionKind::Channel), Ok(Begin::Build)));
    assert_eq!(pool.commit_connection_with_id(1, ConnectionKind::Channel, "conn-a".to_string(), 10).ok(), Some(0));
    assert!(matches!(pool.begin_lease(1, ConnectionKind::Sftp), Ok(Begin::Build)));
    match pool.commit_connection_with_id(1, ConnectionKind::Sftp, "conn-a".to_string(), 11) {
        Err((PoolError::ConnectFailure, Some(11))) => {}
        _ => panic!("an id in use must be refused"),
    }
    assert_eq!(pool.total(1, ConnectionKind::Sftp), 0, "the reservation is given back");
    assert!(matches!(pool.begin_lease(1, ConnectionKind::Sftp), Ok(Begin::Build)));
    assert_eq!(pool.commit_connection_with_id(1, ConnectionKind::Sftp, "conn-b".to_string(), 12).ok(), Some(0));
    let list = pool.list_all_connections(Some(1));
    assert_eq!(list.len(), 2);
    assert_eq!(list[0].id, "conn-a");
    assert_eq!(list[1].id, "conn-b");
}
