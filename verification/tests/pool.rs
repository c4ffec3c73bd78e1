//! The connection pool: leases, limits and expiry.

use rebe_core::pool::{credential_path, Acquired, HostKey, PoolConfig, SSHConnection, SSHPool};
use rebe_core::remote::{ExecEvent, RemoteError};

fn key(host: &str) -> HostKey {
    HostKey::new(host.to_string(), 22, "alice".to_string())
}

fn config(max: usize, idle_timeout_ms: u64) -> PoolConfig {
    PoolConfig { max_connections_per_host: max, idle_timeout_ms, connection_timeout_ms: 10_000 }
}

fn lease_of(outcome: Acquired) -> rebe_core::pool::PooledConnection {
    match outcome {
        Acquired::Lease(lease) => lease,
        other => panic!("expected a lease, got {:?}", other),
    }
}

#[test]
fn test_pool_creation() {
    let pool = SSHPool::new(PoolConfig::default());
    let stats = pool.stats();
    assert!(stats.is_empty());
}

#[test]
fn test_connection_expiry() {
    let conn = SSHConnection { id: 0, last_used: 0, in_use: false };

    assert!(conn.is_expired(400 * 1000, 300 * 1000));
}

#[test]
fn default_limits() {
    let config = PoolConfig::default();
    assert_eq!(config.max_connections_per_host, 10);
    assert_eq!(config.idle_timeout_ms, 300_000);
    assert_eq!(config.connection_timeout_ms, 10_000);
    assert_eq!(SSHPool::new(config).configuration(), config);
}

#[test]
fn host_key_holds_its_parts() {
    let k = HostKey::new("example.com".to_string(), 2222, "bob".to_string());
    assert_eq!(k.host, "example.com");
    assert_eq!(k.port, 2222);
    assert_eq!(k.user, "bob");
    assert!(k.same_as(&k.clone()));
    assert!(!k.same_as(&HostKey::new("example.com".to_string(), 22, "bob".to_string())));
    assert!(!k.same_as(&HostKey::new("example.org".to_string(), 2222, "bob".to_string())));
    assert!(!k.same_as(&HostKey::new("example.com".to_string(), 2222, "eve".to_string())));
}

#[test]
fn expiry_is_strictly_after_the_timeout() {
    let conn = SSHConnection { id: 1, last_used: 1000, in_use: true };
    assert!(!conn.is_expired(1000, 300));
    assert!(!conn.is_expired(1300, 300));
    assert!(conn.is_expired(1301, 300));
    assert!(!conn.is_expired(5, 300));
}

#[test]
fn empty_pool_asks_for_a_connection() {
    let mut pool = SSHPool::new(config(2, 1000));
    let answer = pool.acquire(&key("h"), 0);
    assert!(matches!(answer.outcome, Acquired::Connect));
    assert!(answer.evicted.is_empty());
    assert!(pool.connections_of(&key("h")).is_empty());
}

#[test]
fn pool_without_room_is_full_at_once() {
    let mut pool = SSHPool::new(config(0, 1000));
    assert!(matches!(pool.acquire(&key("h"), 0).outcome, Acquired::PoolFull));
    let refused = pool.add_connection(&key("h"), 0).unwrap_err();
    assert_eq!(
        refused,
        RemoteError::PoolFull { user: "alice".to_string(), host: "h".to_string(), port: 22 }
    );
    assert_eq!(refused.message(), "Connection pool exhausted for alice@h:22");
}

#[test]
fn added_connection_is_on_loan() {
    let mut pool = SSHPool::new(config(2, 1000));
    let lease = pool.add_connection(&key("h"), 5).unwrap();
    assert_eq!(lease.id(), 0);
    assert!(lease.key().same_as(&key("h")));
    assert_eq!(
        pool.connections_of(&key("h")),
        vec![SSHConnection { id: 0, last_used: 5, in_use: true }]
    );
}

#[test]
fn pool_reuse_with_one_connection_per_host() {
    let mut pool = SSHPool::new(config(1, 300_000));
    assert!(matches!(pool.acquire(&key("h"), 0).outcome, Acquired::Connect));
    let first = pool.add_connection(&key("h"), 0).unwrap();
    let first_id = first.id();
    // while it is on loan the host has no room for another
    assert!(matches!(pool.acquire(&key("h"), 1).outcome, Acquired::PoolFull));
    assert!(pool.add_connection(&key("h"), 1).is_err());
    pool.release(first, 10);
    let second = lease_of(pool.acquire(&key("h"), 20).outcome);
    assert_eq!(second.id(), first_id);
    let stats = pool.stats();
    assert_eq!(stats.len(), 1);
    assert_eq!(stats[0].total, 1);
    assert_eq!(stats[0].in_use, 1);
    assert!(stats[0].key.same_as(&key("h")));
}

#[test]
fn release_refreshes_last_use_and_ends_the_loan() {
    let mut pool = SSHPool::new(config(2, 1000));
    let lease = pool.add_connection(&key("h"), 0).unwrap();
    pool.release(lease, 700);
    assert_eq!(
        pool.connections_of(&key("h")),
        vec![SSHConnection { id: 0, last_used: 700, in_use: false }]
    );
    assert_eq!(pool.stats()[0].in_use, 0);
}

#[test]
fn oldest_idle_connection_is_lent_first() {
    let mut pool = SSHPool::new(config(3, 10_000));
    let a = pool.add_connection(&key("h"), 0).unwrap();
    let b = pool.add_connection(&key("h"), 0).unwrap();
    let c = pool.add_connection(&key("h"), 0).unwrap();
    assert_eq!((a.id(), b.id(), c.id()), (0, 1, 2));
    pool.release(c, 1);
    pool.release(b, 2);
    let lease = lease_of(pool.acquire(&key("h"), 3).outcome);
    assert_eq!(lease.id(), 1);
    assert_eq!(
        pool.connections_of(&key("h")),
        vec![
            SSHConnection { id: 0, last_used: 0, in_use: true },
            SSHConnection { id: 1, last_used: 3, in_use: true },
            SSHConnection { id: 2, last_used: 1, in_use: false },
        ]
    );
    pool.release(a, 4);
}

#[test]
fn in_use_count_matches_outstanding_leases() {
    let mut pool = SSHPool::new(config(4, 10_000));
    let mut leases = Vec::new();
    for round in 0..4u64 {
        leases.push(pool.add_connection(&key("h"), round).unwrap());
        assert_eq!(pool.stats()[0].in_use, leases.len());
    }
    while let Some(lease) = leases.pop() {
        pool.release(lease, 10);
        assert_eq!(pool.stats()[0].in_use, leases.len());
        assert_eq!(pool.stats()[0].total, 4);
    }
}

#[test]
fn idle_expired_connection_is_never_reused() {
    let mut pool = SSHPool::new(config(2, 300));
    let lease = pool.add_connection(&key("h"), 0).unwrap();
    pool.release(lease, 100);
    // at the timeout it is still good
    let again = lease_of(pool.acquire(&key("h"), 400).outcome);
    assert_eq!(again.id(), 0);
    pool.release(again, 400);
    // one millisecond past the timeout it is dropped
    let answer = pool.acquire(&key("h"), 701);
    assert!(matches!(answer.outcome, Acquired::Connect));
    assert_eq!(answer.evicted, vec![0]);
    assert!(pool.connections_of(&key("h")).is_empty());
    assert!(pool.stats().is_empty());
    let fresh = pool.add_connection(&key("h"), 701).unwrap();
    assert_eq!(fresh.id(), 1);
}

#[test]
fn expiry_makes_room_in_a_full_pool() {
    let mut pool = SSHPool::new(config(1, 50));
    let lease = pool.add_connection(&key("h"), 0).unwrap();
    pool.release(lease, 0);
    let answer = pool.acquire(&key("h"), 51);
    assert!(matches!(answer.outcome, Acquired::Connect));
    assert_eq!(answer.evicted, vec![0]);
}

#[test]
fn hosts_do_not_share_connections() {
    let mut pool = SSHPool::new(config(1, 1000));
    let a = pool.add_connection(&key("a"), 0).unwrap();
    assert!(matches!(pool.acquire(&key("b"), 0).outcome, Acquired::Connect));
    let b = pool.add_connection(&key("b"), 0).unwrap();
    assert_ne!(a.id(), b.id());
    let other_user = HostKey::new("a".to_string(), 22, "bob".to_string());
    assert!(matches!(pool.acquire(&other_user, 0).outcome, Acquired::Connect));
    pool.release(a, 1);
    assert_eq!(pool.connections_of(&key("b")), vec![SSHConnection { id: 1, last_used: 0, in_use: true }]);
    assert_eq!(pool.stats().len(), 2);
    pool.release(b, 1);
}

#[test]
fn discarded_connection_is_gone() {
    let mut pool = SSHPool::new(config(2, 1000));
    let a = pool.add_connection(&key("h"), 0).unwrap();
    let b = pool.add_connection(&key("h"), 0).unwrap();
    assert!(pool.discard(a));
    assert_eq!(pool.connections_of(&key("h")), vec![SSHConnection { id: 1, last_used: 0, in_use: true }]);
    pool.release(b, 5);
    let again = lease_of(pool.acquire(&key("h"), 6).outcome);
    assert_eq!(again.id(), 1);
}

#[test]
fn lease_of_a_dropped_connection_changes_nothing() {
    let mut pool = SSHPool::new(config(2, 10));
    let stale = pool.add_connection(&key("h"), 0).unwrap();
    // the connection expires while on loan and is dropped at the next request
    let answer = pool.acquire(&key("h"), 100);
    assert_eq!(answer.evicted, vec![0]);
    let fresh = pool.add_connection(&key("h"), 100).unwrap();
    pool.release(stale, 101);
    assert_eq!(
        pool.connections_of(&key("h")),
        vec![SSHConnection { id: fresh.id(), last_used: 100, in_use: true }]
    );
    let stale_again = pool.add_connection(&key("x"), 0).unwrap();
    assert!(pool.discard(stale_again));
    assert!(pool.connections_of(&key("x")).is_empty());
}

#[test]
fn command_outcome_by_exit_status() {
    let mut pool = SSHPool::new(config(1, 1000));
    let lease = pool.add_connection(&key("h"), 0).unwrap();
    assert_eq!(
        lease.exec_with_timeout(ExecEvent::Completed { stdout: "alice\n".to_string(), exit_status: 0 }),
        Ok("alice\n".to_string())
    );
    assert_eq!(
        lease.exec_with_timeout(ExecEvent::Completed { stdout: "x".to_string(), exit_status: 127 }),
        Err(RemoteError::NonZeroExit(127))
    );
    assert_eq!(lease.exec_with_timeout(ExecEvent::TimedOut), Err(RemoteError::Timeout));
    assert_eq!(
        lease.exec_with_timeout(ExecEvent::Failed("channel closed".to_string())),
        Err(RemoteError::Transport("channel closed".to_string()))
    );
}

#[test]
fn remote_error_messages() {
    assert_eq!(RemoteError::Timeout.message(), "Command timeout");
    assert_eq!(RemoteError::Auth.message(), "Authentication failed");
    assert_eq!(RemoteError::Connect("Connection timeout".to_string()).message(), "Connection timeout");
    assert_eq!(RemoteError::Transport("broken pipe".to_string()).message(), "broken pipe");
    assert_eq!(RemoteError::NonZeroExit(1).message(), "Command failed with exit code 1");
    assert_eq!(RemoteError::NonZeroExit(0).message(), "Command failed with exit code 0");
    assert_eq!(RemoteError::NonZeroExit(-15).message(), "Command failed with exit code -15");
    assert_eq!(
        RemoteError::NonZeroExit(i32::MIN).message(),
        "Command failed with exit code -2147483648"
    );
    assert_eq!(
        RemoteError::NonZeroExit(i32::MAX).message(),
        "Command failed with exit code 2147483647"
    );
    assert_eq!(
        RemoteError::PoolFull { user: "u".to_string(), host: "h".to_string(), port: 65535 }.message(),
        "Connection pool exhausted for u@h:65535"
    );
}

#[test]
fn timed_out_connection_is_dropped_and_others_are_taken_back() {
    let mut pool = SSHPool::new(config(2, 10_000));
    let a = pool.add_connection(&key("h"), 0).unwrap();
    let b = pool.add_connection(&key("h"), 0).unwrap();
    let (outcome, dropped) = pool.complete(a, ExecEvent::TimedOut, 30_000);
    assert_eq!(outcome, Err(RemoteError::Timeout));
    assert!(dropped);
    assert_eq!(pool.connections_of(&key("h")), vec![SSHConnection { id: 1, last_used: 0, in_use: true }]);
    let (outcome, dropped) = pool.complete(
        b,
        ExecEvent::Completed { stdout: "ok".to_string(), exit_status: 0 },
        31_000,
    );
    assert_eq!(outcome, Ok("ok".to_string()));
    assert!(!dropped);
    assert_eq!(
        pool.connections_of(&key("h")),
        vec![SSHConnection { id: 1, last_used: 31_000, in_use: false }]
    );
    let c = lease_of(pool.acquire(&key("h"), 31_001).outcome);
    let (outcome, dropped) = pool.complete(c, ExecEvent::Failed("reset".to_string()), 31_002);
    assert_eq!(outcome, Err(RemoteError::Transport("reset".to_string())));
    assert!(!dropped);
    assert_eq!(pool.stats()[0].in_use, 0);
}

#[test]
fn exhausted_pool_names_the_key() {
    let k = HostKey::new("box".to_string(), 2200, "root".to_string());
    assert_eq!(
        k.exhausted(),
        RemoteError::PoolFull { user: "root".to_string(), host: "box".to_string(), port: 2200 }
    );
}

#[test]
fn credential_discovery() {
    assert_eq!(
        credential_path(Some("/keys/id".to_string()), Some("/home/a".to_string())),
        Some("/keys/id".to_string())
    );
    assert_eq!(credential_path(None, Some("/home/a".to_string())), Some("/home/a/.ssh/id_rsa".to_string()));
    assert_eq!(credential_path(Some("k".to_string()), None), Some("k".to_string()));
    assert_eq!(credential_path(None, None), None);
}
