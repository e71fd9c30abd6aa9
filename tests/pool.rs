use lu_sso_auth::dispatch::{accept_step, on_receive_failure, AcceptAction, AcceptOutcome, ReceiveFailure};
use lu_sso_auth::handshake::{handshake_step, HandshakeAction, HandshakeIo, HANDSHAKE_RETRY_MILLIS};
use lu_sso_auth::pool::Pool;

/// Runs one pass, closing the connections that `close` picks, and returns
/// the order of the visits.
fn pass(pool: &mut Pool<u32>, close: &[u32]) -> Vec<u32> {
    let mut visited = Vec::new();
    pool.reset();
    while pool.can_advance() {
        let id = *pool.active();
        visited.push(id);
        if close.contains(&id) {
            pool.close_conn();
            pool.close_conn();
        }
        pool.advance();
    }
    visited
}

fn pool_of(n: u32) -> Pool<u32> {
    let mut pool = Pool::new();
    for i in 0..n {
        pool.push(i);
    }
    pool
}

fn remaining(pool: &mut Pool<u32>) -> Vec<u32> {
    let mut ids = pass(pool, &[]);
    ids.sort();
    ids
}

fn check(n: u32, close: &[u32]) {
    let mut pool = pool_of(n);
    let mut visited = pass(&mut pool, close);
    visited.sort();
    assert_eq!(visited, (0..n).collect::<Vec<_>>());
    let kept: Vec<u32> = (0..n).filter(|i| !close.contains(i)).collect();
    assert_eq!(remaining(&mut pool), kept);
    assert_eq!(pool.len(), kept.len());
}

#[test]
fn single_connection_removed() {
    check(1, &[0]);
}

#[test]
fn pair_removals() {
    check(2, &[0]);
    check(2, &[1]);
    check(2, &[0, 1]);
}

#[test]
fn first_middle_last_removals() {
    check(5, &[0]);
    check(5, &[2]);
    check(5, &[4]);
    check(5, &[0, 2, 4]);
}

#[test]
fn consecutive_removals() {
    check(6, &[1, 2, 3]);
    check(6, &[0, 5, 4]);
    check(6, &[0, 1, 2, 3, 4, 5]);
}

#[test]
fn swap_removal_order() {
    let mut pool = pool_of(4);
    assert_eq!(pass(&mut pool, &[0]), vec![0, 3, 1, 2]);
    assert_eq!(pass(&mut pool, &[]), vec![3, 1, 2]);
}

#[test]
fn get_mut_reaches_every_connection() {
    let mut pool = pool_of(3);
    for i in 0..pool.len() {
        *pool.get_mut(i) += 10;
    }
    pool.reset();
    *pool.active_mut() += 100;
    assert_eq!(pass(&mut pool, &[]), vec![110, 11, 12]);
}

#[test]
fn receive_failures() {
    let mut pool = pool_of(3);
    pool.reset();
    assert!(!on_receive_failure(&mut pool, ReceiveFailure::WouldBlock));
    pool.advance();
    assert_eq!(pool.len(), 3);
    assert!(!on_receive_failure(&mut pool, ReceiveFailure::PeerReset));
    pool.advance();
    assert_eq!(pool.len(), 2);
    assert!(on_receive_failure(&mut pool, ReceiveFailure::Other));
    pool.advance();
    assert_eq!(pool.len(), 1);
    assert_eq!(pass(&mut pool, &[]), vec![0]);
}

#[test]
fn sweep_visits_each_once() {
    let mut pool = pool_of(5);
    let visited = pool.sweep(&[true, false, true, true]);
    assert_eq!(visited, vec![0, 4, 1, 3, 2]);
    assert_eq!(pool.len(), 2);
    let mut rest = pool.sweep(&[]);
    rest.sort();
    assert_eq!(rest, vec![2, 4]);
}

#[test]
fn sweep_removes_all() {
    for n in 0..6 {
        let mut pool = pool_of(n);
        let mut visited = pool.sweep(&vec![true; n as usize]);
        visited.sort();
        assert_eq!(visited, (0..n).collect::<Vec<_>>());
        assert_eq!(pool.len(), 0);
    }
}

#[test]
fn accept_decisions() {
    assert_eq!(accept_step(AcceptOutcome::Ready), AcceptAction::AddAndContinue);
    assert_eq!(accept_step(AcceptOutcome::Failed), AcceptAction::LogAndContinue);
    assert_eq!(accept_step(AcceptOutcome::WouldBlock), AcceptAction::StopAccepting);
}

#[test]
fn handshake_decisions() {
    assert_eq!(HANDSHAKE_RETRY_MILLIS, 30);
    assert_eq!(handshake_step(true, HandshakeIo::Done), HandshakeAction::Attempt);
    assert_eq!(handshake_step(false, HandshakeIo::Done), HandshakeAction::Ready);
    assert_eq!(handshake_step(true, HandshakeIo::WouldBlock), HandshakeAction::RetryAfter { millis: 30 });
    assert_eq!(handshake_step(false, HandshakeIo::WouldBlock), HandshakeAction::RetryAfter { millis: 30 });
    assert_eq!(handshake_step(true, HandshakeIo::Failed), HandshakeAction::Abort);
    assert_eq!(handshake_step(false, HandshakeIo::Failed), HandshakeAction::Abort);
}
