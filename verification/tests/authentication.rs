//! Admission, credential work and connections of one process.
use mailctl::authentication::{
    check_secret, tls_mode, Admission, Error, Flights, Gate, Idle, Joined, Pool, Runtime, WorkKind,
};
use mailctl::config::{Limits, TlsMode};
use mailctl::credentials::SourceError;
use mailctl::imap;

const SECOND: u64 = 1_000_000_000;

fn idle(connection: u8, established: u64, expires_at: u64) -> Idle<u8> {
    Idle { connection, established, expires_at }
}

#[test]
fn gates_let_callers_in_by_their_order() {
    let mut gate = Gate::new();
    assert_eq!(gate.reserve(1, 2), Ok(Admission::Inside));
    assert_eq!(gate.reserve(1, 2), Ok(Admission::Waiting { ticket: 0 }));
    assert_eq!(gate.reserve(1, 2), Ok(Admission::Waiting { ticket: 1 }));
    assert_eq!(gate.reserve(1, 2), Err(Error::RateLimited));
    assert!(!gate.enter(0, 1));
    gate.leave(Admission::Inside);
    assert_eq!(gate.reserve(1, 3), Ok(Admission::Waiting { ticket: 2 }));
    assert!(!gate.enter(1, 1));
    assert!(gate.enter(0, 1));
    gate.leave(Admission::Waiting { ticket: 1 });
    gate.leave(Admission::Inside);
    assert!(gate.enter(2, 1));
    assert_eq!(gate.active, 1);
    assert!(gate.waiting.is_empty());
}

#[test]
fn pools_follow_their_configuration() {
    let mut pool = Pool::new(3);
    assert!(pool.give_back(idle(1, 0, 100), 3, 50, 1, 2));
    assert!(!pool.give_back(idle(2, 0, 100), 2, 50, 1, 2));
    assert!(!pool.give_back(idle(2, 0, 50), 3, 50, 1, 2));
    assert_eq!(pool.follow(2), Err(Error::InvalidInput));
    assert_eq!(pool.follow(3), Ok(()));
    assert_eq!(pool.idle.len(), 1);
    assert_eq!(pool.follow(4), Ok(()));
    assert_eq!((pool.generation, pool.idle.len()), (4, 0));
}

#[test]
fn pools_hold_no_more_connections_than_they_may() {
    let mut pool = Pool::new(1);
    assert!(pool.give_back(idle(1, 0, 100), 1, 0, 1, 2));
    assert!(pool.give_back(idle(2, 0, 100), 1, 0, 1, 2));
    assert!(!pool.give_back(idle(3, 0, 100), 1, 0, 1, 2));
    let taken = pool.take(1, 10, 1000, 2, 1, false).unwrap().unwrap();
    assert_eq!(taken.connection, 2);
    assert_eq!(pool.idle.len(), 1);
    let taken = pool.take(1, 10, 1000, 2, 2, false).unwrap().unwrap();
    assert_eq!(taken.connection, 1);
    assert!(pool.take(1, 10, 1000, 2, 2, false).unwrap().is_none());
    assert_eq!(pool.take(2, 10, 1000, 2, 2, false).err(), Some(Error::InvalidInput));
}

#[test]
fn connections_expire() {
    let mut pool = Pool::new(1);
    for (number, expires_at) in [(1, 100), (2, 50), (3, 70)] {
        assert!(pool.give_back(idle(number, 0, expires_at), 1, 0, 0, 9));
    }
    assert_eq!(pool.expire(40), Some(50));
    assert_eq!(pool.expire(50), Some(70));
    assert_eq!(pool.idle.len(), 2);
    assert!(pool.take(1, 90, 80, 9, 1, false).unwrap().is_none());
    assert_eq!(pool.expire(0), None);
    assert!(pool.give_back(idle(4, 10, 100), 1, 0, 0, 9));
    let shorter = pool.take(1, 20, 30, 9, 1, false).unwrap().unwrap();
    assert_eq!(shorter.expires_at, 40);
    let fresh = Idle::established(5u8, 10, 30);
    assert_eq!((fresh.established, fresh.expires_at), (10, 40));
    assert!(pool.give_back(idle(6, 10, 100), 1, 0, 0, 9));
    assert!(pool.take(1, 20, 30, 9, 1, true).unwrap().is_none());
    assert_eq!(pool.idle.len(), 1);
}

#[test]
fn checks_are_spread_over_a_minute() {
    let mut pool: Pool<u8> = Pool::new(1);
    assert_eq!(pool.check(0, 2), Ok(()));
    assert_eq!(pool.check(30 * SECOND - 1, 2), Err(Error::RateLimited));
    assert_eq!(pool.last_doctor, Some(0));
    assert_eq!(pool.check(30 * SECOND, 2), Ok(()));
    assert_eq!(pool.last_doctor, Some(30 * SECOND));
}

#[test]
fn equal_work_is_done_once() {
    let mut flights = Flights::new();
    let first = flights.join(1, 1, WorkKind::Resolve, 1, 1);
    assert_eq!(first, Ok(Joined::Started { serial: 0, admission: Admission::Inside }));
    let same = flights.join(1, 1, WorkKind::Resolve, 1, 1);
    assert_eq!(same, Ok(Joined::Shared { serial: 0 }));
    let other = flights.join(1, 1, WorkKind::Inspect, 1, 1);
    let waiting = Admission::Waiting { ticket: 0 };
    assert_eq!(other, Ok(Joined::Started { serial: 1, admission: waiting }));
    assert_eq!(flights.join(1, 2, WorkKind::Resolve, 1, 1), Err(Error::RateLimited));
    assert!(!flights.leave(0));
    assert!(flights.is_wanted(0));
    assert!(flights.leave(0));
    assert!(!flights.is_wanted(0));
    assert!(!flights.leave(0));
    assert!(!flights.leave(9));
}

#[test]
fn settled_work_is_not_shared() {
    let mut flights = Flights::new();
    flights.join(1, 1, WorkKind::Resolve, 2, 1).unwrap();
    flights.end(0, true);
    let again = flights.join(1, 1, WorkKind::Resolve, 2, 1);
    assert!(matches!(again, Ok(Joined::Started { serial: 1, .. })));
    flights.leave(1);
    flights.end(1, false);
    flights.leave(0);
    let last = flights.join(1, 1, WorkKind::Resolve, 9, 1);
    assert!(matches!(last, Ok(Joined::Started { serial: 2, .. })));
    assert_eq!(flights.flights.len(), 1);
}

#[test]
fn secrets_and_modes_are_checked() {
    let limits = Limits::default();
    assert_eq!(check_secret(limits.secret_bytes, &limits), Ok(()));
    assert_eq!(
        check_secret(limits.secret_bytes + 1, &limits),
        Err(Error::Source(SourceError::InvalidSecret))
    );
    assert_eq!(tls_mode(TlsMode::Implicit), imap::TlsMode::Implicit);
    assert_eq!(tls_mode(TlsMode::Starttls), imap::TlsMode::StartTls);
}

#[test]
fn runtimes_keep_their_limits() {
    let limits = Limits::default();
    let mut runtime: Runtime<u8> = Runtime::new(limits).unwrap();
    assert_eq!(runtime.validate_limits(&limits), Ok(()));
    let mut wider = limits;
    wider.secret_bytes += 1;
    assert_eq!(runtime.validate_limits(&wider), Err(Error::InvalidInput));
    let mut invalid = limits;
    invalid.account_connections = 0;
    assert!(Runtime::<u8>::new(invalid).is_err());
    for account in 0..limits.accounts {
        assert_eq!(runtime.pool(account as u128, 1), Ok(account));
    }
    assert_eq!(runtime.pool(0, 1), Ok(0));
    assert_eq!(runtime.pool(limits.accounts as u128, 1), Err(Error::RateLimited));
    assert_eq!(runtime.pool(0, 2), Ok(0));
    assert_eq!(runtime.pool(0, 1), Err(Error::InvalidInput));
}

#[test]
fn leases_are_returned_at_a_clean_boundary() {
    let limits = Limits::default();
    let mut runtime: Runtime<u8> = Runtime::new(limits).unwrap();
    let at = runtime.pool(9, 1).unwrap();
    assert_eq!(runtime.reserve(at, &limits), Ok(Admission::Inside));
    assert!(runtime.acquire(at, 1, 0, &limits, false).unwrap().is_none());
    let lease = runtime.lease(42, at, 1, 0, &limits);
    let expires_at = limits.connection_lifetime_seconds as u64 * SECOND;
    assert_eq!(lease.idle.expires_at, expires_at);
    assert!(lease.release(&mut runtime, 1));
    let lease = runtime.acquire(at, 1, 2, &limits, false).unwrap().unwrap();
    assert_eq!(lease.idle.connection, 42);
    assert!(!lease.release(&mut runtime, expires_at));
    assert_eq!(runtime.acquire(at, 2, 2, &limits, false).err(), Some(Error::InvalidInput));
    assert_eq!(runtime.doctor(at, 0, &limits), Ok(()));
    assert_eq!(runtime.doctor(at, 1, &limits), Err(Error::RateLimited));
    runtime.leave(at, Admission::Inside);
    let mut one = limits;
    one.account_connections = 1;
    assert_eq!(runtime.reserve(at, &one), Ok(Admission::Inside));
    let ticket = match runtime.reserve(at, &one) {
        Ok(Admission::Waiting { ticket }) => ticket,
        other => panic!("{other:?}"),
    };
    assert!(!runtime.enter(at, ticket, &one));
    runtime.leave(at, Admission::Inside);
    assert!(runtime.enter(at, ticket, &one));
}
