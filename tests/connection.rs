use svr_net::connection::{
    cooldown_ms, AttemptResult, ConnectionParams, MultiRouteConnectionManager, NetError, ServiceState, Step,
    SingleRouteThrottlingConnectionManager,
};
use svr_net::svr::{AttestationError, AttestedConnectionError, Error, IntoConnections, SvrConnection};
use svr_net::enclave::{Nitro, Sgx};

fn params(host: &str) -> ConnectionParams {
    ConnectionParams { host: host.to_string(), port: 443, cooldown_base_ms: 1000, max_cooldown_ms: 5000 }
}

#[test]
fn cooldown_doubles_up_to_the_cap() {
    assert_eq!(cooldown_ms(1000, 5000, 0), 0);
    assert_eq!(cooldown_ms(1000, 5000, 1), 1000);
    assert_eq!(cooldown_ms(1000, 5000, 2), 2000);
    assert_eq!(cooldown_ms(1000, 5000, 3), 4000);
    assert_eq!(cooldown_ms(1000, 5000, 4), 5000);
    assert_eq!(cooldown_ms(1000, 5000, 10), 5000);
    assert_eq!(cooldown_ms(9000, 5000, 1), 5000);
}

#[test]
fn failure_starts_cooldown_and_success_clears_it() {
    let mut m = SingleRouteThrottlingConnectionManager::new(params("a"), 10_000);
    assert_eq!(m.cooldown_remaining(100), None);
    let r: ServiceState<u8> = m.record_attempt(100, AttemptResult::Failed(NetError::Transport));
    assert!(matches!(r, ServiceState::Error(NetError::Transport)));
    assert_eq!(m.state.consecutive_failures, 1);
    assert_eq!(m.cooldown_remaining(600), Some(500));
    assert_eq!(m.cooldown_remaining(1100), None);
    let r: ServiceState<u8> = m.record_attempt(1100, AttemptResult::Failed(NetError::Transport));
    assert!(matches!(r, ServiceState::Error(_)));
    assert_eq!(m.state.cooldown_until, 3100);
    let r: ServiceState<u8> = m.record_attempt(3200, AttemptResult::TimedOut);
    assert!(matches!(r, ServiceState::TimedOut));
    assert_eq!(m.state.consecutive_failures, 2);
    let r = m.record_attempt(3300, AttemptResult::Connected(7u8));
    assert!(matches!(r, ServiceState::Active(7)));
    assert_eq!(m.state.consecutive_failures, 0);
    assert_eq!(m.cooldown_remaining(3300), None);
}

#[test]
fn multi_route_skips_cooling_routes() {
    let routes = vec![
        SingleRouteThrottlingConnectionManager::new(params("a"), 10),
        SingleRouteThrottlingConnectionManager::new(params("b"), 10),
    ];
    let mut m = MultiRouteConnectionManager::new(routes);
    assert_eq!(m.next_route(0, 0), Some(0));
    let _: ServiceState<u8> = m.record_attempt(0, 0, AttemptResult::Failed(NetError::Transport));
    assert_eq!(m.next_route(10, 0), Some(1));
    let _: ServiceState<u8> = m.record_attempt(1, 10, AttemptResult::Failed(NetError::Transport));
    assert_eq!(m.next_route(20, 0), None);
    let r: ServiceState<u8> = m.exhausted(20, None);
    assert!(matches!(r, ServiceState::Cooldown(980)));
    let r: ServiceState<u8> = m.exhausted(20, Some(ServiceState::TimedOut));
    assert!(matches!(r, ServiceState::TimedOut));
}

#[test]
fn connection_state_maps_to_errors() {
    let r = SvrConnection::<Sgx, u8>::transport_from(ServiceState::Cooldown(5u64) as ServiceState<u8>);
    assert_eq!(r, Err(Error::Net(NetError::NoServiceConnection)));
    let r = SvrConnection::<Sgx, u8>::transport_from(ServiceState::<u8>::TimedOut);
    assert_eq!(r, Err(Error::Net(NetError::Timeout)));
    let r = SvrConnection::<Sgx, u8>::transport_from(ServiceState::<u8>::Error(NetError::Transport));
    assert_eq!(r, Err(Error::Net(NetError::Transport)));
    let r = SvrConnection::<Sgx, u8>::transport_from(ServiceState::Active(3u8));
    assert_eq!(r, Ok(3));
}

#[test]
fn handshake_failures_map_to_errors() {
    let e = SvrConnection::<Nitro, u8>::from_handshake(Err(AttestedConnectionError::ClientConnection));
    assert_eq!(e.err(), Some(Error::Protocol));
    let e = SvrConnection::<Nitro, u8>::from_handshake(Err(AttestedConnectionError::Protocol));
    assert_eq!(e.err(), Some(Error::Protocol));
    let e = SvrConnection::<Nitro, u8>::from_handshake(Err(AttestedConnectionError::Net(NetError::Timeout)));
    assert_eq!(e.err(), Some(Error::Net(NetError::Timeout)));
    let e = SvrConnection::<Nitro, u8>::from_handshake(Err(AttestedConnectionError::Sgx(
        AttestationError::MalformedEvidence,
    )));
    assert_eq!(e.err(), Some(Error::AttestationError(AttestationError::MalformedEvidence)));
    let c = SvrConnection::<Nitro, u8>::from_handshake(Ok(9)).ok().unwrap();
    assert_eq!(c.into_inner(), 9);
    assert_eq!(Error::from(NetError::Timeout), Error::Net(NetError::Timeout));
}

#[test]
fn tagged_connections_keep_replica_order() {
    let pair = (SvrConnection::<Sgx, u8>::new(1), SvrConnection::<Nitro, u8>::new(2));
    assert_eq!(pair.into_connections(), vec![1, 2]);
    let one = SvrConnection::<Sgx, u8>::new(5);
    assert_eq!(one.into_connections(), vec![5]);
    let triple = (SvrConnection::<Sgx, u8>::new(1), SvrConnection::<Nitro, u8>::new(2), SvrConnection::<Sgx, u8>::new(3));
    assert_eq!(triple.into_connections(), vec![1, 2, 3]);
}

#[test]
fn failover_moves_to_next_route_and_stops_on_success() {
    let routes = vec![
        SingleRouteThrottlingConnectionManager::new(params("a"), 10),
        SingleRouteThrottlingConnectionManager::new(params("b"), 10),
        SingleRouteThrottlingConnectionManager::new(params("c"), 10),
    ];
    let mut m = MultiRouteConnectionManager::new(routes);
    assert!(matches!(m.start::<u8>(0), Step::TryRoute(0)));
    let s: Step<u8> = m.advance(0, 0, AttemptResult::Failed(NetError::Transport));
    assert!(matches!(s, Step::TryRoute(1)));
    let s: Step<u8> = m.advance(1, 0, AttemptResult::TimedOut);
    assert!(matches!(s, Step::TryRoute(2)));
    let s = m.advance(2, 0, AttemptResult::Connected(4u8));
    assert!(matches!(s, Step::Finished(ServiceState::Active(4))));
    assert!(matches!(m.start::<u8>(5), Step::TryRoute(1)));
}

#[test]
fn failover_ends_with_last_failure_or_cooldown() {
    let routes = vec![
        SingleRouteThrottlingConnectionManager::new(params("a"), 10),
        SingleRouteThrottlingConnectionManager::new(params("b"), 10),
    ];
    let mut m = MultiRouteConnectionManager::new(routes);
    let _: Step<u8> = m.advance(0, 0, AttemptResult::Failed(NetError::Transport));
    let s: Step<u8> = m.advance(1, 0, AttemptResult::Failed(NetError::Timeout));
    assert!(matches!(s, Step::Finished(ServiceState::Error(NetError::Timeout))));
    assert!(matches!(m.start::<u8>(400), Step::Finished(ServiceState::Cooldown(600))));
}
