//! Tests of the client-session pool's acquisition rule.

use node_core::rpc_pool::{AcquireDecision, RpcClientPoolState, SessionStat};

#[test]
fn sessions_are_created_lazily_up_to_the_cap() {
    let mut pool = RpcClientPoolState::new(2);
    assert_eq!(pool.acquire_decision(), AcquireDecision::CreateNew);
    pool.session_created(1);
    // The fresh session is idle, so it is reused rather than a second one
    // created.
    assert_eq!(pool.acquire_decision(), AcquireDecision::UseSession(1));
}

#[test]
fn least_loaded_usable_session_wins() {
    let mut pool = RpcClientPoolState::new(4);
    pool.sessions = vec![
        SessionStat { id: 1, in_flight: 3, usable: true },
        SessionStat { id: 2, in_flight: 1, usable: true },
        SessionStat { id: 3, in_flight: 0, usable: false },
        SessionStat { id: 4, in_flight: 1, usable: true },
    ];
    // The unusable idle session is passed over; of the two with one call
    // in flight, the earlier wins.
    assert_eq!(pool.acquire_decision(), AcquireDecision::UseSession(2));
}

#[test]
fn closed_sessions_force_creation_until_the_cap() {
    let mut pool = RpcClientPoolState::new(2);
    pool.sessions = vec![SessionStat { id: 1, in_flight: 0, usable: false }];
    assert_eq!(pool.acquire_decision(), AcquireDecision::CreateNew);
    pool.sessions.push(SessionStat { id: 2, in_flight: 0, usable: false });
    assert_eq!(pool.acquire_decision(), AcquireDecision::Unavailable);
}
