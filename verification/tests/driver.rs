//! Stream-id allocation and response routing.

use cql_client::driver::{Multiplexer, Routed};

#[test]
fn responses_in_permuted_order_reach_their_callers() {
    let mut mux = Multiplexer::new();
    let a = mux.register(10).unwrap();
    let b = mux.register(11).unwrap();
    let c = mux.register(12).unwrap();
    assert_ne!(a, b);
    assert_ne!(b, c);
    assert_ne!(a, c);

    // responses arrive in a different order than the requests went out
    assert!(matches!(mux.route(b), Routed::Caller(11)));
    assert!(matches!(mux.route(c), Routed::Caller(12)));
    assert!(matches!(mux.route(a), Routed::Caller(10)));
}

#[test]
fn ids_are_not_reused_while_outstanding() {
    let mut mux = Multiplexer::new();
    let a = mux.register(1).unwrap();
    let b = mux.register(2).unwrap();
    assert_ne!(a, b);

    // once answered, the id may serve a new request
    assert!(matches!(mux.route(a), Routed::Caller(1)));
    let c = mux.register(3).unwrap();
    assert_ne!(c, b);
    assert!(matches!(mux.route(c), Routed::Caller(3)));
}

#[test]
fn negative_ids_are_events() {
    let mut mux = Multiplexer::new();
    let a = mux.register(1).unwrap();

    // 0xFFFF is -1 as signed: the server's broadcast id
    assert!(matches!(mux.route(0xFFFF), Routed::Event));
    assert!(matches!(mux.route(0x8000), Routed::Event));

    // the pending call is untouched
    assert!(matches!(mux.route(a), Routed::Caller(1)));
}

#[test]
fn unknown_ids_are_reported() {
    let mut mux = Multiplexer::new();
    assert!(matches!(mux.route(5), Routed::Unknown));
}

#[test]
fn exhausting_the_id_space_is_back_pressure() {
    let mut mux = Multiplexer::new();
    for i in 0..0x8000u32 {
        assert!(mux.register(i as u64).is_some());
    }
    assert_eq!(mux.in_flight(), 0x8000);
    assert!(mux.register(99).is_none());

    // answering one request frees one id
    assert!(matches!(mux.route(0), Routed::Caller(0)));
    assert!(mux.register(99).is_some());
}
