//! Tests of the token table: uniqueness of handles under churn, reuse after
//! release, and lookup behaviour.

use hello_server::connection_manager::{ConnMgr, ConnState, Connection, Interest, Token};

#[test]
fn handles_are_unique_while_held() {
    let mut mgr = ConnMgr::new();
    let t1 = mgr.generate_token(Connection::new());
    let t2 = mgr.generate_token(Connection::new());
    let t3 = mgr.generate_token(Connection::new());
    assert_ne!(t1.0, t2.0);
    assert_ne!(t1.0, t3.0);
    assert_ne!(t2.0, t3.0);
    assert!(t1.0 >= 1);
    assert!(t2.0 >= 1);
    assert!(t3.0 >= 1);
}

#[test]
fn handles_are_small_dense_integers() {
    let mut mgr = ConnMgr::new();
    assert_eq!(mgr.generate_token(Connection::new()), Token(1));
    assert_eq!(mgr.generate_token(Connection::new()), Token(2));
    assert_eq!(mgr.generate_token(Connection::new()), Token(3));
}

#[test]
fn released_handle_is_reused_and_lookup_finds_nothing() {
    let mut mgr = ConnMgr::new();
    let _t1 = mgr.generate_token(Connection::new());
    let t2 = mgr.generate_token(Connection::new());
    let _t3 = mgr.generate_token(Connection::new());
    let released = mgr.release_token(t2);
    assert_eq!(released.state, ConnState::AwaitingRead);
    assert!(!mgr.contains(&t2.0));
    assert!(mgr.get_stream(&t2.0).is_none());
    // The freed value is the smallest unused handle, so the next
    // allocation returns exactly it.
    let t4 = mgr.generate_token(Connection::new());
    assert_eq!(t4, t2);
    assert!(mgr.contains(&t4.0));
}

#[test]
fn lookup_resolves_to_the_bound_connection() {
    let mut mgr = ConnMgr::new();
    let t = mgr.generate_token(Connection::new());
    {
        let c = mgr.get_stream(&t.0).expect("token must be live");
        assert!(c.buffer.is_empty());
        assert_eq!(c.state, ConnState::AwaitingRead);
        assert_eq!(c.interest, Interest::Readable);
        c.buffer.push(42);
    }
    // Mutation through the lookup is visible afterwards, and release hands
    // the same connection back.
    let c = mgr.release_token(t);
    assert_eq!(c.buffer, vec![42]);
}

#[test]
fn lookup_of_an_unknown_handle_finds_nothing() {
    let mut mgr = ConnMgr::new();
    assert!(mgr.get_stream(&1).is_none());
    assert!(mgr.get_stream(&0).is_none());
    assert!(!mgr.contains(&7));
    let t = mgr.generate_token(Connection::new());
    assert!(mgr.get_stream(&(t.0 + 1)).is_none());
}
