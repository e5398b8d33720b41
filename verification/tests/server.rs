//! The connection manager: slot capacity, the security gates, queue order,
//! lookup by address, and shutdown.

use p2p_node::crypto::{decrypt, encrypt, generate_keypair, parse_public_key, respond_handshake,
    serialize_public_key, PrivateKey, PublicKey};
use p2p_node::server::{SessionStep, P2P};

fn node(port: u16, max_clients: usize, host: &str, blacklist: &[&str]) -> P2P {
    let list: Vec<String> = blacklist.iter().map(|s| s.to_string()).collect();
    P2P::new(port, max_clients, host.to_string(), list)
}

fn keys() -> (PrivateKey, PublicKey) {
    generate_keypair().expect("keypair")
}

/// Attach an inbound session for `addr`, as the worker does after a
/// completed handshake, and return its slot index.
fn attach(node: &mut P2P, addr: &str, socket: u64) -> usize {
    let (_, peer_pk) = keys();
    let (local_sk, _) = keys();
    node.attach_session(addr, socket, peer_pk, local_sk).expect("a slot is free")
}

#[test]
fn fresh_node_is_empty() {
    let n = node(5555, 3, "1.1.1.1", &[]);
    assert!(n.is_running());
    assert_eq!(n.get_port(), 5555);
    assert_eq!(n.get_host_ip(), "1.1.1.1");
    assert_eq!(n.connected_clients_count(), 0);
    assert!(n.get_connected_clients().is_empty());
    assert!(!n.check_address("2.2.2.2"));
    // The empty string marks a free slot; no peer is ever "connected" to it.
    assert!(!n.check_address(""));
}

#[test]
fn capacity_rejects_overflow() {
    let mut n = node(5555, 2, "1.1.1.1", &[]);
    let s0 = attach(&mut n, "10.0.0.1", 1);
    let s1 = attach(&mut n, "10.0.0.2", 2);
    assert_eq!((s0, s1), (0, 1));
    assert_eq!(n.connected_clients_count(), 2);
    // Third concurrent handshake while both slots are busy: refused.
    let (_, pk) = keys();
    let (sk, _) = keys();
    assert!(n.attach_session("10.0.0.3", 3, pk, sk).is_none());
    assert_eq!(n.connected_clients_count(), 2);
    // The outbound gate sees the same full pool.
    assert_eq!(n.create_session("10.0.0.4", None, 0), SessionStep::NoFreeSlot);
    // Freeing one slot admits the next handshake.
    n.close_connection("10.0.0.1");
    let (_, pk2) = keys();
    let (sk2, _) = keys();
    assert_eq!(n.attach_session("10.0.0.3", 3, pk2, sk2), Some(0));
}

#[test]
fn debounce_blocks_within_window() {
    let mut n = node(5555, 2, "1.1.1.1", &[]);
    assert!(n.admit_attempt("10.0.0.1", 1_000));
    assert!(!n.admit_attempt("10.0.0.1", 5_999));
    // A different address is not affected.
    assert!(n.admit_attempt("10.0.0.2", 5_999));
    // At the window's end the record no longer blocks.
    assert!(n.admit_attempt("10.0.0.1", 6_000));
}

#[test]
fn debounce_released_when_attempt_concludes() {
    let mut n = node(5555, 2, "1.1.1.1", &[]);
    assert!(n.admit_attempt("10.0.0.1", 1_000));
    // The handshake completes: the record is dropped with the attach, so a
    // fresh attempt is admitted well within the old window.
    attach(&mut n, "10.0.0.1", 1);
    assert!(n.admit_attempt("10.0.0.1", 1_001));
}

#[test]
fn debounce_released_when_attempt_fails() {
    let mut n = node(5555, 1, "1.1.1.1", &[]);
    attach(&mut n, "10.0.0.1", 1);
    // The pool is full: the claim fails, its outcome is known, and the
    // record goes with it — the peer may retry at once.
    assert!(n.admit_attempt("10.0.0.2", 1_000));
    let (_, pk) = keys();
    let (sk, _) = keys();
    assert!(n.attach_session("10.0.0.2", 2, pk, sk).is_none());
    assert!(n.admit_attempt("10.0.0.2", 1_001));
    // A failure the caller observes itself is released the same way.
    assert!(!n.admit_attempt("10.0.0.2", 1_002));
    n.remove_attempt("10.0.0.2");
    assert!(n.admit_attempt("10.0.0.2", 1_003));
}

#[test]
fn blacklist_rejects_both_directions() {
    let mut n = node(5555, 2, "1.1.1.1", &["6.6.6.6"]);
    // Inbound: the accept loop asks before any handshake work.
    assert!(n.is_blacklisted("6.6.6.6"));
    assert!(!n.is_blacklisted("6.6.6.7"));
    // Outbound: refused before any resource is touched.
    assert_eq!(n.create_session("6.6.6.6", None, 0), SessionStep::Blacklisted);
    assert_eq!(n.connected_clients_count(), 0);
    assert!(n.admit_attempt("6.6.6.6", 1));
}

#[test]
fn create_session_rejects_self() {
    let mut n = node(5555, 2, "1.1.1.1", &[]);
    assert_eq!(n.create_session("1.1.1.1", None, 0), SessionStep::SelfTarget);
    // A different port on the own address is a legitimate target.
    assert!(matches!(n.create_session("1.1.1.1", Some(5556), 0), SessionStep::Connect(_)));
}

#[test]
fn create_session_is_idempotent_when_connected() {
    let mut n = node(5555, 2, "1.1.1.1", &[]);
    attach(&mut n, "10.0.0.1", 1);
    assert_eq!(n.create_session("10.0.0.1", None, 0), SessionStep::AlreadyConnected);
    assert_eq!(n.create_session("10.0.0.1", None, 1), SessionStep::AlreadyConnected);
    assert_eq!(n.connected_clients_count(), 1);
}

#[test]
fn create_session_debounces_repeat_attempts() {
    let mut n = node(5555, 2, "1.1.1.1", &[]);
    assert!(matches!(n.create_session("10.0.0.1", None, 1_000), SessionStep::Connect(_)));
    assert_eq!(n.create_session("10.0.0.1", None, 1_500), SessionStep::AttemptInFlight);
}

#[test]
fn outbound_reservation_finish_and_abort() {
    let mut n = node(5555, 1, "1.1.1.1", &[]);
    let slot = match n.create_session("10.0.0.1", Some(5556), 0) {
        SessionStep::Connect(i) => i,
        other => panic!("expected a reserved slot, got {:?}", other),
    };
    // The reservation holds the only slot against a concurrent attempt.
    assert_eq!(n.create_session("10.0.0.2", None, 1), SessionStep::NoFreeSlot);
    // The connect fails: the reservation is released and the debounce record
    // dropped, so the same target may be retried at once.
    n.abort_outbound(slot, "10.0.0.1");
    let slot2 = match n.create_session("10.0.0.1", Some(5556), 2) {
        SessionStep::Connect(i) => i,
        other => panic!("expected a reserved slot, got {:?}", other),
    };
    // This time the handshake succeeds.
    let (_, pk) = keys();
    let (sk, _) = keys();
    n.finish_outbound(slot2, "10.0.0.1", 9, pk, sk);
    assert!(n.check_address("10.0.0.1"));
    assert_eq!(n.raw_send("10.0.0.1"), Some(9));
    assert_eq!(n.get_connected_clients(), vec!["10.0.0.1".to_string()]);
}

#[test]
fn queue_preserves_arrival_order() {
    let mut n = node(5555, 2, "1.1.1.1", &[]);
    // A session whose local private key we hold, so we can form real frames.
    let (local_sk, local_pk) = keys();
    let (_, peer_pk) = keys();
    let slot = n.attach_session("10.0.0.1", 1, peer_pk, local_sk).expect("slot");
    for msg in [&b"m1"[..], b"m2", b"m3"] {
        let frame = encrypt(&local_pk, msg).expect("encrypt");
        assert!(n.handle_ciphertext(slot, &frame));
    }
    assert!(n.check_request("10.0.0.1"));
    assert_eq!(n.get_request("10.0.0.1"), Some(b"m1".to_vec()));
    assert_eq!(n.get_request("10.0.0.1"), Some(b"m2".to_vec()));
    assert_eq!(n.get_request("10.0.0.1"), Some(b"m3".to_vec()));
    // Drained: no message, rather than a failure.
    assert!(!n.check_request("10.0.0.1"));
    assert_eq!(n.get_request("10.0.0.1"), None);
}

#[test]
fn get_request_on_absent_queue_is_none() {
    let mut n = node(5555, 2, "1.1.1.1", &[]);
    assert_eq!(n.get_request("10.0.0.9"), None);
    assert!(!n.check_request("10.0.0.9"));
}

#[test]
fn undecryptable_frame_ends_the_read_loop() {
    let mut n = node(5555, 2, "1.1.1.1", &[]);
    let (local_sk, _local_pk) = keys();
    let (_, peer_pk) = keys();
    let slot = n.attach_session("10.0.0.1", 1, peer_pk, local_sk).expect("slot");
    assert!(n.read_loop_continues(slot));
    assert!(!n.handle_ciphertext(slot, &[0u8; 64]));
    // Nothing was queued for the peer.
    assert!(!n.check_request("10.0.0.1"));
}

#[test]
fn end_to_end_between_two_nodes() {
    // Node A (port 5001) connects to node B (port 5002); only the wire is
    // simulated: every byte handed from one side to the other is exactly
    // what the library told the caller to send.
    let mut a = node(5001, 10, "10.0.0.1", &[]);
    let mut b = node(5002, 10, "10.0.0.2", &[]);

    // A's gate admits the target and reserves a slot.
    let a_slot = match a.create_session("10.0.0.2", Some(5002), 0) {
        SessionStep::Connect(i) => i,
        other => panic!("expected a reserved slot, got {:?}", other),
    };
    // Initiator sends its fresh public key first.
    let (a_sk, a_pk) = keys();
    let a_der = serialize_public_key(&a_pk);
    // Responder B reads it, answers with its own, and claims a slot.
    assert!(b.admit_attempt("10.0.0.1", 0));
    let hk = respond_handshake(&a_der).expect("handshake keys");
    let b_der = serialize_public_key(&hk.local_public);
    let b_slot = b.attach_session("10.0.0.1", 71, hk.peer_key, hk.local_private).expect("slot");
    // Initiator reads the responder's key and fills its reserved slot.
    let b_pk = parse_public_key(&b_der).expect("responder key parses");
    a.finish_outbound(a_slot, "10.0.0.2", 17, b_pk, a_sk);
    assert!(a.check_address("10.0.0.2"));
    assert!(b.check_address("10.0.0.1"));

    assert_eq!(a.connected_clients_count(), 1);
    assert_eq!(b.connected_clients_count(), 1);

    // A sends "hi": the library hands back B's socket and one ciphertext
    // block.
    let (sock, frame) = a.send("10.0.0.2", "hi").expect("send");
    assert_eq!(sock, 17);
    assert_eq!(frame.len(), 64);
    // B's read worker receives exactly those bytes.
    assert!(b.handle_ciphertext(b_slot, &frame));
    assert!(b.check_request("10.0.0.1"));
    assert_eq!(b.get_request("10.0.0.1"), Some(b"hi".to_vec()));
}

#[test]
fn send_rejects_oversized_message() {
    let mut n = node(5555, 2, "1.1.1.1", &[]);
    let (_, peer_pk) = keys();
    let (local_sk, _) = keys();
    n.attach_session("10.0.0.1", 1, peer_pk, local_sk).expect("slot");
    // One ciphertext block carries at most 53 plaintext bytes.
    let fits = "a".repeat(53);
    let (_, frame) = n.send("10.0.0.1", &fits).expect("53 bytes fit");
    assert_eq!(frame.len(), 64);
    let too_long = "a".repeat(54);
    assert!(n.send("10.0.0.1", &too_long).is_none());
}

#[test]
fn send_fails_without_session() {
    let n = node(5555, 2, "1.1.1.1", &[]);
    assert!(n.send("10.0.0.1", "hello").is_none());
    assert_eq!(n.raw_send("10.0.0.1"), None);
}

#[test]
fn close_connection_tears_down_slot_and_queue() {
    let mut n = node(5555, 2, "1.1.1.1", &[]);
    let (local_sk, local_pk) = keys();
    let (_, peer_pk) = keys();
    let slot = n.attach_session("10.0.0.1", 4, peer_pk, local_sk).expect("slot");
    let frame = encrypt(&local_pk, b"pending").expect("encrypt");
    assert!(n.handle_ciphertext(slot, &frame));
    assert!(n.check_request("10.0.0.1"));
    // Teardown returns the socket to shut and removes the queue.
    assert_eq!(n.close_connection("10.0.0.1"), Some(4));
    assert!(!n.check_address("10.0.0.1"));
    assert!(!n.check_request("10.0.0.1"));
    assert_eq!(n.get_request("10.0.0.1"), None);
    // Closing again finds nothing.
    assert_eq!(n.close_connection("10.0.0.1"), None);
}

#[test]
fn worker_release_by_index() {
    let mut n = node(5555, 2, "1.1.1.1", &[]);
    let slot = attach(&mut n, "10.0.0.1", 4);
    assert!(n.read_loop_continues(slot));
    assert_eq!(n.close_connection_at("10.0.0.1", slot), Some(4));
    assert!(!n.read_loop_continues(slot));
    assert!(!n.check_address("10.0.0.1"));
}

#[test]
fn shutdown_clears_all_connections() {
    let mut n = node(5555, 4, "1.1.1.1", &[]);
    attach(&mut n, "10.0.0.1", 11);
    attach(&mut n, "10.0.0.2", 12);
    assert_eq!(n.connected_clients_count(), 2);
    let sockets = n.kill_server();
    assert_eq!(sockets, vec![11, 12]);
    assert!(!n.is_running());
    assert_eq!(n.connected_clients_count(), 0);
    assert!(n.get_connected_clients().is_empty());
}

#[test]
fn connected_clients_in_slot_order() {
    let mut n = node(5555, 3, "1.1.1.1", &[]);
    attach(&mut n, "10.0.0.1", 1);
    attach(&mut n, "10.0.0.2", 2);
    attach(&mut n, "10.0.0.3", 3);
    n.close_connection("10.0.0.2");
    assert_eq!(
        n.get_connected_clients(),
        vec!["10.0.0.1".to_string(), "10.0.0.3".to_string()]
    );
}
