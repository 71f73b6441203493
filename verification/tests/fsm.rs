use tftp::msg::Mensagem;
use tftp::msg::ERR;
use tftp::ClienteTFTP;
use tftp::Evento;
use tftp::Ipv4;
use tftp::Sessao;
use tftp::Status;

fn peer() -> Ipv4 {
    Ipv4 { a: 10, b: 0, c: 0, d: 1 }
}

fn fresh(timeout: u16, retries: u16) -> Sessao {
    Sessao::new("10.0.0.1", 69, timeout, retries).unwrap()
}

fn msg_event(m: &Mensagem) -> Evento {
    Evento::Msg(m.serialize().to_vec())
}

#[test]
fn download_single_short_block() {
    // Download "a" (3 bytes "xyz"): RRQ, DATA(1, "xyz"), ACK(1), OK.
    let mut s = fresh(1, 3);
    let rrq = s.receive("a");
    assert_eq!(rrq, Mensagem::new_rrq("a"));
    assert!(s.accept_from(peer(), 3333));
    let out = s.step(msg_event(&Mensagem::new_data(1, b"xyz")));
    assert_eq!(out, Some(Mensagem::new_ack(1)));
    assert!(s.is_finished());
    assert_eq!(s.status, Status::OK);
    assert_eq!(s.contents(), b"xyz".to_vec());
}

#[test]
fn download_two_full_blocks_and_empty_tail() {
    // Download "b" (1024 bytes of 0xAA): three DATA messages, three ACKs.
    let mut s = fresh(1, 3);
    let rrq = s.receive("b");
    assert_eq!(rrq, Mensagem::new_rrq("b"));
    assert!(s.accept_from(peer(), 4000));
    let events = vec![
        msg_event(&Mensagem::new_data(1, &[0xAA; 512])),
        msg_event(&Mensagem::new_data(2, &[0xAA; 512])),
        msg_event(&Mensagem::new_data(3, b"")),
    ];
    let outs = s.run(events);
    assert_eq!(
        outs,
        vec![Mensagem::new_ack(1), Mensagem::new_ack(2), Mensagem::new_ack(3)],
    );
    assert!(s.is_finished());
    assert_eq!(s.status, Status::OK);
    assert_eq!(s.contents().len(), 1024);
    assert!(s.contents().iter().all(|b| *b == 0xAA));
}

#[test]
fn upload_short_payload() {
    // Upload "c" with payload "hello": WRQ, ACK(0), DATA(1, "hello"), ACK(1), OK.
    let mut s = fresh(1, 3);
    let wrq = s.send("c", b"hello");
    assert_eq!(wrq, Mensagem::new_wrq("c"));
    assert!(s.accept_from(peer(), 5000));
    let out = s.step(msg_event(&Mensagem::new_ack(0)));
    assert_eq!(out, Some(Mensagem::new_data(1, b"hello")));
    let out = s.step(msg_event(&Mensagem::new_ack(1)));
    assert_eq!(out, None);
    assert!(s.is_finished());
    assert_eq!(s.status, Status::OK);
}

#[test]
fn download_duplicate_short_block() {
    // The peer sends DATA(1, "aa") twice. The first short block already
    // completes the transfer; the duplicate is consumed without effect,
    // and the buffer holds "aa", not "aaaa".
    let mut s = fresh(1, 3);
    s.receive("dup");
    assert!(s.accept_from(peer(), 6000));
    let out = s.step(msg_event(&Mensagem::new_data(1, b"aa")));
    assert_eq!(out, Some(Mensagem::new_ack(1)));
    let out = s.step(msg_event(&Mensagem::new_data(1, b"aa")));
    assert_eq!(out, None);
    assert!(s.is_finished());
    assert_eq!(s.status, Status::OK);
    assert_eq!(s.contents(), b"aa".to_vec());
}

#[test]
fn download_duplicate_full_block_reacked() {
    // A duplicated full block mid-transfer is acknowledged again and
    // appended only once.
    let mut s = fresh(1, 3);
    s.receive("dup2");
    assert!(s.accept_from(peer(), 6001));
    let first = Mensagem::new_data(1, &[0x11; 512]);
    assert_eq!(s.step(msg_event(&first)), Some(Mensagem::new_ack(1)));
    // duplicate: re-acknowledged, buffer unchanged
    assert_eq!(s.step(msg_event(&first)), Some(Mensagem::new_ack(1)));
    assert_eq!(s.contents().len(), 512);
    assert_eq!(s.step(msg_event(&Mensagem::new_data(2, b"z"))), Some(Mensagem::new_ack(2)));
    assert!(s.is_finished());
    assert_eq!(s.status, Status::OK);
    assert_eq!(s.contents().len(), 513);
}

#[test]
fn upload_without_acks_exhausts_retries() {
    // timeout=1, max_retries=3: DATA(1) goes out once and is
    // retransmitted exactly three times, then MaxRetriesExceeded.
    let mut s = fresh(1, 3);
    let wrq = s.send("c", b"hello");
    assert_eq!(wrq, Mensagem::new_wrq("c"));
    assert!(s.accept_from(peer(), 7000));
    let events = vec![
        msg_event(&Mensagem::new_ack(0)),
        Evento::Timeout,
        Evento::Timeout,
        Evento::Timeout,
        Evento::Timeout,
    ];
    let outs = s.run(events);
    let data1 = Mensagem::new_data(1, b"hello");
    assert_eq!(outs, vec![data1.clone(), data1.clone(), data1.clone(), data1]);
    assert!(s.is_finished());
    assert_eq!(s.status, Status::MaxRetriesExceeded);
}

#[test]
fn download_peer_error_terminates() {
    // The peer answers the request with ERROR(code=1).
    let mut s = fresh(1, 3);
    s.receive("gone");
    assert!(s.accept_from(peer(), 8000));
    let e = Mensagem::Erro(ERR::new(1, "file not found").unwrap());
    let out = s.step(msg_event(&e));
    assert_eq!(out, None);
    assert!(s.is_finished());
    assert_eq!(s.status, Status::Error(1));
    assert_eq!(s.contents(), Vec::<u8>::new());
}

#[test]
fn upload_peer_error_terminates() {
    let mut s = fresh(1, 3);
    s.send("c", b"hello");
    assert!(s.accept_from(peer(), 8001));
    let e = Mensagem::Erro(ERR::new(6, "exists").unwrap());
    assert_eq!(s.step(msg_event(&e)), None);
    assert_eq!(s.status, Status::Error(6));
}

#[test]
fn upload_exact_block_multiple_sends_empty_tail() {
    // A 512-byte upload goes out as DATA(1) of 512 bytes and DATA(2) of
    // 0 bytes.
    let mut s = fresh(1, 3);
    let body = [0x42u8; 512];
    s.send("c", &body);
    assert!(s.accept_from(peer(), 9000));
    let out = s.step(msg_event(&Mensagem::new_ack(0)));
    assert_eq!(out, Some(Mensagem::new_data(1, &body)));
    let out = s.step(msg_event(&Mensagem::new_ack(1)));
    assert_eq!(out, Some(Mensagem::new_data(2, b"")));
    let out = s.step(msg_event(&Mensagem::new_ack(2)));
    assert_eq!(out, None);
    assert!(s.is_finished());
    assert_eq!(s.status, Status::OK);
}

#[test]
fn upload_empty_buffer_sends_one_empty_block() {
    // An empty upload is one DATA of 0 bytes with block 1.
    let mut s = fresh(1, 3);
    s.send("c", b"");
    assert!(s.accept_from(peer(), 9001));
    let out = s.step(msg_event(&Mensagem::new_ack(0)));
    assert_eq!(out, Some(Mensagem::new_data(1, b"")));
    let out = s.step(msg_event(&Mensagem::new_ack(1)));
    assert_eq!(out, None);
    assert!(s.is_finished());
    assert_eq!(s.status, Status::OK);
}

#[test]
fn initial_handshake_timeout() {
    let mut s = fresh(1, 3);
    s.receive("slow");
    assert_eq!(s.step(Evento::Timeout), None);
    assert!(s.is_finished());
    assert_eq!(s.status, Status::Timeout);
}

#[test]
fn init_tx_foreign_ack_terminates() {
    let mut s = fresh(1, 3);
    s.send("c", b"hello");
    assert!(s.accept_from(peer(), 9002));
    assert_eq!(s.step(msg_event(&Mensagem::new_ack(5))), None);
    assert!(s.is_finished());
}

#[test]
fn tx_foreign_ack_ignored() {
    let mut s = fresh(1, 3);
    s.send("c", &[1u8; 600]);
    assert!(s.accept_from(peer(), 9003));
    s.step(msg_event(&Mensagem::new_ack(0)));
    // an acknowledgement of a block that is not outstanding changes nothing
    assert_eq!(s.step(msg_event(&Mensagem::new_ack(9))), None);
    assert!(!s.is_finished());
    let out = s.step(msg_event(&Mensagem::new_ack(1)));
    assert_eq!(out, Some(Mensagem::new_data(2, &[1u8; 88])));
}

#[test]
fn undecodable_datagram_is_dropped() {
    let mut s = fresh(1, 3);
    s.receive("x");
    assert!(s.accept_from(peer(), 9004));
    assert_eq!(s.step(Evento::Msg(vec![0, 9, 9])), None);
    assert!(!s.is_finished());
    assert_eq!(s.step(Evento::Nada), None);
    assert!(!s.is_finished());
}

#[test]
fn tid_adopted_from_first_reply() {
    // The first reply comes from an ephemeral port: that port becomes
    // the peer, and datagrams from the original service port are dropped.
    let mut s = fresh(1, 3);
    s.receive("a");
    assert!(s.accept_from(peer(), 4321));
    assert_eq!(s.port, 4321);
    assert!(!s.accept_from(peer(), 69));
    assert!(s.accept_from(peer(), 4321));
}

#[test]
fn tid_rejects_foreign_address() {
    let mut s = fresh(1, 3);
    s.receive("a");
    let stranger = Ipv4 { a: 192, b: 168, c: 1, d: 1 };
    // the port is latched even when the address mismatches, as the
    // machine trusts the first reply's port only
    assert!(!s.accept_from(stranger, 4321));
    assert!(s.accept_from(peer(), 4321));
}

#[test]
fn session_construction_parses_address() {
    assert!(Sessao::new("0.0.0.0", 69, 1, 3).is_some());
    assert!(Sessao::new("255.255.255.255", 69, 1, 3).is_some());
    assert!(Sessao::new("1.2.3", 69, 1, 3).is_none());
    assert!(Sessao::new("1.2.3.4.5", 69, 1, 3).is_none());
    assert!(Sessao::new("256.1.1.1", 69, 1, 3).is_none());
    assert!(Sessao::new("a.b.c.d", 69, 1, 3).is_none());
    assert!(Sessao::new("1..2.3", 69, 1, 3).is_none());
    assert!(Sessao::new("01.2.3.4", 69, 1, 3).is_none());
    assert!(Sessao::new("", 69, 1, 3).is_none());
    let s = Sessao::new("10.20.30.40", 69, 1, 3).unwrap();
    assert_eq!(s.ip, Ipv4 { a: 10, b: 20, c: 30, d: 40 });
    assert_eq!(s.port, 69);
    assert_eq!(s.seqno, 1);
    assert_eq!(s.retries, 0);
    assert_eq!(s.max_retries, 3);
}

#[test]
fn client_facade_holds_endpoint() {
    let c = ClienteTFTP::new("10.0.0.1", 69);
    assert_eq!(c.server, "10.0.0.1");
    assert_eq!(c.port, 69);
}
