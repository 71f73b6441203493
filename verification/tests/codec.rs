use tftp::msg::from_bytes;
use tftp::msg::Mensagem;
use tftp::msg::Modo;
use tftp::msg::Requisicao;
use tftp::msg::TipoReq;
use tftp::msg::ACK;
use tftp::msg::DATA;
use tftp::msg::ERR;

fn wire(m: &Mensagem) -> Vec<u8> {
    m.serialize().to_vec()
}

#[test]
fn rrq_exact_bytes() {
    let m = Mensagem::new_rrq("a");
    assert_eq!(wire(&m), vec![0, 1, b'a', 0, b'o', b'c', b't', b'e', b't', 0]);
}

#[test]
fn wrq_exact_bytes() {
    let m = Mensagem::new_wrq("c");
    assert_eq!(wire(&m), vec![0, 2, b'c', 0, b'o', b'c', b't', b'e', b't', 0]);
}

#[test]
fn ack_exact_bytes() {
    assert_eq!(wire(&Mensagem::new_ack(1)), vec![0, 4, 0, 1]);
    assert_eq!(wire(&Mensagem::new_ack(0x1234)), vec![0, 4, 0x12, 0x34]);
}

#[test]
fn data_exact_bytes() {
    let m = Mensagem::new_data(2, b"hi");
    assert_eq!(wire(&m), vec![0, 3, 0, 2, b'h', b'i']);
}

#[test]
fn err_exact_bytes() {
    let e = ERR::new(1, "no").unwrap();
    assert_eq!(e.serialize().to_vec(), vec![0, 5, 0, 1, b'n', b'o', 0]);
}

#[test]
fn round_trip_rrq() {
    let m = Mensagem::new_rrq("file.txt");
    assert_eq!(from_bytes(wire(&m)), Some(m));
}

#[test]
fn round_trip_wrq() {
    let m = Mensagem::new_wrq("x");
    assert_eq!(from_bytes(wire(&m)), Some(m));
}

#[test]
fn round_trip_modes() {
    for modo in [Modo::Netascii, Modo::Octet, Modo::Mail] {
        let q = Requisicao::new(TipoReq::RRQ, "f", modo).unwrap();
        let m = Mensagem::Rrq(q);
        assert_eq!(from_bytes(wire(&m)), Some(m));
    }
}

#[test]
fn round_trip_data() {
    let m = Mensagem::new_data(7, &[0u8, 1, 2, 255]);
    assert_eq!(from_bytes(wire(&m)), Some(m));
}

#[test]
fn round_trip_data_full_block() {
    let m = Mensagem::new_data(1, &[0xAA; 512]);
    assert_eq!(from_bytes(wire(&m)), Some(m));
}

#[test]
fn round_trip_data_empty() {
    let m = Mensagem::new_data(3, b"");
    assert_eq!(from_bytes(wire(&m)), Some(m));
}

#[test]
fn round_trip_ack() {
    let m = Mensagem::new_ack(65535);
    assert_eq!(from_bytes(wire(&m)), Some(m));
}

#[test]
fn round_trip_err() {
    let e = ERR::new(5, "unknown tid").unwrap();
    let m = Mensagem::Erro(e);
    assert_eq!(from_bytes(wire(&m)), Some(m));
}

#[test]
fn decode_empty_and_short() {
    assert!(from_bytes(vec![]).is_none());
    assert!(from_bytes(vec![0]).is_none());
    assert!(from_bytes(vec![0, 3]).is_none());
    assert!(from_bytes(vec![0, 3, 0]).is_none());
    assert!(from_bytes(vec![0, 4, 1]).is_none());
}

#[test]
fn decode_unknown_opcode() {
    assert!(from_bytes(vec![0, 9, 0, 1]).is_none());
    assert!(from_bytes(vec![1, 1, 0, 1]).is_none());
}

#[test]
fn decode_missing_terminators() {
    // filename never terminated
    assert!(from_bytes(vec![0, 1, b'a', b'b']).is_none());
    // mode never terminated
    assert!(from_bytes(vec![0, 1, b'a', 0, b'o', b'c', b't', b'e', b't']).is_none());
    // error text never terminated
    assert!(from_bytes(vec![0, 5, 0, 1, b'x']).is_none());
}

#[test]
fn decode_bad_mode() {
    assert!(from_bytes(vec![0, 1, b'a', 0, b'm', b'a', b'i', b'l', b's', 0]).is_none());
    assert!(from_bytes(vec![0, 1, b'a', 0, 0]).is_none());
}

#[test]
fn decode_non_ascii_filename() {
    assert!(from_bytes(vec![0, 1, 0xC3, 0xA9, 0, b'o', b'c', b't', b'e', b't', 0]).is_none());
}

#[test]
fn decode_oversized_payload() {
    let mut b = vec![0, 3, 0, 1];
    b.extend(std::iter::repeat(0u8).take(513));
    assert!(from_bytes(b).is_none());
}

#[test]
fn decode_ack_ignores_trailing() {
    let m = from_bytes(vec![0, 4, 0, 2, 9, 9]).unwrap();
    assert_eq!(m, Mensagem::new_ack(2));
}

#[test]
fn data_from_bytes_direct() {
    let d = DATA::from_bytes(vec![0, 3, 1, 0, 7]).unwrap();
    assert_eq!(d.block, 256);
    assert_eq!(d.body, vec![7]);
}

#[test]
fn ack_from_bytes_direct() {
    assert!(ACK::from_bytes(vec![0, 4, 0, 0]).is_some());
    assert!(ACK::from_bytes(vec![0, 3, 0, 0]).is_none());
}

#[test]
fn req_from_bytes_direct() {
    let b = vec![0, 2, b'f', 0, b'n', b'e', b't', b'a', b's', b'c', b'i', b'i', 0];
    let q = Requisicao::from_bytes(b).unwrap();
    assert_eq!(q.fname, "f");
    assert!(matches!(q.modo, Modo::Netascii));
    assert!(matches!(q.tipo, TipoReq::WRQ));
}

#[test]
fn err_from_bytes_direct() {
    let e = ERR::from_bytes(vec![0, 5, 0, 2, b'n', b'o', 0]).unwrap();
    assert_eq!(e.err_code, 2);
    assert_eq!(e.err_msg, "no");
}

#[test]
fn constructors_reject_bad_values() {
    assert!(Requisicao::new(TipoReq::RRQ, "", Modo::Octet).is_none());
    assert!(Requisicao::new_wrq("", Modo::Octet).is_none());
    assert!(Requisicao::new_rrq("ok", Modo::Octet).is_some());
    assert!(DATA::new(0, b"x").is_none());
    assert!(DATA::new(1, b"x").is_some());
    assert!(ACK::new(0).is_none());
    assert!(ACK::new(1).is_some());
    assert!(ERR::new(0, "anything").is_some());
}

#[test]
fn helpers_read_the_wire() {
    assert_eq!(tftp::msg::get_shortint(&[0x12, 0x34, 0xFF]), 0x1234);
    assert_eq!(tftp::msg::get_string(&[b'h', b'i', 0, b'x']), "hi");
    assert_eq!(tftp::msg::get_string(b"abc"), "abc");
    assert_eq!(tftp::msg::get_string(&[0]), "");
}

#[test]
fn mode_strings() {
    assert_eq!(Modo::Octet.as_str(), "octet");
    assert_eq!(Modo::Netascii.as_str(), "netascii");
    assert_eq!(Modo::Mail.as_str(), "mail");
    assert_eq!(Modo::Octet.as_str0(), "octet");
    assert_eq!(TipoReq::RRQ.code(), 1);
    assert_eq!(TipoReq::WRQ.code(), 2);
}
