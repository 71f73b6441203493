use tftp::tftp2::Ack;
use tftp::tftp2::Answer;
use tftp::tftp2::ErrorCode;
use tftp::tftp2::File;
use tftp::tftp2::ListItem;
use tftp::tftp2::Mensagem;
use tftp::tftp2::Mode;
use tftp::tftp2::Msg;
use tftp::tftp2::Req;

#[test]
fn mode_names_round_trip() {
    for m in [Mode::Netascii, Mode::Octet, Mode::Mail] {
        assert_eq!(Mode::from_str_name(m.as_str_name()), Some(m));
    }
    assert_eq!(Mode::from_str_name("octet"), Some(Mode::Octet));
    assert_eq!(Mode::from_str_name("OCTET"), None);
    assert_eq!(Mode::from_str_name(""), None);
    assert_eq!(Mode::from_str_name("octets"), None);
}

#[test]
fn error_code_names_round_trip() {
    let all = [
        ErrorCode::FileNotFound,
        ErrorCode::AccessViolation,
        ErrorCode::DiskFull,
        ErrorCode::IllegalOperation,
        ErrorCode::UnknownTid,
        ErrorCode::FileExists,
        ErrorCode::UnknownSession,
        ErrorCode::Unedfined,
    ];
    for e in all {
        assert_eq!(ErrorCode::from_str_name(e.as_str_name()), Some(e));
    }
    assert_eq!(ErrorCode::from_str_name("FileNotFound"), Some(ErrorCode::FileNotFound));
    assert_eq!(ErrorCode::from_str_name("FileExists"), Some(ErrorCode::FileExists));
    assert_eq!(ErrorCode::from_str_name("UnknownTid"), Some(ErrorCode::UnknownTid));
    assert_eq!(ErrorCode::from_str_name("nonsense"), None);
}

#[test]
fn set_mode_stores_the_wire_number() {
    let mut q = Req { fname: String::from("f"), mode: 0 };
    q.set_mode(Mode::Netascii);
    assert_eq!(q.mode, 1);
    q.set_mode(Mode::Octet);
    assert_eq!(q.mode, 2);
    q.set_mode(Mode::Mail);
    assert_eq!(q.mode, 3);
    assert_eq!(q.fname, "f");
}

#[test]
fn framing_constructors() {
    let m = Mensagem::new_rrq("teste.txt");
    match m.msg {
        Some(Msg::Rrq(q)) => {
            assert_eq!(q.fname, "teste.txt");
            assert_eq!(q.mode, 2);
        },
        _ => panic!("expected a read request"),
    }
    let m = Mensagem::new_wrq("w");
    assert!(matches!(m.msg, Some(Msg::Wrq(_))));
    let m = Mensagem::new_ack(3);
    assert_eq!(m, Mensagem { msg: Some(Msg::Ack(Ack { block_n: 3 })) });
    let m = Mensagem::new_data(1, b"xyz");
    match m.msg {
        Some(Msg::Data(d)) => {
            assert_eq!(d.block_n, 1);
            assert_eq!(d.message, b"xyz".to_vec());
        },
        _ => panic!("expected a data message"),
    }
    let m = Mensagem::new_err(4);
    assert!(m.msg.is_none());
}

#[test]
fn reserved_variants_hold_their_values() {
    let item = ListItem { answer: Some(Answer::File(File { nome: String::from("n"), tamanho: 7 })) };
    match item.answer {
        Some(Answer::File(f)) => {
            assert_eq!(f.nome, "n");
            assert_eq!(f.tamanho, 7);
        },
        _ => panic!("expected a file entry"),
    }
}
