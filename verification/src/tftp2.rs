//! The message types of the alternate framing: a tagged union of nine
//! variants carried length-delimited on the wire. The state machine
//! exercises the first five; the rest are reserved and only round-trip.
//!
//! The byte layout of this framing lives outside the library, with the
//! code that owns the serializer; these are the plain values it carries.
use vstd::prelude::*;

use crate::msg::bytes_eq;
use vstd::utf8::encode_utf8;
use vstd::utf8::encode_utf8_decode_utf8;

verus! {

/// A read or write request: filename plus transfer mode.
#[derive(Debug, Clone, PartialEq)]
pub struct Req {
    pub fname: String,
    pub mode: i32,
}

/// A data block.
#[derive(Debug, Clone, PartialEq)]
pub struct Data {
    pub message: Vec<u8>,
    pub block_n: u32,
}

/// An acknowledgement of one block.
#[derive(Debug, Clone, PartialEq)]
pub struct Ack {
    pub block_n: u32,
}

/// An error report.
#[derive(Debug, Clone, PartialEq)]
pub struct Error {
    pub errorcode: i32,
}

/// A remote path, for the reserved listing and directory variants.
#[derive(Debug, Clone, PartialEq)]
pub struct Path {
    pub path: String,
}

/// The reserved reply to a listing request.
#[derive(Debug, Clone, PartialEq)]
pub struct ListResponse {
    pub items: Vec<ListItem>,
}

/// One entry of a listing: a file or a directory.
#[derive(Debug, Clone, PartialEq)]
pub struct ListItem {
    pub answer: Option<Answer>,
}

/// What a listing entry is.
#[derive(Debug, Clone, PartialEq)]
pub enum Answer {
    File(File),
    Dir(Path),
}

/// A listed file: name and size.
#[derive(Debug, Clone, PartialEq)]
pub struct File {
    pub nome: String,
    pub tamanho: i32,
}

/// The reserved rename request.
#[derive(Debug, Clone, PartialEq)]
pub struct Move {
    pub nome_orig: String,
    pub nome_novo: Option<String>,
}

/// The outer message: exactly one of the nine variants, or none.
#[derive(Debug, Clone, PartialEq)]
pub struct Mensagem {
    pub msg: Option<Msg>,
}

/// The nine variants of the tagged union.
#[derive(Debug, Clone, PartialEq)]
pub enum Msg {
    Rrq(Req),
    Wrq(Req),
    Data(Data),
    Ack(Ack),
    Error(Error),
    List(Path),
    ListResp(ListResponse),
    Mkdir(Path),
    Move(Move),
}

/// The transfer mode named in a request.
#[derive(Clone, Copy, Debug, PartialEq, Eq, Hash, PartialOrd, Ord, Structural)]
pub enum Mode {
    Netascii,
    Octet,
    Mail,
}

/// The error codes a peer may report.
#[derive(Clone, Copy, Debug, PartialEq, Eq, Hash, PartialOrd, Ord, Structural)]
pub enum ErrorCode {
    FileNotFound,
    AccessViolation,
    DiskFull,
    IllegalOperation,
    UnknownTid,
    FileExists,
    UnknownSession,
    Unedfined,
}

/// The number a mode travels as inside a request.
pub open spec fn mode_code(m: Mode) -> i32 {
    match m {
        Mode::Netascii => 1,
        Mode::Octet => 2,
        Mode::Mail => 3,
    }
}

/// The number an error code travels as.
pub open spec fn error_code_code(e: ErrorCode) -> i32 {
    match e {
        ErrorCode::FileNotFound => 1,
        ErrorCode::AccessViolation => 2,
        ErrorCode::DiskFull => 3,
        ErrorCode::IllegalOperation => 4,
        ErrorCode::UnknownTid => 5,
        ErrorCode::FileExists => 6,
        ErrorCode::UnknownSession => 7,
        ErrorCode::Unedfined => 8,
    }
}

/// The name of a mode.
pub open spec fn mode_name(m: Mode) -> Seq<char> {
    match m {
        Mode::Netascii => "netascii"@,
        Mode::Octet => "octet"@,
        Mode::Mail => "mail"@,
    }
}

/// The mode of a name, if it is one.
pub open spec fn mode_of_name(s: Seq<char>) -> Option<Mode> {
    if s == "netascii"@ {
        Some(Mode::Netascii)
    } else if s == "octet"@ {
        Some(Mode::Octet)
    } else if s == "mail"@ {
        Some(Mode::Mail)
    } else {
        None
    }
}

/// The name of an error code.
pub open spec fn error_code_name(e: ErrorCode) -> Seq<char> {
    match e {
        ErrorCode::FileNotFound => "FileNotFound"@,
        ErrorCode::AccessViolation => "AccessViolation"@,
        ErrorCode::DiskFull => "DiskFull"@,
        ErrorCode::IllegalOperation => "IllegalOperation"@,
        ErrorCode::UnknownTid => "UnknownTid"@,
        ErrorCode::FileExists => "FileExists"@,
        ErrorCode::UnknownSession => "UnknownSession"@,
        ErrorCode::Unedfined => "Unedfined"@,
    }
}

/// The error code of a name, if it is one.
pub open spec fn error_code_of_name(s: Seq<char>) -> Option<ErrorCode> {
    if s == "FileNotFound"@ {
        Some(ErrorCode::FileNotFound)
    } else if s == "AccessViolation"@ {
        Some(ErrorCode::AccessViolation)
    } else if s == "DiskFull"@ {
        Some(ErrorCode::DiskFull)
    } else if s == "IllegalOperation"@ {
        Some(ErrorCode::IllegalOperation)
    } else if s == "UnknownTid"@ {
        Some(ErrorCode::UnknownTid)
    } else if s == "FileExists"@ {
        Some(ErrorCode::FileExists)
    } else if s == "UnknownSession"@ {
        Some(ErrorCode::UnknownSession)
    } else if s == "Unedfined"@ {
        Some(ErrorCode::Unedfined)
    } else {
        None
    }
}

/// Whether two strings hold the same characters.
fn str_eq(a: &str, b: &str) -> (r: bool)
    ensures
        r == (a@ == b@),
{
    let r = bytes_eq(a.as_bytes(), b.as_bytes());
    proof {
        if encode_utf8(a@) == encode_utf8(b@) {
            encode_utf8_decode_utf8(a@);
            encode_utf8_decode_utf8(b@);
        }
    }
    r
}

impl Req {
    /// Stores a mode into the number field that carries it.
    pub fn set_mode(&mut self, value: Mode)
        ensures
            *final(self) == (Req { mode: mode_code(value), ..*old(self) }),
    {
        self.mode = match value {
            Mode::Netascii => 1,
            Mode::Octet => 2,
            Mode::Mail => 3,
        };
    }
}

impl Mode {
    /// The stable name of the mode, as the framing schema spells it.
    pub fn as_str_name(&self) -> (r: &'static str)
        ensures
            r@ == mode_name(*self),
    {
        match self {
            Mode::Netascii => "netascii",
            Mode::Octet => "octet",
            Mode::Mail => "mail",
        }
    }

    /// The mode of a stable name, if it is one.
    pub fn from_str_name(value: &str) -> (r: Option<Mode>)
        ensures
            r == mode_of_name(value@),
    {
        if str_eq(value, "netascii") {
            Some(Mode::Netascii)
        } else if str_eq(value, "octet") {
            Some(Mode::Octet)
        } else if str_eq(value, "mail") {
            Some(Mode::Mail)
        } else {
            None
        }
    }
}

impl ErrorCode {
    /// The stable name of the error code, as the framing schema spells it.
    pub fn as_str_name(&self) -> (r: &'static str)
        ensures
            r@ == error_code_name(*self),
    {
        match self {
            ErrorCode::FileNotFound => "FileNotFound",
            ErrorCode::AccessViolation => "AccessViolation",
            ErrorCode::DiskFull => "DiskFull",
            ErrorCode::IllegalOperation => "IllegalOperation",
            ErrorCode::UnknownTid => "UnknownTid",
            ErrorCode::FileExists => "FileExists",
            ErrorCode::UnknownSession => "UnknownSession",
            ErrorCode::Unedfined => "Unedfined",
        }
    }

    /// The error code of a stable name, if it is one.
    pub fn from_str_name(value: &str) -> (r: Option<ErrorCode>)
        ensures
            r == error_code_of_name(value@),
    {
        if str_eq(value, "FileNotFound") {
            Some(ErrorCode::FileNotFound)
        } else if str_eq(value, "AccessViolation") {
            Some(ErrorCode::AccessViolation)
        } else if str_eq(value, "DiskFull") {
            Some(ErrorCode::DiskFull)
        } else if str_eq(value, "IllegalOperation") {
            Some(ErrorCode::IllegalOperation)
        } else if str_eq(value, "UnknownTid") {
            Some(ErrorCode::UnknownTid)
        } else if str_eq(value, "FileExists") {
            Some(ErrorCode::FileExists)
        } else if str_eq(value, "UnknownSession") {
            Some(ErrorCode::UnknownSession)
        } else if str_eq(value, "Unedfined") {
            Some(ErrorCode::Unedfined)
        } else {
            None
        }
    }
}

impl Mensagem {
    /// A read request for `fname`, in octet mode.
    pub fn new_rrq(fname: &str) -> (m: Mensagem)
        ensures
            m.msg matches Some(Msg::Rrq(q)) && q.fname@ == fname@ && q.mode == mode_code(
                Mode::Octet,
            ),
    {
        let mut inner = Req { fname: String::new(), mode: 0 };
        inner.set_mode(Mode::Octet);
        inner.fname = fname.to_owned();
        Mensagem { msg: Some(Msg::Rrq(inner)) }
    }

    /// A write request for `fname`, in octet mode.
    pub fn new_wrq(fname: &str) -> (m: Mensagem)
        ensures
            m.msg matches Some(Msg::Wrq(q)) && q.fname@ == fname@ && q.mode == mode_code(
                Mode::Octet,
            ),
    {
        let mut inner = Req { fname: String::new(), mode: 0 };
        inner.set_mode(Mode::Octet);
        inner.fname = fname.to_owned();
        Mensagem { msg: Some(Msg::Wrq(inner)) }
    }

    /// An acknowledgement of `block`.
    pub fn new_ack(block: u32) -> (m: Mensagem)
        ensures
            m == (Mensagem { msg: Some(Msg::Ack(Ack { block_n: block })) }),
    {
        Mensagem { msg: Some(Msg::Ack(Ack { block_n: block })) }
    }

    /// A data message carrying `body` as block `block`.
    pub fn new_data(block: u32, body: &[u8]) -> (m: Mensagem)
        ensures
            m.msg matches Some(Msg::Data(d)) && d.block_n == block && d.message@ == body@,
    {
        let message = vstd::slice::slice_to_vec(body);
        Mensagem { msg: Some(Msg::Data(Data { message, block_n: block })) }
    }

    /// Reserved: the machine never reports errors, so this hands back
    /// the empty message.
    pub fn new_err(_code: u32) -> (m: Mensagem)
        ensures
            m.msg is None,
    {
        Mensagem { msg: None }
    }
}

/// The name of a mode names that mode and no other.
pub proof fn lemma_mode_name_round(m: Mode)
    ensures
        mode_of_name(mode_name(m)) == Some(m),
{
    broadcast use vstd::string::group_string_axioms;

    reveal_strlit("netascii");
    reveal_strlit("octet");
    reveal_strlit("mail");
    assert("netascii"@.len() == 8);
    assert("octet"@.len() == 5);
    assert("mail"@.len() == 4);
}

/// The name of an error code names that code and no other.
pub proof fn lemma_error_code_name_round(e: ErrorCode)
    ensures
        error_code_of_name(error_code_name(e)) == Some(e),
{
    broadcast use vstd::string::group_string_axioms;

    reveal_strlit("FileNotFound");
    reveal_strlit("AccessViolation");
    reveal_strlit("DiskFull");
    reveal_strlit("IllegalOperation");
    reveal_strlit("UnknownTid");
    reveal_strlit("FileExists");
    reveal_strlit("UnknownSession");
    reveal_strlit("Unedfined");
    assert("FileNotFound"@.len() == 12);
    assert("AccessViolation"@.len() == 15);
    assert("DiskFull"@.len() == 8);
    assert("IllegalOperation"@.len() == 16);
    assert("UnknownTid"@.len() == 10);
    assert("FileExists"@.len() == 10);
    assert("UnknownSession"@.len() == 14);
    assert("Unedfined"@.len() == 9);
    assert("UnknownTid"@[0] == 'U' && "FileExists"@[0] == 'F');
}

} // verus!
