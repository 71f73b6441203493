//! The classic on-the-wire codec: the five protocol messages and their
//! total, deterministic encoding to and from byte buffers.
//!
//! Every message starts with a two-byte big-endian opcode. Requests carry
//! a filename and a mode string, each terminated by a zero byte; data
//! messages carry a block number and up to 512 payload bytes; acks carry a
//! block number; errors carry a code and a zero-terminated text.
use vstd::prelude::*;

use crate::bytebuf::bm_extend;
use crate::bytebuf::bm_new;
use crate::bytebuf::bytes_of;
use vstd::slice::slice_subrange;
use vstd::slice::slice_to_vec;
use vstd::string::StringExecFns;
use vstd::utf8::encode_utf8;
use vstd::utf8::is_ascii_chars;
use vstd::utf8::is_ascii_chars_encode_utf8;

verus! {

// ---------------------------------------------------------------------------
// Message types
// ---------------------------------------------------------------------------
/// A request: read (RRQ) or write (WRQ).
#[derive(Debug, Clone, Copy, PartialEq, Eq, Structural)]
pub enum TipoReq {
    WRQ,
    RRQ,
}

/// The transfer mode named in a request. Only `Octet` is exercised
/// end to end; the others are recognized by the codec.
#[derive(Debug, Clone, Copy, PartialEq, Eq, Structural)]
pub enum Modo {
    Netascii,
    Octet,
    Mail,
}

/// An RRQ or WRQ message.
#[derive(Debug, Clone, PartialEq)]
pub struct Requisicao {
    pub fname: String,
    pub modo: Modo,
    pub tipo: TipoReq,
}

/// A data block.
#[derive(Debug, Clone, PartialEq)]
pub struct DATA {
    pub block: u16,
    pub body: Vec<u8>,
}

/// An acknowledgement of one block.
#[derive(Debug, Clone, PartialEq)]
pub struct ACK {
    pub block: u16,
}

/// An error report from the peer.
#[derive(Debug, Clone, PartialEq)]
pub struct ERR {
    pub err_code: u16,
    pub err_msg: String,
}

/// Any of the five protocol messages.
#[derive(Debug, Clone, PartialEq)]
pub enum Mensagem {
    Wrq(Requisicao),
    Rrq(Requisicao),
    Erro(ERR),
    Data(DATA),
    Ack(ACK),
}

// ---------------------------------------------------------------------------
// Mathematical views
// ---------------------------------------------------------------------------
/// View of a request: the filename as its UTF-8 bytes, plus mode and kind.
#[verifier::ext_equal]
pub struct ReqV {
    pub fname: Seq<u8>,
    pub modo: Modo,
    pub tipo: TipoReq,
}

/// View of a data block.
#[verifier::ext_equal]
pub struct DataV {
    pub block: u16,
    pub body: Seq<u8>,
}

/// View of an acknowledgement.
#[verifier::ext_equal]
pub struct AckV {
    pub block: u16,
}

/// View of an error report: code plus the text as its UTF-8 bytes.
#[verifier::ext_equal]
pub struct ErrV {
    pub code: u16,
    pub msg: Seq<u8>,
}

/// View of a message.
#[verifier::ext_equal]
pub enum MensagemV {
    Wrq(ReqV),
    Rrq(ReqV),
    Erro(ErrV),
    Data(DataV),
    Ack(AckV),
}

impl View for Requisicao {
    type V = ReqV;

    open spec fn view(&self) -> ReqV {
        ReqV { fname: encode_utf8(self.fname@), modo: self.modo, tipo: self.tipo }
    }
}

impl View for DATA {
    type V = DataV;

    open spec fn view(&self) -> DataV {
        DataV { block: self.block, body: self.body@ }
    }
}

impl View for ACK {
    type V = AckV;

    open spec fn view(&self) -> AckV {
        AckV { block: self.block }
    }
}

impl View for ERR {
    type V = ErrV;

    open spec fn view(&self) -> ErrV {
        ErrV { code: self.err_code, msg: encode_utf8(self.err_msg@) }
    }
}

impl View for Mensagem {
    type V = MensagemV;

    open spec fn view(&self) -> MensagemV {
        match self {
            Mensagem::Wrq(q) => MensagemV::Wrq(q@),
            Mensagem::Rrq(q) => MensagemV::Rrq(q@),
            Mensagem::Erro(e) => MensagemV::Erro(e@),
            Mensagem::Data(d) => MensagemV::Data(d@),
            Mensagem::Ack(a) => MensagemV::Ack(a@),
        }
    }
}

pub open spec fn opt_req_view(r: Option<Requisicao>) -> Option<ReqV> {
    match r {
        Some(q) => Some(q@),
        None => None,
    }
}

pub open spec fn opt_data_view(r: Option<DATA>) -> Option<DataV> {
    match r {
        Some(d) => Some(d@),
        None => None,
    }
}

pub open spec fn opt_ack_view(r: Option<ACK>) -> Option<AckV> {
    match r {
        Some(a) => Some(a@),
        None => None,
    }
}

pub open spec fn opt_err_view(r: Option<ERR>) -> Option<ErrV> {
    match r {
        Some(e) => Some(e@),
        None => None,
    }
}

pub open spec fn opt_msg_view(r: Option<Mensagem>) -> Option<MensagemV> {
    match r {
        Some(m) => Some(m@),
        None => None,
    }
}

// ---------------------------------------------------------------------------
// The wire format, as spec functions
// ---------------------------------------------------------------------------
/// The maximum payload of one data block.
pub const DATA_SIZE: usize = 512;

/// The two-byte big-endian integer read from `hi` and `lo`.
pub open spec fn be16(hi: u8, lo: u8) -> u16 {
    ((hi as int) * 256 + (lo as int)) as u16
}

/// The two big-endian bytes of `x`.
pub open spec fn be_bytes(x: u16) -> Seq<u8> {
    seq![(x as int / 256) as u8, (x as int % 256) as u8]
}

/// The opcode of a request kind: RRQ is 1, WRQ is 2.
pub open spec fn op_of(t: TipoReq) -> u16 {
    match t {
        TipoReq::RRQ => 1u16,
        TipoReq::WRQ => 2u16,
    }
}

/// The characters of a mode string.
pub open spec fn modo_chars(m: Modo) -> Seq<char> {
    match m {
        Modo::Mail => "mail"@,
        Modo::Netascii => "netascii"@,
        Modo::Octet => "octet"@,
    }
}

/// The bytes of a mode string.
pub open spec fn mode_bytes(m: Modo) -> Seq<u8> {
    encode_utf8(modo_chars(m))
}

/// All bytes are 7-bit.
pub open spec fn is_ascii_bytes(b: Seq<u8>) -> bool {
    forall|i: int| 0 <= i < b.len() ==> b[i] < 128
}

/// The characters that 7-bit bytes decode to, one per byte.
pub open spec fn bytes_to_chars(b: Seq<u8>) -> Seq<char> {
    Seq::new(b.len(), |i: int| b[i] as char)
}

/// Encoding of a request: opcode, filename, zero, mode string, zero.
pub open spec fn encode_req(r: ReqV) -> Seq<u8> {
    be_bytes(op_of(r.tipo)) + r.fname + seq![0u8] + mode_bytes(r.modo) + seq![0u8]
}

/// Encoding of a data block: opcode 3, block number, payload.
pub open spec fn encode_data(d: DataV) -> Seq<u8> {
    be_bytes(3) + be_bytes(d.block) + d.body
}

/// Encoding of an acknowledgement: opcode 4, block number.
pub open spec fn encode_ack(a: AckV) -> Seq<u8> {
    be_bytes(4) + be_bytes(a.block)
}

/// Encoding of an error: opcode 5, code, text, zero.
pub open spec fn encode_err(e: ErrV) -> Seq<u8> {
    be_bytes(5) + be_bytes(e.code) + e.msg + seq![0u8]
}

/// Encoding of any message.
pub open spec fn wire_encode(m: MensagemV) -> Seq<u8> {
    match m {
        MensagemV::Wrq(q) => encode_req(q),
        MensagemV::Rrq(q) => encode_req(q),
        MensagemV::Erro(e) => encode_err(e),
        MensagemV::Data(d) => encode_data(d),
        MensagemV::Ack(a) => encode_ack(a),
    }
}

/// Decoding of a request. Fails on a short buffer, a foreign opcode, a
/// missing terminator, a non-ASCII filename, or an unknown mode string;
/// bytes after the final terminator are ignored.
pub open spec fn decode_req(b: Seq<u8>) -> Option<ReqV> {
    if b.len() < 2 {
        None
    } else {
        let op = be16(b[0], b[1]);
        if op != 1 && op != 2 {
            None
        } else {
            let tipo = if op == 1 {
                TipoReq::RRQ
            } else {
                TipoReq::WRQ
            };
            let rest = b.skip(2);
            match rest.index_of_first(0u8) {
                None => None,
                Some(p) => {
                    let name = rest.take(p);
                    let rest2 = rest.skip(p + 1);
                    match rest2.index_of_first(0u8) {
                        None => None,
                        Some(q) => {
                            let mb = rest2.take(q);
                            if !is_ascii_bytes(name) {
                                None
                            } else if mb == mode_bytes(Modo::Octet) {
                                Some(ReqV { fname: name, modo: Modo::Octet, tipo })
                            } else if mb == mode_bytes(Modo::Netascii) {
                                Some(ReqV { fname: name, modo: Modo::Netascii, tipo })
                            } else if mb == mode_bytes(Modo::Mail) {
                                Some(ReqV { fname: name, modo: Modo::Mail, tipo })
                            } else {
                                None
                            }
                        },
                    }
                },
            }
        }
    }
}

/// Decoding of a data block. Fails on a short buffer, a foreign opcode,
/// or a payload past 512 bytes.
pub open spec fn decode_data(b: Seq<u8>) -> Option<DataV> {
    if b.len() < 4 {
        None
    } else if be16(b[0], b[1]) != 3 {
        None
    } else if b.len() - 4 > 512 {
        None
    } else {
        Some(DataV { block: be16(b[2], b[3]), body: b.skip(4) })
    }
}

/// Decoding of an acknowledgement; bytes past the fourth are ignored.
pub open spec fn decode_ack(b: Seq<u8>) -> Option<AckV> {
    if b.len() < 4 {
        None
    } else if be16(b[0], b[1]) != 4 {
        None
    } else {
        Some(AckV { block: be16(b[2], b[3]) })
    }
}

/// Decoding of an error. Fails on a short buffer, a foreign opcode, a
/// missing terminator or non-ASCII text; bytes after the terminator are
/// ignored.
pub open spec fn decode_err(b: Seq<u8>) -> Option<ErrV> {
    if b.len() < 4 {
        None
    } else if be16(b[0], b[1]) != 5 {
        None
    } else {
        let rest = b.skip(4);
        match rest.index_of_first(0u8) {
            None => None,
            Some(p) => {
                let msg = rest.take(p);
                if !is_ascii_bytes(msg) {
                    None
                } else {
                    Some(ErrV { code: be16(b[2], b[3]), msg })
                }
            },
        }
    }
}

/// Decoding of any message, by opcode.
pub open spec fn wire_decode(b: Seq<u8>) -> Option<MensagemV> {
    if b.len() < 2 {
        None
    } else {
        let op = be16(b[0], b[1]);
        if op == 1 {
            match decode_req(b) {
                Some(q) => Some(MensagemV::Rrq(q)),
                None => None,
            }
        } else if op == 2 {
            match decode_req(b) {
                Some(q) => Some(MensagemV::Wrq(q)),
                None => None,
            }
        } else if op == 3 {
            match decode_data(b) {
                Some(d) => Some(MensagemV::Data(d)),
                None => None,
            }
        } else if op == 4 {
            match decode_ack(b) {
                Some(a) => Some(MensagemV::Ack(a)),
                None => None,
            }
        } else if op == 5 {
            match decode_err(b) {
                Some(e) => Some(MensagemV::Erro(e)),
                None => None,
            }
        } else {
            None
        }
    }
}

/// A message value whose encoding decodes back to it: 7-bit strings free
/// of zero bytes, payloads within 512 bytes, and the request kind agreeing
/// with the variant that carries it.
pub open spec fn wf_msg(m: MensagemV) -> bool {
    match m {
        MensagemV::Wrq(q) => wf_text(q.fname) && q.tipo == TipoReq::WRQ,
        MensagemV::Rrq(q) => wf_text(q.fname) && q.tipo == TipoReq::RRQ,
        MensagemV::Erro(e) => wf_text(e.msg),
        MensagemV::Data(d) => d.body.len() <= 512,
        MensagemV::Ack(_) => true,
    }
}

/// A wire string: 7-bit bytes, none of them zero.
pub open spec fn wf_text(b: Seq<u8>) -> bool {
    forall|i: int| 0 <= i < b.len() ==> 0 < #[trigger] b[i] < 128
}

// ---------------------------------------------------------------------------
// Helpers
// ---------------------------------------------------------------------------
/// A zero at `i` with none before it is the first zero of the sequence.
proof fn lemma_first_zero(s: Seq<u8>, i: int)
    requires
        0 <= i < s.len(),
        s[i] == 0,
        forall|j: int| 0 <= j < i ==> s[j] != 0,
    ensures
        s.index_of_first(0u8) == Some(i),
{
    s.index_of_first_ensures(0u8);
    match s.index_of_first(0u8) {
        Some(fi) => {
            if fi < i {
                assert(s[fi] == 0u8);
                assert(false);
            } else if fi > i {
                assert(s[i] != 0u8);
                assert(false);
            }
        },
        None => {
            assert(s.contains(0u8)) by {
                assert(s[i] == 0u8);
            }
            assert(false);
        },
    }
}

/// A sequence without a zero byte has no first zero.
proof fn lemma_no_zero(s: Seq<u8>)
    requires
        forall|j: int| 0 <= j < s.len() ==> s[j] != 0,
    ensures
        s.index_of_first(0u8) is None,
{
    s.index_of_first_ensures(0u8);
    match s.index_of_first(0u8) {
        Some(fi) => {
            assert(s[fi] == 0u8);
            assert(false);
        },
        None => {},
    }
}

/// The same, read on the suffix of `s` from `off`.
proof fn lemma_index_of_first_at(s: Seq<u8>, off: int, i: int)
    requires
        0 <= off <= i < s.len(),
        s[i] == 0,
        forall|j: int| off <= j < i ==> s[j] != 0,
    ensures
        s.skip(off).index_of_first(0u8) == Some(i - off),
{
    let rest = s.skip(off);
    assert(rest[i - off] == 0u8);
    assert(forall|j: int| 0 <= j < i - off ==> rest[j] == s[j + off] && rest[j] != 0u8);
    lemma_first_zero(rest, i - off);
}

/// When no byte at or past `off` is zero, the suffix has no first zero.
proof fn lemma_index_of_first_none(s: Seq<u8>, off: int)
    requires
        0 <= off <= s.len(),
        forall|j: int| off <= j < s.len() ==> s[j] != 0,
    ensures
        s.skip(off).index_of_first(0u8) is None,
{
    let rest = s.skip(off);
    assert(forall|j: int| 0 <= j < rest.len() ==> rest[j] == s[j + off] && rest[j] != 0u8);
    lemma_no_zero(rest);
}

/// The two-byte big-endian integer at the front of a buffer.
pub fn get_shortint(buffer: &[u8]) -> (r: u16)
    requires
        buffer@.len() >= 2,
    ensures
        r == be16(buffer@[0], buffer@[1]),
{
    let hi = *vstd::slice::slice_index_get(buffer, 0);
    let lo = *vstd::slice::slice_index_get(buffer, 1);
    (hi as u16) * 256 + (lo as u16)
}

/// The first index at or past `from` holding a zero byte, if any.
fn find_zero(v: &Vec<u8>, from: usize) -> (r: Option<usize>)
    requires
        from <= v@.len(),
    ensures
        match r {
            Some(i) => from <= i < v@.len() && v@[i as int] == 0 && (forall|j: int|
                from <= j < i ==> v@[j] != 0),
            None => forall|j: int| from <= j < v@.len() ==> v@[j] != 0,
        },
{
    let mut i: usize = from;
    while i < v.len()
        invariant
            from <= i <= v@.len(),
            forall|j: int| from <= j < i ==> v@[j] != 0,
        decreases v@.len() - i,
    {
        if v[i] == 0 {
            return Some(i);
        }
        i = i + 1;
    }
    None
}

/// Whether every byte of the slice is 7-bit.
fn all_ascii(s: &[u8]) -> (r: bool)
    ensures
        r == is_ascii_bytes(s@),
{
    let n = s.len();
    let mut i: usize = 0;
    while i < n
        invariant
            0 <= i <= n,
            n == s@.len(),
            forall|j: int| 0 <= j < i ==> s@[j] < 128,
        decreases n - i,
    {
        if *vstd::slice::slice_index_get(s, i) >= 128 {
            return false;
        }
        i = i + 1;
    }
    true
}

/// Whether two byte slices hold the same bytes.
pub(crate) fn bytes_eq(a: &[u8], b: &[u8]) -> (r: bool)
    ensures
        r == (a@ == b@),
{
    if a.len() != b.len() {
        return false;
    }
    let n = a.len();
    let mut i: usize = 0;
    while i < n
        invariant
            0 <= i <= n,
            n == a@.len() == b@.len(),
            forall|j: int| 0 <= j < i ==> a@[j] == b@[j],
        decreases n - i,
    {
        if *vstd::slice::slice_index_get(a, i) != *vstd::slice::slice_index_get(b, i) {
            return false;
        }
        i = i + 1;
    }
    proof {
        assert(a@ =~= b@);
    }
    true
}

/// Relies on `String::from_utf8_lossy` (with `Cow::into_owned`): 7-bit
/// bytes are valid UTF-8 and decode to the character of each byte.
#[verifier::external_body]
fn lossy_string(b: &[u8]) -> (r: String)
    ensures
        is_ascii_bytes(b@) ==> r@ == bytes_to_chars(b@),
{
    String::from_utf8_lossy(b).into_owned()
}

/// 7-bit bytes decode to 7-bit characters whose UTF-8 bytes they are.
pub proof fn lemma_ascii_bytes_chars(b: Seq<u8>)
    requires
        is_ascii_bytes(b),
    ensures
        is_ascii_chars(bytes_to_chars(b)),
        encode_utf8(bytes_to_chars(b)) =~= b,
{
    let cs = bytes_to_chars(b);
    assert(forall|i: int| 0 <= i < cs.len() ==> '\0' <= #[trigger] cs[i] <= '\u{7f}');
    is_ascii_chars_encode_utf8(cs);
    assert(forall|i: int|
        0 <= i < b.len() ==> #[trigger] encode_utf8(cs)[i] == cs[i as int] as u8);
    assert(forall|i: int| 0 <= i < b.len() ==> (b[i] as char) as u8 == b[i]);
}

/// The text before the first zero byte (or the whole buffer when none),
/// as a string; 7-bit bytes decode character for character.
pub fn get_string(buffer: &[u8]) -> (r: String)
    ensures
        ({
            let cut = match buffer@.index_of_first(0u8) {
                Some(p) => buffer@.take(p),
                None => buffer@,
            };
            is_ascii_bytes(cut) ==> r@ == bytes_to_chars(cut)
        }),
{
    let v = slice_to_vec(buffer);
    let end = match find_zero(&v, 0) {
        Some(i) => {
            proof {
                lemma_index_of_first_at(buffer@, 0, i as int);
                assert(buffer@.skip(0) =~= buffer@);
            }
            i
        },
        None => {
            proof {
                lemma_index_of_first_none(buffer@, 0);
                assert(buffer@.skip(0) =~= buffer@);
                assert(buffer@.take(buffer@.len() as int) =~= buffer@);
            }
            v.len()
        },
    };
    let cut = slice_subrange(buffer, 0, end);
    proof {
        assert(cut@ =~= buffer@.take(end as int));
    }
    lossy_string(cut)
}

// ---------------------------------------------------------------------------
// Building and parsing the messages
// ---------------------------------------------------------------------------
impl TipoReq {
    pub fn code(&self) -> (r: u16)
        ensures
            r == op_of(*self),
    {
        match self {
            TipoReq::RRQ => 1,
            TipoReq::WRQ => 2,
        }
    }
}

impl Modo {
    pub fn as_str0(&self) -> (r: String)
        ensures
            r@ == modo_chars(*self),
    {
        String::from_str(self.as_str())
    }

    pub fn as_str(&self) -> (r: &str)
        ensures
            r@ == modo_chars(*self),
    {
        match self {
            Modo::Mail => "mail",
            Modo::Netascii => "netascii",
            Modo::Octet => "octet",
        }
    }
}

impl Requisicao {
    pub fn from_bytes(buffer: Vec<u8>) -> (r: Option<Requisicao>)
        ensures
            opt_req_view(r) == decode_req(buffer@),
    {
        if buffer.len() < 2 {
            return None;
        }
        let opcode = get_shortint(buffer.as_slice());
        if opcode != 1 && opcode != 2 {
            return None;
        }
        let tipo = if opcode == 1 {
            TipoReq::RRQ
        } else {
            TipoReq::WRQ
        };
        let name_end: usize;
        match find_zero(&buffer, 2) {
            Some(i) => {
                name_end = i;
            },
            None => {
                proof {
                    lemma_index_of_first_none(buffer@, 2);
                }
                return None;
            },
        }
        proof {
            lemma_index_of_first_at(buffer@, 2, name_end as int);
        }
        let ghost p: int = name_end as int - 2;
        let name_slice = slice_subrange(buffer.as_slice(), 2, name_end);
        proof {
            assert(name_slice@ =~= buffer@.skip(2).take(p));
        }
        if !all_ascii(name_slice) {
            return None;
        }
        let fname = lossy_string(name_slice);
        let mode_end: usize;
        match find_zero(&buffer, name_end + 1) {
            Some(i) => {
                mode_end = i;
            },
            None => {
                proof {
                    lemma_index_of_first_none(buffer@, name_end + 1);
                    assert(buffer@.skip(2).skip(p + 1) =~= buffer@.skip(name_end + 1));
                }
                return None;
            },
        }
        proof {
            lemma_index_of_first_at(buffer@, name_end as int + 1, mode_end as int);
            assert(buffer@.skip(2).skip(p + 1) =~= buffer@.skip(name_end + 1));
        }
        let ghost q: int = mode_end as int - (name_end as int + 1);
        let mode_slice = slice_subrange(buffer.as_slice(), name_end + 1, mode_end);
        proof {
            assert(mode_slice@ =~= buffer@.skip(name_end + 1).take(q));
        }
        let modo: Modo;
        if bytes_eq(mode_slice, "octet".as_bytes()) {
            modo = Modo::Octet;
        } else if bytes_eq(mode_slice, "netascii".as_bytes()) {
            modo = Modo::Netascii;
        } else if bytes_eq(mode_slice, "mail".as_bytes()) {
            modo = Modo::Mail;
        } else {
            return None;
        }
        let res = Requisicao { fname, modo, tipo };
        proof {
            lemma_ascii_bytes_chars(name_slice@);
            assert(res@ =~= (ReqV { fname: name_slice@, modo: res.modo, tipo: res.tipo }));
        }
        Some(res)
    }

    pub fn new(tipo: TipoReq, fname: &str, modo: Modo) -> (r: Option<Requisicao>)
        ensures
            opt_req_view(r) == (if fname@.len() == 0 {
                None::<ReqV>
            } else {
                Some((ReqV { fname: encode_utf8(fname@), modo: modo, tipo: tipo }))
            }),
    {
        if fname.is_empty() {
            return None;
        }
        Some(Requisicao { fname: fname.to_owned(), modo, tipo })
    }

    pub fn new_wrq(fname: &str, modo: Modo) -> (r: Option<Requisicao>)
        ensures
            opt_req_view(r) == (if fname@.len() == 0 {
                None::<ReqV>
            } else {
                Some((ReqV { fname: encode_utf8(fname@), modo: modo, tipo: TipoReq::WRQ }))
            }),
    {
        Requisicao::new(TipoReq::WRQ, fname, modo)
    }

    pub fn new_rrq(fname: &str, modo: Modo) -> (r: Option<Requisicao>)
        ensures
            opt_req_view(r) == (if fname@.len() == 0 {
                None::<ReqV>
            } else {
                Some((ReqV { fname: encode_utf8(fname@), modo: modo, tipo: TipoReq::RRQ }))
            }),
    {
        Requisicao::new(TipoReq::RRQ, fname, modo)
    }
}

impl DATA {
    pub fn from_bytes(buffer: Vec<u8>) -> (r: Option<DATA>)
        ensures
            opt_data_view(r) == decode_data(buffer@),
    {
        if buffer.len() < 4 {
            return None;
        }
        let opcode = get_shortint(buffer.as_slice());
        if opcode != 3 {
            return None;
        }
        let block = get_shortint(slice_subrange(buffer.as_slice(), 2, buffer.len()));
        let body = slice_to_vec(slice_subrange(buffer.as_slice(), 4, buffer.len()));
        proof {
            assert(body@ =~= buffer@.skip(4));
        }
        if body.len() > 512 {
            return None;
        }
        Some(DATA { block, body })
    }

    pub fn new(blocknum: u16, buffer: &[u8]) -> (r: Option<DATA>)
        ensures
            opt_data_view(r) == (if blocknum < 1 {
                None::<DataV>
            } else {
                Some((DataV { block: blocknum, body: buffer@ }))
            }),
    {
        if blocknum < 1 {
            return None;
        }
        Some(DATA { block: blocknum, body: slice_to_vec(buffer) })
    }
}

impl ACK {
    pub fn from_bytes(buffer: Vec<u8>) -> (r: Option<ACK>)
        ensures
            opt_ack_view(r) == decode_ack(buffer@),
    {
        if buffer.len() < 4 {
            return None;
        }
        let opcode = get_shortint(buffer.as_slice());
        if opcode != 4 {
            return None;
        }
        let block = get_shortint(slice_subrange(buffer.as_slice(), 2, buffer.len()));
        Some(ACK { block })
    }

    pub fn new(blocknum: u16) -> (r: Option<ACK>)
        ensures
            opt_ack_view(r) == (if blocknum < 1 {
                None::<AckV>
            } else {
                Some((AckV { block: blocknum }))
            }),
    {
        if blocknum < 1 {
            return None;
        }
        Some(ACK { block: blocknum })
    }
}

impl ERR {
    pub fn from_bytes(buffer: Vec<u8>) -> (r: Option<ERR>)
        ensures
            opt_err_view(r) == decode_err(buffer@),
    {
        if buffer.len() < 4 {
            return None;
        }
        let opcode = get_shortint(buffer.as_slice());
        if opcode != 5 {
            return None;
        }
        let err_code = get_shortint(slice_subrange(buffer.as_slice(), 2, buffer.len()));
        let msg_end: usize;
        match find_zero(&buffer, 4) {
            Some(i) => {
                msg_end = i;
            },
            None => {
                proof {
                    lemma_index_of_first_none(buffer@, 4);
                }
                return None;
            },
        }
        proof {
            lemma_index_of_first_at(buffer@, 4, msg_end as int);
        }
        let msg_slice = slice_subrange(buffer.as_slice(), 4, msg_end);
        proof {
            assert(msg_slice@ =~= buffer@.skip(4).take(msg_end - 4));
        }
        if !all_ascii(msg_slice) {
            return None;
        }
        let err_msg = lossy_string(msg_slice);
        let res = ERR { err_code, err_msg };
        proof {
            lemma_ascii_bytes_chars(msg_slice@);
            assert(res@ =~= (ErrV { code: err_code, msg: msg_slice@ }));
        }
        Some(res)
    }

    pub fn new(err_code: u16, err_msg: &str) -> (r: Option<ERR>)
        ensures
            opt_err_view(r) == Some((ErrV { code: err_code, msg: encode_utf8(err_msg@) })),
    {
        Some(ERR { err_code, err_msg: err_msg.to_owned() })
    }
}

/// Builds a message from a buffer of bytes, by its opcode.
pub fn from_bytes(buffer: Vec<u8>) -> (r: Option<Mensagem>)
    ensures
        opt_msg_view(r) == wire_decode(buffer@),
{
    if buffer.len() < 2 {
        return None;
    }
    let opcode = get_shortint(buffer.as_slice());
    if opcode == 1 {
        match Requisicao::from_bytes(buffer) {
            Some(m) => Some(Mensagem::Rrq(m)),
            None => None,
        }
    } else if opcode == 2 {
        match Requisicao::from_bytes(buffer) {
            Some(m) => Some(Mensagem::Wrq(m)),
            None => None,
        }
    } else if opcode == 3 {
        match DATA::from_bytes(buffer) {
            Some(m) => Some(Mensagem::Data(m)),
            None => None,
        }
    } else if opcode == 4 {
        match ACK::from_bytes(buffer) {
            Some(m) => Some(Mensagem::Ack(m)),
            None => None,
        }
    } else if opcode == 5 {
        match ERR::from_bytes(buffer) {
            Some(m) => Some(Mensagem::Erro(m)),
            None => None,
        }
    } else {
        None
    }
}

// ---------------------------------------------------------------------------
// Serialization
// ---------------------------------------------------------------------------
/// A fresh buffer holding one big-endian opcode.
fn init(code: u16) -> (r: bytes::BytesMut)
    ensures
        bytes_of(r) == be_bytes(code),
{
    let mut buffer = bm_new();
    push_u16(&mut buffer, code);
    proof {
        assert(bytes_of(buffer) =~= be_bytes(code));
    }
    buffer
}

/// Appends the two big-endian bytes of `x`.
fn push_u16(buffer: &mut bytes::BytesMut, x: u16)
    ensures
        bytes_of(*final(buffer)) == bytes_of(*old(buffer)) + be_bytes(x),
{
    let hi: u8 = (x / 256) as u8;
    let lo: u8 = (x % 256) as u8;
    let two: Vec<u8> = vec![hi, lo];
    bm_extend(buffer, two.as_slice());
    proof {
        assert(two@ =~= be_bytes(x));
    }
}

/// Appends one zero byte, the wire terminator of a string.
fn push_zero(buffer: &mut bytes::BytesMut)
    ensures
        bytes_of(*final(buffer)) == bytes_of(*old(buffer)) + seq![0u8],
{
    let one: Vec<u8> = vec![0u8];
    bm_extend(buffer, one.as_slice());
    proof {
        assert(one@ =~= seq![0u8]);
    }
}

impl Requisicao {
    pub fn serialize(&self) -> (r: bytes::BytesMut)
        ensures
            bytes_of(r) == encode_req(self@),
    {
        let mut buffer = init(self.tipo.code());
        bm_extend(&mut buffer, self.fname.as_str().as_bytes());
        push_zero(&mut buffer);
        bm_extend(&mut buffer, self.modo.as_str().as_bytes());
        push_zero(&mut buffer);
        proof {
            assert(bytes_of(buffer) =~= encode_req(self@));
        }
        buffer
    }
}

impl ACK {
    pub fn serialize(&self) -> (r: bytes::BytesMut)
        ensures
            bytes_of(r) == encode_ack(self@),
    {
        let mut buffer = init(4);
        push_u16(&mut buffer, self.block);
        proof {
            assert(bytes_of(buffer) =~= encode_ack(self@));
        }
        buffer
    }
}

impl DATA {
    pub fn serialize(&self) -> (r: bytes::BytesMut)
        ensures
            bytes_of(r) == encode_data(self@),
    {
        let mut buffer = init(3);
        push_u16(&mut buffer, self.block);
        bm_extend(&mut buffer, self.body.as_slice());
        proof {
            assert(bytes_of(buffer) =~= encode_data(self@));
        }
        buffer
    }
}

impl ERR {
    pub fn serialize(&self) -> (r: bytes::BytesMut)
        ensures
            bytes_of(r) == encode_err(self@),
    {
        let mut buffer = init(5);
        push_u16(&mut buffer, self.err_code);
        bm_extend(&mut buffer, self.err_msg.as_str().as_bytes());
        push_zero(&mut buffer);
        proof {
            assert(bytes_of(buffer) =~= encode_err(self@));
        }
        buffer
    }
}

impl Mensagem {
    /// Encodes the message for the wire.
    pub fn serialize(&self) -> (r: bytes::BytesMut)
        ensures
            bytes_of(r) == wire_encode(self@),
    {
        match self {
            Mensagem::Wrq(q) => q.serialize(),
            Mensagem::Rrq(q) => q.serialize(),
            Mensagem::Erro(e) => e.serialize(),
            Mensagem::Data(d) => d.serialize(),
            Mensagem::Ack(a) => a.serialize(),
        }
    }

    /// An acknowledgement of `block`.
    pub fn new_ack(block: u16) -> (m: Mensagem)
        ensures
            m@ == MensagemV::Ack((AckV { block })),
    {
        Mensagem::Ack(ACK { block })
    }

    /// A data message carrying `body` as block `block`.
    pub fn new_data(block: u16, body: &[u8]) -> (m: Mensagem)
        ensures
            m@ == MensagemV::Data((DataV { block, body: body@ })),
    {
        Mensagem::Data(DATA { block, body: slice_to_vec(body) })
    }

    /// A read request for `fname`, in octet mode.
    pub fn new_rrq(fname: &str) -> (m: Mensagem)
        ensures
            m@ == MensagemV::Rrq(
                (ReqV { fname: encode_utf8(fname@), modo: Modo::Octet, tipo: TipoReq::RRQ }),
            ),
    {
        Mensagem::Rrq(Requisicao { fname: fname.to_owned(), modo: Modo::Octet, tipo: TipoReq::RRQ })
    }

    /// A write request for `fname`, in octet mode.
    pub fn new_wrq(fname: &str) -> (m: Mensagem)
        ensures
            m@ == MensagemV::Wrq(
                (ReqV { fname: encode_utf8(fname@), modo: Modo::Octet, tipo: TipoReq::WRQ }),
            ),
    {
        Mensagem::Wrq(Requisicao { fname: fname.to_owned(), modo: Modo::Octet, tipo: TipoReq::WRQ })
    }
}

// ---------------------------------------------------------------------------
// The encoding round trip
// ---------------------------------------------------------------------------
/// Reading back the two big-endian bytes of `x` gives `x`.
pub proof fn lemma_be16_be_bytes(x: u16)
    ensures
        be16(be_bytes(x)[0], be_bytes(x)[1]) == x,
{
    let hi = (x as int) / 256;
    let lo = (x as int) % 256;
    assert(0 <= hi < 256);
    assert(0 <= lo < 256);
    assert(hi * 256 + lo == x as int);
}

/// The mode strings are wire strings, of pairwise different lengths.
proof fn lemma_mode_wf(m: Modo)
    ensures
        wf_text(mode_bytes(m)),
        m is Mail ==> mode_bytes(m).len() == 4,
        m is Octet ==> mode_bytes(m).len() == 5,
        m is Netascii ==> mode_bytes(m).len() == 8,
{
    reveal_strlit("mail");
    reveal_strlit("netascii");
    reveal_strlit("octet");
    let cs = modo_chars(m);
    assert(is_ascii_chars(cs));
    is_ascii_chars_encode_utf8(cs);
    assert(forall|i: int|
        0 <= i < cs.len() ==> #[trigger] mode_bytes(m)[i] == cs[i as int] as u8);
}

proof fn lemma_decode_encode_req(q: ReqV)
    requires
        wf_text(q.fname),
    ensures
        decode_req(encode_req(q)) == Some(ReqV { fname: q.fname, modo: q.modo, tipo: q.tipo }),
        encode_req(q).len() >= 2,
        be16(encode_req(q)[0], encode_req(q)[1]) == op_of(q.tipo),
{
    let b = encode_req(q);
    let op = op_of(q.tipo);
    let mb = mode_bytes(q.modo);
    lemma_be16_be_bytes(op);
    assert(b[0] == be_bytes(op)[0]);
    assert(b[1] == be_bytes(op)[1]);
    let rest = b.skip(2);
    assert(rest =~= q.fname + seq![0u8] + mb + seq![0u8]);
    lemma_mode_wf(q.modo);
    lemma_mode_wf(Modo::Octet);
    lemma_mode_wf(Modo::Netascii);
    lemma_mode_wf(Modo::Mail);
    let p = q.fname.len() as int;
    assert(rest[p] == 0u8);
    assert(forall|j: int| 0 <= j < p ==> rest[j] == q.fname[j] && rest[j] != 0u8);
    lemma_first_zero(rest, p);
    assert(rest.take(p) =~= q.fname);
    let rest2 = rest.skip(p + 1);
    assert(rest2 =~= mb + seq![0u8]);
    let w = mb.len() as int;
    assert(rest2[w] == 0u8);
    assert(forall|j: int| 0 <= j < w ==> rest2[j] == mb[j] && rest2[j] != 0u8);
    lemma_first_zero(rest2, w);
    assert(rest2.take(w) =~= mb);
}

proof fn lemma_decode_encode_data(d: DataV)
    requires
        d.body.len() <= 512,
    ensures
        decode_data(encode_data(d)) == Some(DataV { block: d.block, body: d.body }),
        encode_data(d).len() >= 2,
        be16(encode_data(d)[0], encode_data(d)[1]) == 3,
{
    let b = encode_data(d);
    lemma_be16_be_bytes(3);
    lemma_be16_be_bytes(d.block);
    assert(b[0] == be_bytes(3)[0]);
    assert(b[1] == be_bytes(3)[1]);
    assert(b[2] == be_bytes(d.block)[0]);
    assert(b[3] == be_bytes(d.block)[1]);
    assert(b.skip(4) =~= d.body);
}

proof fn lemma_decode_encode_ack(a: AckV)
    ensures
        decode_ack(encode_ack(a)) == Some(AckV { block: a.block }),
        encode_ack(a).len() >= 2,
        be16(encode_ack(a)[0], encode_ack(a)[1]) == 4,
{
    let b = encode_ack(a);
    lemma_be16_be_bytes(4);
    lemma_be16_be_bytes(a.block);
    assert(b[0] == be_bytes(4)[0]);
    assert(b[1] == be_bytes(4)[1]);
    assert(b[2] == be_bytes(a.block)[0]);
    assert(b[3] == be_bytes(a.block)[1]);
}

proof fn lemma_decode_encode_err(e: ErrV)
    requires
        wf_text(e.msg),
    ensures
        decode_err(encode_err(e)) == Some(ErrV { code: e.code, msg: e.msg }),
        encode_err(e).len() >= 2,
        be16(encode_err(e)[0], encode_err(e)[1]) == 5,
{
    let b = encode_err(e);
    lemma_be16_be_bytes(5);
    lemma_be16_be_bytes(e.code);
    assert(b[0] == be_bytes(5)[0]);
    assert(b[1] == be_bytes(5)[1]);
    assert(b[2] == be_bytes(e.code)[0]);
    assert(b[3] == be_bytes(e.code)[1]);
    let rest = b.skip(4);
    assert(rest =~= e.msg + seq![0u8]);
    let p = e.msg.len() as int;
    assert(rest[p] == 0u8);
    assert(forall|j: int| 0 <= j < p ==> rest[j] == e.msg[j] && rest[j] != 0u8);
    lemma_first_zero(rest, p);
    assert(rest.take(p) =~= e.msg);
}

/// Decoding is a left inverse of encoding: every well-formed message value
/// comes back unchanged from its own wire bytes.
pub proof fn lemma_round_trip(m: MensagemV)
    requires
        wf_msg(m),
    ensures
        wire_decode(wire_encode(m)) == Some(m),
{
    match m {
        MensagemV::Rrq(q) => {
            lemma_decode_encode_req(q);
            assert(q =~= (ReqV { fname: q.fname, modo: q.modo, tipo: q.tipo }));
        },
        MensagemV::Wrq(q) => {
            lemma_decode_encode_req(q);
            assert(q =~= (ReqV { fname: q.fname, modo: q.modo, tipo: q.tipo }));
        },
        MensagemV::Data(d) => {
            lemma_decode_encode_data(d);
            assert(d =~= (DataV { block: d.block, body: d.body }));
        },
        MensagemV::Ack(a) => {
            lemma_decode_encode_ack(a);
            assert(a =~= (AckV { block: a.block }));
        },
        MensagemV::Erro(e) => {
            lemma_decode_encode_err(e);
            assert(e =~= (ErrV { code: e.code, msg: e.msg }));
        },
    }
}

} // verus!
