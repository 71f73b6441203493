//! The per-transfer session state machine.
//!
//! A session owns the peer endpoint, the transfer buffer, the block
//! cursor and the retry budget, and consumes one event at a time: a
//! datagram, a timeout, or nothing. Each step mutates the session and
//! emits at most one outbound message; the driver that waits on the
//! socket and the timer performs the sends. Every transition is stated
//! against the spec-level step functions below.
use vstd::prelude::*;

use crate::bytebuf::bm_extend;
use crate::bytebuf::bm_len;
use crate::bytebuf::bm_new;
use crate::bytebuf::bm_prefix;
use crate::bytebuf::bm_split_to;
use crate::bytebuf::bm_to_vec;
use crate::bytebuf::bytes_of;
use crate::msg::from_bytes;
use crate::msg::opt_msg_view;
use crate::msg::wire_decode;
use crate::msg::AckV;
use crate::msg::DataV;
use crate::msg::Mensagem;
use crate::msg::MensagemV;
use crate::msg::Modo;
use crate::msg::ReqV;
use crate::msg::TipoReq;
use crate::msg::DATA_SIZE;
use vstd::utf8::encode_utf8;

verus! {

// ---------------------------------------------------------------------------
// Plain data of a session
// ---------------------------------------------------------------------------
/// An IPv4 address as its four octets.
#[derive(Debug, Clone, Copy, PartialEq, Eq, Structural)]
pub struct Ipv4 {
    pub a: u8,
    pub b: u8,
    pub c: u8,
    pub d: u8,
}

/// The five working states plus the terminal one.
#[derive(Debug, Clone, Copy, PartialEq, Eq, Structural)]
pub enum Estado {
    Idle,
    RX,
    InitTX,
    TX,
    FinishTX,
    Finish,
}

/// The terminal outcome of a transfer.
#[derive(Debug, Clone, Copy, PartialEq, Eq, Structural)]
pub enum Status {
    OK,
    Timeout,
    MaxRetriesExceeded,
    Error(u16),
    Unknown,
}

/// One stimulus for the state machine: an accepted datagram, the
/// timeout, or a rejected datagram.
#[derive(Debug, Clone)]
pub enum Evento {
    Msg(Vec<u8>),
    Timeout,
    Nada,
}

/// View of an event.
pub enum EventoV {
    Msg(Seq<u8>),
    Timeout,
    Nada,
}

impl View for Evento {
    type V = EventoV;

    open spec fn view(&self) -> EventoV {
        match self {
            Evento::Msg(b) => EventoV::Msg(b@),
            Evento::Timeout => EventoV::Timeout,
            Evento::Nada => EventoV::Nada,
        }
    }
}

/// One file transfer in progress.
#[derive(Debug)]
pub struct Sessao {
    pub ip: Ipv4,
    pub port: u16,
    pub tid: bool,
    pub buffer: bytes::BytesMut,
    pub seqno: u32,
    pub timeout: u16,
    pub retries: u16,
    pub max_retries: u16,
    pub estado: Estado,
    pub status: Status,
}

/// View of a session: the buffer as the byte sequence it holds.
#[verifier::ext_equal]
pub struct SessaoV {
    pub ip: Ipv4,
    pub port: u16,
    pub tid: bool,
    pub buffer: Seq<u8>,
    pub seqno: u32,
    pub timeout: u16,
    pub retries: u16,
    pub max_retries: u16,
    pub estado: Estado,
    pub status: Status,
}

impl View for Sessao {
    type V = SessaoV;

    open spec fn view(&self) -> SessaoV {
        SessaoV {
            ip: self.ip,
            port: self.port,
            tid: self.tid,
            buffer: bytes_of(self.buffer),
            seqno: self.seqno,
            timeout: self.timeout,
            retries: self.retries,
            max_retries: self.max_retries,
            estado: self.estado,
            status: self.status,
        }
    }
}

impl SessaoV {
    /// The session invariant: the block cursor stays a 16-bit number from
    /// one up, the retry count stays within its budget, the status is
    /// still the initial one until the terminal state is entered, and in
    /// the sending states the buffer length agrees with the state: a full
    /// block is outstanding in `TX`, the short final block in `FinishTX`.
    pub open spec fn wf(self) -> bool {
        &&& 1 <= self.seqno <= 65535
        &&& self.retries <= self.max_retries
        &&& (!(self.estado is Finish) ==> self.status is OK)
        &&& (self.estado is TX ==> self.buffer.len() >= 512)
        &&& (self.estado is FinishTX ==> self.buffer.len() < 512)
    }
}

// ---------------------------------------------------------------------------
// The transition relation, as spec functions
// ---------------------------------------------------------------------------
/// The session with the terminal state and the given outcome.
pub open spec fn finished(s: SessaoV, st: Status) -> SessaoV {
    SessaoV { estado: Estado::Finish, status: st, ..s }
}

/// How many bytes the next outbound block carries: up to 512, from the
/// front of the buffer.
pub open spec fn chunk_len(s: SessaoV) -> int {
    if s.buffer.len() < 512 {
        s.buffer.len() as int
    } else {
        512
    }
}

/// The bytes of the next outbound block.
pub open spec fn cur_chunk(s: SessaoV) -> Seq<u8> {
    s.buffer.take(chunk_len(s))
}

/// The data message for the block at the cursor. The chunk stays in the
/// buffer until its acknowledgement arrives.
pub open spec fn data_out(s: SessaoV) -> MensagemV {
    MensagemV::Data(DataV { block: s.seqno as u16, body: cur_chunk(s) })
}

/// Emits the block at the cursor and moves to `TX`, or to `FinishTX`
/// when the block is short: the short block closes the transfer.
pub open spec fn send_next_spec(s: SessaoV) -> (SessaoV, MensagemV) {
    (
        SessaoV {
            estado: if chunk_len(s) < 512 {
                Estado::FinishTX
            } else {
                Estado::TX
            },
            ..s
        },
        data_out(s),
    )
}

/// Re-emits the outstanding block while the budget lasts; past the
/// budget the session ends with `MaxRetriesExceeded`.
pub open spec fn retransmit_spec(s: SessaoV) -> (SessaoV, Option<MensagemV>) {
    if s.retries < s.max_retries {
        (SessaoV { retries: (s.retries + 1) as u16, ..s }, Some(data_out(s)))
    } else {
        (finished(s, Status::MaxRetriesExceeded), None)
    }
}

/// Receiving: every data message is acknowledged with its own block
/// number; only the block at the cursor is appended, and a short block
/// completes the transfer. A peer error ends the session with its code;
/// anything else is ignored.
pub open spec fn rx_step(s: SessaoV, ev: EventoV) -> (SessaoV, Option<MensagemV>) {
    match ev {
        EventoV::Timeout => (finished(s, Status::Timeout), None),
        EventoV::Nada => (s, None),
        EventoV::Msg(b) => match wire_decode(b) {
            Some(MensagemV::Data(d)) => {
                let out = Some(MensagemV::Ack(AckV { block: d.block }));
                if d.block as int == s.seqno as int {
                    if s.seqno < 65535 {
                        (
                            SessaoV {
                                seqno: (s.seqno + 1) as u32,
                                buffer: s.buffer + d.body,
                                estado: if d.body.len() < 512 {
                                    Estado::Finish
                                } else {
                                    Estado::RX
                                },
                                ..s
                            },
                            out,
                        )
                    } else {
                        (finished(s, Status::Unknown), out)
                    }
                } else {
                    (s, out)
                }
            },
            Some(MensagemV::Erro(e)) => (finished(s, Status::Error(e.code)), None),
            _ => (s, None),
        },
    }
}

/// Awaiting the zero acknowledgement of a write request: it starts the
/// block cursor and emits the first block. A foreign acknowledgement
/// ends the session; a peer error ends it with its code.
pub open spec fn init_tx_step(s: SessaoV, ev: EventoV) -> (SessaoV, Option<MensagemV>) {
    match ev {
        EventoV::Timeout => (finished(s, Status::Timeout), None),
        EventoV::Nada => (s, None),
        EventoV::Msg(b) => match wire_decode(b) {
            Some(MensagemV::Ack(a)) => {
                if a.block as int == 0 {
                    let s2 = SessaoV { seqno: 1, retries: 0, ..s };
                    let next = send_next_spec(s2);
                    (next.0, Some(next.1))
                } else {
                    (SessaoV { estado: Estado::Finish, ..s }, None)
                }
            },
            Some(MensagemV::Erro(e)) => (finished(s, Status::Error(e.code)), None),
            _ => (s, None),
        },
    }
}

/// Sending: the acknowledgement at the cursor drops the acknowledged
/// chunk, resets the retries and emits the next block; a timeout
/// retransmits within the budget; foreign acknowledgements are ignored.
pub open spec fn tx_step(s: SessaoV, ev: EventoV) -> (SessaoV, Option<MensagemV>) {
    match ev {
        EventoV::Timeout => retransmit_spec(s),
        EventoV::Nada => (s, None),
        EventoV::Msg(b) => match wire_decode(b) {
            Some(MensagemV::Ack(a)) => {
                if a.block as int == s.seqno as int {
                    if s.seqno < 65535 {
                        let s2 = SessaoV {
                            seqno: (s.seqno + 1) as u32,
                            retries: 0,
                            buffer: s.buffer.skip(chunk_len(s)),
                            ..s
                        };
                        let next = send_next_spec(s2);
                        (next.0, Some(next.1))
                    } else {
                        (finished(s, Status::Unknown), None)
                    }
                } else {
                    (s, None)
                }
            },
            Some(MensagemV::Erro(e)) => (finished(s, Status::Error(e.code)), None),
            _ => (s, None),
        },
    }
}

/// The short block is outstanding: its acknowledgement completes the
/// transfer; a timeout retransmits within the budget.
pub open spec fn finish_tx_step(s: SessaoV, ev: EventoV) -> (SessaoV, Option<MensagemV>) {
    match ev {
        EventoV::Timeout => retransmit_spec(s),
        EventoV::Nada => (s, None),
        EventoV::Msg(b) => match wire_decode(b) {
            Some(MensagemV::Ack(a)) => {
                if a.block as int == s.seqno as int {
                    (SessaoV { estado: Estado::Finish, ..s }, None)
                } else {
                    (s, None)
                }
            },
            Some(MensagemV::Erro(e)) => (finished(s, Status::Error(e.code)), None),
            _ => (s, None),
        },
    }
}

/// One step of the machine, by state. The idle and terminal states
/// consume the event and do nothing.
pub open spec fn step_spec(s: SessaoV, ev: EventoV) -> (SessaoV, Option<MensagemV>) {
    match s.estado {
        Estado::Idle => (s, None),
        Estado::RX => rx_step(s, ev),
        Estado::InitTX => init_tx_step(s, ev),
        Estado::TX => tx_step(s, ev),
        Estado::FinishTX => finish_tx_step(s, ev),
        Estado::Finish => (s, None),
    }
}

// ---------------------------------------------------------------------------
// The executable machine
// ---------------------------------------------------------------------------
impl Sessao {
    /// A fresh session bound to the given server, or nothing when the
    /// address is not a dotted-quad IPv4 literal.
    pub fn new(server: &str, port: u16, timeout: u16, retries: u16) -> (r: Option<Sessao>)
        ensures
            (r is Some) == (parse_ip_spec(server@) is Some),
            r matches Some(s) ==> parse_ip_spec(server@) matches Some(ip) && s@ == (SessaoV {
                ip: ip,
                port: port,
                tid: false,
                buffer: Seq::<u8>::empty(),
                seqno: 1,
                timeout: timeout,
                retries: 0,
                max_retries: retries,
                estado: Estado::Idle,
                status: Status::OK,
            }),
            r matches Some(s) ==> s@.wf() && s@.estado is Idle,
    {
        if let Some(ip) = Sessao::parse_ip(server) {
            return Some(
                Sessao {
                    ip,
                    port,
                    tid: false,
                    buffer: bm_new(),
                    seqno: 1,
                    timeout,
                    retries: 0,
                    max_retries: retries,
                    estado: Estado::Idle,
                    status: Status::OK,
                },
            );
        }
        None
    }

    /// Whether the machine has reached the terminal state.
    pub fn is_finished(&self) -> (r: bool)
        ensures
            r == (self@.estado is Finish),
    {
        self.estado == Estado::Finish
    }

    /// The transfer buffer as a plain vector: the bytes received so far
    /// on a download, the bytes still unacknowledged on an upload.
    pub fn contents(&self) -> (r: Vec<u8>)
        ensures
            r@ == self@.buffer,
    {
        bm_to_vec(&self.buffer)
    }

    /// Validates a datagram's source against the peer and learns the
    /// peer's transfer identifier from the first reply: the source port
    /// of the first datagram becomes the peer port, and from then on
    /// only that endpoint is accepted.
    pub fn accept_from(&mut self, ip: Ipv4, port: u16) -> (accepted: bool)
        ensures
            old(self)@.tid ==> final(self)@ == old(self)@ && accepted == (ip == old(self)@.ip
                && port == old(self)@.port),
            !old(self)@.tid ==> final(self)@ == (SessaoV { tid: true, port: port, ..old(self)@ })
                && accepted == (ip == old(self)@.ip),
    {
        if !self.tid {
            self.tid = true;
            self.port = port;
        }
        self.ip == ip && self.port == port
    }

    /// Ends the session with `Unknown`, the outcome of a failure outside
    /// the protocol: the driver calls this when an outbound send fails.
    pub fn abort_unknown(&mut self)
        ensures
            final(self)@ == finished(old(self)@, Status::Unknown),
    {
        self.estado = Estado::Finish;
        self.status = Status::Unknown;
    }

    /// Starts a transmission of `data` under the name `fname`: stashes
    /// the bytes and hands back the write request to emit.
    pub fn send(&mut self, fname: &str, data: &[u8]) -> (out: Mensagem)
        requires
            old(self)@.estado is Idle,
            old(self)@.wf(),
        ensures
            final(self)@ == (SessaoV {
                estado: Estado::InitTX,
                buffer: old(self)@.buffer + data@,
                ..old(self)@
            }),
            out@ == MensagemV::Wrq(
                (ReqV { fname: encode_utf8(fname@), modo: Modo::Octet, tipo: TipoReq::WRQ }),
            ),
            final(self)@.wf(),
    {
        let m = Mensagem::new_wrq(fname);
        bm_extend(&mut self.buffer, data);
        self.estado = Estado::InitTX;
        m
    }

    /// Starts a reception of the file named `fname`: hands back the read
    /// request to emit. The received bytes accumulate in the buffer.
    pub fn receive(&mut self, fname: &str) -> (out: Mensagem)
        requires
            old(self)@.estado is Idle,
            old(self)@.wf(),
        ensures
            final(self)@ == (SessaoV { estado: Estado::RX, ..old(self)@ }),
            out@ == MensagemV::Rrq(
                (ReqV { fname: encode_utf8(fname@), modo: Modo::Octet, tipo: TipoReq::RRQ }),
            ),
            final(self)@.wf(),
    {
        let m = Mensagem::new_rrq(fname);
        self.estado = Estado::RX;
        m
    }

    /// How many bytes the next outbound block carries.
    pub fn get_chunk_size(&self) -> (r: usize)
        ensures
            r == chunk_len(self@),
    {
        let blen = bm_len(&self.buffer);
        if blen < DATA_SIZE {
            blen
        } else {
            DATA_SIZE
        }
    }

    /// The data message for the block at the cursor, left in the buffer
    /// until it is acknowledged.
    fn send_data(&self) -> (out: Mensagem)
        requires
            self@.seqno <= 65535,
        ensures
            out@ == data_out(self@),
    {
        let len = self.get_chunk_size();
        let chunk = bm_prefix(&self.buffer, len);
        Mensagem::new_data(self.seqno as u16, chunk.as_slice())
    }

    /// Emits the block at the cursor and moves to `TX` or, on a short
    /// block, to `FinishTX`.
    fn send_next(&mut self) -> (out: Mensagem)
        requires
            old(self)@.seqno <= 65535,
        ensures
            final(self)@ == send_next_spec(old(self)@).0,
            out@ == send_next_spec(old(self)@).1,
    {
        let m = self.send_data();
        if self.get_chunk_size() < DATA_SIZE {
            self.estado = Estado::FinishTX;
        } else {
            self.estado = Estado::TX;
        }
        m
    }

    /// Re-emits the outstanding block, or ends the session when the
    /// retry budget is spent.
    fn retransmit(&mut self) -> (out: Option<Mensagem>)
        requires
            old(self)@.seqno <= 65535,
            old(self)@.retries <= old(self)@.max_retries,
        ensures
            final(self)@ == retransmit_spec(old(self)@).0,
            opt_msg_view(out) == retransmit_spec(old(self)@).1,
    {
        if self.retries < self.max_retries {
            self.retries = self.retries + 1;
            Some(self.send_data())
        } else {
            self.estado = Estado::Finish;
            self.status = Status::MaxRetriesExceeded;
            None
        }
    }

    /// Handles one event in the receiving state.
    pub fn handle_rx(&mut self, ev: Evento) -> (out: Option<Mensagem>)
        requires
            old(self)@.estado is RX,
            old(self)@.wf(),
        ensures
            final(self)@ == rx_step(old(self)@, ev@).0,
            opt_msg_view(out) == rx_step(old(self)@, ev@).1,
            final(self)@.wf(),
    {
        match ev {
            Evento::Timeout => {
                self.estado = Estado::Finish;
                self.status = Status::Timeout;
                None
            },
            Evento::Nada => None,
            Evento::Msg(buffer) => {
                match from_bytes(buffer) {
                    Some(Mensagem::Data(data)) => {
                        let resp_block = data.block;
                        if data.block as u32 == self.seqno {
                            if self.seqno < 65535 {
                                self.seqno = self.seqno + 1;
                                bm_extend(&mut self.buffer, data.body.as_slice());
                                if data.body.len() < DATA_SIZE {
                                    self.estado = Estado::Finish;
                                }
                            } else {
                                self.estado = Estado::Finish;
                                self.status = Status::Unknown;
                            }
                        }
                        Some(Mensagem::new_ack(resp_block))
                    },
                    Some(Mensagem::Erro(err)) => {
                        self.estado = Estado::Finish;
                        self.status = Status::Error(err.err_code);
                        None
                    },
                    _ => None,
                }
            },
        }
    }

    /// Handles one event while the zero acknowledgement of the write
    /// request is awaited.
    pub fn handle_init_tx(&mut self, ev: Evento) -> (out: Option<Mensagem>)
        requires
            old(self)@.estado is InitTX,
            old(self)@.wf(),
        ensures
            final(self)@ == init_tx_step(old(self)@, ev@).0,
            opt_msg_view(out) == init_tx_step(old(self)@, ev@).1,
            final(self)@.wf(),
    {
        match ev {
            Evento::Timeout => {
                self.estado = Estado::Finish;
                self.status = Status::Timeout;
                None
            },
            Evento::Nada => None,
            Evento::Msg(buffer) => {
                match from_bytes(buffer) {
                    Some(Mensagem::Ack(ack)) => {
                        if ack.block == 0 {
                            self.seqno = 1;
                            self.retries = 0;
                            Some(self.send_next())
                        } else {
                            self.estado = Estado::Finish;
                            None
                        }
                    },
                    Some(Mensagem::Erro(err)) => {
                        self.estado = Estado::Finish;
                        self.status = Status::Error(err.err_code);
                        None
                    },
                    _ => None,
                }
            },
        }
    }

    /// Handles one event in the sending state.
    pub fn handle_tx(&mut self, ev: Evento) -> (out: Option<Mensagem>)
        requires
            old(self)@.estado is TX,
            old(self)@.wf(),
        ensures
            final(self)@ == tx_step(old(self)@, ev@).0,
            opt_msg_view(out) == tx_step(old(self)@, ev@).1,
            final(self)@.wf(),
    {
        match ev {
            Evento::Timeout => self.retransmit(),
            Evento::Nada => None,
            Evento::Msg(buffer) => {
                match from_bytes(buffer) {
                    Some(Mensagem::Ack(ack)) => {
                        if ack.block as u32 == self.seqno {
                            if self.seqno < 65535 {
                                self.seqno = self.seqno + 1;
                                self.retries = 0;
                                let sz = self.get_chunk_size();
                                let _chunk = bm_split_to(&mut self.buffer, sz);
                                Some(self.send_next())
                            } else {
                                self.estado = Estado::Finish;
                                self.status = Status::Unknown;
                                None
                            }
                        } else {
                            None
                        }
                    },
                    Some(Mensagem::Erro(err)) => {
                        self.estado = Estado::Finish;
                        self.status = Status::Error(err.err_code);
                        None
                    },
                    _ => None,
                }
            },
        }
    }

    /// Handles one event while the short final block is outstanding.
    pub fn handle_finish_tx(&mut self, ev: Evento) -> (out: Option<Mensagem>)
        requires
            old(self)@.estado is FinishTX,
            old(self)@.wf(),
        ensures
            final(self)@ == finish_tx_step(old(self)@, ev@).0,
            opt_msg_view(out) == finish_tx_step(old(self)@, ev@).1,
            final(self)@.wf(),
    {
        match ev {
            Evento::Timeout => self.retransmit(),
            Evento::Nada => None,
            Evento::Msg(buffer) => {
                match from_bytes(buffer) {
                    Some(Mensagem::Ack(ack)) => {
                        if ack.block as u32 == self.seqno {
                            self.estado = Estado::Finish;
                        }
                        None
                    },
                    Some(Mensagem::Erro(err)) => {
                        self.estado = Estado::Finish;
                        self.status = Status::Error(err.err_code);
                        None
                    },
                    _ => None,
                }
            },
        }
    }

    /// Handles one event, whatever the state: the idle and terminal
    /// states consume it without effect.
    pub fn step(&mut self, ev: Evento) -> (out: Option<Mensagem>)
        requires
            old(self)@.wf(),
        ensures
            final(self)@ == step_spec(old(self)@, ev@).0,
            opt_msg_view(out) == step_spec(old(self)@, ev@).1,
            final(self)@.wf(),
    {
        match self.estado {
            Estado::Idle => None,
            Estado::RX => self.handle_rx(ev),
            Estado::InitTX => self.handle_init_tx(ev),
            Estado::TX => self.handle_tx(ev),
            Estado::FinishTX => self.handle_finish_tx(ev),
            Estado::Finish => None,
        }
    }
}

// ---------------------------------------------------------------------------
// Parsing a dotted-quad address
// ---------------------------------------------------------------------------
/// A decimal digit.
pub open spec fn is_digit(c: char) -> bool {
    48 <= c as u32 <= 57
}

/// The value of a decimal digit.
pub open spec fn digit_val(c: char) -> int {
    c as u32 - 48
}

/// The value of a decimal numeral, most significant digit first.
pub open spec fn dec_val(s: Seq<char>) -> int
    decreases s.len(),
{
    if s.len() == 0 {
        0
    } else {
        dec_val(s.drop_last()) * 10 + digit_val(s.last())
    }
}

/// One part of a dotted quad: one to three decimal digits without a
/// leading zero, value at most 255.
pub open spec fn valid_part(s: Seq<char>) -> bool {
    &&& 1 <= s.len() <= 3
    &&& forall|i: int| 0 <= i < s.len() ==> is_digit(#[trigger] s[i])
    &&& (s.len() > 1 ==> s[0] != '0')
    &&& dec_val(s) <= 255
}

/// A dot at `i` with none before it is the first dot of the sequence.
proof fn lemma_first_dot(s: Seq<char>, i: int)
    requires
        0 <= i < s.len(),
        s[i] == '.',
        forall|j: int| 0 <= j < i ==> s[j] != '.',
    ensures
        s.index_of_first('.') == Some(i),
{
    s.index_of_first_ensures('.');
    match s.index_of_first('.') {
        Some(fi) => {
            if fi < i {
                assert(s[fi] == '.');
                assert(false);
            } else if fi > i {
                assert(s[i] != '.');
                assert(false);
            }
        },
        None => {
            assert(s.contains('.')) by {
                assert(s[i] == '.');
            }
            assert(false);
        },
    }
}

/// A sequence without a dot has no first dot.
proof fn lemma_no_dot(s: Seq<char>)
    requires
        forall|j: int| 0 <= j < s.len() ==> s[j] != '.',
    ensures
        s.index_of_first('.') is None,
        !s.contains('.'),
{
    s.index_of_first_ensures('.');
    match s.index_of_first('.') {
        Some(fi) => {
            assert(s[fi] == '.');
            assert(false);
        },
        None => {},
    }
}

/// Parsing of a dotted-quad IPv4 literal: four parts separated by dots,
/// each one to three decimal digits valued up to 255.
pub open spec fn parse_ip_spec(s: Seq<char>) -> Option<Ipv4> {
    match s.index_of_first('.') {
        None => None,
        Some(p1) => {
            let part1 = s.take(p1);
            let r1 = s.skip(p1 + 1);
            match r1.index_of_first('.') {
                None => None,
                Some(p2) => {
                    let part2 = r1.take(p2);
                    let r2 = r1.skip(p2 + 1);
                    match r2.index_of_first('.') {
                        None => None,
                        Some(p3) => {
                            let part3 = r2.take(p3);
                            let part4 = r2.skip(p3 + 1);
                            if part4.contains('.') {
                                None
                            } else if valid_part(part1) && valid_part(part2) && valid_part(part3)
                                && valid_part(part4) {
                                Some(
                                    Ipv4 {
                                        a: dec_val(part1) as u8,
                                        b: dec_val(part2) as u8,
                                        c: dec_val(part3) as u8,
                                        d: dec_val(part4) as u8,
                                    },
                                )
                            } else {
                                None
                            }
                        },
                    }
                },
            }
        },
    }
}

/// The value of a decimal numeral of digits is bounded by its length.
proof fn lemma_dec_val_bound(s: Seq<char>)
    requires
        forall|i: int| 0 <= i < s.len() ==> is_digit(#[trigger] s[i]),
    ensures
        0 <= dec_val(s),
        s.len() <= 1 ==> dec_val(s) <= 9,
        s.len() <= 2 ==> dec_val(s) <= 99,
        s.len() <= 3 ==> dec_val(s) <= 999,
    decreases s.len(),
{
    if s.len() > 0 {
        lemma_dec_val_bound(s.drop_last());
    }
}

/// The first index at or past `from` holding a dot, if any.
fn find_dot(s: &str, from: usize) -> (r: Option<usize>)
    requires
        from <= s@.len(),
    ensures
        match r {
            Some(i) => from <= i < s@.len() && s@[i as int] == '.' && (forall|j: int|
                from <= j < i ==> s@[j] != '.'),
            None => forall|j: int| from <= j < s@.len() ==> s@[j] != '.',
        },
{
    let n = s.unicode_len();
    let mut i: usize = from;
    while i < n
        invariant
            from <= i <= n,
            n == s@.len(),
            forall|j: int| from <= j < i ==> s@[j] != '.',
        decreases n - i,
    {
        if s.get_char(i) == '.' {
            return Some(i);
        }
        i = i + 1;
    }
    None
}

/// Parses the decimal part between `from` and `to`, when it is a valid
/// dotted-quad part.
fn parse_part(s: &str, from: usize, to: usize) -> (r: Option<u8>)
    requires
        from <= to <= s@.len(),
    ensures
        ({
            let sub = s@.subrange(from as int, to as int);
            match r {
                Some(v) => valid_part(sub) && v as int == dec_val(sub),
                None => !valid_part(sub),
            }
        }),
{
    let ghost sub = s@.subrange(from as int, to as int);
    if to - from < 1 || to - from > 3 {
        return None;
    }
    if s.get_char(from) == '0' && to - from > 1 {
        proof {
            assert(sub[0] == s@[from as int]);
        }
        return None;
    }
    let mut val: u32 = 0;
    let mut i: usize = from;
    while i < to
        invariant
            from <= i <= to <= s@.len(),
            to - from <= 3,
            forall|j: int| from <= j < i ==> is_digit(#[trigger] s@[j]),
            val == dec_val(s@.subrange(from as int, i as int)),
            val <= 999,
        decreases to - i,
    {
        let c = s.get_char(i);
        let cv = c as u32;
        if cv < 48 || cv > 57 {
            proof {
                assert(s@.subrange(from as int, to as int)[i - from] == s@[i as int]);
            }
            return None;
        }
        proof {
            let pre = s@.subrange(from as int, i as int);
            let ext = s@.subrange(from as int, i as int + 1);
            assert(ext.drop_last() =~= pre);
            assert(ext.last() == s@[i as int]);
            assert(forall|j: int| from <= j < i + 1 ==> is_digit(#[trigger] s@[j]));
            lemma_dec_val_bound(pre);
            assert(i - from <= 2 ==> val <= 99);
            assert(i + 1 - from <= 3);
        }
        val = val * 10 + (cv - 48);
        i = i + 1;
    }
    proof {
        assert(s@.subrange(from as int, i as int) =~= sub);
        assert(forall|j: int| 0 <= j < sub.len() ==> sub[j] == s@[j + from] && is_digit(
            #[trigger] sub[j],
        ));
    }
    if val > 255 {
        return None;
    }
    Some(val as u8)
}

impl Sessao {
    /// Parses a dotted-quad IPv4 literal.
    pub(crate) fn parse_ip(ip: &str) -> (r: Option<Ipv4>)
        ensures
            r == parse_ip_spec(ip@),
    {
        let n = ip.unicode_len();
        let p1 = match find_dot(ip, 0) {
            Some(i) => i,
            None => {
                proof {
                    lemma_no_dot(ip@);
                }
                return None;
            },
        };
        proof {
            lemma_first_dot(ip@, p1 as int);
        }
        let p2 = match find_dot(ip, p1 + 1) {
            Some(i) => i,
            None => {
                proof {
                    let r1 = ip@.skip(p1 + 1);
                    assert(forall|j: int| 0 <= j < r1.len() ==> r1[j] == ip@[j + p1 + 1]);
                    lemma_no_dot(r1);
                }
                return None;
            },
        };
        proof {
            let r1 = ip@.skip(p1 + 1);
            assert(forall|j: int| 0 <= j < r1.len() ==> r1[j] == ip@[j + p1 + 1]);
            lemma_first_dot(r1, p2 - (p1 + 1));
        }
        let p3 = match find_dot(ip, p2 + 1) {
            Some(i) => i,
            None => {
                proof {
                    let r1 = ip@.skip(p1 + 1);
                    let r2 = r1.skip(p2 - p1);
                    assert(r2 =~= ip@.skip(p2 + 1));
                    assert(forall|j: int| 0 <= j < r2.len() ==> r2[j] == ip@[j + p2 + 1]);
                    lemma_no_dot(r2);
                }
                return None;
            },
        };
        proof {
            let r1 = ip@.skip(p1 + 1);
            let r2 = r1.skip(p2 - p1);
            assert(r2 =~= ip@.skip(p2 + 1));
            assert(forall|j: int| 0 <= j < r2.len() ==> r2[j] == ip@[j + p2 + 1]);
            lemma_first_dot(r2, p3 - (p2 + 1));
        }
        let ghost part4 = ip@.skip(p1 + 1).skip(p2 - p1).skip(p3 - p2);
        proof {
            assert(part4 =~= ip@.skip(p3 + 1));
            assert(forall|j: int| 0 <= j < part4.len() ==> part4[j] == ip@[j + p3 + 1]);
        }
        match find_dot(ip, p3 + 1) {
            Some(i) => {
                proof {
                    assert(part4[i - (p3 + 1)] == '.');
                }
                return None;
            },
            None => {
                proof {
                    lemma_no_dot(part4);
                }
            },
        };
        let a = match parse_part(ip, 0, p1) {
            Some(v) => v,
            None => {
                proof {
                    assert(ip@.subrange(0, p1 as int) =~= ip@.take(p1 as int));
                }
                return None;
            },
        };
        let b = match parse_part(ip, p1 + 1, p2) {
            Some(v) => v,
            None => {
                proof {
                    assert(ip@.subrange(p1 + 1, p2 as int) =~= ip@.skip(p1 + 1).take(
                        p2 - (p1 + 1),
                    ));
                }
                return None;
            },
        };
        let c = match parse_part(ip, p2 + 1, p3) {
            Some(v) => v,
            None => {
                proof {
                    assert(ip@.subrange(p2 + 1, p3 as int) =~= ip@.skip(p1 + 1).skip(p2 - p1).take(
                        p3 - (p2 + 1),
                    ));
                }
                return None;
            },
        };
        let d = match parse_part(ip, p3 + 1, n) {
            Some(v) => v,
            None => {
                proof {
                    assert(ip@.subrange(p3 + 1, n as int) =~= part4);
                }
                return None;
            },
        };
        proof {
            assert(ip@.subrange(0, p1 as int) =~= ip@.take(p1 as int));
            assert(ip@.subrange(p1 + 1, p2 as int) =~= ip@.skip(p1 + 1).take(p2 - (p1 + 1)));
            assert(ip@.subrange(p2 + 1, p3 as int) =~= ip@.skip(p1 + 1).skip(p2 - p1).take(
                p3 - (p2 + 1),
            ));
            assert(ip@.subrange(p3 + 1, n as int) =~= part4);
        }
        Some(Ipv4 { a, b, c, d })
    }
}

// ---------------------------------------------------------------------------
// Driving the machine over a list of events
// ---------------------------------------------------------------------------
/// The events of a sequence, viewed.
pub open spec fn evs_view(v: Seq<Evento>) -> Seq<EventoV> {
    v.map_values(|e: Evento| e@)
}

/// The messages of a sequence, viewed.
pub open spec fn msgs_view(v: Seq<Mensagem>) -> Seq<MensagemV> {
    v.map_values(|m: Mensagem| m@)
}

/// The step function folded over a list of events: the session at the
/// end, and the outbound messages in order.
pub open spec fn run_steps(s: SessaoV, evs: Seq<EventoV>) -> (SessaoV, Seq<MensagemV>)
    decreases evs.len(),
{
    if evs.len() == 0 {
        (s, Seq::empty())
    } else {
        let first = step_spec(s, evs[0]);
        let rest = run_steps(first.0, evs.skip(1));
        (
            rest.0,
            (match first.1 {
                Some(m) => seq![m],
                None => Seq::<MensagemV>::empty(),
            }) + rest.1,
        )
    }
}

impl Sessao {
    /// Feeds the machine one event after the other, collecting the
    /// outbound messages in order. A finished session consumes the
    /// remaining events without effect.
    pub fn run(&mut self, events: Vec<Evento>) -> (outs: Vec<Mensagem>)
        requires
            old(self)@.wf(),
        ensures
            final(self)@ == run_steps(old(self)@, evs_view(events@)).0,
            msgs_view(outs@) == run_steps(old(self)@, evs_view(events@)).1,
            final(self)@.wf(),
    {
        let ghost evs0 = evs_view(events@);
        let mut rest = events;
        let mut outs: Vec<Mensagem> = Vec::new();
        proof {
            assert(msgs_view(outs@) =~= Seq::<MensagemV>::empty());
            assert(msgs_view(outs@) + run_steps(self@, evs_view(rest@)).1 =~= run_steps(
                self@,
                evs_view(rest@),
            ).1);
        }
        while rest.len() > 0
            invariant
                self@.wf(),
                run_steps(old(self)@, evs0).0 == run_steps(self@, evs_view(rest@)).0,
                run_steps(old(self)@, evs0).1 == msgs_view(outs@) + run_steps(
                    self@,
                    evs_view(rest@),
                ).1,
            decreases rest@.len(),
        {
            let ghost pre = self@;
            let ghost evsv = evs_view(rest@);
            let ghost outs_pre = outs@;
            let ev = rest.remove(0);
            proof {
                assert(evs_view(rest@) =~= evsv.skip(1));
                assert(ev@ == evsv[0]);
            }
            let out = self.step(ev);
            let ghost outv = opt_msg_view(out);
            match out {
                Some(m) => outs.push(m),
                None => {},
            }
            proof {
                let step_out = (match outv {
                    Some(m) => seq![m],
                    None => Seq::<MensagemV>::empty(),
                });
                assert(msgs_view(outs@) =~= msgs_view(outs_pre) + step_out);
                assert(run_steps(pre, evsv).1 == step_out + run_steps(self@, evsv.skip(1)).1);
                assert(msgs_view(outs_pre) + (step_out + run_steps(self@, evsv.skip(1)).1) =~= (
                msgs_view(outs_pre) + step_out) + run_steps(self@, evsv.skip(1)).1);
            }
        }
        proof {
            assert(evs_view(rest@) =~= Seq::<EventoV>::empty());
            assert(msgs_view(outs@) + run_steps(self@, evs_view(rest@)).1 =~= msgs_view(outs@));
        }
        outs
    }
}

// ---------------------------------------------------------------------------
// Laws of the machine
// ---------------------------------------------------------------------------
/// In the receiving state, a data message carrying the block at the
/// cursor is answered with exactly one acknowledgement, of that very
/// block number.
pub proof fn lemma_rx_data_acked(s: SessaoV, b: Seq<u8>, d: DataV)
    requires
        s.estado is RX,
        wire_decode(b) == Some(MensagemV::Data(d)),
        d.block as int == s.seqno as int,
    ensures
        rx_step(s, EventoV::Msg(b)).1 == Some(MensagemV::Ack(AckV { block: d.block })),
{
}

/// In the receiving state, a data message whose block is not the one at
/// the cursor is answered with exactly one acknowledgement and changes
/// nothing: a duplicated block never reaches the buffer twice.
pub proof fn lemma_rx_duplicate_ignored(s: SessaoV, b: Seq<u8>, d: DataV)
    requires
        s.estado is RX,
        wire_decode(b) == Some(MensagemV::Data(d)),
        d.block as int != s.seqno as int,
    ensures
        rx_step(s, EventoV::Msg(b)).0 == s,
        rx_step(s, EventoV::Msg(b)).1 == Some(MensagemV::Ack(AckV { block: d.block })),
{
}

/// In the sending state, the acknowledgement of the block at the cursor
/// is answered with exactly one data message, of the next block.
pub proof fn lemma_tx_ack_advances(s: SessaoV, b: Seq<u8>, a: AckV)
    requires
        s.estado is TX,
        s.wf(),
        wire_decode(b) == Some(MensagemV::Ack(a)),
        a.block as int == s.seqno as int,
        s.seqno < 65535,
    ensures
        tx_step(s, EventoV::Msg(b)).1 matches Some(m) && m matches MensagemV::Data(d)
            && d.block as int == s.seqno as int + 1,
        tx_step(s, EventoV::Msg(b)).0.seqno == s.seqno + 1,
        tx_step(s, EventoV::Msg(b)).0.buffer == s.buffer.skip(chunk_len(s)),
{
}

/// An event that carries no acknowledgement never lowers the retry
/// count, and an acknowledgement that advances the cursor of a sender
/// resets it to zero.
pub proof fn lemma_retries(s: SessaoV, ev: EventoV)
    requires
        s.wf(),
    ensures
        (match ev {
            EventoV::Msg(b) => !(wire_decode(b) matches Some(MensagemV::Ack(_))),
            _ => true,
        }) ==> step_spec(s, ev).0.retries >= s.retries,
        (s.estado is TX || s.estado is InitTX) && step_spec(s, ev).0.seqno != s.seqno
            ==> step_spec(s, ev).0.retries == 0,
{
}

/// The terminal status is assigned exactly once: a finished session
/// consumes every further event unchanged and emits nothing, and until
/// the terminal state is entered the status still holds its initial
/// value.
pub proof fn lemma_status_once(s: SessaoV, ev: EventoV)
    requires
        s.wf(),
    ensures
        s.estado is Finish ==> step_spec(s, ev).0 == s && step_spec(s, ev).1 is None,
        !(step_spec(s, ev).0.estado is Finish) ==> step_spec(s, ev).0.status == s.status
            && s.status is OK,
{
}

// ---------------------------------------------------------------------------
// The chunks of an upload
// ---------------------------------------------------------------------------
/// The blocks an upload buffer is cut into: full chunks of 512 bytes,
/// then one final short block — empty when the length is a multiple of
/// 512, so that the short block always closes the transfer.
pub open spec fn chunks_of(b: Seq<u8>) -> Seq<Seq<u8>>
    decreases b.len(),
{
    if b.len() < 512 {
        seq![b]
    } else {
        seq![b.take(512)] + chunks_of(b.skip(512))
    }
}

/// The chunks of a buffer of length `L` concatenate back to the buffer,
/// and number `L / 512 + 1` — that is, `ceil(L / 512)`, plus one more
/// for the trailing empty block when `L` is a multiple of 512.
pub proof fn lemma_chunks_concat(b: Seq<u8>)
    ensures
        chunks_of(b).flatten() == b,
        chunks_of(b).len() == b.len() / 512 + 1,
    decreases b.len(),
{
    if b.len() < 512 {
        chunks_of(b).lemma_flatten_singleton();
        assert(chunks_of(b)[0] == b);
    } else {
        lemma_chunks_concat(b.skip(512));
        let cs = chunks_of(b);
        assert(cs.first() == b.take(512));
        assert(cs.drop_first() =~= chunks_of(b.skip(512)));
        assert(cs.flatten() == b.take(512) + chunks_of(b.skip(512)).flatten());
        assert(b.take(512) + b.skip(512) =~= b);
        vstd::arithmetic::div_mod::lemma_div_plus_one(b.len() - 512, 512);
        assert(b.len() as int / 512 == (b.len() - 512) / 512 + 1);
    }
}

/// The block a sender emits is the first chunk of its buffer, and the
/// acknowledged transition leaves exactly the remaining chunks: emitted
/// in acknowledgement order, the payloads concatenate to the upload
/// buffer.
pub proof fn lemma_chunk_step(s: SessaoV)
    ensures
        cur_chunk(s) == chunks_of(s.buffer)[0],
        s.buffer.len() >= 512 ==> chunks_of(s.buffer).skip(1) =~= chunks_of(
            s.buffer.skip(512),
        ),
{
    if s.buffer.len() < 512 {
        assert(s.buffer.take(s.buffer.len() as int) =~= s.buffer);
    } else {
        assert(chunks_of(s.buffer)[0] == s.buffer.take(512));
    }
}

/// The event of an acknowledgement of block `n` arriving on the wire.
pub open spec fn ack_event(n: u16) -> EventoV {
    EventoV::Msg(crate::msg::wire_encode(MensagemV::Ack(AckV { block: n })))
}

/// The acknowledgements of `count` consecutive blocks, from `from` on.
pub open spec fn acks_from(from: int, count: int) -> Seq<EventoV>
    decreases count,
{
    if count <= 0 {
        Seq::empty()
    } else {
        seq![ack_event(from as u16)] + acks_from(from + 1, count - 1)
    }
}

/// There is one acknowledgement event per counted block.
proof fn lemma_acks_len(from: int, count: int)
    requires
        count >= 0,
    ensures
        acks_from(from, count).len() == count,
    decreases count,
{
    if count > 0 {
        lemma_acks_len(from + 1, count - 1);
    }
}

/// The payload a data message carries.
pub open spec fn payload_of(m: MensagemV) -> Seq<u8> {
    match m {
        MensagemV::Data(d) => d.body,
        _ => Seq::empty(),
    }
}

/// A sender with the block at the cursor outstanding, acknowledged block
/// by block, emits one data message per remaining chunk — each block
/// number one past the acknowledged one — and completes the transfer.
proof fn lemma_tx_phase(s: SessaoV)
    requires
        s.wf(),
        s.estado is TX || s.estado is FinishTX,
        s.seqno + chunks_of(s.buffer).len() - 1 <= 65535,
    ensures
        ({
            let c = chunks_of(s.buffer).len() as int;
            let r = run_steps(s, acks_from(s.seqno as int, c));
            &&& r.0.estado is Finish
            &&& r.0.status == s.status
            &&& r.1.len() == c - 1
            &&& forall|i: int|
                1 <= i < c ==> r.1[i - 1] == MensagemV::Data(
                    DataV { block: (s.seqno + i) as u16, body: chunks_of(s.buffer)[i] },
                )
        }),
    decreases s.buffer.len(),
{
    let c = chunks_of(s.buffer).len() as int;
    let j = s.seqno as int;
    let evs = acks_from(j, c);
    lemma_acks_len(j, c);
    lemma_acks_len(j + 1, c - 1);
    let ack = AckV { block: s.seqno as u16 };
    crate::msg::lemma_round_trip(MensagemV::Ack(ack));
    assert(evs[0] == ack_event(s.seqno as u16));
    assert(evs.skip(1) =~= acks_from(j + 1, c - 1));
    if s.estado is FinishTX {
        assert(c == 1);
        let r1 = finish_tx_step(s, evs[0]);
        assert((s.seqno as u16) as int == s.seqno as int);
        assert(wire_decode(crate::msg::wire_encode(MensagemV::Ack(ack))) == Some(
            MensagemV::Ack(ack),
        ));
        assert(r1.0.estado is Finish && r1.1 is None);
        assert(evs.len() == 1);
        assert(step_spec(s, evs[0]) == r1);
        assert(evs.skip(1).len() == 0);
        assert(run_steps(r1.0, evs.skip(1)).1 =~= Seq::<MensagemV>::empty());
        assert(run_steps(s, evs).1 =~= Seq::<MensagemV>::empty());
    } else {
        assert(s.buffer.len() >= 512);
        assert(c >= 2) by {
            assert(chunks_of(s.buffer).drop_first() =~= chunks_of(s.buffer.skip(512)));
            assert(chunks_of(s.buffer.skip(512)).len() >= 1);
        }
        let s2 = SessaoV {
            seqno: (s.seqno + 1) as u32,
            retries: 0,
            buffer: s.buffer.skip(chunk_len(s)),
            ..s
        };
        let next = send_next_spec(s2);
        assert(tx_step(s, evs[0]) == (next.0, Some(next.1)));
        lemma_chunk_step(s);
        lemma_chunk_step(s2);
        assert(chunks_of(s2.buffer) =~= chunks_of(s.buffer).skip(1));
        assert(next.1 == MensagemV::Data(
            DataV { block: (s.seqno + 1) as u16, body: chunks_of(s.buffer)[1] },
        ));
        assert(next.0.wf());
        assert(next.0.estado is TX || next.0.estado is FinishTX);
        assert(next.0.status == s.status);
        assert(chunks_of(next.0.buffer).len() == c - 1);
        lemma_tx_phase(next.0);
        let rr = run_steps(next.0, acks_from(j + 1, c - 1));
        let r = run_steps(s, evs);
        assert(r.0 == rr.0);
        assert(r.1 =~= seq![next.1] + rr.1);
        assert forall|i: int| 1 <= i < c implies r.1[i - 1] == MensagemV::Data(
            DataV { block: (s.seqno + i) as u16, body: chunks_of(s.buffer)[i] },
        ) by {
            if i >= 2 {
                assert(rr.1[i - 2] == MensagemV::Data(
                    DataV {
                        block: (s2.seqno + (i - 1)) as u16,
                        body: chunks_of(s2.buffer)[i - 1],
                    },
                ));
                assert(chunks_of(s2.buffer)[i - 1] == chunks_of(s.buffer)[i]);
            }
        }
    }
}

/// The law of an upload: a session that has sent its write request and
/// is then acknowledged block by block — the zero acknowledgement, then
/// one per block — emits exactly one data message per chunk, with block
/// numbers counting up from one, completes with the initial status kept,
/// and the payloads concatenated in that order are the upload buffer,
/// in `len / 512 + 1` blocks.
pub proof fn lemma_upload_emits_buffer(s: SessaoV)
    requires
        s.wf(),
        s.estado is InitTX,
        chunks_of(s.buffer).len() <= 65535,
    ensures
        ({
            let c = chunks_of(s.buffer).len() as int;
            let r = run_steps(s, acks_from(0, c + 1));
            &&& r.0.estado is Finish
            &&& r.0.status is OK
            &&& r.1.len() == c
            &&& c == s.buffer.len() / 512 + 1
            &&& forall|i: int|
                0 <= i < c ==> r.1[i] == MensagemV::Data(
                    DataV { block: (i + 1) as u16, body: chunks_of(s.buffer)[i] },
                )
            &&& r.1.map_values(|m: MensagemV| payload_of(m)).flatten() == s.buffer
        }),
{
    let c = chunks_of(s.buffer).len() as int;
    let evs = acks_from(0, c + 1);
    lemma_acks_len(0, c + 1);
    lemma_acks_len(1, c);
    let ack = AckV { block: 0 };
    crate::msg::lemma_round_trip(MensagemV::Ack(ack));
    assert(evs[0] == ack_event(0));
    assert(evs.skip(1) =~= acks_from(1, c));
    let s2 = SessaoV { seqno: 1, retries: 0, ..s };
    let next = send_next_spec(s2);
    assert(init_tx_step(s, evs[0]) == (next.0, Some(next.1)));
    lemma_chunk_step(s2);
    assert(chunks_of(s2.buffer) == chunks_of(s.buffer));
    assert(next.1 == MensagemV::Data(DataV { block: 1u16, body: chunks_of(s.buffer)[0] }));
    assert(next.0.wf());
    assert(next.0.estado is TX || next.0.estado is FinishTX);
    assert(next.0.status == s.status);
    lemma_tx_phase(next.0);
    let rr = run_steps(next.0, acks_from(1, c));
    let r = run_steps(s, evs);
    assert(r.0 == rr.0);
    assert(r.1 =~= seq![next.1] + rr.1);
    assert forall|i: int| 0 <= i < c implies r.1[i] == MensagemV::Data(
        DataV { block: (i + 1) as u16, body: chunks_of(s.buffer)[i] },
    ) by {
        if i >= 1 {
            assert(rr.1[i - 1] == MensagemV::Data(
                DataV { block: (1 + i) as u16, body: chunks_of(s.buffer)[i] },
            ));
        }
    }
    lemma_chunks_concat(s.buffer);
    let pl = r.1.map_values(|m: MensagemV| payload_of(m));
    assert(pl =~= chunks_of(s.buffer));
}

} // verus!

