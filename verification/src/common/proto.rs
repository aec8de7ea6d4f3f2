//! The three-message control protocol used on reverse-tunnel sessions.
//!
//! A frame is UTF-8 ASCII with no framing beyond the message boundary:
//! `CONNECTED <ip:port>`, `CLOSED`, or `ACK`. Parsing splits the frame at
//! the first space byte and matches the leading token against the three
//! literals; for `CONNECTED` the remainder must read as a socket address
//! in the wire grammar of [`crate::addr`] — dotted decimal IPv4, or a
//! bracketed IPv6 address of eight colon-separated hexadecimal groups,
//! never `::`-compressed. Anything else is no command and the frame is
//! discarded by the caller.

use vstd::prelude::*;
use crate::addr::{
    SocketAddress, addr_text, parse_addr_spec, find_byte_spec, find_byte, subvec,
    lemma_find_byte_exact, lemma_find_byte_props, lemma_addr_text_rt,
};

verus! {

/// The space byte separating the token from the address.
pub const SPACE_BYTE: u8 = 32;

/// A control-protocol frame.
#[derive(PartialEq, Eq, Structural, Clone, Copy, Debug)]
#[allow(non_camel_case_types)]
pub enum ProtoCommand {
    /// Remote-to-local handshake carrying the public TCP address now
    /// listening on the remote for the reverse tunnel.
    CONNECTED(SocketAddress),
    /// Either side signals graceful teardown.
    CLOSED,
    /// Reply to `CLOSED`, giving the sender permission to exit.
    ACK,
}

/// The token `CONNECTED`.
pub open spec fn connected_tok() -> Seq<u8> {
    seq![67u8, 79u8, 78u8, 78u8, 69u8, 67u8, 84u8, 69u8, 68u8]
}

/// The token `CLOSED`.
pub open spec fn closed_tok() -> Seq<u8> {
    seq![67u8, 76u8, 79u8, 83u8, 69u8, 68u8]
}

/// The token `ACK`.
pub open spec fn ack_tok() -> Seq<u8> {
    seq![65u8, 67u8, 75u8]
}

/// The wire bytes of a command.
pub open spec fn spec_serialize(cmd: ProtoCommand) -> Seq<u8> {
    match cmd {
        ProtoCommand::CONNECTED(sa) => connected_tok() + seq![SPACE_BYTE] + addr_text(sa),
        ProtoCommand::CLOSED => closed_tok(),
        ProtoCommand::ACK => ack_tok(),
    }
}

/// The command read from a frame, if any: the token before the first
/// space decides, and `CONNECTED` further needs the remainder to read as
/// a socket address.
pub open spec fn spec_parse(d: Seq<u8>) -> Option<ProtoCommand> {
    let i = find_byte_spec(d, SPACE_BYTE);
    let tok = d.take(i);
    if tok == connected_tok() {
        if i < d.len() {
            match parse_addr_spec(d.skip(i + 1)) {
                Some(sa) => Some(ProtoCommand::CONNECTED(sa)),
                None => None,
            }
        } else {
            None
        }
    } else if tok == closed_tok() {
        Some(ProtoCommand::CLOSED)
    } else if tok == ack_tok() {
        Some(ProtoCommand::ACK)
    } else {
        None
    }
}

// --- the boundary to the `bytes` crate ---

#[verifier::external_type_specification]
#[verifier::external_body]
pub struct ExBytes(bytes::Bytes);

/// The bytes a `bytes::Bytes` handle holds.
pub uninterp spec fn bytes_content(b: bytes::Bytes) -> Seq<u8>;

/// Relies on `bytes::Bytes::from(Vec<u8>)`: the handle holds exactly the
/// vector's bytes.
#[verifier::external_body]
fn bytes_from_vec(v: Vec<u8>) -> (r: bytes::Bytes)
    ensures
        bytes_content(r) == v@,
{
    bytes::Bytes::from(v)
}

/// Relies on `<[u8]>::to_vec`, reached through `bytes::Bytes`'s `Deref`
/// to `[u8]`: the copy holds exactly the handle's bytes.
#[verifier::external_body]
fn bytes_to_vec(b: &bytes::Bytes) -> (r: Vec<u8>)
    ensures
        r@ == bytes_content(*b),
{
    b.to_vec()
}

// --- executable codec ---

fn connected_lit() -> (r: Vec<u8>)
    ensures
        r@ == connected_tok(),
{
    let mut v: Vec<u8> = Vec::new();
    v.push(67);
    v.push(79);
    v.push(78);
    v.push(78);
    v.push(69);
    v.push(67);
    v.push(84);
    v.push(69);
    v.push(68);
    proof {
        assert(v@ =~= connected_tok());
    }
    v
}

fn closed_lit() -> (r: Vec<u8>)
    ensures
        r@ == closed_tok(),
{
    let mut v: Vec<u8> = Vec::new();
    v.push(67);
    v.push(76);
    v.push(79);
    v.push(83);
    v.push(69);
    v.push(68);
    proof {
        assert(v@ =~= closed_tok());
    }
    v
}

fn ack_lit() -> (r: Vec<u8>)
    ensures
        r@ == ack_tok(),
{
    let mut v: Vec<u8> = Vec::new();
    v.push(65);
    v.push(67);
    v.push(75);
    proof {
        assert(v@ =~= ack_tok());
    }
    v
}

/// Byte-wise equality of two vectors.
fn vec_u8_eq(a: &Vec<u8>, b: &Vec<u8>) -> (r: bool)
    ensures
        r == (a@ == b@),
{
    if a.len() != b.len() {
        return false;
    }
    let mut i: usize = 0;
    while i < a.len()
        invariant
            i <= a@.len() == b@.len(),
            forall|j: int| 0 <= j < i ==> a@[j] == b@[j],
        decreases a@.len() - i,
    {
        if a[i] != b[i] {
            return false;
        }
        i = i + 1;
    }
    proof {
        assert(a@ =~= b@);
    }
    true
}

impl ProtoCommand {
    /// The command's wire bytes, as a plain vector.
    pub fn to_wire(&self) -> (r: Vec<u8>)
        ensures
            r@ == spec_serialize(*self),
    {
        match self {
            ProtoCommand::CONNECTED(sa) => {
                let mut out = connected_lit();
                out.push(SPACE_BYTE);
                let mut a = sa.to_text();
                out.append(&mut a);
                proof {
                    assert(out@ =~= connected_tok() + seq![SPACE_BYTE] + addr_text(*sa));
                }
                out
            },
            ProtoCommand::CLOSED => closed_lit(),
            ProtoCommand::ACK => ack_lit(),
        }
    }

    /// The command read from a frame held as a plain vector, if any.
    pub fn from_wire(v: &Vec<u8>) -> (r: Option<ProtoCommand>)
        ensures
            r == spec_parse(v@),
    {
        let i = find_byte(v, SPACE_BYTE);
        proof {
            lemma_find_byte_props(v@, SPACE_BYTE);
        }
        let tok = subvec(v, 0, i);
        proof {
            assert(tok@ =~= v@.take(i as int));
        }
        if vec_u8_eq(&tok, &connected_lit()) {
            if i < v.len() {
                let rest = subvec(v, i + 1, v.len());
                proof {
                    assert(rest@ =~= v@.skip(i as int + 1));
                }
                match SocketAddress::from_text(&rest) {
                    Some(sa) => Some(ProtoCommand::CONNECTED(sa)),
                    None => None,
                }
            } else {
                None
            }
        } else if vec_u8_eq(&tok, &closed_lit()) {
            Some(ProtoCommand::CLOSED)
        } else if vec_u8_eq(&tok, &ack_lit()) {
            Some(ProtoCommand::ACK)
        } else {
            None
        }
    }

    /// Writes the command onto the wire as a `bytes::Bytes` frame.
    pub fn deserialize(&self) -> (r: bytes::Bytes)
        ensures
            bytes_content(r) == spec_serialize(*self),
    {
        bytes_from_vec(self.to_wire())
    }

    /// Reads a command back out of a received frame, if it holds one.
    pub fn serialize(data: bytes::Bytes) -> (r: Option<ProtoCommand>)
        ensures
            r == spec_parse(bytes_content(data)),
    {
        let v = bytes_to_vec(&data);
        ProtoCommand::from_wire(&v)
    }
}

// --- the codec laws ---

/// Parsing inverts serialisation: every command is read back from its own
/// wire bytes.
pub proof fn lemma_parse_round_trip(cmd: ProtoCommand)
    ensures
        spec_parse(spec_serialize(cmd)) == Some(cmd),
{
    match cmd {
        ProtoCommand::CONNECTED(sa) => {
            let s = connected_tok() + seq![SPACE_BYTE] + addr_text(sa);
            assert(forall|j: int| 0 <= j < 9 ==> s[j] == connected_tok()[j]);
            assert(forall|j: int| 0 <= j < 9 ==> s[j] != SPACE_BYTE);
            assert(s[9] == SPACE_BYTE);
            lemma_find_byte_exact(s, SPACE_BYTE, 9);
            assert(s.take(9) =~= connected_tok());
            assert(s.skip(10) =~= addr_text(sa));
            lemma_addr_text_rt(sa);
        },
        ProtoCommand::CLOSED => {
            let s = closed_tok();
            assert(forall|j: int| 0 <= j < s.len() ==> s[j] != SPACE_BYTE);
            lemma_find_byte_exact(s, SPACE_BYTE, s.len() as int);
            assert(s.take(s.len() as int) =~= s);
            assert(s != connected_tok());
        },
        ProtoCommand::ACK => {
            let s = ack_tok();
            assert(forall|j: int| 0 <= j < s.len() ==> s[j] != SPACE_BYTE);
            lemma_find_byte_exact(s, SPACE_BYTE, s.len() as int);
            assert(s.take(s.len() as int) =~= s);
            assert(s != connected_tok());
            assert(s != closed_tok());
        },
    }
}

/// No two commands share wire bytes.
pub proof fn lemma_serialize_injective(a: ProtoCommand, b: ProtoCommand)
    requires
        spec_serialize(a) == spec_serialize(b),
    ensures
        a == b,
{
    lemma_parse_round_trip(a);
    lemma_parse_round_trip(b);
}

/// A frame yields no command exactly when its leading token is none of
/// the three literals, or it reads `CONNECTED` without a well-formed
/// address after the space.
pub proof fn lemma_parse_rejects(d: Seq<u8>)
    ensures
        spec_parse(d) is None <==> {
            let i = find_byte_spec(d, SPACE_BYTE);
            let tok = d.take(i);
            !(tok == closed_tok() || tok == ack_tok() || (tok == connected_tok() && i < d.len()
                && parse_addr_spec(d.skip(i + 1)) is Some))
        },
{
}

} // verus!
