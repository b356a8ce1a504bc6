use vstd::prelude::*;

verus! {

/// Protocol version byte carried by every SOCKS5 frame.
pub const SOCKS_VERSION: u8 = 5;

/// Address type tag of a 4-byte IPv4 address.
pub const ATYP_IPV4: u8 = 1;

/// Address type tag of a length-prefixed domain name.
pub const ATYP_DOMAIN: u8 = 3;

/// Address type tag of a 16-byte IPv6 address.
pub const ATYP_IPV6: u8 = 4;

/// Why a handshake frame could not be accepted.
#[derive(Clone, Copy, Debug, PartialEq, Eq, Structural)]
pub enum HandshakeError {
    /// The version byte of the greeting was not 5.
    ProtocolVersionError,
    /// The greeting offered zero methods.
    InvalidMethodCount,
    /// None of the offered methods is one the server supports.
    NoAcceptableMethod,
    /// The request named an address type other than IPv4, domain or IPv6.
    UnsupportedAddressType(u8),
    /// The bytes at hand end before the frame does.
    IncompleteFrame,
}

/// Mathematical model of a parsed destination request.
pub struct RequestModel {
    pub command: u8,
    pub address_type: u8,
    pub address: Seq<u8>,
    pub port: u16,
}

/// A phase-2 request: what the client asks the server to reach.
/// `address` holds the raw bytes in the encoding that `address_type` names.
#[derive(Clone, Debug)]
pub struct DestinationRequest {
    pub command: u8,
    pub address_type: u8,
    pub address: Vec<u8>,
    pub port: u16,
}

impl View for DestinationRequest {
    type V = RequestModel;

    open spec fn view(&self) -> RequestModel {
        RequestModel {
            command: self.command,
            address_type: self.address_type,
            address: self.address@,
            port: self.port,
        }
    }
}

/// Number of raw address bytes that an address type fixes, if it fixes one.
pub open spec fn fixed_address_len(atyp: u8) -> int {
    if atyp == ATYP_IPV4 {
        4
    } else {
        16
    }
}

/// Decodes an address of type `atyp` from the front of `b`: the raw
/// address bytes and how many bytes of `b` they took (with the length
/// prefix of a domain name).
pub open spec fn decode_address_spec(atyp: u8, b: Seq<u8>) -> Result<(Seq<u8>, int), HandshakeError> {
    if atyp == ATYP_IPV4 || atyp == ATYP_IPV6 {
        let n = fixed_address_len(atyp);
        if b.len() < n {
            Err(HandshakeError::IncompleteFrame)
        } else {
            Ok((b.subrange(0, n), n))
        }
    } else if atyp == ATYP_DOMAIN {
        if b.len() < 1 || b.len() < 1 + b[0] {
            Err(HandshakeError::IncompleteFrame)
        } else {
            Ok((b.subrange(1, 1 + b[0]), 1 + b[0]))
        }
    } else {
        Err(HandshakeError::UnsupportedAddressType(atyp))
    }
}

/// The big-endian value of two bytes.
pub open spec fn port_of(hi: u8, lo: u8) -> u16 {
    (hi * 256 + lo) as u16
}

/// Decodes a port in network byte order from the front of `b`.
pub open spec fn decode_port_spec(b: Seq<u8>) -> Result<u16, HandshakeError> {
    if b.len() < 2 {
        Err(HandshakeError::IncompleteFrame)
    } else {
        Ok(port_of(b[0], b[1]))
    }
}

/// Decodes a whole phase-2 request from the front of `b`: the request and
/// the number of bytes it took.
pub open spec fn decode_request_spec(b: Seq<u8>) -> Result<(RequestModel, int), HandshakeError> {
    if b.len() < 4 {
        Err(HandshakeError::IncompleteFrame)
    } else {
        match decode_address_spec(b[3], b.subrange(4, b.len() as int)) {
            Err(e) => Err(e),
            Ok((addr, n)) => match decode_port_spec(b.subrange(4 + n, b.len() as int)) {
                Err(e) => Err(e),
                Ok(port) => Ok(
                    (RequestModel { command: b[1], address_type: b[3], address: addr, port }, 4 + n + 2),
                ),
            },
        }
    }
}

/// A request that the wire format can carry: a known address type and an
/// address whose length that type allows.
pub open spec fn request_well_formed(m: RequestModel) -> bool {
    ||| (m.address_type == ATYP_IPV4 && m.address.len() == 4)
    ||| (m.address_type == ATYP_IPV6 && m.address.len() == 16)
    ||| (m.address_type == ATYP_DOMAIN && m.address.len() <= 255)
}

/// The wire bytes of the address part: a length prefix for a domain name,
/// then the raw address.
pub open spec fn encode_address_spec(m: RequestModel) -> Seq<u8> {
    if m.address_type == ATYP_DOMAIN {
        seq![m.address.len() as u8] + m.address
    } else {
        m.address
    }
}

/// The wire bytes of a phase-2 request, with a zero reserved byte.
pub open spec fn encode_request_spec(m: RequestModel) -> Seq<u8> {
    seq![SOCKS_VERSION, m.command, 0u8, m.address_type] + encode_address_spec(m) + seq![
        (m.port / 256) as u8,
        (m.port % 256) as u8,
    ]
}

/// Copies `input[start..end]` into a new vector.
fn copy_range(input: &[u8], start: usize, end: usize) -> (r: Vec<u8>)
    requires
        start <= end <= input@.len(),
    ensures
        r@ == input@.subrange(start as int, end as int),
{
    let mut r: Vec<u8> = Vec::new();
    let mut i: usize = start;
    while i < end
        invariant
            start <= i <= end <= input@.len(),
            r@ == input@.subrange(start as int, i as int),
        decreases end - i,
    {
        r.push(input[i]);
        assert(r@ == input@.subrange(start as int, i + 1));
        i = i + 1;
    }
    r
}

/// Decodes an address of type `address_type` that starts at `pos` in `input`.
fn decode_address_at(address_type: u8, input: &[u8], pos: usize) -> (r: Result<(Vec<u8>, usize), HandshakeError>)
    requires
        pos <= input@.len(),
    ensures
        match r {
            Ok((a, n)) => decode_address_spec(address_type, input@.subrange(pos as int, input@.len() as int))
                == Ok::<(Seq<u8>, int), HandshakeError>((a@, n as int)) && pos + n <= input@.len(),
            Err(e) => decode_address_spec(address_type, input@.subrange(pos as int, input@.len() as int))
                == Err::<(Seq<u8>, int), HandshakeError>(e),
        },
{
    let ghost b = input@.subrange(pos as int, input@.len() as int);
    let avail: usize = input.len() - pos;
    if address_type == ATYP_IPV4 || address_type == ATYP_IPV6 {
        let n: usize = if address_type == ATYP_IPV4 { 4 } else { 16 };
        if avail < n {
            Err(HandshakeError::IncompleteFrame)
        } else {
            let a = copy_range(input, pos, pos + n);
            assert(a@ == b.subrange(0, n as int));
            Ok((a, n))
        }
    } else if address_type == ATYP_DOMAIN {
        if avail < 1 {
            Err(HandshakeError::IncompleteFrame)
        } else {
            let len: usize = input[pos] as usize;
            assert(b[0] == input@[pos as int]);
            if avail < 1 + len {
                Err(HandshakeError::IncompleteFrame)
            } else {
                let a = copy_range(input, pos + 1, pos + 1 + len);
                assert(a@ == b.subrange(1, 1 + b[0]));
                Ok((a, 1 + len))
            }
        }
    } else {
        Err(HandshakeError::UnsupportedAddressType(address_type))
    }
}

/// Decodes an address of type `address_type` from the front of `input`,
/// returning the raw address bytes and how many bytes of `input` it took.
pub fn decode_address(address_type: u8, input: &[u8]) -> (r: Result<(Vec<u8>, usize), HandshakeError>)
    ensures
        match r {
            Ok((a, n)) => decode_address_spec(address_type, input@) == Ok::<(Seq<u8>, int), HandshakeError>(
                (a@, n as int),
            ),
            Err(e) => decode_address_spec(address_type, input@) == Err::<(Seq<u8>, int), HandshakeError>(e),
        },
{
    assert(input@.subrange(0, input@.len() as int) == input@);
    decode_address_at(address_type, input, 0)
}

/// Decodes the big-endian port that starts at `pos` in `input`.
fn decode_port_at(input: &[u8], pos: usize) -> (r: Result<u16, HandshakeError>)
    requires
        pos <= input@.len(),
    ensures
        r == decode_port_spec(input@.subrange(pos as int, input@.len() as int)),
{
    if input.len() - pos < 2 {
        Err(HandshakeError::IncompleteFrame)
    } else {
        let hi = input[pos];
        let lo = input[pos + 1];
        Ok((hi as u16) * 256 + (lo as u16))
    }
}

/// Decodes a big-endian port from the front of `input`.
pub fn decode_port(input: &[u8]) -> (r: Result<u16, HandshakeError>)
    ensures
        r == decode_port_spec(input@),
{
    assert(input@.subrange(0, input@.len() as int) == input@);
    decode_port_at(input, 0)
}

/// Decodes a whole phase-2 request (version, command, reserved byte,
/// address type, address, port) from the front of `input`, returning the
/// request and how many bytes it took. The command is not validated and
/// the reserved byte is ignored.
pub fn decode_destination_request(input: &[u8]) -> (r: Result<(DestinationRequest, usize), HandshakeError>)
    ensures
        match r {
            Ok((d, n)) => decode_request_spec(input@) == Ok::<(RequestModel, int), HandshakeError>(
                (d@, n as int),
            ),
            Err(e) => decode_request_spec(input@) == Err::<(RequestModel, int), HandshakeError>(e),
        },
{
    if input.len() < 4 {
        return Err(HandshakeError::IncompleteFrame);
    }
    let command = input[1];
    let address_type = input[3];
    match decode_address_at(address_type, input, 4) {
        Err(e) => Err(e),
        Ok((address, n)) => {
            let ghost b = input@.subrange(4, input@.len() as int);
            assert(input@.subrange(4 + n, input@.len() as int) == b.subrange(n as int, b.len() as int));
            match decode_port_at(input, 4 + n) {
                Err(e) => Err(e),
                Ok(port) => {
                    let d = DestinationRequest { command, address_type, address, port };
                    Ok((d, 4 + n + 2))
                },
            }
        },
    }
}

/// Encodes a request in the phase-2 wire format.
pub fn encode_destination_request(req: &DestinationRequest) -> (r: Vec<u8>)
    requires
        request_well_formed(req@),
    ensures
        r@ == encode_request_spec(req@),
{
    let mut r: Vec<u8> = Vec::new();
    r.push(SOCKS_VERSION);
    r.push(req.command);
    r.push(0u8);
    r.push(req.address_type);
    if req.address_type == ATYP_DOMAIN {
        r.push(req.address.len() as u8);
    }
    let ghost prefix = r@;
    let mut i: usize = 0;
    while i < req.address.len()
        invariant
            i <= req.address@.len(),
            r@ == prefix + req.address@.subrange(0, i as int),
        decreases req.address@.len() - i,
    {
        r.push(req.address[i]);
        assert(req.address@.subrange(0, i + 1) == req.address@.subrange(0, i as int).push(req.address@[i as int]));
        i = i + 1;
    }
    assert(req.address@.subrange(0, req.address@.len() as int) == req.address@);
    r.push((req.port / 256) as u8);
    r.push((req.port % 256) as u8);
    assert(r@ == encode_request_spec(req@));
    r
}

/// Decoding the encoding of a well-formed request gives back the same
/// command, address type, address and port, and takes exactly the
/// encoded bytes.
pub proof fn lemma_request_round_trip(m: RequestModel)
    requires
        request_well_formed(m),
    ensures
        decode_request_spec(encode_request_spec(m)) == Ok::<(RequestModel, int), HandshakeError>(
            (m, encode_request_spec(m).len() as int),
        ),
{
    let e = encode_request_spec(m);
    let rest = e.subrange(4, e.len() as int);
    let ea = encode_address_spec(m);
    assert(rest == ea + seq![(m.port / 256) as u8, (m.port % 256) as u8]);
    let n: int = ea.len() as int;
    if m.address_type == ATYP_DOMAIN {
        assert(rest[0] == m.address.len() as u8);
        assert(rest.subrange(1, 1 + rest[0]) == m.address);
    } else {
        assert(rest.subrange(0, n) == m.address);
    }
    assert(decode_address_spec(m.address_type, rest) == Ok::<(Seq<u8>, int), HandshakeError>((m.address, n)));
    let tail = e.subrange(4 + n, e.len() as int);
    assert(tail == seq![(m.port / 256) as u8, (m.port % 256) as u8]);
    assert(port_of(tail[0], tail[1]) == m.port) by (nonlinear_arith)
        requires tail[0] == (m.port / 256) as u8, tail[1] == (m.port % 256) as u8;
}

/// An IPv4 address takes exactly 4 bytes, an IPv6 address exactly 16, and
/// a domain name exactly as many as its length byte says.
pub proof fn lemma_address_lengths(atyp: u8, b: Seq<u8>)
    ensures
        decode_address_spec(atyp, b) is Ok ==> {
            let a = decode_address_spec(atyp, b)->Ok_0.0;
            &&& atyp == ATYP_IPV4 ==> a.len() == 4
            &&& atyp == ATYP_IPV6 ==> a.len() == 16
            &&& atyp == ATYP_DOMAIN ==> a.len() == b[0]
        },
{
}

/// Any address type other than IPv4, domain or IPv6 is refused with
/// `UnsupportedAddressType` carrying that byte, both by the address decoder
/// and by the request decoder once the request header is complete.
pub proof fn lemma_unsupported_address_type(b: Seq<u8>)
    requires
        b.len() >= 4,
        b[3] != ATYP_IPV4 && b[3] != ATYP_DOMAIN && b[3] != ATYP_IPV6,
    ensures
        decode_address_spec(b[3], b.subrange(4, b.len() as int)) == Err::<(Seq<u8>, int), HandshakeError>(
            HandshakeError::UnsupportedAddressType(b[3]),
        ),
        decode_request_spec(b) == Err::<(RequestModel, int), HandshakeError>(
            HandshakeError::UnsupportedAddressType(b[3]),
        ),
{
}

/// A decoded request is well-formed: its address has the length that its
/// address type implies.
pub proof fn lemma_decoded_request_well_formed(b: Seq<u8>)
    requires
        decode_request_spec(b) is Ok,
    ensures
        request_well_formed(decode_request_spec(b)->Ok_0.0),
{
    lemma_address_lengths(b[3], b.subrange(4, b.len() as int));
}

/// A request that an outbound connection can be made for: well-formed,
/// and not naming an empty domain.
pub open spec fn request_dialable(m: RequestModel) -> bool {
    request_well_formed(m) && m.address.len() > 0
}

/// Whether the destination of a request can be dialed.
pub fn is_dialable(req: &DestinationRequest) -> (r: bool)
    ensures
        r == request_dialable(req@),
{
    let n = req.address.len();
    (req.address_type == ATYP_IPV4 && n == 4) || (req.address_type == ATYP_IPV6 && n == 16) || (
    req.address_type == ATYP_DOMAIN && n > 0 && n <= 255)
}

} // verus!
