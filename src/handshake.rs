use vstd::prelude::*;

use crate::codec::{
    decode_address_spec, decode_destination_request, decode_request_spec, fixed_address_len,
    DestinationRequest,
    HandshakeError, RequestModel, ATYP_DOMAIN, ATYP_IPV4, SOCKS_VERSION,
};

verus! {

/// Method byte for "no authentication required".
pub const METHOD_NO_AUTH: u8 = 0;

/// Method byte for username/password authentication.
pub const METHOD_USERNAME_PASSWORD: u8 = 2;

/// Method byte that tells the client none of its methods is acceptable.
pub const METHOD_NONE_ACCEPTABLE: u8 = 0xFF;

/// The methods this server is willing to select.
pub open spec fn method_supported(m: u8) -> bool {
    m == METHOD_NO_AUTH || m == METHOD_USERNAME_PASSWORD
}

/// The first supported method in the client's offered order, if any.
pub open spec fn first_supported(s: Seq<u8>) -> Option<u8>
    decreases s.len(),
{
    if s.len() == 0 {
        None
    } else if method_supported(s[0]) {
        Some(s[0])
    } else {
        first_supported(s.drop_first())
    }
}

/// Decodes a phase-1 greeting (version, method count, methods) from the
/// front of `b`, giving the offered methods.
pub open spec fn decode_greeting_spec(b: Seq<u8>) -> Result<Seq<u8>, HandshakeError> {
    if b.len() < 2 {
        Err(HandshakeError::IncompleteFrame)
    } else if b[0] != SOCKS_VERSION {
        Err(HandshakeError::ProtocolVersionError)
    } else if b[1] == 0 {
        Err(HandshakeError::InvalidMethodCount)
    } else if b.len() < 2 + b[1] {
        Err(HandshakeError::IncompleteFrame)
    } else {
        Ok(b.subrange(2, 2 + b[1]))
    }
}

/// The phase-1 response to a list of offered methods.
pub open spec fn method_reply_spec(offered: Seq<u8>) -> Seq<u8> {
    match first_supported(offered) {
        Some(m) => seq![SOCKS_VERSION, m],
        None => seq![SOCKS_VERSION, METHOD_NONE_ACCEPTABLE],
    }
}

/// The selected method is the first offered method that is supported, and
/// there is none exactly when no offered method is supported.
pub proof fn lemma_first_supported(s: Seq<u8>)
    ensures
        first_supported(s) is None <==> forall|j: int| 0 <= j < s.len() ==> !method_supported(s[j]),
        first_supported(s) is Some ==> exists|i: int|
            0 <= i < s.len() && s[i] == first_supported(s)->0 && method_supported(s[i]) && forall|j: int|
                0 <= j < i ==> !method_supported(#[trigger] s[j]),
    decreases s.len(),
{
    if s.len() > 0 && !method_supported(s[0]) {
        let t = s.drop_first();
        lemma_first_supported(t);
        assert forall|j: int| 0 <= j < t.len() implies t[j] == s[j + 1] by {}
        if first_supported(t) is Some {
            let i = choose|i: int|
                0 <= i < t.len() && t[i] == first_supported(t)->0 && method_supported(t[i]) && forall|j: int|
                    0 <= j < i ==> !method_supported(#[trigger] t[j]);
            assert(s[i + 1] == t[i]);
            assert forall|j: int| 0 <= j < i + 1 implies !method_supported(#[trigger] s[j]) by {
                if j > 0 {
                    assert(s[j] == t[j - 1]);
                }
            }
        } else {
            assert forall|j: int| 0 <= j < s.len() implies !method_supported(s[j]) by {
                if j > 0 {
                    assert(s[j] == t[j - 1]);
                }
            }
        }
    }
}

/// Picks the first offered method that the server supports.
pub fn select_method(offered: &[u8]) -> (r: Option<u8>)
    ensures
        r == first_supported(offered@),
{
    let mut i: usize = 0;
    assert(offered@.subrange(0, offered@.len() as int) == offered@);
    while i < offered.len()
        invariant
            i <= offered@.len(),
            first_supported(offered@) == first_supported(offered@.subrange(i as int, offered@.len() as int)),
        decreases offered@.len() - i,
    {
        proof {
            let rest = offered@.subrange(i as int, offered@.len() as int);
            assert(rest[0] == offered@[i as int]);
            assert(rest.drop_first() == offered@.subrange(i + 1, offered@.len() as int));
        }
        if offered[i] == METHOD_NO_AUTH || offered[i] == METHOD_USERNAME_PASSWORD {
            return Some(offered[i]);
        }
        i = i + 1;
    }
    None
}

/// The two-byte phase-1 response: version 5 and the selected method, or
/// `0xFF` when no offered method is acceptable.
pub fn method_reply(offered: &[u8]) -> (r: Vec<u8>)
    ensures
        r@ == method_reply_spec(offered@),
{
    let m = match select_method(offered) {
        Some(m) => m,
        None => METHOD_NONE_ACCEPTABLE,
    };
    let r: Vec<u8> = vec![SOCKS_VERSION, m];
    assert(r@ == method_reply_spec(offered@));
    r
}

/// Decodes a phase-1 greeting from the front of `input`, giving the
/// offered methods.
pub fn decode_greeting(input: &[u8]) -> (r: Result<Vec<u8>, HandshakeError>)
    ensures
        match r {
            Ok(m) => decode_greeting_spec(input@) == Ok::<Seq<u8>, HandshakeError>(m@),
            Err(e) => decode_greeting_spec(input@) == Err::<Seq<u8>, HandshakeError>(e),
        },
{
    if input.len() < 2 {
        return Err(HandshakeError::IncompleteFrame);
    }
    if input[0] != SOCKS_VERSION {
        return Err(HandshakeError::ProtocolVersionError);
    }
    let count: usize = input[1] as usize;
    if count == 0 {
        return Err(HandshakeError::InvalidMethodCount);
    }
    if input.len() - 2 < count {
        return Err(HandshakeError::IncompleteFrame);
    }
    let mut methods: Vec<u8> = Vec::new();
    let end: usize = 2 + count;
    let mut i: usize = 2;
    while i < end
        invariant
            2 <= i <= end <= input@.len(),
            end == 2 + count,
            methods@ == input@.subrange(2, i as int),
        decreases end - i,
    {
        methods.push(input[i]);
        assert(methods@ == input@.subrange(2, i + 1));
        i = i + 1;
    }
    Ok(methods)
}

/// Where a connection's handshake stands.
#[derive(Debug)]
pub enum Phase {
    /// Reading the greeting: version, method count and methods.
    Negotiating,
    /// A method was selected; reading the destination request.
    Requesting,
    /// The destination request was read in full.
    Done(DestinationRequest),
    /// The handshake failed; the connection is to be closed.
    Failed(HandshakeError),
}

/// Mathematical model of `Phase`.
pub enum PhaseModel {
    Negotiating,
    Requesting,
    Done(RequestModel),
    Failed(HandshakeError),
}

impl View for Phase {
    type V = PhaseModel;

    open spec fn view(&self) -> PhaseModel {
        match self {
            Phase::Negotiating => PhaseModel::Negotiating,
            Phase::Requesting => PhaseModel::Requesting,
            Phase::Done(r) => PhaseModel::Done(r@),
            Phase::Failed(e) => PhaseModel::Failed(*e),
        }
    }
}

/// The per-connection SOCKS5 handshake state machine. It is fed the bytes
/// the client sends, one at a time, and says what to write back; the
/// caller does the reading and writing.
pub struct Handshake {
    phase: Phase,
    buffer: Vec<u8>,
}

/// What one byte does to the handshake: the next phase, the bytes of the
/// current frame kept so far, and the response to write, if any.
pub open spec fn step_spec(p: PhaseModel, buf: Seq<u8>, byte: u8) -> (PhaseModel, Seq<u8>, Option<Seq<u8>>) {
    match p {
        PhaseModel::Negotiating => {
            let b = buf.push(byte);
            match decode_greeting_spec(b) {
                Err(HandshakeError::IncompleteFrame) => (PhaseModel::Negotiating, b, None),
                Err(e) => (PhaseModel::Failed(e), b, None),
                Ok(methods) => match first_supported(methods) {
                    Some(m) => (PhaseModel::Requesting, Seq::empty(), Some(method_reply_spec(methods))),
                    None => (
                        PhaseModel::Failed(HandshakeError::NoAcceptableMethod),
                        b,
                        Some(method_reply_spec(methods)),
                    ),
                },
            }
        },
        PhaseModel::Requesting => {
            let b = buf.push(byte);
            match decode_request_spec(b) {
                Err(HandshakeError::IncompleteFrame) => (PhaseModel::Requesting, b, None),
                Err(e) => (PhaseModel::Failed(e), b, None),
                Ok((req, _)) => (PhaseModel::Done(req), b, None),
            }
        },
        _ => (p, buf, None),
    }
}

/// How many more bytes the current frame needs, as far as the bytes
/// received so far tell; zero once the handshake has ended.
pub open spec fn needed_spec(p: PhaseModel, b: Seq<u8>) -> int {
    match p {
        PhaseModel::Negotiating => if b.len() < 2 {
            2 - b.len()
        } else {
            2 + b[1] - b.len()
        },
        PhaseModel::Requesting => if b.len() < 4 {
            4 - b.len()
        } else if b[3] == ATYP_DOMAIN {
            if b.len() < 5 {
                5 - b.len()
            } else {
                5 + b[4] + 2 - b.len()
            }
        } else {
            4 + fixed_address_len(b[3]) + 2 - b.len()
        },
        _ => 0,
    }
}

/// The view of an optional response.
pub open spec fn reply_view(r: Option<Vec<u8>>) -> Option<Seq<u8>> {
    match r {
        Some(v) => Some(v@),
        None => None,
    }
}

impl Handshake {
    pub closed spec fn phase_view(&self) -> PhaseModel {
        self.phase@
    }

    pub closed spec fn buffer_view(&self) -> Seq<u8> {
        self.buffer@
    }

    /// While the handshake runs, the bytes kept are a proper prefix of the
    /// frame being read.
    pub closed spec fn wf(&self) -> bool {
        match self.phase@ {
            PhaseModel::Negotiating => decode_greeting_spec(self.buffer@) == Err::<Seq<u8>, HandshakeError>(
                HandshakeError::IncompleteFrame,
            ),
            PhaseModel::Requesting => decode_request_spec(self.buffer@) == Err::<(RequestModel, int), HandshakeError>(
                HandshakeError::IncompleteFrame,
            ),
            _ => true,
        }
    }

    /// A handshake that waits for the client's greeting.
    pub fn new() -> (r: Handshake)
        ensures
            r.wf(),
            r.phase_view() == PhaseModel::Negotiating,
            r.buffer_view() == Seq::<u8>::empty(),
    {
        Handshake { phase: Phase::Negotiating, buffer: Vec::new() }
    }

    /// Takes one byte from the client and returns the response to write,
    /// if this byte completes the greeting.
    pub fn feed(&mut self, byte: u8) -> (reply: Option<Vec<u8>>)
        requires
            old(self).wf(),
        ensures
            final(self).wf(),
            (final(self).phase_view(), final(self).buffer_view(), reply_view(reply)) == step_spec(
                old(self).phase_view(),
                old(self).buffer_view(),
                byte,
            ),
    {
        match self.phase {
            Phase::Negotiating => {
                self.buffer.push(byte);
                match decode_greeting(self.buffer.as_slice()) {
                    Err(HandshakeError::IncompleteFrame) => None,
                    Err(e) => {
                        self.phase = Phase::Failed(e);
                        None
                    },
                    Ok(methods) => {
                        let reply = method_reply(methods.as_slice());
                        match select_method(methods.as_slice()) {
                            Some(_) => {
                                self.phase = Phase::Requesting;
                                self.buffer = Vec::new();
                            },
                            None => {
                                self.phase = Phase::Failed(HandshakeError::NoAcceptableMethod);
                            },
                        }
                        Some(reply)
                    },
                }
            },
            Phase::Requesting => {
                self.buffer.push(byte);
                match decode_destination_request(self.buffer.as_slice()) {
                    Err(HandshakeError::IncompleteFrame) => None,
                    Err(e) => {
                        self.phase = Phase::Failed(e);
                        None
                    },
                    Ok((req, _)) => {
                        self.phase = Phase::Done(req);
                        None
                    },
                }
            },
            _ => None,
        }
    }

    /// How many more bytes the frame being read needs: at least one while
    /// the handshake runs, zero once it has ended.
    pub fn needed(&self) -> (r: usize)
        requires
            self.wf(),
        ensures
            r == needed_spec(self.phase_view(), self.buffer_view()),
            (self.phase_view() is Negotiating || self.phase_view() is Requesting) ==> r >= 1,
    {
        let len = self.buffer.len();
        match self.phase {
            Phase::Negotiating => {
                if len < 2 {
                    2 - len
                } else {
                    2 + self.buffer[1] as usize - len
                }
            },
            Phase::Requesting => {
                if len < 4 {
                    4 - len
                } else if self.buffer[3] == ATYP_DOMAIN {
                    if len < 5 {
                        5 - len
                    } else {
                        5 + self.buffer[4] as usize + 2 - len
                    }
                } else if self.buffer[3] == ATYP_IPV4 {
                    4 + 4 + 2 - len
                } else {
                    4 + 16 + 2 - len
                }
            },
            _ => 0,
        }
    }

    /// The phase the handshake has reached.
    pub fn phase(&self) -> (r: &Phase)
        ensures
            r@ == self.phase_view(),
    {
        &self.phase
    }
}

/// The bytes of an optional response; none is no bytes.
pub open spec fn reply_bytes(r: Option<Seq<u8>>) -> Seq<u8> {
    match r {
        Some(b) => b,
        None => Seq::empty(),
    }
}

/// The handshake after it is fed `bytes` one at a time: the phase, the
/// bytes of the current frame kept, and every response written, in order.
pub open spec fn feed_all_spec(p: PhaseModel, buf: Seq<u8>, bytes: Seq<u8>) -> (PhaseModel, Seq<u8>, Seq<u8>)
    decreases bytes.len(),
{
    if bytes.len() == 0 {
        (p, buf, Seq::empty())
    } else {
        let (next_phase, b1, r1) = step_spec(p, buf, bytes[0]);
        let (last_phase, b2, r2) = feed_all_spec(next_phase, b1, bytes.drop_first());
        (last_phase, b2, reply_bytes(r1) + r2)
    }
}

/// Feeding a complete greeting to a fresh handshake writes exactly one
/// response, `05` and the first offered method that is supported; when no
/// offered method is supported the response is `05 FF` and the handshake
/// fails with `NoAcceptableMethod`, so that the connection is closed.
pub proof fn lemma_greeting_reply(g: Seq<u8>)
    requires
        decode_greeting_spec(g) is Ok,
        g.len() == 2 + g[1],
    ensures
        ({
            let methods = g.subrange(2, g.len() as int);
            let (p, b, replies) = feed_all_spec(PhaseModel::Negotiating, Seq::empty(), g);
            &&& replies == method_reply_spec(methods)
            &&& first_supported(methods) is Some ==> p == PhaseModel::Requesting && b == Seq::<u8>::empty()
            &&& first_supported(methods) is None ==> p == PhaseModel::Failed(HandshakeError::NoAcceptableMethod)
                && replies == seq![SOCKS_VERSION, METHOD_NONE_ACCEPTABLE]
        }),
{
    assert(g.subrange(0, 0) == Seq::<u8>::empty());
    assert(g.subrange(0, g.len() as int) == g);
    lemma_greeting_suffix(g, 0);
}

/// Induction step of `lemma_greeting_reply`: the handshake holding the
/// first `k` bytes of the greeting, fed the rest.
proof fn lemma_greeting_suffix(g: Seq<u8>, k: int)
    requires
        decode_greeting_spec(g) is Ok,
        g.len() == 2 + g[1],
        0 <= k < g.len(),
    ensures
        ({
            let methods = g.subrange(2, g.len() as int);
            let (p, b, replies) = feed_all_spec(
                PhaseModel::Negotiating,
                g.subrange(0, k),
                g.subrange(k, g.len() as int),
            );
            &&& replies == method_reply_spec(methods)
            &&& first_supported(methods) is Some ==> p == PhaseModel::Requesting && b == Seq::<u8>::empty()
            &&& first_supported(methods) is None ==> p == PhaseModel::Failed(HandshakeError::NoAcceptableMethod)
        }),
    decreases g.len() - k,
{
    let rest = g.subrange(k, g.len() as int);
    let pre = g.subrange(0, k + 1);
    assert(g.subrange(0, k).push(rest[0]) == pre);
    assert(rest.drop_first() == g.subrange(k + 1, g.len() as int));
    let methods = g.subrange(2, g.len() as int);
    if k + 1 < g.len() {
        if k + 1 >= 2 {
            assert(pre[0] == g[0] && pre[1] == g[1]);
        }
        assert(decode_greeting_spec(pre) == Err::<Seq<u8>, HandshakeError>(HandshakeError::IncompleteFrame));
        lemma_greeting_suffix(g, k + 1);
        let (last_phase, b2, r2) = feed_all_spec(PhaseModel::Negotiating, pre, rest.drop_first());
        assert(step_spec(PhaseModel::Negotiating, g.subrange(0, k), rest[0]) == (PhaseModel::Negotiating, pre, None::<Seq<u8>>));
        assert(reply_bytes(None) + r2 == r2);
    } else {
        assert(pre == g);
        assert(rest.drop_first().len() == 0);
        let (next_phase, b1, r1) = step_spec(PhaseModel::Negotiating, g.subrange(0, k), rest[0]);
        assert(r1 == Some(method_reply_spec(methods)));
        assert(reply_bytes(r1) + Seq::<u8>::empty() == method_reply_spec(methods));
        assert(feed_all_spec(next_phase, b1, rest.drop_first()) == (next_phase, b1, Seq::<u8>::empty()));
    }
}

/// Every proper prefix of a complete request frame is incomplete.
proof fn lemma_request_prefix_incomplete(b: Seq<u8>, k: int)
    requires
        decode_request_spec(b) is Ok,
        decode_request_spec(b)->Ok_0.1 == b.len(),
        0 <= k < b.len(),
    ensures
        decode_request_spec(b.subrange(0, k)) == Err::<(RequestModel, int), HandshakeError>(
            HandshakeError::IncompleteFrame,
        ),
{
    let pre = b.subrange(0, k);
    if k >= 4 {
        assert(pre[3] == b[3]);
        let tail = b.subrange(4, b.len() as int);
        let ptail = pre.subrange(4, k);
        assert(ptail == tail.subrange(0, k - 4));
        if k >= 5 {
            assert(ptail[0] == tail[0]);
        }
        let n = decode_address_spec(b[3], tail)->Ok_0.1;
        if decode_address_spec(b[3], ptail) is Ok {
            assert(decode_address_spec(b[3], ptail)->Ok_0.1 == n);
            assert(pre.subrange(4 + n, k).len() < 2);
        }
    }
}

/// Fed a complete request frame after the method was selected, the
/// handshake ends with the request that the frame decodes to, and writes
/// nothing.
pub proof fn lemma_request_parsed(b: Seq<u8>)
    requires
        decode_request_spec(b) is Ok,
        decode_request_spec(b)->Ok_0.1 == b.len(),
    ensures
        feed_all_spec(PhaseModel::Requesting, Seq::empty(), b) == (
            PhaseModel::Done(decode_request_spec(b)->Ok_0.0),
            b,
            Seq::<u8>::empty(),
        ),
{
    assert(b.subrange(0, 0) == Seq::<u8>::empty());
    assert(b.subrange(0, b.len() as int) == b);
    assert(b.len() >= 4);
    lemma_request_suffix(b, 0);
}

/// Induction step of `lemma_request_parsed`.
proof fn lemma_request_suffix(b: Seq<u8>, k: int)
    requires
        decode_request_spec(b) is Ok,
        decode_request_spec(b)->Ok_0.1 == b.len(),
        0 <= k < b.len(),
    ensures
        feed_all_spec(PhaseModel::Requesting, b.subrange(0, k), b.subrange(k, b.len() as int)) == (
            PhaseModel::Done(decode_request_spec(b)->Ok_0.0),
            b,
            Seq::<u8>::empty(),
        ),
    decreases b.len() - k,
{
    let rest = b.subrange(k, b.len() as int);
    let pre = b.subrange(0, k + 1);
    assert(b.subrange(0, k).push(rest[0]) == pre);
    assert(rest.drop_first() == b.subrange(k + 1, b.len() as int));
    if k + 1 < b.len() {
        lemma_request_prefix_incomplete(b, k + 1);
        lemma_request_suffix(b, k + 1);
        let (last_phase, b2, r2) = feed_all_spec(PhaseModel::Requesting, pre, rest.drop_first());
        assert(reply_bytes(None) + r2 == r2);
    } else {
        assert(pre == b);
        assert(rest.drop_first().len() == 0);
        let (next_phase, b1, r1) = step_spec(PhaseModel::Requesting, b.subrange(0, k), rest[0]);
        assert(feed_all_spec(next_phase, b1, rest.drop_first()) == (next_phase, b1, Seq::<u8>::empty()));
        assert(reply_bytes(None) + Seq::<u8>::empty() == Seq::<u8>::empty());
    }
}

/// Feeding `x` and then `y` is feeding `x + y`.
proof fn lemma_feed_all_append(p: PhaseModel, buf: Seq<u8>, x: Seq<u8>, y: Seq<u8>)
    ensures
        ({
            let (next_phase, b1, r1) = feed_all_spec(p, buf, x);
            let (last_phase, b2, r2) = feed_all_spec(next_phase, b1, y);
            feed_all_spec(p, buf, x + y) == (last_phase, b2, r1 + r2)
        }),
    decreases x.len(),
{
    if x.len() == 0 {
        assert(x + y == y);
        let (last_phase, b2, r2) = feed_all_spec(p, buf, y);
        assert(Seq::<u8>::empty() + r2 == r2);
    } else {
        let (q, c, r) = step_spec(p, buf, x[0]);
        assert((x + y).drop_first() == x.drop_first() + y);
        assert((x + y)[0] == x[0]);
        lemma_feed_all_append(q, c, x.drop_first(), y);
        let (next_phase, b1, r1) = feed_all_spec(q, c, x.drop_first());
        let (last_phase, b2, r2) = feed_all_spec(next_phase, b1, y);
        assert(reply_bytes(r) + (r1 + r2) == (reply_bytes(r) + r1) + r2);
    }
}

/// A whole handshake: a fresh handshake fed a complete greeting that
/// offers a supported method, then a complete request, answers only
/// `05` and the selected method, and ends with the decoded request.
pub proof fn lemma_full_handshake(g: Seq<u8>, b: Seq<u8>)
    requires
        decode_greeting_spec(g) is Ok,
        g.len() == 2 + g[1],
        first_supported(g.subrange(2, g.len() as int)) is Some,
        decode_request_spec(b) is Ok,
        decode_request_spec(b)->Ok_0.1 == b.len(),
    ensures
        feed_all_spec(PhaseModel::Negotiating, Seq::empty(), g + b) == (
            PhaseModel::Done(decode_request_spec(b)->Ok_0.0),
            b,
            seq![SOCKS_VERSION, first_supported(g.subrange(2, g.len() as int))->0],
        ),
{
    lemma_greeting_reply(g);
    lemma_request_parsed(b);
    lemma_feed_all_append(PhaseModel::Negotiating, Seq::empty(), g, b);
    let (next_phase, b1, r1) = feed_all_spec(PhaseModel::Negotiating, Seq::empty(), g);
    assert(r1 + Seq::<u8>::empty() == r1);
}

} // verus!
