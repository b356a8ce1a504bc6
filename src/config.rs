use vstd::prelude::*;

verus! {

/// Which side of the tunnel a configuration file describes.
#[derive(Clone, Copy, Debug, PartialEq, Eq, Structural)]
pub enum RelayerType {
    CLIENT,
    SERVER,
}

/// Name of the configuration file read for each side.
pub open spec fn config_file_name_spec(t: RelayerType) -> Seq<char> {
    match t {
        RelayerType::CLIENT => "relayc.json"@,
        RelayerType::SERVER => "relays.json"@,
    }
}

pub fn config_file_name(t: RelayerType) -> (r: &'static str)
    ensures
        r@ == config_file_name_spec(t),
{
    match t {
        RelayerType::CLIENT => "relayc.json",
        RelayerType::SERVER => "relays.json",
    }
}

/// The listen and remote endpoints of one side of the tunnel. Without a
/// remote host and port the server learns each destination from the
/// SOCKS5 handshake.
#[derive(Clone, Debug)]
pub struct RelayerConfig {
    pub lhost: String,
    pub lport: u16,
    pub rhost: Option<String>,
    pub rport: Option<u16>,
}

/// The decimal digit character of `d`, for `d < 10`.
pub open spec fn digit_char(d: nat) -> char {
    ('0' as u32 + d) as char
}

/// The decimal representation of `n`, without leading zeros.
pub open spec fn decimal(n: nat) -> Seq<char>
    decreases n,
{
    if n < 10 {
        seq![digit_char(n)]
    } else {
        decimal(n / 10) + seq![digit_char(n % 10)]
    }
}

/// `host:port`, the port written in decimal.
pub open spec fn host_port(host: Seq<char>, port: u16) -> Seq<char> {
    host + seq![':'] + decimal(port as nat)
}

/// The one-character string of the decimal digit `d`.
fn digit_str(d: u16) -> (r: &'static str)
    requires
        d < 10,
    ensures
        r@ == seq![digit_char(d as nat)],
{
    proof {
        reveal_strlit("0");
        reveal_strlit("1");
        reveal_strlit("2");
        reveal_strlit("3");
        reveal_strlit("4");
        reveal_strlit("5");
        reveal_strlit("6");
        reveal_strlit("7");
        reveal_strlit("8");
        reveal_strlit("9");
    }
    match d {
        0 => "0",
        1 => "1",
        2 => "2",
        3 => "3",
        4 => "4",
        5 => "5",
        6 => "6",
        7 => "7",
        8 => "8",
        _ => "9",
    }
}

/// Appends `n` in decimal to `s`.
fn append_decimal(s: &mut String, n: u16)
    ensures
        final(s)@ == old(s)@ + decimal(n as nat),
    decreases n,
{
    if n >= 10 {
        append_decimal(s, n / 10);
    }
    s.append(digit_str(n % 10));
    assert(old(s)@ + decimal(n as nat) == old(s)@ + (if n >= 10 { decimal((n / 10) as nat) } else { seq![] }) + seq![digit_char((n % 10) as nat)]);
}

/// `host:port` as a string.
fn join_host_port(host: &String, port: u16) -> (r: String)
    ensures
        r@ == host_port(host@, port),
{
    let mut r = host.clone();
    r.append(":");
    proof {
        reveal_strlit(":");
    }
    append_decimal(&mut r, port);
    r
}

/// How connections are served, fixed for the life of the process.
#[derive(Clone, Debug)]
pub enum Mode {
    /// Every connection is tunnelled to this `host:port`.
    StaticRelay(String),
    /// Every connection negotiates its destination with SOCKS5.
    Socks5Proxy,
}

impl RelayerConfig {
    /// The operating mode: a static relay to the remote endpoint when both
    /// the remote host and port are set, a SOCKS5 proxy otherwise.
    pub fn mode(&self) -> (r: Mode)
        ensures
            match (self.rhost, self.rport) {
                (Some(h), Some(p)) => r matches Mode::StaticRelay(a) && a@ == host_port(h@, p),
                _ => r is Socks5Proxy,
            },
    {
        match self.get_server_addr() {
            Some(a) => Mode::StaticRelay(a),
            None => Mode::Socks5Proxy,
        }
    }

    /// The remote endpoint as `host:port`, present only when both the
    /// remote host and the remote port are set.
    pub fn get_server_addr(&self) -> (r: Option<String>)
        ensures
            match (self.rhost, self.rport) {
                (Some(h), Some(p)) => r is Some && r->0@ == host_port(h@, p),
                _ => r is None,
            },
    {
        if let Some(rhost) = self.rhost.as_ref() {
            if let Some(rport) = self.rport.as_ref() {
                return Some(join_host_port(rhost, *rport));
            }
        }
        None
    }

    /// The listen endpoint as `host:port`.
    pub fn get_local_addr(&self) -> (r: String)
        ensures
            r@ == host_port(self.lhost@, self.lport),
    {
        join_host_port(&self.lhost, self.lport)
    }

    /// A one-line description: `local: host:port`, followed by
    /// `; remote: remote: host:port` when a remote endpoint is set.
    pub fn describe(&self) -> (r: String)
        ensures
            r@ == match (self.rhost, self.rport) {
                (Some(h), Some(p)) => "local: "@ + host_port(self.lhost@, self.lport) + "; remote: remote: "@
                    + host_port(h@, p),
                _ => "local: "@ + host_port(self.lhost@, self.lport),
            },
    {
        let mut r = String::from_str("local: ");
        r.append(self.get_local_addr().as_str());
        if let Some(rhost) = self.rhost.as_ref() {
            if let Some(rport) = self.rport.as_ref() {
                r.append("; remote: remote: ");
                r.append(join_host_port(rhost, *rport).as_str());
            }
        }
        r
    }
}

} // verus!
