//! Server addresses: an IPv4 address and a port.
use vstd::prelude::*;
use crate::ordered_map::OrderedKey;
use crate::text::{decimal, push_decimal, string_from_chars};

verus! {

/// An IPv4 address, as its four octets.
#[derive(Clone, Copy, Debug, PartialEq, Eq, PartialOrd, Ord, Hash, Structural)]
pub struct Ipv4Addr {
    a: u8,
    b: u8,
    c: u8,
    d: u8,
}

impl View for Ipv4Addr {
    type V = (u8, u8, u8, u8);

    closed spec fn view(&self) -> (u8, u8, u8, u8) {
        (self.a, self.b, self.c, self.d)
    }
}

/// The dotted-decimal writing of an address, such as `127.0.0.1`.
pub open spec fn ipv4_text(ip: (u8, u8, u8, u8)) -> Seq<char> {
    decimal(ip.0 as nat) + seq!['.'] + decimal(ip.1 as nat) + seq!['.'] + decimal(ip.2 as nat)
        + seq!['.'] + decimal(ip.3 as nat)
}

/// The writing `address:port` of an address and port.
pub open spec fn ip_port_text(ip: (u8, u8, u8, u8), port: u16) -> Seq<char> {
    ipv4_text(ip) + seq![':'] + decimal(port as nat)
}

impl Ipv4Addr {
    pub fn new(a: u8, b: u8, c: u8, d: u8) -> (ip: Ipv4Addr)
        ensures
            ip@ == (a, b, c, d),
    {
        Ipv4Addr { a, b, c, d }
    }

    /// The address `0.0.0.0`.
    pub fn unspecified() -> (ip: Ipv4Addr)
        ensures
            ip@ == (0u8, 0u8, 0u8, 0u8),
    {
        Ipv4Addr { a: 0, b: 0, c: 0, d: 0 }
    }

    pub fn octets(&self) -> (o: [u8; 4])
        ensures
            o@ == seq![self@.0, self@.1, self@.2, self@.3],
    {
        [self.a, self.b, self.c, self.d]
    }

    /// Appends the dotted-decimal writing to `out`.
    pub fn write_text(&self, out: &mut Vec<char>)
        ensures
            final(out)@ == old(out)@ + ipv4_text(self@),
    {
        push_decimal(out, self.a as u64);
        out.push('.');
        push_decimal(out, self.b as u64);
        out.push('.');
        push_decimal(out, self.c as u64);
        out.push('.');
        push_decimal(out, self.d as u64);
        assert(final(out)@ =~= old(out)@ + ipv4_text(self@));
    }

    /// The dotted-decimal writing, as `Display` writes it.
    pub fn to_string(&self) -> (s: String)
        ensures
            s@ == ipv4_text(self@),
    {
        let mut out: Vec<char> = Vec::new();
        self.write_text(&mut out);
        assert(out@ =~= ipv4_text(self@));
        string_from_chars(&out)
    }

    /// Equality of addresses.
    pub fn same_as(&self, other: &Ipv4Addr) -> (r: bool)
        ensures
            r == (self@ == other@),
    {
        self.a == other.a && self.b == other.b && self.c == other.c && self.d == other.d
    }
}

impl OrderedKey for Ipv4Addr {
    open spec fn key_model(&self) -> Seq<u32> {
        seq![self@.0 as u32, self@.1 as u32, self@.2 as u32, self@.3 as u32]
    }

    fn key_code(&self) -> (r: Vec<u32>) {
        let mut r: Vec<u32> = Vec::new();
        r.push(self.a as u32);
        r.push(self.b as u32);
        r.push(self.c as u32);
        r.push(self.d as u32);
        assert(r@ =~= self.key_model());
        r
    }
}

/// The unique key identifying a server.
#[derive(Clone, Copy, Debug, PartialEq, Eq, PartialOrd, Ord, Hash, Structural)]
pub struct IpPort {
    ip: Ipv4Addr,
    port: u16,
}

impl View for IpPort {
    type V = ((u8, u8, u8, u8), u16);

    closed spec fn view(&self) -> ((u8, u8, u8, u8), u16) {
        (self.ip@, self.port)
    }
}

impl IpPort {
    pub fn new(ip: Ipv4Addr, port: u16) -> (r: IpPort)
        ensures
            r@ == (ip@, port),
    {
        IpPort { ip, port }
    }

    pub fn ip(&self) -> (ip: &Ipv4Addr)
        ensures
            ip@ == self@.0,
    {
        &self.ip
    }

    pub fn port(&self) -> (p: u16)
        ensures
            p == self@.1,
    {
        self.port
    }

    /// Appends `address:port` to `out`.
    pub fn write_text(&self, out: &mut Vec<char>)
        ensures
            final(out)@ == old(out)@ + ip_port_text(self@.0, self@.1),
    {
        self.ip.write_text(out);
        out.push(':');
        push_decimal(out, self.port as u64);
        assert(final(out)@ =~= old(out)@ + ip_port_text(self@.0, self@.1));
    }

    /// `address:port`, as `Display` writes it.
    pub fn to_string(&self) -> (s: String)
        ensures
            s@ == ip_port_text(self@.0, self@.1),
    {
        let mut out: Vec<char> = Vec::new();
        self.write_text(&mut out);
        assert(out@ =~= ip_port_text(self@.0, self@.1));
        string_from_chars(&out)
    }

    /// The console command that joins the server: `connect address:port`.
    pub fn steam_connection_string(&self) -> (s: String)
        ensures
            s@ == seq!['c', 'o', 'n', 'n', 'e', 'c', 't', ' '] + ip_port_text(self@.0, self@.1),
    {
        let mut out: Vec<char> = Vec::new();
        out.push('c');
        out.push('o');
        out.push('n');
        out.push('n');
        out.push('e');
        out.push('c');
        out.push('t');
        out.push(' ');
        self.write_text(&mut out);
        assert(out@ =~= seq!['c', 'o', 'n', 'n', 'e', 'c', 't', ' '] + ip_port_text(self@.0, self@.1));
        string_from_chars(&out)
    }

    /// Equality of addresses and ports.
    pub fn same_as(&self, other: &IpPort) -> (r: bool)
        ensures
            r == (self@ == other@),
    {
        self.ip.same_as(&other.ip) && self.port == other.port
    }
}

impl Default for IpPort {
    /// `0.0.0.0:0`.
    fn default() -> (r: IpPort)
        ensures
            r@ == ((0u8, 0u8, 0u8, 0u8), 0u16),
    {
        IpPort { ip: Ipv4Addr::unspecified(), port: 0 }
    }
}

impl OrderedKey for IpPort {
    open spec fn key_model(&self) -> Seq<u32> {
        seq![self@.0.0 as u32, self@.0.1 as u32, self@.0.2 as u32, self@.0.3 as u32, self@.1 as u32]
    }

    fn key_code(&self) -> (r: Vec<u32>) {
        let mut r = self.ip.key_code();
        r.push(self.port as u32);
        assert(r@ =~= self.key_model());
        r
    }
}

} // verus!
