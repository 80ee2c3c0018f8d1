//! Blacklisted servers: entries given as a text, an address or an address with a port.
use vstd::prelude::*;
use crate::application::ip_port::{IpPort, Ipv4Addr, ip_port_text, ipv4_text};
use crate::application::paths::DirPath;
use crate::application::server::Server;
use crate::keys::chars_of;
use crate::text::{
    contains_text, copy_text, occurs_at, decimal, digit_char, is_blank, string_from_chars, text_contains, text_equal,
    text_is_blank,
};

verus! {

pub open spec fn is_ascii_digit(c: char) -> bool {
    '0' <= c && c <= '9'
}

pub open spec fn digit_of(c: char) -> nat {
    ((c as u32) - ('0' as u32)) as nat
}

/// How many decimal digits `s` begins with.
pub open spec fn digits_prefix_len(s: Seq<char>) -> nat
    decreases s.len(),
{
    if s.len() > 0 && is_ascii_digit(s[0]) {
        1 + digits_prefix_len(s.drop_first())
    } else {
        0
    }
}

/// The value of a run of decimal digits, most significant first.
pub open spec fn digits_value(s: Seq<char>) -> nat
    decreases s.len(),
{
    if s.len() == 0 {
        0
    } else {
        digits_value(s.drop_last()) * 10 + digit_of(s.last())
    }
}

/// The number that `s` begins with, when it has at least one digit and is no
/// greater than `max`, and what follows its digits.
pub open spec fn read_number(s: Seq<char>, max: nat) -> Option<(nat, Seq<char>)> {
    let n = digits_prefix_len(s) as int;
    if n == 0 || digits_value(s.take(n)) > max {
        None
    } else {
        Some((digits_value(s.take(n)), s.skip(n)))
    }
}

/// What follows `c` when `s` begins with it.
pub open spec fn read_char(s: Seq<char>, c: char) -> Option<Seq<char>> {
    if s.len() > 0 && s[0] == c {
        Some(s.drop_first())
    } else {
        None
    }
}

pub proof fn lemma_digits_prefix_len(t: Seq<char>, n: int)
    requires
        0 <= n <= t.len(),
        forall|j: int| 0 <= j < n ==> is_ascii_digit(#[trigger] t[j]),
        n == t.len() || !is_ascii_digit(t[n]),
    ensures
        digits_prefix_len(t) == n,
    decreases n,
{
    if n > 0 {
        let u = t.drop_first();
        assert forall|j: int| 0 <= j < n - 1 implies is_ascii_digit(#[trigger] u[j]) by {
            assert(u[j] == t[j + 1]);
        }
        lemma_digits_prefix_len(u, n - 1);
    }
}

/// The digits of `s[i..]`: their value, capped just above `max`, and where they end.
fn scan_number(s: &Vec<char>, i: usize, max: u64) -> (r: Option<(u64, usize)>)
    requires
        i <= s.len(),
        max < 0x1_0000,
    ensures
        match read_number(s@.skip(i as int), max as nat) {
            None => r is None,
            Some((v, rest)) => r matches Some((w, j)) && w == v && i < j <= s.len() && s@.skip(
                j as int,
            ) == rest,
        },
{
    let mut k: usize = i;
    let mut value: u64 = 0;
    let mut over = false;
    assert(s@.subrange(i as int, i as int) =~= Seq::<char>::empty());
    while k < s.len() && '0' <= s[k] && s[k] <= '9'
        invariant
            i <= k <= s.len(),
            max < 0x1_0000,
            forall|j: int| i <= j < k ==> is_ascii_digit(#[trigger] s@[j]),
            over == (digits_value(s@.subrange(i as int, k as int)) > max),
            !over ==> value == digits_value(s@.subrange(i as int, k as int)),
            value <= max,
        decreases s.len() - k,
    {
        let c = s[k];
        let d = (c as u32 - '0' as u32) as u64;
        let ghost before = s@.subrange(i as int, k as int);
        let ghost after = s@.subrange(i as int, k + 1);
        assert(after.drop_last() =~= before);
        assert(after.last() == c);
        assert(digits_value(after) == digits_value(before) * 10 + digit_of(c));
        if !over {
            let next = value * 10 + d;
            if next > max {
                over = true;
            } else {
                value = next;
            }
        }
        k = k + 1;
    }
    let ghost t = s@.skip(i as int);
    proof {
        assert forall|j: int| 0 <= j < k - i implies is_ascii_digit(#[trigger] t[j]) by {
            assert(t[j] == s@[i + j]);
        }
        if k < s.len() {
            assert(t[k - i] == s@[k as int]);
        }
        lemma_digits_prefix_len(t, k - i);
        assert(t.take(k - i) =~= s@.subrange(i as int, k as int));
        assert(t.skip(k - i) =~= s@.skip(k as int));
    }
    if k == i || over {
        None
    } else {
        Some((value, k))
    }
}

/// Digit characters read back as their digits.
pub proof fn lemma_digit_of_digit_char(d: nat)
    requires
        d < 10,
    ensures
        is_ascii_digit(digit_char(d)),
        digit_of(digit_char(d)) == d,
{
}

/// The writing of a number is all digits, and reads back as the number.
pub proof fn lemma_decimal_digits(n: nat)
    ensures
        decimal(n).len() > 0,
        forall|j: int| 0 <= j < decimal(n).len() ==> is_ascii_digit(#[trigger] decimal(n)[j]),
        digits_value(decimal(n)) == n,
    decreases n,
{
    if n < 10 {
        lemma_digit_of_digit_char(n);
        assert(decimal(n).drop_last() =~= Seq::<char>::empty());
        assert(decimal(n).last() == digit_char(n));
        assert(digits_value(decimal(n)) == digits_value(decimal(n).drop_last()) * 10 + digit_of(
            decimal(n).last(),
        ));
    } else {
        lemma_decimal_digits(n / 10);
        lemma_digit_of_digit_char(n % 10);
        let w = decimal(n / 10);
        assert(decimal(n) == w.push(digit_char(n % 10)));
        assert(decimal(n).drop_last() =~= w);
        assert(decimal(n).last() == digit_char(n % 10));
        assert(digits_value(decimal(n)) == digits_value(w) * 10 + digit_of(decimal(n).last()));
        assert((n / 10) * 10 + n % 10 == n);
    }
}

/// A number written before a text that does not begin with a digit reads back.
pub proof fn lemma_read_decimal(n: nat, rest: Seq<char>, max: nat)
    requires
        n <= max,
        rest.len() == 0 || !is_ascii_digit(rest[0]),
    ensures
        read_number(decimal(n) + rest, max) == Some((n, rest)),
{
    lemma_decimal_digits(n);
    let w = decimal(n);
    let t = w + rest;
    assert forall|j: int| 0 <= j < w.len() implies is_ascii_digit(#[trigger] t[j]) by {
        assert(t[j] == w[j]);
    }
    if rest.len() > 0 {
        assert(t[w.len() as int] == rest[0]);
    }
    lemma_digits_prefix_len(t, w.len() as int);
    assert(t.take(w.len() as int) =~= w);
    assert(t.skip(w.len() as int) =~= rest);
}

/// An octet followed by `sep`, and what follows them.
pub open spec fn read_octet_then(s: Seq<char>, sep: char) -> Option<(nat, Seq<char>)> {
    match read_number(s, 255) {
        Some((v, rest)) => match read_char(rest, sep) {
            Some(after) => Some((v, after)),
            None => None,
        },
        None => None,
    }
}

/// A dotted-decimal address at the start of `s`, and what follows it.
pub open spec fn read_ipv4(s: Seq<char>) -> Option<((u8, u8, u8, u8), Seq<char>)> {
    match read_octet_then(s, '.') {
        Some((a, r1)) => match read_octet_then(r1, '.') {
            Some((b, r2)) => match read_octet_then(r2, '.') {
                Some((c, r3)) => match read_number(r3, 255) {
                    Some((d, r4)) => Some(((a as u8, b as u8, c as u8, d as u8), r4)),
                    None => None,
                },
                None => None,
            },
            None => None,
        },
        None => None,
    }
}

/// What an entry stands for.
pub enum EntryView {
    Text(Seq<char>),
    Ip((u8, u8, u8, u8)),
    IpPort(((u8, u8, u8, u8), u16)),
}

/// The entry that a line of text gives: `address:port` when it begins with
/// one, else an address when it begins with one, else the whole text. What
/// follows an address or a port is ignored.
pub open spec fn parsed_entry(s: Seq<char>) -> EntryView {
    match read_ipv4(s) {
        Some((ip, rest)) => match read_char(rest, ':') {
            Some(port_text) => match read_number(port_text, 0xFFFF) {
                Some((port, _)) => EntryView::IpPort((ip, port as u16)),
                None => EntryView::Ip(ip),
            },
            None => EntryView::Ip(ip),
        },
        None => EntryView::Text(s),
    }
}

/// What reading an entry leaves of the text: what follows the address or the
/// port; a text entry takes the whole text.
pub open spec fn parse_rest(s: Seq<char>) -> Seq<char> {
    match read_ipv4(s) {
        Some((ip, rest)) => match read_char(rest, ':') {
            Some(port_text) => match read_number(port_text, 0xFFFF) {
                Some((_, after)) => after,
                None => rest,
            },
            None => rest,
        },
        None => Seq::empty(),
    }
}

/// The writing of an entry.
pub open spec fn entry_text(e: EntryView) -> Seq<char> {
    match e {
        EntryView::Text(t) => t,
        EntryView::Ip(ip) => ipv4_text(ip),
        EntryView::IpPort((ip, port)) => ip_port_text(ip, port),
    }
}

/// Whether an entry lets a server through: a text must not occur in its name,
/// an address or an address with port must not be the server's.
pub open spec fn entry_accepts(e: EntryView, server: Server) -> bool {
    match e {
        EntryView::Text(t) => !contains_text(server.name@, t),
        EntryView::Ip(ip) => server.ip_port@.0 != ip,
        EntryView::IpPort(ip_port) => server.ip_port@ != ip_port,
    }
}

/// An address entry rejects exactly the servers at that address, whatever
/// their port; an address-and-port entry exactly the server at that address
/// and port; a text entry exactly the servers whose name holds the text.
pub proof fn lemma_entry_rejects(e: EntryView, server: Server)
    ensures
        e matches EntryView::Ip(ip) ==> (!entry_accepts(e, server) <==> (server.ip_port@.0.0 == ip.0
            && server.ip_port@.0.1 == ip.1 && server.ip_port@.0.2 == ip.2 && server.ip_port@.0.3 == ip.3)),
        e matches EntryView::IpPort(a) ==> (!entry_accepts(e, server) <==> (server.ip_port@.0.0 == a.0.0
            && server.ip_port@.0.1 == a.0.1 && server.ip_port@.0.2 == a.0.2 && server.ip_port@.0.3 == a.0.3
            && server.ip_port@.1 == a.1)),
        e matches EntryView::Text(t) ==> (!entry_accepts(e, server) <==> exists|i: int|
            0 <= i && i + t.len() <= server.name@.len() && #[trigger] server.name@.subrange(i, i + t.len())
                == t),
{
    match e {
        EntryView::Text(t) => {
            if !entry_accepts(e, server) {
                let i = choose|i: int| occurs_at(server.name@, t, i);
                assert(server.name@.subrange(i, i + t.len()) == t);
            }
            if exists|i: int| 0 <= i && i + t.len() <= server.name@.len() && #[trigger] server.name@.subrange(i, i + t.len()) == t {
                let i = choose|i: int| 0 <= i && i + t.len() <= server.name@.len() && #[trigger] server.name@.subrange(i, i + t.len()) == t;
                assert(occurs_at(server.name@, t, i));
            }
        },
        _ => {},
    }
}

fn scan_char(s: &Vec<char>, i: usize, c: char) -> (r: Option<usize>)
    requires
        i <= s.len(),
    ensures
        match read_char(s@.skip(i as int), c) {
            None => r is None,
            Some(rest) => r == Some((i + 1) as usize) && i < s.len() && s@.skip(i + 1) == rest,
        },
{
    if i < s.len() && s[i] == c {
        assert(s@.skip(i as int)[0] == s@[i as int]);
        assert(s@.skip(i as int).drop_first() =~= s@.skip(i + 1));
        Some(i + 1)
    } else {
        proof {
            if i < s.len() {
                assert(s@.skip(i as int)[0] == s@[i as int]);
            }
        }
        None
    }
}

fn scan_octet_then(s: &Vec<char>, i: usize, sep: char) -> (r: Option<(u8, usize)>)
    requires
        i <= s.len(),
    ensures
        match read_octet_then(s@.skip(i as int), sep) {
            None => r is None,
            Some((v, rest)) => r matches Some((w, j)) && w == v && i < j <= s.len() && s@.skip(
                j as int,
            ) == rest,
        },
{
    match scan_number(s, i, 255) {
        Some((v, j)) => match scan_char(s, j, sep) {
            Some(k) => Some((v as u8, k)),
            None => None,
        },
        None => None,
    }
}

fn scan_ipv4(s: &Vec<char>) -> (r: Option<(Ipv4Addr, usize)>)
    ensures
        match read_ipv4(s@) {
            None => r is None,
            Some((ip, rest)) => r matches Some((w, j)) && w@ == ip && j <= s.len() && s@.skip(
                j as int,
            ) == rest,
        },
{
    assert(s@.skip(0) =~= s@);
    match scan_octet_then(s, 0, '.') {
        Some((a, i1)) => match scan_octet_then(s, i1, '.') {
            Some((b, i2)) => match scan_octet_then(s, i2, '.') {
                Some((c, i3)) => match scan_number(s, i3, 255) {
                    Some((d, i4)) => Some((Ipv4Addr::new(a, b, c, d as u8), i4)),
                    None => None,
                },
                None => None,
            },
            None => None,
        },
        None => None,
    }
}

proof fn lemma_read_octet_then(n: u8, r: Seq<char>)
    ensures
        read_octet_then(decimal(n as nat) + (seq!['.'] + r), '.') == Some((n as nat, r)),
{
    lemma_read_decimal(n as nat, seq!['.'] + r, 255);
    assert((seq!['.'] + r).drop_first() =~= r);
}

#[verifier::spinoff_prover]
#[verifier::rlimit(40)]
proof fn lemma_read_ipv4_text(ip: (u8, u8, u8, u8), rest: Seq<char>)
    requires
        rest.len() == 0 || !is_ascii_digit(rest[0]),
    ensures
        read_ipv4(ipv4_text(ip) + rest) == Some((ip, rest)),
{
    let da = decimal(ip.0 as nat);
    let db = decimal(ip.1 as nat);
    let dc = decimal(ip.2 as nat);
    let dd = decimal(ip.3 as nat);
    let r3 = dd + rest;
    let r2 = dc + (seq!['.'] + r3);
    let r1 = db + (seq!['.'] + r2);
    let text = ipv4_text(ip) + rest;
    assert(text =~= da + (seq!['.'] + r1));
    lemma_read_octet_then(ip.0, r1);
    lemma_read_octet_then(ip.1, r2);
    lemma_read_octet_then(ip.2, r3);
    lemma_read_decimal(ip.3 as nat, rest, 255);
}

/// Writing an address entry, or an address-and-port entry, and reading the
/// writing back gives the same entry.
pub proof fn lemma_parse_entry_text(e: EntryView)
    requires
        !(e is Text),
    ensures
        parsed_entry(entry_text(e)) == e,
{
    match e {
        EntryView::Ip(ip) => {
            lemma_read_ipv4_text(ip, Seq::<char>::empty());
            assert(ipv4_text(ip) + Seq::<char>::empty() =~= ipv4_text(ip));
        },
        EntryView::IpPort((ip, port)) => {
            let tail = seq![':'] + decimal(port as nat);
            lemma_read_ipv4_text(ip, tail);
            assert(ip_port_text(ip, port) =~= ipv4_text(ip) + tail);
            assert(tail.drop_first() =~= decimal(port as nat));
            lemma_read_decimal(port as nat, Seq::<char>::empty(), 0xFFFF);
            assert(decimal(port as nat) + Seq::<char>::empty() =~= decimal(port as nat));
        },
        EntryView::Text(_) => {},
    }
}

/// Reads an entry at the start of a text: an address with a port, else an
/// address, else the whole text; gives what is left after it too.
pub fn parse_entry(input: &str) -> (r: (String, BlacklistEntry))
    ensures
        r.0@ == parse_rest(input@),
        r.1@ == parsed_entry(input@),
{
    let s = chars_of(input);
    match scan_ipv4(&s) {
        Some((ip, j)) => match scan_char(&s, j, ':') {
            Some(k) => match scan_number(&s, k, 0xFFFF) {
                Some((port, end)) => (rest_of(&s, end), BlacklistEntry::IpPort(IpPort::new(ip, port as u16))),
                None => (rest_of(&s, j), BlacklistEntry::Ip(ip)),
            },
            None => (rest_of(&s, j), BlacklistEntry::Ip(ip)),
        },
        None => (String::new(), BlacklistEntry::Text(copy_text(input))),
    }
}

/// The characters from position `i` on.
fn rest_of(s: &Vec<char>, i: usize) -> (r: String)
    requires
        i <= s.len(),
    ensures
        r@ == s@.skip(i as int),
{
    let mut out: Vec<char> = Vec::new();
    let mut k: usize = i;
    while k < s.len()
        invariant
            i <= k <= s.len(),
            out@ == s@.subrange(i as int, k as int),
        decreases s.len() - k,
    {
        out.push(s[k]);
        assert(out@ =~= s@.subrange(i as int, k + 1));
        k = k + 1;
    }
    assert(out@ =~= s@.skip(i as int));
    string_from_chars(&out)
}

/// An entry of the blacklist.
#[derive(Debug, Clone, PartialEq, Eq)]
pub enum BlacklistEntry {
    Text(String),
    Ip(Ipv4Addr),
    IpPort(IpPort),
}

impl View for BlacklistEntry {
    type V = EntryView;

    open spec fn view(&self) -> EntryView {
        match self {
            BlacklistEntry::Text(t) => EntryView::Text(t@),
            BlacklistEntry::Ip(ip) => EntryView::Ip(ip@),
            BlacklistEntry::IpPort(ip_port) => EntryView::IpPort(ip_port@),
        }
    }
}

impl BlacklistEntry {
    /// Reads an entry from a line of text; it never fails, as a line that is
    /// no address is a text entry.
    pub fn parse(input: &str) -> (e: BlacklistEntry)
        ensures
            e@ == parsed_entry(input@),
    {
        let (_, entry) = parse_entry(input);
        entry
    }

    pub fn accept(&self, server: &Server) -> (r: bool)
        ensures
            r == entry_accepts(self@, *server),
    {
        match self {
            BlacklistEntry::Text(text) => !text_contains(server.name.as_str(), text.as_str()),
            BlacklistEntry::Ip(ip) => !server.ip_port.ip().same_as(ip),
            BlacklistEntry::IpPort(ip_port) => !server.ip_port.same_as(ip_port),
        }
    }

    /// The entry's writing, as `Display` writes it.
    pub fn to_string(&self) -> (s: String)
        ensures
            s@ == entry_text(self@),
    {
        match self {
            BlacklistEntry::Text(text) => copy_text(text.as_str()),
            BlacklistEntry::Ip(ip) => ip.to_string(),
            BlacklistEntry::IpPort(ip_port) => ip_port.to_string(),
        }
    }

    /// Whether two entries stand for the same thing.
    pub fn same_as(&self, other: &BlacklistEntry) -> (r: bool)
        ensures
            r == (self@ == other@),
    {
        match (self, other) {
            (BlacklistEntry::Text(a), BlacklistEntry::Text(b)) => text_equal(a.as_str(), b.as_str()),
            (BlacklistEntry::Ip(a), BlacklistEntry::Ip(b)) => a.same_as(b),
            (BlacklistEntry::IpPort(a), BlacklistEntry::IpPort(b)) => a.same_as(b),
            _ => false,
        }
    }
}

/// No entry appears twice.
pub open spec fn all_distinct(entries: Seq<EntryView>) -> bool {
    forall|i: int, j: int| 0 <= i < j < entries.len() ==> entries[i] != entries[j]
}

/// The blacklisted entries, in the order they were added.
pub struct Blacklist {
    entries: Vec<BlacklistEntry>,
}

impl View for Blacklist {
    type V = Seq<EntryView>;

    closed spec fn view(&self) -> Seq<EntryView> {
        self.entries@.map_values(|e: BlacklistEntry| e@)
    }
}

impl Blacklist {
    pub fn new() -> (b: Blacklist)
        ensures
            b@ == Seq::<EntryView>::empty(),
    {
        let b = Blacklist { entries: Vec::new() };
        assert(b@ =~= Seq::<EntryView>::empty());
        b
    }

    /// Adds an entry at the end, unless the same entry is already there.
    pub fn push(&mut self, entry: BlacklistEntry)
        ensures
            final(self)@ == if old(self)@.contains(entry@) {
                old(self)@
            } else {
                old(self)@.push(entry@)
            },
            all_distinct(old(self)@) ==> all_distinct(final(self)@),
    {
        match self.index_of(&entry) {
            Some(_) => {},
            None => {
                self.entries.push(entry);
                assert(self@ =~= old(self)@.push(entry@));
            },
        }
    }

    /// Removes the entry at `index`, which must exist.
    pub fn remove(&mut self, index: usize)
        requires
            index < old(self)@.len(),
        ensures
            final(self)@ == old(self)@.remove(index as int),
            all_distinct(old(self)@) ==> all_distinct(final(self)@),
    {
        self.entries.remove(index);
        assert(self@ =~= old(self)@.remove(index as int));
        proof {
            if all_distinct(old(self)@) {
                assert forall|i: int, j: int| 0 <= i < j < self@.len() implies self@[i] != self@[j] by {
                    let oi = if i < index { i } else { i + 1 };
                    let oj = if j < index { j } else { j + 1 };
                    assert(self@[i] == old(self)@[oi]);
                    assert(self@[j] == old(self)@[oj]);
                }
            }
        }
    }

    pub fn clear(&mut self)
        ensures
            final(self)@ == Seq::<EntryView>::empty(),
    {
        self.entries.clear();
        assert(self@ =~= Seq::<EntryView>::empty());
    }

    /// A server is accepted when every entry lets it through.
    pub fn accept(&self, server: &Server) -> (r: bool)
        ensures
            r == forall|i: int| 0 <= i < self@.len() ==> entry_accepts(#[trigger] self@[i], *server),
    {
        let mut i: usize = 0;
        while i < self.entries.len()
            invariant
                i <= self@.len(),
                self@.len() == self.entries@.len(),
                forall|k: int| 0 <= k < i ==> entry_accepts(#[trigger] self@[k], *server),
            decreases self.entries@.len() - i,
        {
            assert(self@[i as int] == self.entries@[i as int]@);
            if !self.entries[i].accept(server) {
                return false;
            }
            i = i + 1;
        }
        true
    }

    /// The position of the first entry equal to `entry`.
    pub fn index_of(&self, entry: &BlacklistEntry) -> (r: Option<usize>)
        ensures
            match r {
                Some(i) => i < self@.len() && self@[i as int] == entry@ && forall|k: int|
                    0 <= k < i ==> self@[k] != entry@,
                None => !self@.contains(entry@),
            },
    {
        let mut i: usize = 0;
        while i < self.entries.len()
            invariant
                i <= self@.len(),
                self@.len() == self.entries@.len(),
                forall|k: int| 0 <= k < i ==> #[trigger] self@[k] != entry@,
            decreases self.entries@.len() - i,
        {
            assert(self@[i as int] == self.entries@[i as int]@);
            if self.entries[i].same_as(entry) {
                return Some(i);
            }
            i = i + 1;
        }
        None
    }

    /// The entries, in order.
    pub fn iter(&self) -> (r: Vec<&BlacklistEntry>)
        ensures
            r@.len() == self@.len(),
            forall|i: int| 0 <= i < r@.len() ==> (#[trigger] r@[i])@ == self@[i],
    {
        let mut r: Vec<&BlacklistEntry> = Vec::new();
        let mut i: usize = 0;
        while i < self.entries.len()
            invariant
                i <= self@.len(),
                self@.len() == self.entries@.len(),
                r@.len() == i,
                forall|k: int| 0 <= k < i ==> (#[trigger] r@[k])@ == self@[k],
            decreases self.entries@.len() - i,
        {
            r.push(&self.entries[i]);
            i = i + 1;
        }
        r
    }

    pub fn is_empty(&self) -> (r: bool)
        ensures
            r == (self@.len() == 0),
    {
        self.entries.len() == 0
    }
}

impl Default for Blacklist {
    fn default() -> (b: Blacklist)
        ensures
            b@ == Seq::<EntryView>::empty(),
    {
        Blacklist::new()
    }
}

/// How many characters `s` has before its first line break.
pub open spec fn line_len(s: Seq<char>) -> nat
    decreases s.len(),
{
    if s.len() == 0 || s[0] == '\n' {
        0
    } else {
        1 + line_len(s.drop_first())
    }
}

/// The entries that a file gives: one for each line that is not blank, where
/// a line ends at a line break, which is dropped with a carriage return just
/// before it.
pub open spec fn imported_entries(s: Seq<char>) -> Seq<EntryView>
    decreases s.len(),
{
    if s.len() == 0 {
        Seq::empty()
    } else {
        let n = line_len(s) as int;
        if n < s.len() {
            let raw = s.take(n);
            let line = if raw.len() > 0 && raw.last() == '\r' {
                raw.drop_last()
            } else {
                raw
            };
            let rest = imported_entries(s.skip(n + 1));
            if is_blank(line) {
                rest
            } else {
                seq![parsed_entry(line)] + rest
            }
        } else if is_blank(s) {
            Seq::empty()
        } else {
            seq![parsed_entry(s)]
        }
    }
}

proof fn lemma_line_len(t: Seq<char>, n: int)
    requires
        0 <= n <= t.len(),
        forall|j: int| 0 <= j < n ==> #[trigger] t[j] != '\n',
        n == t.len() || t[n] == '\n',
    ensures
        line_len(t) == n,
    decreases n,
{
    if n > 0 {
        let u = t.drop_first();
        assert forall|j: int| 0 <= j < n - 1 implies #[trigger] u[j] != '\n' by {
            assert(u[j] == t[j + 1]);
        }
        lemma_line_len(u, n - 1);
    }
}

/// The entries of a blacklist file's text, one for each line that is not blank.
pub fn import_entries(content: &str) -> (r: Vec<BlacklistEntry>)
    ensures
        r@.map_values(|e: BlacklistEntry| e@) == imported_entries(content@),
{
    let s = chars_of(content);
    let mut out: Vec<BlacklistEntry> = Vec::new();
    let mut pos: usize = 0;
    assert(s@.skip(0) =~= s@);
    while pos < s.len()
        invariant
            s@ == content@,
            pos <= s.len(),
            out@.map_values(|e: BlacklistEntry| e@) + imported_entries(s@.skip(pos as int))
                == imported_entries(content@),
        decreases s.len() - pos,
    {
        let ghost t = s@.skip(pos as int);
        let mut end: usize = pos;
        while end < s.len() && s[end] != '\n'
            invariant
                pos <= end <= s.len(),
                forall|j: int| pos <= j < end ==> #[trigger] s@[j] != '\n',
            decreases s.len() - end,
        {
            end = end + 1;
        }
        proof {
            assert forall|j: int| 0 <= j < end - pos implies #[trigger] t[j] != '\n' by {
                assert(t[j] == s@[pos + j]);
            }
            if end < s.len() {
                assert(t[end - pos] == s@[end as int]);
            }
            lemma_line_len(t, end - pos);
        }
        let mut line: Vec<char> = Vec::new();
        let mut k: usize = pos;
        while k < end
            invariant
                pos <= k <= end <= s.len(),
                line@ == s@.subrange(pos as int, k as int),
            decreases end - k,
        {
            line.push(s[k]);
            assert(line@ =~= s@.subrange(pos as int, k + 1));
            k = k + 1;
        }
        assert(t.take(end - pos) =~= line@);
        if end < s.len() && line.len() > 0 && line[line.len() - 1] == '\r' {
            line.pop();
        }
        let text = string_from_chars(&line);
        let ghost before = out@.map_values(|e: BlacklistEntry| e@);
        if !text_is_blank(text.as_str()) {
            let entry = BlacklistEntry::parse(text.as_str());
            out.push(entry);
            assert(out@.map_values(|e: BlacklistEntry| e@) =~= before.push(entry@));
        }
        if end < s.len() {
            assert(t.skip(end - pos + 1) =~= s@.skip(end + 1));
            pos = end + 1;
        } else {
            pos = end;
        }
        assert(s@.skip(pos as int).len() == 0 ==> s@.skip(pos as int) =~= Seq::<char>::empty());
        assert(out@.map_values(|e: BlacklistEntry| e@) + imported_entries(s@.skip(pos as int))
            =~= imported_entries(content@));
    }
    assert(s@.skip(pos as int) =~= Seq::<char>::empty());
    assert(out@.map_values(|e: BlacklistEntry| e@) =~= imported_entries(content@));
    out
}

/// Why a blacklist file could not be imported: the file, and what went wrong.
#[derive(Debug, Clone)]
pub enum ImportBlacklistError {
    Io(DirPath, String),
}


/// Pushing an entry twice leaves the blacklist as pushing it once does.
pub proof fn lemma_push_twice(entries: Seq<EntryView>, entry: EntryView)
    ensures
        ({
            let once = if entries.contains(entry) {
                entries
            } else {
                entries.push(entry)
            };
            let twice = if once.contains(entry) {
                once
            } else {
                once.push(entry)
            };
            twice == once && once.contains(entry)
        }),
{
    if !entries.contains(entry) {
        assert(entries.push(entry)[entries.len() as int] == entry);
    }
}

} // verus!
