//! Names, numbers and addresses that clients, conductor and workers share.

use crate::numeric;
use crate::numeric::{decimal_string, hex_string, parse_decimal};
use crate::text;
use crate::text::{
    contains, contains_char, find_char, join2, join3, owned, rfind_char, skip, starts_with,
    starts_with_char, take,
};
use vstd::prelude::*;

pub mod client;
pub mod notification;
pub mod signals;
pub mod worker;

verus! {

// ---------------------------------------------------------------------
// Addresses
// ---------------------------------------------------------------------

#[derive(Clone, Copy, Debug, PartialEq, Eq, Structural)]
pub enum TransportMode {
    Unix,
    Tcp,
}

/// Where a conductor listens.
#[derive(Debug)]
pub struct ParsedAddress {
    pub mode: TransportMode,
    pub addr: String,
}

impl Clone for ParsedAddress {
    fn clone(&self) -> (r: Self)
        ensures
            r.mode == self.mode,
            r.addr@ == self.addr@,
    {
        ParsedAddress { mode: self.mode, addr: owned(self.addr.as_str()) }
    }
}

/// What `raw` names, where it names anything: `tcp://` begins a network
/// address and no other scheme is one; what holds no slash and begins with no
/// dot is a network address too, and all else is a path.
pub open spec fn address_of(raw: Seq<char>) -> Option<(TransportMode, Seq<char>)> {
    if "tcp://"@.is_prefix_of(raw) {
        Some((TransportMode::Tcp, raw.skip(6)))
    } else if text::occurs(raw, "://"@) {
        None
    } else if !(raw.len() > 0 && raw[0] == '.') && !raw.contains('/') {
        Some((TransportMode::Tcp, raw))
    } else {
        Some((TransportMode::Unix, raw))
    }
}

/// Reads an address.
pub fn parse_address(raw: &str) -> (r: Result<ParsedAddress, String>)
    ensures
        match r {
            Ok(a) => address_of(raw@) == Some((a.mode, a.addr@)),
            Err(e) => address_of(raw@) is None && e@ == "Unsupported scheme in '"@ + raw@ + "'"@,
        },
{
    proof {
        reveal_strlit("tcp://");
    }
    if starts_with(raw, "tcp://") {
        return Ok(ParsedAddress { mode: TransportMode::Tcp, addr: owned(skip(raw, 6)) });
    }
    if contains(raw, "://") {
        return Err(join3("Unsupported scheme in '", raw, "'"));
    }
    if !starts_with_char(raw, '/') && !starts_with_char(raw, '.') && !contains_char(raw, '/') {
        return Ok(ParsedAddress { mode: TransportMode::Tcp, addr: owned(raw) });
    }
    Ok(ParsedAddress { mode: TransportMode::Unix, addr: owned(raw) })
}

pub const DEFAULT_TCP_PORT: u16 = 9345;

/// A host and a port of it.
#[derive(Debug)]
pub struct HostPort {
    pub host: String,
    pub port: u16,
}

/// What stands before the last colon; all of it where there is none.
pub open spec fn host_of(addr: Seq<char>) -> Seq<char> {
    let colon = text::rfind(addr, ':');
    if colon >= 0 {
        addr.take(colon)
    } else {
        addr
    }
}

/// The port behind the last colon, the default where there is no colon, and
/// `None` where what follows it is no port.
pub open spec fn port_of(addr: Seq<char>) -> Option<nat> {
    let colon = text::rfind(addr, ':');
    if colon >= 0 {
        numeric::parse_unsigned(addr.skip(colon + 1), 0xffff)
    } else {
        Some(DEFAULT_TCP_PORT as nat)
    }
}

/// A network address with its port written out; `None` where its port is none.
pub fn full_address(addr: &str) -> (r: Option<String>)
    ensures
        match r {
            Some(t) => port_of(addr@) matches Some(p) && t@ == host_port_text(host_of(addr@), p),
            None => port_of(addr@) is None,
        },
{
    match rfind_char(addr, ':') {
        Some(pos) => match parse_decimal(skip(addr, pos + 1), 0xffff) {
            Some(n) => {
                let h = HostPort { host: owned(take(addr, pos)), port: n as u16 };
                Some(h.text())
            },
            None => None,
        },
        None => {
            let h = HostPort { host: owned(addr), port: DEFAULT_TCP_PORT };
            Some(h.text())
        },
    }
}

/// Splits a network address into host and port. `is_numeric` says whether the
/// address, with its port written out, is a numeric Internet address: names
/// are not looked up.
pub fn parse_host_port(addr: &str, is_numeric: bool) -> (r: Result<HostPort, String>)
    ensures
        match port_of(addr@) {
            None => r matches Err(e) && e@ == "Invalid port in '"@ + addr@ + "'"@,
            Some(p) => if is_numeric {
                r matches Ok(h) && h.host@ == host_of(addr@) && h.port == p
            } else {
                r matches Err(e) && e@ == "Invalid address '"@ + host_port_text(host_of(addr@), p)
                    + "'"@
            },
        },
{
    let split = match rfind_char(addr, ':') {
        Some(pos) => match parse_decimal(skip(addr, pos + 1), 0xffff) {
            Some(n) => HostPort { host: owned(take(addr, pos)), port: n as u16 },
            None => {
                return Err(join3("Invalid port in '", addr, "'"));
            },
        },
        None => HostPort { host: owned(addr), port: DEFAULT_TCP_PORT },
    };
    if is_numeric {
        Ok(split)
    } else {
        Err(join3("Invalid address '", split.text().as_str(), "'"))
    }
}

/// Splits a network address, taking the default port where the address gives
/// none that can be read.
pub fn lenient_host_port(addr: &str) -> (r: HostPort)
    ensures
        r.host@ == host_of(addr@),
        r.port == match port_of(addr@) {
            Some(p) => p,
            None => DEFAULT_TCP_PORT as nat,
        },
{
    match rfind_char(addr, ':') {
        Some(pos) => HostPort {
            host: owned(take(addr, pos)),
            port: match parse_decimal(skip(addr, pos + 1), 0xffff) {
                Some(n) => n as u16,
                None => DEFAULT_TCP_PORT,
            },
        },
        None => HostPort { host: owned(addr), port: DEFAULT_TCP_PORT },
    }
}

/// `host` and `port` with a colon between them.
pub open spec fn host_port_text(host: Seq<char>, port: nat) -> Seq<char> {
    host + ":"@ + numeric::decimal(port)
}

impl HostPort {
    /// The address as it is written.
    pub fn text(&self) -> (r: String)
        ensures
            r@ == host_port_text(self.host@, self.port as nat),
    {
        let port = decimal_string(self.port as u64);
        join3(self.host.as_str(), ":", port.as_str())
    }
}

/// An address made of a host and a port is split into that host and that port.
pub proof fn law_host_port_round_trip(host: Seq<char>, port: nat)
    requires
        port <= 0xffff,
    ensures
        host_of(host_port_text(host, port)) == host,
        port_of(host_port_text(host, port)) == Some(port),
{
    reveal_strlit(":");
    numeric::lemma_decimal(port);
    numeric::law_decimal_round_trip(port, 0xffff);
    let addr = host_port_text(host, port);
    let n = host.len() as int;
    assert(addr[n] == ':');
    assert forall|j: int| n < j < addr.len() implies addr[j] != ':' by {
        assert(addr[j] == numeric::decimal(port)[j - n - 1]);
    }
    text::lemma_rfind_is(addr, ':', n);
    assert(addr.take(n) =~= host);
    assert(addr.skip(n + 1) =~= numeric::decimal(port));
}

/// An Internet address: four bytes, or eight groups of sixteen bits.
#[derive(Debug, Clone, Copy)]
pub enum Ip {
    V4([u8; 4]),
    V6([u16; 8]),
}

/// Addresses of this machine: 127.0.0.0/8, `::1`, and the former mapped into
/// `::ffff:0:0/96`.
pub open spec fn loopback(ip: Ip) -> bool {
    match ip {
        Ip::V4(a) => a[0] == 127,
        Ip::V6(s) => s[0] == 0 && s[1] == 0 && s[2] == 0 && s[3] == 0 && s[4] == 0 && ((s[5] == 0
            && s[6] == 0 && s[7] == 1) || (s[5] == 0xffff && s[6] / 0x100 == 127)),
    }
}

pub fn is_loopback(ip: &Ip) -> (r: bool)
    ensures
        r == loopback(*ip),
{
    match ip {
        Ip::V4(a) => a[0] == 127,
        Ip::V6(s) => s[0] == 0 && s[1] == 0 && s[2] == 0 && s[3] == 0 && s[4] == 0 && ((s[5] == 0
            && s[6] == 0 && s[7] == 1) || (s[5] == 0xffff && s[6] / 0x100 == 127)),
    }
}

// ---------------------------------------------------------------------
// Ports for the streams of a client
// ---------------------------------------------------------------------

/// Sets of four ports each, of which some are taken.
pub struct PortPool {
    base: u16,
    free: Vec<bool>,
}

/// Stands for a port set where there is no pool.
pub const PORT_POOL_NONE: u16 = 0xFFFF;

impl PortPool {
    /// The first port of the pool.
    pub closed spec fn first_port(&self) -> u16 {
        self.base
    }

    /// For each set, whether it is free.
    pub closed spec fn free_sets(&self) -> Seq<bool> {
        self.free@
    }

    /// There is one mark for each set, and a set has a number below
    /// `PORT_POOL_NONE`.
    pub open spec fn wf(&self) -> bool {
        self.free_sets().len() <= 0xffff
    }

    /// The ports of every set are ports.
    pub open spec fn fits(&self) -> bool {
        self.first_port() + 4 * self.free_sets().len() <= 0x1_0000
    }

    pub fn new(base: u16, count: u16) -> (r: Self)
        ensures
            r.wf(),
            r.first_port() == base,
            r.free_sets() == Seq::new(count as nat, |i: int| true),
    {
        let mut free: Vec<bool> = Vec::new();
        let mut i: u16 = 0;
        while i < count
            invariant
                i <= count,
                free@ =~= Seq::new(i as nat, |j: int| true),
            decreases count - i,
        {
            free.push(true);
            i = i + 1;
        }
        PortPool { base, free }
    }

    /// Takes the free set with the lowest number, if any is free.
    pub fn allocate(&mut self) -> (r: Option<u16>)
        requires
            old(self).wf(),
        ensures
            final(self).wf(),
            final(self).first_port() == old(self).first_port(),
            match r {
                Some(i) => {
                    &&& i < old(self).free_sets().len()
                    &&& i != PORT_POOL_NONE
                    &&& old(self).free_sets()[i as int]
                    &&& forall|j: int| 0 <= j < i ==> !old(self).free_sets()[j]
                    &&& final(self).free_sets() == old(self).free_sets().update(i as int, false)
                },
                None => {
                    &&& forall|j: int|
                        0 <= j < old(self).free_sets().len() ==> !old(self).free_sets()[j]
                    &&& final(self).free_sets() == old(self).free_sets()
                },
            },
    {
        let mut i: usize = 0;
        while i < self.free.len()
            invariant
                self.wf(),
                *self == *old(self),
                i <= self.free@.len(),
                forall|j: int| 0 <= j < i ==> !self.free@[j],
            decreases self.free@.len() - i,
        {
            if self.free[i] {
                self.free.set(i, false);
                return Some(i as u16);
            }
            i = i + 1;
        }
        None
    }

    /// Frees the set `idx`; a number that no set has changes nothing.
    pub fn release(&mut self, idx: u16)
        requires
            old(self).wf(),
        ensures
            final(self).wf(),
            final(self).first_port() == old(self).first_port(),
            final(self).free_sets() == if idx < old(self).free_sets().len() {
                old(self).free_sets().update(idx as int, true)
            } else {
                old(self).free_sets()
            },
    {
        if (idx as usize) < self.free.len() {
            self.free.set(idx as usize, true);
        }
    }

    /// The four ports of set `idx`.
    pub fn ports_for_index(&self, idx: u16) -> (r: [u16; 4])
        requires
            self.first_port() + 4 * idx + 3 <= 0xffff,
        ensures
            r@ == set_ports(self.first_port() as int, idx as int),
    {
        let start: u16 = self.base + idx * 4;
        let r = [start, start + 1, start + 2, start + 3];
        assert(r@ =~= set_ports(self.first_port() as int, idx as int));
        r
    }

    /// Whether the set `idx` consists of ports.
    pub fn has_ports(&self, idx: u16) -> (r: bool)
        ensures
            r == (self.first_port() + 4 * idx + 3 <= 0xffff),
    {
        self.base as u32 + 4 * (idx as u32) + 3 <= 0xffff
    }
}

/// The ports of set `idx` of a pool that begins at `base`.
pub open spec fn set_ports(base: int, idx: int) -> Seq<u16> {
    Seq::new(4, |i: int| (base + 4 * idx + i) as u16)
}

/// Two sets of a pool have no port in common.
pub proof fn law_port_sets_disjoint(base: int, a: int, b: int, i: int, j: int)
    requires
        0 <= base,
        0 <= a,
        0 <= b,
        a != b,
        base + 4 * a + 3 <= 0xffff,
        base + 4 * b + 3 <= 0xffff,
        0 <= i < 4,
        0 <= j < 4,
    ensures
        set_ports(base, a)[i] != set_ports(base, b)[j],
{
}

/// A set that is released is free, and is the next one taken where no set
/// with a lower number is free.
pub proof fn law_released_set_is_reused(free: Seq<bool>, idx: int)
    requires
        0 <= idx < free.len(),
        forall|j: int| 0 <= j < idx ==> !free[j],
    ensures
        free.update(idx, true)[idx],
        forall|j: int| 0 <= j < idx ==> !free.update(idx, true)[j],
{
}

/// The two ends of a range of ports, where `s` writes one.
pub open spec fn range_ends(s: Seq<char>) -> Option<(nat, nat)> {
    let dash = text::find(s, '-');
    if dash < s.len() {
        match (
            numeric::parse_unsigned(s.take(dash), 0xffff),
            numeric::parse_unsigned(s.skip(dash + 1), 0xffff),
        ) {
            (Some(low), Some(high)) => Some((low, high)),
            _ => None,
        }
    } else {
        None
    }
}

/// The first port of the range that `s` writes, and the number of sets of
/// four that it holds; `None` where it holds none.
pub open spec fn port_range(s: Seq<char>) -> Option<(nat, nat)> {
    match range_ends(s) {
        Some((low, high)) => if high > low && (high - low + 1) / 4 > 0 {
            Some((low, ((high - low + 1) / 4) as nat))
        } else {
            None
        },
        None => None,
    }
}

/// `s` writes the range of all ports, whose size sixteen bits do not hold.
pub open spec fn all_ports(s: Seq<char>) -> bool {
    range_ends(s) == Some((0nat, 0xffffnat))
}

fn read_range(s: &str) -> (r: Option<(u16, u16)>)
    ensures
        match r {
            Some((low, high)) => range_ends(s@) == Some((low as nat, high as nat)),
            None => range_ends(s@) is None,
        },
{
    match find_char(s, '-') {
        Some(dash) => match parse_decimal(take(s, dash), 0xffff) {
            Some(low) => match parse_decimal(skip(s, dash + 1), 0xffff) {
                Some(high) => Some((low as u16, high as u16)),
                None => None,
            },
            None => None,
        },
        None => None,
    }
}

/// Reads a range of ports, `10000-10015`.
pub fn parse_port_range(s: &str) -> (r: Option<(u16, u16)>)
    requires
        !all_ports(s@),
    ensures
        match r {
            Some((low, count)) => port_range(s@) == Some((low as nat, count as nat)),
            None => port_range(s@) is None,
        },
{
    match read_range(s) {
        Some((low, high)) => {
            if high <= low {
                return None;
            }
            let count: u16 = (high - low + 1) / 4;
            if count == 0 {
                None
            } else {
                Some((low, count))
            }
        },
        None => None,
    }
}

/// Whether `s` writes the range of all ports.
pub fn is_all_ports(s: &str) -> (r: bool)
    ensures
        r == all_ports(s@),
{
    match read_range(s) {
        Some((low, high)) => low == 0 && high == 0xffff,
        None => false,
    }
}

/// A pool made of a range that was read has only ports in its sets.
pub proof fn law_parsed_range_fits(s: Seq<char>)
    ensures
        port_range(s) matches Some((low, count)) ==> low + 4 * count <= 0x1_0000,
{
}

// ---------------------------------------------------------------------
// Paths
// ---------------------------------------------------------------------

/// The path of a socket: eight digits of the clock, eight of the process, at
/// least four of a counter, and what the socket is for.
pub open spec fn socket_path_text(
    runtime_dir: Seq<char>,
    nanos: u32,
    pid: u32,
    counter: u32,
    suffix: Seq<char>,
) -> Seq<char> {
    runtime_dir + "/"@ + numeric::hex(nanos as nat, 8) + numeric::hex(pid as nat, 8)
        + numeric::hex(counter as nat, 4) + "-"@ + suffix
}

/// A path for a new socket in `runtime_dir`. The caller reads the clock and
/// its process number, and counts the paths that it has asked for.
pub fn random_socket_path(runtime_dir: &str, suffix: &str, nanos: u32, pid: u32, counter: u32) -> (r:
    String)
    ensures
        r@ == socket_path_text(runtime_dir@, nanos, pid, counter, suffix@),
{
    let mut out = join2(runtime_dir, "/");
    out.append(hex_string(nanos as u64, 8).as_str());
    out.append(hex_string(pid as u64, 8).as_str());
    out.append(hex_string(counter as u64, 4).as_str());
    out.append("-");
    out.append(suffix);
    out
}

/// Two paths in one directory and for one purpose are the same only where
/// clock, process and counter agree; with a counter that moves on, no two
/// paths of a process are the same.
pub proof fn law_socket_paths_unique(
    dir: Seq<char>,
    suffix: Seq<char>,
    nanos_a: u32,
    pid_a: u32,
    counter_a: u32,
    nanos_b: u32,
    pid_b: u32,
    counter_b: u32,
)
    requires
        socket_path_text(dir, nanos_a, pid_a, counter_a, suffix) == socket_path_text(
            dir,
            nanos_b,
            pid_b,
            counter_b,
            suffix,
        ),
    ensures
        nanos_a == nanos_b,
        pid_a == pid_b,
        counter_a == counter_b,
{
    reveal_strlit("/");
    reveal_strlit("-");
    let a = socket_path_text(dir, nanos_a, pid_a, counter_a, suffix);
    let b = socket_path_text(dir, nanos_b, pid_b, counter_b, suffix);
    let (na, pa, ca) = (
        numeric::hex(nanos_a as nat, 8),
        numeric::hex(pid_a as nat, 8),
        numeric::hex(counter_a as nat, 4),
    );
    let (nb, pb, cb) = (
        numeric::hex(nanos_b as nat, 8),
        numeric::hex(pid_b as nat, 8),
        numeric::hex(counter_b as nat, 4),
    );
    numeric::lemma_hex_u32_len(nanos_a);
    numeric::lemma_hex_u32_len(pid_a);
    numeric::lemma_hex_u32_len(nanos_b);
    numeric::lemma_hex_u32_len(pid_b);
    let d = dir.len() as int + 1;
    assert(na =~= a.subrange(d, d + 8));
    assert(nb =~= b.subrange(d, d + 8));
    assert(pa =~= a.subrange(d + 8, d + 16));
    assert(pb =~= b.subrange(d + 8, d + 16));
    assert(ca.len() == a.len() - d - 17 - suffix.len());
    assert(cb.len() == b.len() - d - 17 - suffix.len());
    assert(ca =~= a.subrange(d + 16, d + 16 + ca.len()));
    assert(cb =~= b.subrange(d + 16, d + 16 + cb.len()));
    numeric::law_hex_injective(nanos_a as nat, nanos_b as nat, 8);
    numeric::law_hex_injective(pid_a as nat, pid_b as nat, 8);
    numeric::law_hex_injective(counter_a as nat, counter_b as nat, 4);
}

/// The systems that place their runtime files differently.
#[derive(Clone, Copy, Debug, PartialEq, Eq, Structural)]
pub enum Platform {
    Linux,
    MacOs,
    Other,
}

/// Where sockets and the like are kept unless a directory is given.
pub open spec fn runtime_dir_text(
    platform: Platform,
    xdg_runtime_dir: Option<Seq<char>>,
    home: Option<Seq<char>>,
    uid: u32,
) -> Seq<char> {
    match platform {
        Platform::Linux => match xdg_runtime_dir {
            Some(xdg) => xdg + "/julia-daemon"@,
            None => "/run/user/"@ + numeric::decimal(uid as nat) + "/julia-daemon"@,
        },
        Platform::MacOs => match home {
            Some(h) => h + "/Library/Application Support/julia-daemon"@,
            None => "/tmp/julia-daemon"@,
        },
        Platform::Other => "/tmp/julia-daemon-"@ + numeric::decimal(uid as nat),
    }
}

pub fn default_runtime_dir(
    platform: Platform,
    xdg_runtime_dir: Option<&str>,
    home: Option<&str>,
    uid: u32,
) -> (r: String)
    ensures
        r@ == runtime_dir_text(
            platform,
            text::opt_str(xdg_runtime_dir),
            text::opt_str(home),
            uid,
        ),
{
    match platform {
        Platform::Linux => match xdg_runtime_dir {
            Some(xdg) => join2(xdg, "/julia-daemon"),
            None => {
                let uid = decimal_string(uid as u64);
                join3("/run/user/", uid.as_str(), "/julia-daemon")
            },
        },
        Platform::MacOs => match home {
            Some(h) => join2(h, "/Library/Application Support/julia-daemon"),
            None => owned("/tmp/julia-daemon"),
        },
        Platform::Other => {
            let uid = decimal_string(uid as u64);
            join2("/tmp/julia-daemon-", uid.as_str())
        },
    }
}

} // verus!
