//! Local network model: addresses, interfaces, neighbors and the hosts found
//! by discovery, with the address arithmetic the discovery runs on.
use vstd::prelude::*;
use crate::mdns::{MdnsRecord, MdnsRecordView, record_views};
use crate::text::{
    ascii_upper, decimal, digit_char, chars_eq, chars_of, find_char, lemma_find_char, lemma_lex_le_total,
    lemma_lex_le_trans, lex_le, lex_le_chars, position_of, slice_chars, split_whitespace,
    lines, split_lines, string_of, tokens, unicode_lowercase, views,
};
use crate::types::{spec_from_io_kind, IoErrorKind, NetworkError};

verus! {

/// An IPv4 address, held as its 32 bits (first octet most significant).
#[derive(Debug, Clone, Copy, PartialEq, Eq, Structural)]
pub struct Ipv4Address {
    pub bits: u32,
}

/// The 32-bit value of four octets.
pub open spec fn octets_value(a: u8, b: u8, c: u8, d: u8) -> int {
    a as int * 0x100_0000 + b as int * 0x1_0000 + c as int * 0x100 + d as int
}

impl Ipv4Address {
    /// The address `a.b.c.d`.
    pub fn new(a: u8, b: u8, c: u8, d: u8) -> (r: Ipv4Address)
        ensures
            r.bits == octets_value(a, b, c, d),
    {
        Ipv4Address {
            bits: (a as u32) * 0x100_0000 + (b as u32) * 0x1_0000 + (c as u32) * 0x100 + (d as u32),
        }
    }

    /// The four octets, most significant first.
    pub fn octets(&self) -> (r: [u8; 4])
        ensures
            octets_value(r[0], r[1], r[2], r[3]) == self.bits,
    {
        let x = self.bits;
        let a = x >> 24;
        let b = (x >> 16) & 0xff;
        let c = (x >> 8) & 0xff;
        let d = x & 0xff;
        assert(a < 256 && b < 256 && c < 256 && d < 256) by (bit_vector)
            requires
                a == x >> 24,
                b == (x >> 16) & 0xff,
                c == (x >> 8) & 0xff,
                d == x & 0xff,
        ;
        assert(a * 0x100_0000 + b * 0x1_0000 + c * 0x100 + d == x) by (bit_vector)
            requires
                a == x >> 24,
                b == (x >> 16) & 0xff,
                c == (x >> 8) & 0xff,
                d == x & 0xff,
        ;
        [a as u8, b as u8, c as u8, d as u8]
    }

    /// Whether the address lies in `127.0.0.0/8`.
    pub fn is_loopback(&self) -> (r: bool)
        ensures
            r == (self.bits / 0x100_0000 == 127),
    {
        self.bits / 0x100_0000 == 127
    }
}

/// An IPv4 or IPv6 address.
#[derive(Debug, Clone, Copy, PartialEq, Eq, Structural)]
pub enum IpAddress {
    V4(Ipv4Address),
    /// The 128 bits of an IPv6 address, first group most significant.
    V6(u128),
}

/// Whether an address is a loopback address (`127.0.0.0/8` or `::1`).
pub open spec fn spec_is_loopback(ip: IpAddress) -> bool {
    match ip {
        IpAddress::V4(a) => a.bits / 0x100_0000 == 127,
        IpAddress::V6(bits) => bits == 1,
    }
}

impl IpAddress {
    pub fn is_loopback(&self) -> (r: bool)
        ensures
            r == spec_is_loopback(*self),
    {
        match self {
            IpAddress::V4(a) => a.is_loopback(),
            IpAddress::V6(bits) => *bits == 1,
        }
    }
}

/// An address of an interface with its prefix length.
#[derive(Debug, Clone, Copy, PartialEq, Eq, Structural)]
pub struct Address {
    pub ip: IpAddress,
    pub prefix_len: u8,
}

/// The host bits of a prefix: all bits below the first `prefix_len`.
pub open spec fn host_mask(prefix_len: int) -> u32 {
    if prefix_len <= 0 {
        0xFFFF_FFFF
    } else if prefix_len >= 32 {
        0
    } else {
        0xFFFF_FFFFu32 >> (prefix_len as u32)
    }
}

/// The directed broadcast address of a subnet: the address with all host
/// bits set; no address for a prefix longer than 32.
pub open spec fn spec_broadcast_address(address: Ipv4Address, prefix_len: u8) -> Option<
    Ipv4Address,
> {
    if prefix_len > 32 {
        None
    } else {
        Some(Ipv4Address { bits: address.bits | host_mask(prefix_len as int) })
    }
}

/// Computes the directed broadcast address of an IPv4 subnet.
///
/// Returns `None` when the prefix length exceeds 32.
pub fn broadcast_address(address: Ipv4Address, prefix_len: u8) -> (r: Option<Ipv4Address>)
    ensures
        r == spec_broadcast_address(address, prefix_len),
{
    if prefix_len > 32 {
        return None;
    }
    let bits = address.bits;
    let mask: u32 = if prefix_len == 0 {
        0
    } else {
        0xFFFF_FFFFu32 << (32 - prefix_len as u32)
    };
    let r = (bits & mask) | !mask;
    proof {
        let p = prefix_len as u32;
        if prefix_len == 0 {
            assert((bits & 0u32) | !0u32 == bits | 0xFFFF_FFFFu32) by (bit_vector);
        } else if prefix_len == 32 {
            assert((bits & (0xFFFF_FFFFu32 << 0u32)) | !(0xFFFF_FFFFu32 << 0u32) == bits | 0u32)
                by (bit_vector);
        } else {
            let s: u32 = (32 - p) as u32;
            assert(1 <= p < 32 && s == 32 - p ==> (bits & (0xFFFF_FFFFu32 << s)) | !(0xFFFF_FFFFu32
                << s) == bits | (0xFFFF_FFFFu32 >> p)) by (bit_vector);
        }
    }
    Some(Ipv4Address { bits: r })
}

/// The host addresses `.1` to `.254` of the /24 slice holding `address`.
pub open spec fn slice_host(address: Ipv4Address, i: int) -> u32 {
    ((address.bits / 0x100) * 0x100 + i + 1) as u32
}

/// Lists every host address of the /24 slice containing `address`.
///
/// Prefixes are ignored, only the /24 slice of the address is swept so runs
/// stay bounded; network and broadcast addresses are excluded.
pub fn subnet_hosts(address: Ipv4Address) -> (r: Vec<Ipv4Address>)
    ensures
        r.len() == 254,
        forall|i: int| 0 <= i < 254 ==> (#[trigger] r@[i]).bits == slice_host(address, i),
{
    let x = address.bits;
    let base = x & 0xFFFF_FF00;
    assert(x & 0xFFFF_FF00u32 == (x / 0x100) * 0x100) by (bit_vector);
    let mut r: Vec<Ipv4Address> = Vec::new();
    let mut i: u32 = 1;
    while i < 255
        invariant
            1 <= i <= 255,
            base == (x / 0x100) * 0x100,
            x == address.bits,
            r.len() == i - 1,
            forall|k: int| 0 <= k < i - 1 ==> (#[trigger] r@[k]).bits == slice_host(address, k),
        decreases 255 - i,
    {
        r.push(Ipv4Address { bits: base + i });
        i += 1;
    }
    r
}


/// A network interface.
#[derive(Debug, Clone)]
pub struct Interface {
    pub name: String,
    pub index: u32,
    pub mac: Option<String>,
    pub state: String,
    pub up: bool,
    pub wireless: bool,
    pub ipv4: Vec<Address>,
    pub ipv6: Vec<Address>,
}

pub struct InterfaceView {
    pub name: Seq<char>,
    pub index: u32,
    pub mac: Option<Seq<char>>,
    pub state: Seq<char>,
    pub up: bool,
    pub wireless: bool,
    pub ipv4: Seq<Address>,
    pub ipv6: Seq<Address>,
}

pub open spec fn text_opt(o: Option<String>) -> Option<Seq<char>> {
    match o {
        Some(s) => Some(s@),
        None => None,
    }
}

impl View for Interface {
    type V = InterfaceView;

    open spec fn view(&self) -> InterfaceView {
        InterfaceView {
            name: self.name@,
            index: self.index,
            mac: text_opt(self.mac),
            state: self.state@,
            up: self.up,
            wireless: self.wireless,
            ipv4: self.ipv4@,
            ipv6: self.ipv6@,
        }
    }
}

pub open spec fn interface_views(v: Seq<Interface>) -> Seq<InterfaceView> {
    v.map_values(|i: Interface| i@)
}

/// One `addr_info` entry of `ip -j address`; `local` is absent when the
/// text is not an address.
#[derive(Debug, Clone, Copy)]
pub struct AddrInfoEntry {
    pub local: Option<IpAddress>,
    pub prefixlen: u8,
}

/// One interface object of `ip -j address`, as plain values.
#[derive(Debug, Clone)]
pub struct IpAddressEntry {
    pub ifindex: u32,
    pub ifname: String,
    pub operstate: String,
    pub flags: Vec<String>,
    pub address: Option<String>,
    pub addr_info: Vec<AddrInfoEntry>,
}

pub open spec fn string_views(v: Seq<String>) -> Seq<Seq<char>> {
    v.map_values(|s: String| s@)
}

/// The addresses of one family among the `addr_info` entries, in order.
pub open spec fn family_addresses(infos: Seq<AddrInfoEntry>, v4: bool) -> Seq<Address>
    decreases infos.len(),
{
    if infos.len() == 0 {
        Seq::empty()
    } else {
        let rest = family_addresses(infos.drop_last(), v4);
        match infos.last().local {
            Some(ip) => if (ip is V4) == v4 {
                rest.push(Address { ip, prefix_len: infos.last().prefixlen })
            } else {
                rest
            },
            None => rest,
        }
    }
}

/// The interface an `ip -j address` object describes: the hardware address
/// only when it contains a colon, `up` when the flags hold `UP`, the
/// addresses split by family; `wireless` is left false.
pub open spec fn spec_interface_of(e: IpAddressEntry) -> InterfaceView {
    InterfaceView {
        name: e.ifname@,
        index: e.ifindex,
        mac: match e.address {
            Some(m) => if m@.contains(':') {
                Some(m@)
            } else {
                None
            },
            None => None,
        },
        state: e.operstate@,
        up: string_views(e.flags@).contains("UP"@),
        wireless: false,
        ipv4: family_addresses(e.addr_info@, true),
        ipv6: family_addresses(e.addr_info@, false),
    }
}

fn family_addresses_of(infos: &Vec<AddrInfoEntry>, v4: bool) -> (r: Vec<Address>)
    ensures
        r@ == family_addresses(infos@, v4),
{
    let mut r: Vec<Address> = Vec::new();
    let mut i: usize = 0;
    while i < infos.len()
        invariant
            i <= infos.len(),
            r@ == family_addresses(infos@.take(i as int), v4),
        decreases infos.len() - i,
    {
        assert(infos@.take(i + 1).drop_last() == infos@.take(i as int));
        assert(infos@.take(i + 1).last() == infos@[i as int]);
        let info = infos[i];
        match info.local {
            Some(ip) => {
                let is_v4 = match ip {
                    IpAddress::V4(_) => true,
                    IpAddress::V6(_) => false,
                };
                if is_v4 == v4 {
                    r.push(Address { ip, prefix_len: info.prefixlen });
                }
            },
            None => {},
        }
        i += 1;
    }
    assert(infos@.take(infos.len() as int) == infos@);
    r
}

fn has_up_flag(flags: &Vec<String>) -> (r: bool)
    ensures
        r == string_views(flags@).contains("UP"@),
{
    let up = string_of(&chars_of("UP"));
    let mut i: usize = 0;
    while i < flags.len()
        invariant
            i <= flags.len(),
            up@ == "UP"@,
            forall|k: int| 0 <= k < i ==> flags@[k]@ != "UP"@,
        decreases flags.len() - i,
    {
        if flags[i] == up {
            assert(string_views(flags@)[i as int] == "UP"@);
            return true;
        }
        i += 1;
    }
    assert forall|k: int| 0 <= k < string_views(flags@).len() implies string_views(flags@)[k]
        != "UP"@ by {
        assert(string_views(flags@)[k] == flags@[k]@);
    }
    false
}

fn has_colon(s: &String) -> (r: bool)
    ensures
        r == s@.contains(':'),
{
    crate::text::contains_char(&chars_of(s.as_str()), ':')
}

/// Builds the interface an `ip -j address` object describes.
pub fn interface_of(e: &IpAddressEntry) -> (r: Interface)
    ensures
        r@ == spec_interface_of(*e),
{
    let mac = match &e.address {
        Some(m) => if has_colon(m) {
            Some(m.clone())
        } else {
            None
        },
        None => None,
    };
    Interface {
        name: e.ifname.clone(),
        index: e.ifindex,
        mac,
        state: e.operstate.clone(),
        up: has_up_flag(&e.flags),
        wireless: false,
        ipv4: family_addresses_of(&e.addr_info, true),
        ipv6: family_addresses_of(&e.addr_info, false),
    }
}

/// Builds one interface per `ip -j address` object, in order.
pub fn interfaces_from_entries(entries: &Vec<IpAddressEntry>) -> (r: Vec<Interface>)
    ensures
        r.len() == entries.len(),
        forall|k: int| 0 <= k < r.len() ==> (#[trigger] r@[k])@ == spec_interface_of(entries@[k]),
{
    let mut r: Vec<Interface> = Vec::new();
    let mut i: usize = 0;
    while i < entries.len()
        invariant
            i <= entries.len(),
            r.len() == i,
            forall|k: int| 0 <= k < i ==> (#[trigger] r@[k])@ == spec_interface_of(entries@[k]),
        decreases entries.len() - i,
    {
        r.push(interface_of(&entries[i]));
        i += 1;
    }
    r
}


/// The broadcast addresses of the non-loopback IPv4 addresses in `a`.
pub open spec fn address_broadcasts(a: Seq<Address>) -> Seq<Ipv4Address>
    decreases a.len(),
{
    if a.len() == 0 {
        Seq::empty()
    } else {
        let rest = address_broadcasts(a.drop_last());
        let x = a.last();
        if spec_is_loopback(x.ip) {
            rest
        } else {
            match x.ip {
                IpAddress::V4(v4) => match spec_broadcast_address(v4, x.prefix_len) {
                    Some(b) => rest.push(b),
                    None => rest,
                },
                IpAddress::V6(_) => rest,
            }
        }
    }
}

/// Where a broadcast discovery sends its datagram: the directed broadcast
/// address of every non-loopback IPv4 address of every up interface, in
/// interface order.
pub open spec fn spec_broadcast_targets(ifs: Seq<InterfaceView>) -> Seq<Ipv4Address>
    decreases ifs.len(),
{
    if ifs.len() == 0 {
        Seq::empty()
    } else {
        let rest = spec_broadcast_targets(ifs.drop_last());
        if ifs.last().up {
            rest + address_broadcasts(ifs.last().ipv4)
        } else {
            rest
        }
    }
}

fn address_broadcasts_of(a: &Vec<Address>) -> (r: Vec<Ipv4Address>)
    ensures
        r@ == address_broadcasts(a@),
{
    let mut r: Vec<Ipv4Address> = Vec::new();
    let mut i: usize = 0;
    while i < a.len()
        invariant
            i <= a.len(),
            r@ == address_broadcasts(a@.take(i as int)),
        decreases a.len() - i,
    {
        assert(a@.take(i + 1).drop_last() == a@.take(i as int));
        assert(a@.take(i + 1).last() == a@[i as int]);
        let x = a[i];
        if !x.ip.is_loopback() {
            match x.ip {
                IpAddress::V4(v4) => match broadcast_address(v4, x.prefix_len) {
                    Some(b) => r.push(b),
                    None => {},
                },
                IpAddress::V6(_) => {},
            }
        }
        i += 1;
    }
    assert(a@.take(a.len() as int) == a@);
    r
}

/// The broadcast addresses a discovery datagram goes to.
pub fn broadcast_targets(interfaces: &Vec<Interface>) -> (r: Vec<Ipv4Address>)
    ensures
        r@ == spec_broadcast_targets(interface_views(interfaces@)),
{
    let ghost ifs = interface_views(interfaces@);
    let mut r: Vec<Ipv4Address> = Vec::new();
    let mut i: usize = 0;
    while i < interfaces.len()
        invariant
            i <= interfaces.len(),
            ifs == interface_views(interfaces@),
            r@ == spec_broadcast_targets(ifs.take(i as int)),
        decreases interfaces.len() - i,
    {
        assert(ifs.take(i + 1).drop_last() == ifs.take(i as int));
        assert(ifs.take(i + 1).last() == interfaces@[i as int]@);
        if interfaces[i].up {
            let mut b = address_broadcasts_of(&interfaces[i].ipv4);
            r.append(&mut b);
        }
        i += 1;
    }
    assert(ifs.take(interfaces.len() as int) == ifs);
    r
}

/// The hosts of the /24 slices of the non-loopback IPv4 addresses in `a`.
pub open spec fn address_hosts(a: Seq<Address>) -> Seq<u32>
    decreases a.len(),
{
    if a.len() == 0 {
        Seq::empty()
    } else {
        let rest = address_hosts(a.drop_last());
        match a.last().ip {
            IpAddress::V4(v4) => if v4.bits / 0x100_0000 == 127 {
                rest
            } else {
                rest + Seq::new(254, |h: int| slice_host(v4, h))
            },
            IpAddress::V6(_) => rest,
        }
    }
}

/// Every host a TCP sweep may probe: the /24 slice hosts of the
/// non-loopback IPv4 addresses of the up interfaces.
pub open spec fn sweep_candidates(ifs: Seq<InterfaceView>) -> Seq<u32>
    decreases ifs.len(),
{
    if ifs.len() == 0 {
        Seq::empty()
    } else {
        let rest = sweep_candidates(ifs.drop_last());
        if ifs.last().up {
            rest + address_hosts(ifs.last().ipv4)
        } else {
            rest
        }
    }
}

/// The most hosts one sweep probes.
pub const MAX_SWEEP_HOSTS: usize = 1024;

/// Strictly increasing addresses.
pub open spec fn strictly_increasing(s: Seq<Ipv4Address>) -> bool {
    forall|i: int, j: int| 0 <= i < j < s.len() ==> s[i].bits < s[j].bits
}

fn address_hosts_of(a: &Vec<Address>) -> (r: Vec<u32>)
    ensures
        r@ == address_hosts(a@),
{
    let mut r: Vec<u32> = Vec::new();
    let mut i: usize = 0;
    while i < a.len()
        invariant
            i <= a.len(),
            r@ == address_hosts(a@.take(i as int)),
        decreases a.len() - i,
    {
        assert(a@.take(i + 1).drop_last() == a@.take(i as int));
        assert(a@.take(i + 1).last() == a@[i as int]);
        let x = a[i];
        match x.ip {
            IpAddress::V4(v4) => {
                if !v4.is_loopback() {
                    let hosts = subnet_hosts(v4);
                    let ghost before = r@;
                    let mut k: usize = 0;
                    while k < 254
                        invariant
                            k <= 254,
                            hosts.len() == 254,
                            forall|h: int| 0 <= h < 254 ==> (#[trigger] hosts@[h]).bits == slice_host(v4, h),
                            r@ == before + Seq::new(k as nat, |h: int| slice_host(v4, h)),
                        decreases 254 - k,
                    {
                        r.push(hosts[k].bits);
                        assert(before + Seq::new((k + 1) as nat, |h: int| slice_host(v4, h)) == (
                        before + Seq::new(k as nat, |h: int| slice_host(v4, h))).push(
                            slice_host(v4, k as int),
                        ));
                        k += 1;
                    }
                }
            },
            IpAddress::V6(_) => {},
        }
        i += 1;
    }
    assert(a@.take(a.len() as int) == a@);
    r
}

fn sweep_candidates_of(interfaces: &Vec<Interface>) -> (r: Vec<u32>)
    ensures
        r@ == sweep_candidates(interface_views(interfaces@)),
{
    let ghost ifs = interface_views(interfaces@);
    let mut r: Vec<u32> = Vec::new();
    let mut i: usize = 0;
    while i < interfaces.len()
        invariant
            i <= interfaces.len(),
            ifs == interface_views(interfaces@),
            r@ == sweep_candidates(ifs.take(i as int)),
        decreases interfaces.len() - i,
    {
        assert(ifs.take(i + 1).drop_last() == ifs.take(i as int));
        assert(ifs.take(i + 1).last() == interfaces@[i as int]@);
        if interfaces[i].up {
            let mut h = address_hosts_of(&interfaces[i].ipv4);
            r.append(&mut h);
        }
        i += 1;
    }
    assert(ifs.take(interfaces.len() as int) == ifs);
    r
}

/// The hosts a TCP sweep probes: the candidates, each once, in ascending
/// order, at most [`MAX_SWEEP_HOSTS`] of them (the smallest).
pub fn sweep_targets(interfaces: &Vec<Interface>) -> (r: Vec<Ipv4Address>)
    ensures
        strictly_increasing(r@),
        r.len() <= MAX_SWEEP_HOSTS,
        forall|k: int|
            0 <= k < r.len() ==> sweep_candidates(interface_views(interfaces@)).contains(
                (#[trigger] r@[k]).bits,
            ),
        forall|x: u32|
            #![trigger sweep_candidates(interface_views(interfaces@)).contains(x)]
            sweep_candidates(interface_views(interfaces@)).contains(x) ==> (exists|k: int|
                0 <= k < r.len() && (#[trigger] r@[k]).bits == x) || (r.len()
                == MAX_SWEEP_HOSTS && x > r@[r.len() - 1].bits),
{
    let cands = sweep_candidates_of(interfaces);
    let ghost c = cands@;
    let mut sorted: Vec<Ipv4Address> = Vec::new();
    let mut i: usize = 0;
    while i < cands.len()
        invariant
            i <= cands.len(),
            c == cands@,
            strictly_increasing(sorted@),
            forall|k: int| 0 <= k < sorted.len() ==> c.take(i as int).contains(
                (#[trigger] sorted@[k]).bits,
            ),
            forall|j: int|
                #![trigger c[j]]
                0 <= j < i ==> exists|k: int| 0 <= k < sorted.len() && (#[trigger] sorted@[k]).bits
                    == c[j],
        decreases cands.len() - i,
    {
        let x = cands[i];
        let mut p: usize = 0;
        while p < sorted.len() && sorted[p].bits < x
            invariant
                p <= sorted.len(),
                forall|k: int| 0 <= k < p ==> (#[trigger] sorted@[k]).bits < x,
            decreases sorted.len() - p,
        {
            p += 1;
        }
        let ghost old_s = sorted@;
        if p < sorted.len() && sorted[p].bits == x {
            assert forall|k: int| 0 <= k < sorted.len() implies c.take(i + 1).contains(
                (#[trigger] sorted@[k]).bits,
            ) by {
                let w = choose|w: int| 0 <= w < i && c.take(i as int)[w] == sorted@[k].bits;
                assert(c.take(i + 1)[w] == sorted@[k].bits);
            }
        } else {
            sorted.insert(p, Ipv4Address { bits: x });
            assert forall|a: int, b: int| 0 <= a < b < sorted.len() implies sorted@[a].bits
                < sorted@[b].bits by {
                if a < p && b > p {
                    assert(sorted@[b] == old_s[b - 1]);
                } else if a > p {
                    assert(sorted@[b] == old_s[b - 1]);
                    assert(sorted@[a] == old_s[a - 1]);
                } else if a == p && b > p {
                    assert(sorted@[b] == old_s[b - 1]);
                    assert(old_s[p as int].bits > x);
                }
            }
            assert forall|k: int| 0 <= k < sorted.len() implies c.take(i + 1).contains(
                (#[trigger] sorted@[k]).bits,
            ) by {
                if k == p {
                    assert(c.take(i + 1)[i as int] == x);
                } else {
                    let o = if k < p {
                        k
                    } else {
                        k - 1
                    };
                    assert(sorted@[k] == old_s[o]);
                    let w = choose|w: int| 0 <= w < i && c.take(i as int)[w] == old_s[o].bits;
                    assert(c.take(i + 1)[w] == old_s[o].bits);
                }
            }
            assert forall|j: int| #![trigger c[j]] 0 <= j < i implies exists|k: int|
                0 <= k < sorted.len() && (#[trigger] sorted@[k]).bits == c[j] by {
                let k0 = choose|k: int| 0 <= k < old_s.len() && (#[trigger] old_s[k]).bits == c[j];
                if k0 < p {
                    assert(sorted@[k0] == old_s[k0]);
                } else {
                    assert(sorted@[k0 + 1] == old_s[k0]);
                }
            }
            assert(sorted@[p as int].bits == c[i as int]);
        }
        i += 1;
    }
    assert(c.take(cands.len() as int) == c);
    let ghost full = sorted@;
    sorted.truncate(MAX_SWEEP_HOSTS);
    assert forall|x: u32|
        #![trigger c.contains(x)]
        c.contains(x) implies (exists|k: int| 0 <= k < sorted.len() && (#[trigger] sorted@[k]).bits
        == x) || (sorted.len() == MAX_SWEEP_HOSTS && x > sorted@[sorted.len() - 1].bits) by {
        let j = choose|j: int| 0 <= j < c.len() && c[j] == x;
        let k = choose|k: int| 0 <= k < full.len() && (#[trigger] full[k]).bits == c[j];
        if k < sorted.len() {
            assert(sorted@[k] == full[k]);
        } else {
            assert(sorted@[sorted.len() - 1] == full[MAX_SWEEP_HOSTS - 1]);
        }
    }
    sorted
}


/// An IPv4 address in dotted decimal notation.
pub open spec fn dotted(bits: u32) -> Seq<char> {
    let x = bits as nat;
    decimal(x / 0x100_0000) + seq!['.'] + decimal((x / 0x1_0000) % 0x100) + seq!['.'] + decimal(
        (x / 0x100) % 0x100,
    ) + seq!['.'] + decimal(x % 0x100)
}

fn push_decimal(out: &mut Vec<char>, n: u8)
    ensures
        final(out)@ == old(out)@ + decimal(n as nat),
{
    if n < 10 {
        out.push(digit_char(n));
        assert(decimal(n as nat) == seq![((n + 48) as u32) as char]);
    } else if n < 100 {
        out.push(digit_char(n / 10));
        out.push(digit_char(n % 10));
        assert(decimal((n / 10) as nat) == seq![((n / 10 + 48) as u32) as char]);
        assert(decimal(n as nat) == decimal((n / 10) as nat).push(((n % 10 + 48) as u32) as char));
    } else {
        out.push(digit_char(n / 100));
        out.push(digit_char((n / 10) % 10));
        out.push(digit_char(n % 10));
        assert(decimal((n / 100) as nat) == seq![((n / 100 + 48) as u32) as char]);
        assert(decimal((n / 10) as nat) == decimal((n / 100) as nat).push(
            (((n / 10) % 10 + 48) as u32) as char,
        ));
        assert(decimal(n as nat) == decimal((n / 10) as nat).push(((n % 10 + 48) as u32) as char));
    }
}

impl Ipv4Address {
    /// The address in dotted decimal notation, as `Ipv4Addr` displays it.
    pub fn to_text(&self) -> (s: String)
        ensures
            s@ == dotted(self.bits),
    {
        let x = self.bits;
        let mut out: Vec<char> = Vec::new();
        push_decimal(&mut out, (x / 0x100_0000) as u8);
        out.push('.');
        push_decimal(&mut out, ((x / 0x1_0000) % 0x100) as u8);
        out.push('.');
        push_decimal(&mut out, ((x / 0x100) % 0x100) as u8);
        out.push('.');
        push_decimal(&mut out, (x % 0x100) as u8);
        string_of(&out)
    }
}

/// The IPv4 address of interface `iface`: the first address of the first
/// interface with that name, when it is an IPv4 one.
pub open spec fn spec_interface_ipv4(iface: Seq<char>, ifs: Seq<InterfaceView>) -> Option<
    Seq<char>,
>
    decreases ifs.len(),
{
    if ifs.len() == 0 {
        None
    } else if ifs[0].name == iface {
        if ifs[0].ipv4.len() > 0 {
            match ifs[0].ipv4[0].ip {
                IpAddress::V4(a) => Some(dotted(a.bits)),
                IpAddress::V6(_) => None,
            }
        } else {
            None
        }
    } else {
        spec_interface_ipv4(iface, ifs.drop_first())
    }
}

/// The dotted IPv4 address of the interface named `iface`, if any.
pub fn interface_ipv4(iface: &str, interfaces: &Vec<Interface>) -> (r: Option<String>)
    ensures
        text_opt(r) == spec_interface_ipv4(iface@, interface_views(interfaces@)),
{
    let ghost ifs = interface_views(interfaces@);
    let name = string_of(&chars_of(iface));
    let mut i: usize = 0;
    assert(ifs.skip(0) == ifs);
    while i < interfaces.len()
        invariant
            i <= interfaces.len(),
            ifs == interface_views(interfaces@),
            name@ == iface@,
            spec_interface_ipv4(iface@, ifs.skip(i as int)) == spec_interface_ipv4(iface@, ifs),
        decreases interfaces.len() - i,
    {
        assert(ifs.skip(i as int)[0] == interfaces@[i as int]@);
        if interfaces[i].name == name {
            if interfaces[i].ipv4.len() > 0 {
                return match interfaces[i].ipv4[0].ip {
                    IpAddress::V4(a) => Some(a.to_text()),
                    IpAddress::V6(_) => None,
                };
            }
            return None;
        }
        assert(ifs.skip(i as int).drop_first() == ifs.skip(i + 1));
        i += 1;
    }
    None
}

/// How a host was found.
#[derive(Debug, Clone, Copy, PartialEq, Eq, Structural)]
pub enum DiscoverySource {
    UdpBroadcast,
    TcpProbe,
    Mdns,
}

/// A host found by a sweep or an mDNS query.
#[derive(Debug, Clone)]
pub struct DiscoveredHost {
    pub address: IpAddress,
    pub port: Option<u16>,
    pub name: Option<String>,
    pub source: DiscoverySource,
}

pub struct DiscoveredHostView {
    pub address: IpAddress,
    pub port: Option<u16>,
    pub name: Option<Seq<char>>,
    pub source: DiscoverySource,
}

impl View for DiscoveredHost {
    type V = DiscoveredHostView;

    open spec fn view(&self) -> DiscoveredHostView {
        DiscoveredHostView {
            address: self.address,
            port: self.port,
            name: text_opt(self.name),
            source: self.source,
        }
    }
}

/// A host that answered a TCP probe on `port`.
pub fn probed_host(address: IpAddress, port: u16) -> (h: DiscoveredHost)
    ensures
        h@ == (DiscoveredHostView {
            address,
            port: Some(port),
            name: None,
            source: DiscoverySource::TcpProbe,
        }),
{
    DiscoveredHost { address, port: Some(port), name: None, source: DiscoverySource::TcpProbe }
}

/// The fields of one `ip neighbour show` line; the address is still text.
#[derive(Debug, Clone)]
pub struct NeighborLine {
    pub ip: String,
    pub mac: Option<String>,
    pub device: String,
    pub state: String,
}


/// The neighbor states `ip neighbour` prints.
pub open spec fn is_neighbor_state(s: Seq<char>) -> bool {
    ||| s == "INCOMPLETE"@
    ||| s == "REACHABLE"@
    ||| s == "STALE"@
    ||| s == "DELAY"@
    ||| s == "PROBE"@
    ||| s == "FAILED"@
    ||| s == "PERMANENT"@
    ||| s == "NOARP"@
    ||| s == "NONE"@
}

fn is_neighbor_state_exec(s: &[char]) -> (r: bool)
    ensures
        r == is_neighbor_state(s@),
{
    chars_eq(s, &chars_of("INCOMPLETE")) || chars_eq(s, &chars_of("REACHABLE")) || chars_eq(
        s,
        &chars_of("STALE"),
    ) || chars_eq(s, &chars_of("DELAY")) || chars_eq(s, &chars_of("PROBE")) || chars_eq(
        s,
        &chars_of("FAILED"),
    ) || chars_eq(s, &chars_of("PERMANENT")) || chars_eq(s, &chars_of("NOARP")) || chars_eq(
        s,
        &chars_of("NONE"),
    )
}

/// What the tokens after the address have set so far.
pub struct NeighborScan {
    pub device: Seq<char>,
    pub mac: Option<Seq<char>>,
    pub state: Seq<char>,
}

/// Reads the tokens from position `k` on: `dev <name>` sets the device,
/// `lladdr <mac>` the lower-cased hardware address, and a known state word
/// (in any case) the upper-cased state.
pub open spec fn neighbor_scan(t: Seq<Seq<char>>, k: int, a: NeighborScan) -> NeighborScan
    decreases t.len() - k,
{
    if k < 0 || k >= t.len() {
        a
    } else {
        let next = if k + 1 < t.len() {
            k + 2
        } else {
            t.len() as int
        };
        let arg = if k + 1 < t.len() {
            Some(t[k + 1])
        } else {
            None
        };
        if t[k] == "dev"@ {
            neighbor_scan(
                t,
                next,
                NeighborScan {
                    device: match arg {
                        Some(d) => d,
                        None => Seq::empty(),
                    },
                    ..a
                },
            )
        } else if t[k] == "lladdr"@ {
            neighbor_scan(
                t,
                next,
                NeighborScan {
                    mac: match arg {
                        Some(m) => Some(unicode_lowercase(m)),
                        None => None,
                    },
                    ..a
                },
            )
        } else if is_neighbor_state(t[k].map_values(|c: char| ascii_upper(c))) {
            neighbor_scan(
                t,
                k + 1,
                NeighborScan { state: t[k].map_values(|c: char| ascii_upper(c)), ..a },
            )
        } else {
            neighbor_scan(t, k + 1, a)
        }
    }
}

pub struct NeighborLineView {
    pub ip: Seq<char>,
    pub mac: Option<Seq<char>>,
    pub device: Seq<char>,
    pub state: Seq<char>,
}

impl View for NeighborLine {
    type V = NeighborLineView;

    open spec fn view(&self) -> NeighborLineView {
        NeighborLineView {
            ip: self.ip@,
            mac: text_opt(self.mac),
            device: self.device@,
            state: self.state@,
        }
    }
}

/// The fields of an `ip neighbour show` line: its first token is the
/// address, and a line without a device gives nothing.
pub open spec fn spec_neighbor_line(line: Seq<char>) -> Option<NeighborLineView> {
    let t = tokens(line);
    if t.len() == 0 {
        None
    } else {
        let a = neighbor_scan(
            t,
            1,
            NeighborScan { device: Seq::empty(), mac: None, state: Seq::empty() },
        );
        if a.device.len() == 0 {
            None
        } else {
            Some(NeighborLineView { ip: t[0], mac: a.mac, device: a.device, state: a.state })
        }
    }
}

/// Splits one line of `ip neighbour show` output into its fields.
pub fn neighbor_line(line: &str) -> (r: Option<NeighborLine>)
    ensures
        match r {
            Some(n) => spec_neighbor_line(line@) == Some(n@),
            None => spec_neighbor_line(line@).is_none(),
        },
{
    let t = split_whitespace(&chars_of(line));
    let ghost tv = views(t@);
    if t.len() == 0 {
        return None;
    }
    let dev = chars_of("dev");
    let lladdr = chars_of("lladdr");
    let mut device: Vec<char> = Vec::new();
    let mut mac: Option<Vec<char>> = None;
    let mut state: Vec<char> = Vec::new();
    let mut k: usize = 1;
    let ghost start = NeighborScan { device: Seq::empty(), mac: None, state: Seq::empty() };
    while k < t.len()
        invariant
            tv == views(t@),
            1 <= k <= t.len(),
            dev@ == "dev"@,
            lladdr@ == "lladdr"@,
            neighbor_scan(
                tv,
                k as int,
                NeighborScan {
                    device: device@,
                    mac: match mac {
                        Some(m) => Some(m@),
                        None => None,
                    },
                    state: state@,
                },
            ) == neighbor_scan(tv, 1, start),
        decreases t.len() - k,
    {
        assert(tv[k as int] == t@[k as int]@);
        if k + 1 < t.len() {
            assert(tv[k + 1] == t@[k + 1]@);
            assert(t@[k + 1]@.subrange(0, t@[k + 1]@.len() as int) == t@[k + 1]@);
        }
        if chars_eq(&t[k], &dev) {
            if k + 1 < t.len() {
                device = crate::text::slice_chars(&t[k + 1], 0, t[k + 1].len());
                k += 2;
            } else {
                device = Vec::new();
                k = t.len();
            }
        } else if chars_eq(&t[k], &lladdr) {
            if k + 1 < t.len() {
                mac = Some(crate::text::to_lowercase(&t[k + 1]));
                k += 2;
            } else {
                mac = None;
                k = t.len();
            }
        } else {
            let upper = crate::text::ascii_upper_all(&t[k]);
            if is_neighbor_state_exec(&upper) {
                state = upper;
            }
            k += 1;
        }
    }
    if device.len() == 0 {
        return None;
    }
    assert(tv[0] == t@[0]@);
    Some(
        NeighborLine {
            ip: string_of(&t[0]),
            mac: match mac {
                Some(m) => Some(string_of(&m)),
                None => None,
            },
            device: string_of(&device),
            state: string_of(&state),
        },
    )
}


/// The name an mDNS record is merged under: its PTR target, else its owner.
pub open spec fn record_key(r: MdnsRecordView) -> Seq<char> {
    match r.ptr_target {
        Some(t) => t,
        None => r.owner,
    }
}

/// The first label of a dotted name.
pub open spec fn first_label(t: Seq<char>) -> Seq<char> {
    t.subrange(0, find_char(t, '.', 0))
}

/// `0.0.0.0`, the address of a host no A record was seen for.
pub open spec fn unspecified() -> IpAddress {
    IpAddress::V4(Ipv4Address { bits: 0 })
}

pub open spec fn blank_mdns_host() -> DiscoveredHostView {
    DiscoveredHostView {
        address: unspecified(),
        port: None,
        name: None,
        source: DiscoverySource::Mdns,
    }
}

/// A host as one more record updates it: a PTR record names it (the first
/// label of the target) unless it already has a name; an A record sets its
/// address.
pub open spec fn apply_record(h: DiscoveredHostView, r: MdnsRecordView) -> DiscoveredHostView {
    match r.ptr_target {
        Some(t) => if h.name.is_none() {
            DiscoveredHostView { name: Some(first_label(t)), ..h }
        } else {
            h
        },
        None => match r.ipv4 {
            Some(ip) => DiscoveredHostView { address: IpAddress::V4(ip), ..h },
            None => h,
        },
    }
}

/// Index of the entry with key `k` at or after `i`, or the length.
pub open spec fn key_index(t: Seq<(Seq<char>, DiscoveredHostView)>, k: Seq<char>, i: int) -> int
    decreases t.len() - i,
{
    if 0 <= i < t.len() && t[i].0 != k {
        key_index(t, k, i + 1)
    } else {
        i
    }
}

proof fn lemma_key_index(t: Seq<(Seq<char>, DiscoveredHostView)>, k: Seq<char>, i: int)
    requires
        0 <= i <= t.len(),
    ensures
        i <= key_index(t, k, i) <= t.len(),
        key_index(t, k, i) < t.len() ==> t[key_index(t, k, i)].0 == k,
    decreases t.len() - i,
{
    if i < t.len() && t[i].0 != k {
        lemma_key_index(t, k, i + 1);
    }
}

/// One entry per record key, each host built from the records with that
/// key, in the order the keys first appear.
pub open spec fn mdns_table(recs: Seq<MdnsRecordView>) -> Seq<(Seq<char>, DiscoveredHostView)>
    decreases recs.len(),
{
    if recs.len() == 0 {
        Seq::empty()
    } else {
        let t = mdns_table(recs.drop_last());
        let r = recs.last();
        let k = record_key(r);
        let i = key_index(t, k, 0);
        if i < t.len() {
            t.update(i, (k, apply_record(t[i].1, r)))
        } else {
            t.push((k, apply_record(blank_mdns_host(), r)))
        }
    }
}

/// The hosts of a table that have an address or a name.
pub open spec fn kept_hosts(t: Seq<(Seq<char>, DiscoveredHostView)>) -> Seq<DiscoveredHostView>
    decreases t.len(),
{
    if t.len() == 0 {
        Seq::empty()
    } else {
        let rest = kept_hosts(t.drop_last());
        let h = t.last().1;
        if h.address != unspecified() || h.name.is_some() {
            rest.push(h)
        } else {
            rest
        }
    }
}

/// Hosts without a name first, then by name.
pub open spec fn name_le(a: Option<Seq<char>>, b: Option<Seq<char>>) -> bool {
    match (a, b) {
        (None, _) => true,
        (Some(_), None) => false,
        (Some(x), Some(y)) => lex_le(x, y),
    }
}

pub open spec fn sorted_by_name(s: Seq<DiscoveredHostView>) -> bool {
    forall|i: int, j: int| 0 <= i < j < s.len() ==> name_le(s[i].name, s[j].name)
}

pub open spec fn host_views(v: Seq<DiscoveredHost>) -> Seq<DiscoveredHostView> {
    v.map_values(|h: DiscoveredHost| h@)
}

pub open spec fn entry_views(v: Seq<(Vec<char>, DiscoveredHost)>) -> Seq<
    (Seq<char>, DiscoveredHostView),
> {
    v.map_values(|e: (Vec<char>, DiscoveredHost)| (e.0@, e.1@))
}

fn first_label_of(t: &[char]) -> (r: Vec<char>)
    ensures
        r@ == first_label(t@),
{
    let p = position_of(t, '.');
    slice_chars(t, 0, p)
}

fn merge_record_into(table: &mut Vec<(Vec<char>, DiscoveredHost)>, r: MdnsRecord)
    ensures
        entry_views(final(table)@) == ({
            let t = entry_views(old(table)@);
            let k = record_key(r@);
            let i = key_index(t, k, 0);
            if i < t.len() {
                t.update(i, (k, apply_record(t[i].1, r@)))
            } else {
                t.push((k, apply_record(blank_mdns_host(), r@)))
            }
        }),
{
    let ghost t = entry_views(table@);
    let ghost rv = r@;
    let key: Vec<char> = match &r.ptr_target {
        Some(target) => chars_of(target.as_str()),
        None => chars_of(r.owner.as_str()),
    };
    let mut i: usize = 0;
    while i < table.len() && !chars_eq(&table[i].0, &key)
        invariant
            i <= table.len(),
            t == entry_views(table@),
            key@ == record_key(rv),
            key_index(t, key@, i as int) == key_index(t, key@, 0),
        decreases table.len() - i,
    {
        i += 1;
    }
    proof {
        lemma_key_index(t, key@, 0);
    }
    let found = i < table.len();
    let mut host = if found {
        let (_, h) = table.remove(i);
        h
    } else {
        DiscoveredHost {
            address: IpAddress::V4(Ipv4Address { bits: 0 }),
            port: None,
            name: None,
            source: DiscoverySource::Mdns,
        }
    };
    match r.ptr_target {
        Some(target) => {
            if host.name.is_none() {
                host.name = Some(string_of(&first_label_of(&chars_of(target.as_str()))));
            }
        },
        None => match r.ipv4 {
            Some(ip) => {
                host.address = IpAddress::V4(ip);
            },
            None => {},
        },
    }
    let ghost hv = host@;
    let ghost kv = key@;
    if found {
        table.insert(i, (key, host));
        assert(entry_views(table@) == t.update(i as int, (kv, hv)));
    } else {
        table.push((key, host));
        assert(entry_views(table@) == t.push((kv, hv)));
    }
}

fn keep_hosts(table: Vec<(Vec<char>, DiscoveredHost)>) -> (r: Vec<DiscoveredHost>)
    ensures
        host_views(r@) == kept_hosts(entry_views(table@)),
{
    let ghost t = entry_views(table@);
    let mut src = table;
    let mut rev: Vec<DiscoveredHost> = Vec::new();
    let unspecified_ip = IpAddress::V4(Ipv4Address { bits: 0 });
    while src.len() > 0
        invariant
            kept_hosts(t) == kept_hosts(entry_views(src@)) + host_views(rev@).reverse(),
            unspecified_ip == unspecified(),
        decreases src.len(),
    {
        let ghost before = src@;
        let (_, h) = src.pop().unwrap();
        assert(entry_views(src@) == entry_views(before).drop_last());
        let ghost hv = h@;
        let ghost old_rev = rev@;
        if h.address != unspecified_ip || h.name.is_some() {
            rev.push(h);
            assert(host_views(rev@).reverse() == seq![hv] + host_views(old_rev).reverse());
            assert(kept_hosts(entry_views(before)) == kept_hosts(entry_views(src@)).push(hv));
            assert(kept_hosts(entry_views(src@)).push(hv) + host_views(old_rev).reverse()
                == kept_hosts(entry_views(src@)) + host_views(rev@).reverse());
        }
    }
    assert(entry_views(src@) == Seq::<(Seq<char>, DiscoveredHostView)>::empty());
    let mut r: Vec<DiscoveredHost> = Vec::new();
    let ghost full = host_views(rev@);
    while rev.len() > 0
        invariant
            host_views(r@) + host_views(rev@).reverse() == full.reverse(),
        decreases rev.len(),
    {
        let ghost before = rev@;
        let h = rev.pop().unwrap();
        let ghost hv = h@;
        let ghost old_r = r@;
        r.push(h);
        assert(host_views(before).reverse() == seq![hv] + host_views(rev@).reverse()) by {
            assert(host_views(before) == host_views(rev@).push(hv));
        }
        assert(host_views(r@) == host_views(old_r).push(hv));
    }
    assert(host_views(rev@).reverse() == Seq::<DiscoveredHostView>::empty());
    r
}

fn name_le_exec(a: &DiscoveredHost, b: &DiscoveredHost) -> (r: bool)
    ensures
        r == name_le(a@.name, b@.name),
{
    match (&a.name, &b.name) {
        (None, _) => true,
        (Some(_), None) => false,
        (Some(x), Some(y)) => lex_le_chars(&chars_of(x.as_str()), &chars_of(y.as_str())),
    }
}

proof fn lemma_name_le_total(a: Option<Seq<char>>, b: Option<Seq<char>>)
    ensures
        name_le(a, b) || name_le(b, a),
{
    if a is Some && b is Some {
        lemma_lex_le_total(a->0, b->0);
    }
}

proof fn lemma_name_le_trans(a: Option<Seq<char>>, b: Option<Seq<char>>, c: Option<Seq<char>>)
    requires
        name_le(a, b),
        name_le(b, c),
    ensures
        name_le(a, c),
{
    if a is Some && b is Some && c is Some {
        lemma_lex_le_trans(a->0, b->0, c->0);
    }
}

fn sort_by_name(v: Vec<DiscoveredHost>) -> (r: Vec<DiscoveredHost>)
    ensures
        sorted_by_name(host_views(r@)),
        host_views(r@).to_multiset() == host_views(v@).to_multiset(),
{
    broadcast use vstd::seq_lib::group_to_multiset_ensures, vstd::multiset::group_multiset_axioms;

    let mut src = v;
    let mut r: Vec<DiscoveredHost> = Vec::new();
    assert(host_views(r@).to_multiset() =~= vstd::multiset::Multiset::empty());
    while src.len() > 0
        invariant
            sorted_by_name(host_views(r@)),
            host_views(r@).to_multiset().add(host_views(src@).to_multiset()) == host_views(
                v@,
            ).to_multiset(),
        decreases src.len(),
    {
        let ghost before_src = src@;
        let x = src.pop().unwrap();
        assert(host_views(before_src) == host_views(src@).push(x@));
        let mut p: usize = 0;
        while p < r.len() && name_le_exec(&r[p], &x)
            invariant
                p <= r.len(),
                sorted_by_name(host_views(r@)),
                forall|k: int| 0 <= k < p ==> name_le((#[trigger] r@[k])@.name, x@.name),
            decreases r.len() - p,
        {
            p += 1;
        }
        let ghost old_r = host_views(r@);
        let ghost xv = x@;
        r.insert(p, x);
        assert(host_views(r@) == old_r.insert(p as int, xv));
        proof {
            vstd::seq_lib::to_multiset_insert(old_r, p as int, xv);
            vstd::seq_lib::to_multiset_build(host_views(src@), xv);
            assert(host_views(r@).to_multiset().add(host_views(src@).to_multiset())
                =~= old_r.to_multiset().add(host_views(before_src).to_multiset()));
        }
        assert forall|i: int, j: int|
            0 <= i < j < host_views(r@).len() implies name_le(
            host_views(r@)[i].name,
            host_views(r@)[j].name,
        ) by {
            if j == p {
                assert(host_views(r@)[i] == old_r[i]);
            } else if i == p {
                assert(host_views(r@)[j] == old_r[j - 1]);
                lemma_name_le_total(old_r[p as int].name, xv.name);
                if j - 1 > p {
                    lemma_name_le_trans(xv.name, old_r[p as int].name, old_r[j - 1].name);
                }
            } else if i < p && j > p {
                assert(host_views(r@)[i] == old_r[i]);
                assert(host_views(r@)[j] == old_r[j - 1]);
            } else if i > p {
                assert(host_views(r@)[i] == old_r[i - 1]);
                assert(host_views(r@)[j] == old_r[j - 1]);
            } else {
                assert(host_views(r@)[i] == old_r[i]);
                assert(host_views(r@)[j] == old_r[j]);
            }
        }
    }
    assert(host_views(src@).to_multiset() =~= vstd::multiset::Multiset::empty());
    r
}

/// Merges the records of mDNS answers into hosts: one per PTR target or
/// owner name, named by PTR records and addressed by A records; hosts with
/// neither are dropped; the rest come sorted by name.
pub fn merge_mdns_records(records: Vec<MdnsRecord>) -> (r: Vec<DiscoveredHost>)
    ensures
        host_views(r@).to_multiset() == kept_hosts(mdns_table(record_views(records@))).to_multiset(),
        sorted_by_name(host_views(r@)),
{
    let ghost all = record_views(records@);
    let mut table: Vec<(Vec<char>, DiscoveredHost)> = Vec::new();
    let mut i: usize = 0;
    assert(entry_views(table@) == mdns_table(all.take(0)));
    while i < records.len()
        invariant
            i <= records.len(),
            all == record_views(records@),
            entry_views(table@) == mdns_table(all.take(i as int)),
        decreases records.len() - i,
    {
        assert(all.take(i + 1).drop_last() == all.take(i as int));
        assert(all.take(i + 1).last() == records@[i as int]@);
        let rec = MdnsRecord {
            owner: records[i].owner.clone(),
            record_type: records[i].record_type,
            ptr_target: match &records[i].ptr_target {
                Some(t) => Some(t.clone()),
                None => None,
            },
            ipv4: records[i].ipv4,
        };
        merge_record_into(&mut table, rec);
        i += 1;
    }
    assert(all.take(records.len() as int) == all);
    sort_by_name(keep_hosts(table))
}


impl NeighborLine {
    /// Whether the entry is in the `FAILED` state; the neighbor table leaves
    /// such entries out.
    pub fn is_failed(&self) -> (r: bool)
        ensures
            r == (self.state@ == "FAILED"@),
    {
        chars_eq(&chars_of(self.state.as_str()), &chars_of("FAILED"))
    }
}

/// The entries of a neighbor table listing: every line that gives fields,
/// in order, without those in the `FAILED` state.
pub open spec fn neighbor_entries(ls: Seq<Seq<char>>) -> Seq<NeighborLineView>
    decreases ls.len(),
{
    if ls.len() == 0 {
        Seq::empty()
    } else {
        let rest = neighbor_entries(ls.drop_last());
        match spec_neighbor_line(ls.last()) {
            Some(n) => if n.state == "FAILED"@ {
                rest
            } else {
                rest.push(n)
            },
            None => rest,
        }
    }
}

pub open spec fn neighbor_views(v: Seq<NeighborLine>) -> Seq<NeighborLineView> {
    v.map_values(|n: NeighborLine| n@)
}

/// Reads the entries of `ip neighbour show` output, leaving out lines
/// without fields and `FAILED` entries; the addresses are still text.
pub fn neighbor_table(text: &str) -> (r: Vec<NeighborLine>)
    ensures
        neighbor_views(r@) == neighbor_entries(lines(text@)),
{
    let ls = split_lines(&chars_of(text));
    let ghost all = lines(text@);
    let mut r: Vec<NeighborLine> = Vec::new();
    let mut i: usize = 0;
    while i < ls.len()
        invariant
            views(ls@) == all,
            i <= ls.len(),
            neighbor_views(r@) == neighbor_entries(all.take(i as int)),
        decreases ls.len() - i,
    {
        assert(ls@[i as int]@ == all[i as int]);
        assert(all.take(i + 1).drop_last() == all.take(i as int));
        assert(all.take(i + 1).last() == all[i as int]);
        let line = string_of(&ls[i]);
        let ghost old_r = r@;
        match neighbor_line(line.as_str()) {
            Some(n) => {
                if !n.is_failed() {
                    r.push(n);
                    assert(neighbor_views(r@) == neighbor_views(old_r).push(n@));
                }
            },
            None => {},
        }
        i += 1;
    }
    assert(all.take(ls.len() as int) == all);
    r
}

/// The neighbor table keeps exactly the entries that are not `FAILED`:
/// every line that gives fields in another state is in the table, every
/// table entry is such a line's fields, and none is `FAILED`.
pub proof fn lemma_neighbor_entries_keep_unfailed(ls: Seq<Seq<char>>)
    ensures
        forall|i: int|
            0 <= i < ls.len() ==> (#[trigger] spec_neighbor_line(ls[i]) matches Some(n) ==> (n.state
                != "FAILED"@ ==> neighbor_entries(ls).contains(n))),
        forall|k: int|
            0 <= k < neighbor_entries(ls).len() ==> (#[trigger] neighbor_entries(ls)[k]).state
                != "FAILED"@ && exists|i: int|
                0 <= i < ls.len() && spec_neighbor_line(ls[i]) == Some(neighbor_entries(ls)[k]),
    decreases ls.len(),
{
    if ls.len() > 0 {
        let prev = ls.drop_last();
        lemma_neighbor_entries_keep_unfailed(prev);
        let rest = neighbor_entries(prev);
        let last = ls.len() - 1;
        assert(ls[last] == ls.last());
        assert forall|i: int|
            0 <= i < ls.len() implies (#[trigger] spec_neighbor_line(ls[i]) matches Some(n) ==> (
            n.state != "FAILED"@ ==> neighbor_entries(ls).contains(n))) by {
            if i < last {
                assert(ls[i] == prev[i]);
                match spec_neighbor_line(ls[i]) {
                    Some(n) => {
                        if n.state != "FAILED"@ {
                            assert(rest.contains(n));
                            let j = choose|j: int| 0 <= j < rest.len() && rest[j] == n;
                            match spec_neighbor_line(ls.last()) {
                                Some(m) => if m.state != "FAILED"@ {
                                    assert(neighbor_entries(ls) == rest.push(m));
                                    assert(neighbor_entries(ls)[j] == n);
                                },
                                None => {},
                            }
                        }
                    },
                    None => {},
                }
            } else {
                match spec_neighbor_line(ls.last()) {
                    Some(m) => if m.state != "FAILED"@ {
                        assert(neighbor_entries(ls) == rest.push(m));
                        assert(neighbor_entries(ls)[rest.len() as int] == m);
                    },
                    None => {},
                }
            }
        }
        assert forall|k: int| 0 <= k < neighbor_entries(ls).len() implies (#[trigger] neighbor_entries(
            ls,
        )[k]).state != "FAILED"@ && exists|i: int|
            0 <= i < ls.len() && spec_neighbor_line(ls[i]) == Some(neighbor_entries(ls)[k]) by {
            if k < rest.len() {
                assert(neighbor_entries(ls)[k] == rest[k]);
                let i = choose|i: int| 0 <= i < prev.len() && spec_neighbor_line(prev[i]) == Some(rest[k]);
                assert(prev[i] == ls[i]);
            } else {
                assert(spec_neighbor_line(ls[last]) == Some(neighbor_entries(ls)[k]));
            }
        }
    }
}

/// What a receive loop (broadcast replies, mDNS answers) does next.
#[derive(Debug)]
pub enum ReceiveStep {
    /// Wait for the next datagram.
    Receive,
    /// The listening time is over; the datagrams so far are the answer.
    Finish,
    /// Receiving failed.
    Fail(NetworkError),
}

/// Whether a failed receive only means that nothing arrived in time.
pub open spec fn is_quiet(kind: IoErrorKind) -> bool {
    kind == IoErrorKind::WouldBlock || kind == IoErrorKind::TimedOut
}

/// The local network client.
#[derive(Debug, Clone, Copy)]
pub struct LocalNetwork;

impl LocalNetwork {
    pub fn new() -> Self {
        LocalNetwork
    }

    /// The next step of a receive loop. Nothing is listened for when no
    /// datagram went out (`sent_any` false). A failed receive of kind
    /// `kind` (with its message) ends the loop with that error unless it
    /// only means that nothing arrived; otherwise listening goes on until
    /// the deadline has passed.
    pub fn receive_step(&self, sent_any: bool, expired: bool, failure: Option<(IoErrorKind, String)>) -> (s: ReceiveStep)
        ensures
            !sent_any ==> s is Finish,
            sent_any ==> match failure {
                Some((kind, message)) if !is_quiet(kind) => s matches ReceiveStep::Fail(e) && e@
                    == spec_from_io_kind(kind, message@),
                _ => if expired {
                    s is Finish
                } else {
                    s is Receive
                },
            },
    {
        if !sent_any {
            return ReceiveStep::Finish;
        }
        match failure {
            Some((kind, message)) => {
                if !(kind == IoErrorKind::WouldBlock || kind == IoErrorKind::TimedOut) {
                    return ReceiveStep::Fail(NetworkError::from_io_kind(kind, message));
                }
            },
            None => {},
        }
        if expired {
            ReceiveStep::Finish
        } else {
            ReceiveStep::Receive
        }
    }
}

impl Default for LocalNetwork {
    fn default() -> Self {
        LocalNetwork
    }
}


/// The broadcast address keeps the network bits of the address, has every
/// host bit set, and is never below the address.
pub proof fn lemma_broadcast_laws(address: Ipv4Address, prefix_len: u8)
    requires
        prefix_len <= 32,
    ensures
        ({
            let b = spec_broadcast_address(address, prefix_len).unwrap().bits;
            let h = host_mask(prefix_len as int);
            &&& b & !h == address.bits & !h
            &&& b & h == h
            &&& b >= address.bits
        }),
{
    let a = address.bits;
    let h = host_mask(prefix_len as int);
    assert((a | h) & !h == a & !h) by (bit_vector);
    assert((a | h) & h == h) by (bit_vector);
    assert(a | h >= a) by (bit_vector);
}

/// The hosts of a /24 slice all lie in the slice of the address, never at its
/// network (`.0`) or broadcast (`.255`) address, and are all different.
pub proof fn lemma_slice_hosts(address: Ipv4Address, i: int, j: int)
    requires
        0 <= i < 254,
        0 <= j < 254,
    ensures
        slice_host(address, i) / 0x100 == address.bits / 0x100,
        1 <= slice_host(address, i) % 0x100 <= 254,
        i != j ==> slice_host(address, i) != slice_host(address, j),
{
    let base = (address.bits / 0x100) * 0x100;
    assert(base + 0xFF <= 0xFFFF_FFFF);
    assert(slice_host(address, i) == base + i + 1);
}

/// The addresses split by family: the IPv4 list holds only IPv4 addresses,
/// the IPv6 list only IPv6 ones.
pub proof fn lemma_family_addresses(infos: Seq<AddrInfoEntry>, v4: bool)
    ensures
        forall|k: int|
            0 <= k < family_addresses(infos, v4).len() ==> ((#[trigger] family_addresses(
                infos,
                v4,
            )[k]).ip is V4) == v4,
    decreases infos.len(),
{
    if infos.len() > 0 {
        lemma_family_addresses(infos.drop_last(), v4);
    }
}

/// Every host an mDNS merge keeps has an address or a name.
pub proof fn lemma_kept_hosts_identified(t: Seq<(Seq<char>, DiscoveredHostView)>)
    ensures
        forall|k: int|
            0 <= k < kept_hosts(t).len() ==> (#[trigger] kept_hosts(t)[k]).address != unspecified()
                || kept_hosts(t)[k].name.is_some(),
    decreases t.len(),
{
    if t.len() > 0 {
        lemma_kept_hosts_identified(t.drop_last());
    }
}

} // verus!
