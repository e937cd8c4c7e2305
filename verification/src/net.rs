//! Addresses: the local networks of the machine, and endpoints in text form.
use vstd::arithmetic::div_mod::{
    lemma_div_multiples_vanish, lemma_div_pos_is_pos, lemma_fundamental_div_mod, lemma_mod_bound,
};
use vstd::arithmetic::power2::{lemma_pow2_pos, lemma_pow2_strictly_increases, pow2};
use vstd::prelude::*;
use vstd::string::*;

use crate::foreign::{
    dotted, in_net, ip_of_text, ip_text, is_mask, net_contains, net_of_mask_v4, net_of_mask_v6,
    net_size, net_trunc, parse_ip, show_ip, truncated, Ip, Net,
};
use crate::list::put;
use crate::text::{
    all_digits, begins, chars_of, cut_first, cut_last, decimal, decimal_text, digits_value,
    is_digit, law_cut, lemma_cut_first, lemma_cut_last, lemma_decimal, number, parse_u16,
    parse_up_to, rsplit_once, split_once, starts_with, text_between, unsigned_part, Text,
};

verus! {

/// An address of an interface with the mask of its network.
#[derive(Clone, Copy, PartialEq, Eq, Structural, Debug)]
#[allow(inconsistent_fields)]
pub enum IfAddr {
    V4 { ip: u32, netmask: u32 },
    V6 { ip: u128, netmask: u128 },
}

/// A network interface of the machine, with one of its addresses.
pub struct Iface {
    pub name: String,
    pub addr: IfAddr,
}

/// What an `Iface` says.
#[verifier::ext_equal]
pub struct IfaceModel {
    pub name: Text,
    pub addr: IfAddr,
}

impl DeepView for Iface {
    type V = IfaceModel;

    open spec fn deep_view(&self) -> IfaceModel {
        IfaceModel { name: self.name@, addr: self.addr }
    }
}

// ---------- which addresses count as local ----------

/// The address is set aside for private IPv4 networks: 10.0.0.0/8,
/// 172.16.0.0/12 or 192.168.0.0/16.
pub open spec fn private_v4(ip: u32) -> bool {
    ||| ip / 0x1000000 == 10
    ||| ip / 0x100000 == 0xac1
    ||| ip / 0x10000 == 0xc0a8
}

/// Whether an IPv4 address of the machine is reported: it has to be private
/// and not that of the loopback interface.
pub fn should_report_ipv4(ip: u32) -> (answer: bool)
    ensures
        answer == private_v4(ip),
{
    let is_private = ip / 0x1000000 == 10 || ip / 0x100000 == 0xac1 || ip / 0x10000 == 0xc0a8;
    let is_loopback = ip / 0x1000000 == 127;
    is_private && !is_loopback
}

/// The address is a unique local IPv6 address: it lies in fc00::/7.
pub open spec fn unique_local_v6(ip: u128) -> bool {
    ip / 0x2000000000000000000000000000000 == 0x7e
}

/// Whether an IPv6 address of the machine is reported: it has to be a unique
/// local address. Multicast, loopback, unspecified and link-local addresses
/// are none.
pub fn should_report_ipv6(ip: u128) -> (answer: bool)
    ensures
        answer == unique_local_v6(ip),
{
    let first: u128 = ip / 0x10000000000000000000000000000;
    assert(first / 0x200 == ip / 0x2000000000000000000000000000000);
    let is_multicast = first / 0x100 == 0xff;
    let is_loopback = ip == 1;
    let is_unspecified = ip == 0;
    let is_link_local = first / 0x40 == 0x3fa;
    if is_multicast || is_loopback || is_unspecified || is_link_local {
        false
    } else {
        first / 0x200 == 0x7e
    }
}

/// The interface is one of WireGuard's own.
pub open spec fn is_tunnel(iface: IfaceModel) -> bool {
    begins(iface.name, "wg"@)
}

/// The network of an IPv4 address and a mask, where the mask is one.
pub open spec fn masked_v4(ip: u32, netmask: u32) -> Option<Net> {
    if exists|prefix: nat| is_mask(netmask as nat, 32, prefix) {
        let prefix = choose|prefix: nat| is_mask(netmask as nat, 32, prefix);
        Some(truncated(Net::V4 { addr: ip, prefix: prefix as u8 }))
    } else {
        None
    }
}

/// The network of an IPv6 address and a mask, where the mask is one.
pub open spec fn masked_v6(ip: u128, netmask: u128) -> Option<Net> {
    if exists|prefix: nat| is_mask(netmask as nat, 128, prefix) {
        let prefix = choose|prefix: nat| is_mask(netmask as nat, 128, prefix);
        Some(truncated(Net::V6 { addr: ip, prefix: prefix as u8 }))
    } else {
        None
    }
}

/// A mask has one prefix length.
pub proof fn lemma_mask_unique(mask: nat, bits: nat, a: nat, b: nat)
    requires
        is_mask(mask, bits, a),
        is_mask(mask, bits, b),
    ensures
        a == b,
{
    if a < b {
        lemma_pow2_strictly_increases((bits - b) as nat, (bits - a) as nat);
    } else if b < a {
        lemma_pow2_strictly_increases((bits - a) as nat, (bits - b) as nat);
    }
}

/// The local network that an interface is in, where it is in one.
pub open spec fn lan_net(iface: IfaceModel) -> Option<Net> {
    if is_tunnel(iface) {
        None
    } else {
        match iface.addr {
            IfAddr::V4 { ip, netmask } => if private_v4(ip) {
                masked_v4(ip, netmask)
            } else {
                None
            },
            IfAddr::V6 { ip, netmask } => if unique_local_v6(ip) {
                masked_v6(ip, netmask)
            } else {
                None
            },
        }
    }
}

/// The local networks of some interfaces, in their order.
pub open spec fn lan_nets(ifaces: Seq<IfaceModel>) -> Seq<Net>
    decreases ifaces.len(),
{
    if ifaces.len() == 0 {
        Seq::empty()
    } else {
        let before = lan_nets(ifaces.drop_last());
        match lan_net(ifaces.last()) {
            Some(net) => before.push(net),
            None => before,
        }
    }
}

/// The local network that an interface is in.
fn network_of(iface: &Iface) -> (net: Option<Net>)
    ensures
        net == lan_net(iface.deep_view()),
{
    if starts_with(iface.name.as_str(), "wg") {
        return None;
    }
    match iface.addr {
        IfAddr::V4 { ip, netmask } => {
            if !should_report_ipv4(ip) {
                return None;
            }
            match net_of_mask_v4(ip, netmask) {
                Some(net) => {
                    proof {
                        if let Net::V4 { prefix, .. } = net {
                            let chosen = choose|p: nat| is_mask(netmask as nat, 32, p);
                            lemma_mask_unique(netmask as nat, 32, prefix as nat, chosen);
                        }
                    }
                    Some(net_trunc(net))
                },
                None => None,
            }
        },
        IfAddr::V6 { ip, netmask } => {
            if !should_report_ipv6(ip) {
                return None;
            }
            match net_of_mask_v6(ip, netmask) {
                Some(net) => {
                    proof {
                        if let Net::V6 { prefix, .. } = net {
                            let chosen = choose|p: nat| is_mask(netmask as nat, 128, p);
                            lemma_mask_unique(netmask as nat, 128, prefix as nat, chosen);
                        }
                    }
                    Some(net_trunc(net))
                },
                None => None,
            }
        },
    }
}

/// The local networks that the machine is in, from the interfaces it has.
pub fn get_local_lan_networks(ifaces: &[Iface]) -> (nets: Vec<Net>)
    ensures
        nets@ == lan_nets(ifaces.deep_view()),
{
    let mut nets: Vec<Net> = Vec::new();
    let ghost model = ifaces.deep_view();
    let mut i: usize = 0;
    assert(model.take(0) == Seq::<IfaceModel>::empty());
    while i < ifaces.len()
        invariant
            i <= ifaces@.len(),
            model == ifaces.deep_view(),
            nets@ == lan_nets(model.take(i as int)),
        decreases ifaces@.len() - i,
    {
        assert(model.take(i + 1).drop_last() == model.take(i as int));
        match network_of(&ifaces[i]) {
            Some(net) => nets.push(net),
            None => {},
        }
        i = i + 1;
    }
    assert(model.take(i as int) == model);
    nets
}

/// The text of an address.
pub open spec fn address_text(ip: Ip) -> Text {
    match ip {
        Ip::V4(bits) => dotted(bits),
        Ip::V6(_) => ip_text(ip),
    }
}

/// The text of an endpoint: an IPv6 address stands in brackets, as it does in
/// what `wg` prints.
pub open spec fn endpoint_text(ip: Ip, port: u16) -> Text {
    match ip {
        Ip::V4(_) => address_text(ip) + ":"@ + decimal(port as nat),
        Ip::V6(_) => "["@ + address_text(ip) + "]:"@ + decimal(port as nat),
    }
}

/// The text of an endpoint.
pub fn write_endpoint(ip: &Ip, port: u16) -> (endpoint: String)
    ensures
        endpoint@ == endpoint_text(*ip, port),
{
    let address = show_ip(ip);
    let digits = decimal_text(port as u64);
    match ip {
        Ip::V4(_) => {
            let mut endpoint = address;
            endpoint.append(":");
            endpoint.append(digits.as_str());
            endpoint
        },
        Ip::V6(_) => {
            let mut endpoint = "[".to_owned();
            endpoint.append(address.as_str());
            endpoint.append("]:");
            endpoint.append(digits.as_str());
            endpoint
        },
    }
}

/// The endpoint under which a local address of the machine is reported, where it is.
pub open spec fn local_endpoint(iface: IfaceModel, port: u16) -> Option<Text> {
    if is_tunnel(iface) {
        None
    } else {
        match iface.addr {
            IfAddr::V4 { ip, .. } => if private_v4(ip) {
                Some(endpoint_text(Ip::V4(ip), port))
            } else {
                None
            },
            IfAddr::V6 { ip, .. } => if unique_local_v6(ip) {
                Some(endpoint_text(Ip::V6(ip), port))
            } else {
                None
            },
        }
    }
}

/// The endpoints under which the local addresses are reported.
pub open spec fn local_endpoints(ifaces: Seq<IfaceModel>, port: u16) -> Seq<Text>
    decreases ifaces.len(),
{
    if ifaces.len() == 0 {
        Seq::empty()
    } else {
        let before = local_endpoints(ifaces.drop_last(), port);
        match local_endpoint(ifaces.last(), port) {
            Some(endpoint) => before.push(endpoint),
            None => before,
        }
    }
}

/// The endpoint under which a local address is reported.
fn endpoint_for(iface: &Iface, port: u16) -> (endpoint: Option<String>)
    ensures
        endpoint.deep_view() == local_endpoint(iface.deep_view(), port),
{
    if starts_with(iface.name.as_str(), "wg") {
        return None;
    }
    match iface.addr {
        IfAddr::V4 { ip, .. } => {
            if !should_report_ipv4(ip) {
                return None;
            }
            Some(write_endpoint(&Ip::V4(ip), port))
        },
        IfAddr::V6 { ip, .. } => {
            if !should_report_ipv6(ip) {
                return None;
            }
            Some(write_endpoint(&Ip::V6(ip), port))
        },
    }
}

/// The endpoints on the local networks under which this machine is reached,
/// from the interfaces it has.
pub fn collect_my_local_endpoints(listen_port: u16, ifaces: &[Iface]) -> (endpoints: Vec<String>)
    ensures
        endpoints.deep_view() == local_endpoints(ifaces.deep_view(), listen_port),
{
    let mut endpoints: Vec<String> = Vec::new();
    let ghost model = ifaces.deep_view();
    let mut i: usize = 0;
    assert(model.take(0) == Seq::<IfaceModel>::empty());
    while i < ifaces.len()
        invariant
            i <= ifaces@.len(),
            model == ifaces.deep_view(),
            endpoints.deep_view() == local_endpoints(model.take(i as int), listen_port),
        decreases ifaces@.len() - i,
    {
        assert(model.take(i + 1).drop_last() == model.take(i as int));
        match endpoint_for(&ifaces[i], listen_port) {
            Some(endpoint) => put(&mut endpoints, endpoint),
            None => {},
        }
        i = i + 1;
    }
    assert(model.take(i as int) == model);
    endpoints
}

// ---------- endpoints ----------

/// The text is a row of digits worth at most `max`; that value.
pub open spec fn plain_number(s: Text, max: nat) -> Option<nat> {
    if all_digits(s) && digits_value(s) <= max {
        Some(digits_value(s))
    } else {
        None
    }
}

/// The address in front of a zone index, or the whole text where there is no
/// index; nothing where the index is no number of 32 bits.
pub open spec fn without_zone(s: Text) -> Option<Text> {
    match cut_first(s, '%') {
        Some((address, zone)) => if plain_number(zone, u32::MAX as nat) is Some {
            Some(address)
        } else {
            None
        },
        None => Some(s),
    }
}

/// The text of the address and the port of an endpoint with brackets, as in
/// `[address]:port`.
pub open spec fn bracket_parts(s: Text) -> Option<(Text, u16)> {
    if s.len() == 0 || s.first() != '[' {
        None
    } else {
        match cut_first(s.skip(1), ']') {
            None => None,
            Some((inner, rest)) => match without_zone(inner) {
                None => None,
                Some(address) => if rest.len() > 0 && rest.first() == ':' {
                    match plain_number(rest.skip(1), u16::MAX as nat) {
                        Some(port) => Some((address, port as u16)),
                        None => None,
                    }
                } else {
                    None
                },
            },
        }
    }
}

/// The text of the address and the port of an endpoint without brackets, as in
/// `address:port`.
pub open spec fn plain_parts(s: Text) -> Option<(Text, u16)> {
    match cut_last(s, ':') {
        Some((address, port)) => match number(port, u16::MAX as nat) {
            Some(port) => Some((address, port as u16)),
            None => None,
        },
        None => None,
    }
}

/// The address that the text in front of a port stands for, if any, with the port.
pub open spec fn with_address(parts: Option<(Text, u16)>) -> Option<(Option<Ip>, u16)> {
    match parts {
        Some((address, port)) => Some((ip_of_text(address), port)),
        None => None,
    }
}

/// The address and port of an endpoint that was read with and without
/// brackets: in brackets stands an IPv6 address, else any address.
pub open spec fn picked(
    bracket: Option<(Option<Ip>, u16)>,
    plain: Option<(Option<Ip>, u16)>,
) -> Option<(Ip, u16)> {
    match bracket {
        Some((Some(Ip::V6(bits)), port)) => Some((Ip::V6(bits), port)),
        _ => match plain {
            Some((Some(ip), port)) => Some((ip, port)),
            _ => None,
        },
    }
}

/// The address and port of an endpoint: an IPv6 address in brackets, a colon
/// and a port, or any address, a colon and a port.
pub open spec fn endpoint_addr(s: Text) -> Option<(Ip, u16)> {
    picked(with_address(bracket_parts(s)), with_address(plain_parts(s)))
}

/// The value of a row of digits, up to `max`.
fn parse_plain(s: &str, max: u64) -> (n: Option<u64>)
    ensures
        match n {
            Some(v) => plain_number(s@, max as nat) == Some(v as nat),
            None => plain_number(s@, max as nat) is None,
        },
{
    let chars = chars_of(s);
    if chars.len() == 0 || chars[0] == '+' {
        return None;
    }
    assert(unsigned_part(s@) == s@);
    parse_up_to(s, max)
}

/// The text of the address and the port of an endpoint with brackets.
pub fn split_bracketed(s: &str) -> (parts: Option<(String, u16)>)
    ensures
        parts.deep_view() == bracket_parts(s@),
{
    let chars = chars_of(s);
    if chars.len() == 0 || chars[0] != '[' {
        return None;
    }
    let tail = text_between(&chars, 1, chars.len());
    assert(tail@ == s@.skip(1));
    let (inner, rest) = match split_once(tail.as_str(), ']') {
        Some(parts) => parts,
        None => {
            return None;
        },
    };
    let address = match split_once(inner.as_str(), '%') {
        Some((address, zone)) => {
            if parse_plain(zone.as_str(), 4294967295).is_none() {
                return None;
            }
            address
        },
        None => inner,
    };
    assert(without_zone(inner@) == Some(address@));
    let after = chars_of(rest.as_str());
    if after.len() == 0 || after[0] != ':' {
        return None;
    }
    let port = text_between(&after, 1, after.len());
    assert(port@ == rest@.skip(1));
    match parse_plain(port.as_str(), 65535) {
        Some(port) => Some((address, port as u16)),
        None => None,
    }
}

/// The text of the address and the port of an endpoint without brackets.
pub fn split_plain(s: &str) -> (parts: Option<(String, u16)>)
    ensures
        parts.deep_view() == plain_parts(s@),
{
    match rsplit_once(s, ':') {
        Some((address, port)) => match parse_u16(port.as_str()) {
            Some(port) => Some((address, port)),
            None => None,
        },
        None => None,
    }
}

/// The address and port of an endpoint that was read with and without
/// brackets, with what the texts of its address stand for.
pub fn pick_endpoint(
    bracket: Option<(Option<Ip>, u16)>,
    plain: Option<(Option<Ip>, u16)>,
) -> (found: Option<(Ip, u16)>)
    ensures
        found == picked(bracket, plain),
{
    match bracket {
        Some((Some(Ip::V6(bits)), port)) => Some((Ip::V6(bits), port)),
        _ => match plain {
            Some((Some(ip), port)) => Some((ip, port)),
            _ => None,
        },
    }
}

/// The address and port of an endpoint.
pub fn parse_endpoint(ep: &str) -> (found: Option<(Ip, u16)>)
    ensures
        found == endpoint_addr(ep@),
{
    let bracket = match split_bracketed(ep) {
        Some((address, port)) => Some((parse_ip(address.as_str()), port)),
        None => None,
    };
    let plain = match split_plain(ep) {
        Some((address, port)) => Some((parse_ip(address.as_str()), port)),
        None => None,
    };
    pick_endpoint(bracket, plain)
}

/// The address lies in one of the networks.
pub open spec fn in_any(nets: Seq<Net>, ip: Ip) -> bool {
    exists|i: int| 0 <= i < nets.len() && in_net(#[trigger] nets[i], ip)
}

/// Whether the address lies in one of the networks.
pub fn is_local(nets: &[Net], ip: &Ip) -> (answer: bool)
    ensures
        answer == in_any(nets@, *ip),
{
    let mut i: usize = 0;
    while i < nets.len()
        invariant
            i <= nets@.len(),
            forall|j: int| 0 <= j < i ==> !in_net(#[trigger] nets@[j], *ip),
        decreases nets@.len() - i,
    {
        if net_contains(&nets[i], ip) {
            return true;
        }
        i = i + 1;
    }
    false
}

/// The address in the text lies in one of the networks.
pub open spec fn endpoint_local(nets: Seq<Net>, endpoint: Text) -> bool {
    match endpoint_addr(endpoint) {
        Some((ip, _)) => in_any(nets, ip),
        None => false,
    }
}

/// Whether the endpoint lies in one of the networks.
pub fn is_local_endpoint(nets: &[Net], endpoint: &str) -> (answer: bool)
    ensures
        answer == endpoint_local(nets@, endpoint@),
{
    match parse_endpoint(endpoint) {
        Some((ip, _)) => is_local(nets, &ip),
        None => false,
    }
}

/// The first of the endpoints that lies in one of the networks.
pub open spec fn first_local(endpoints: Seq<Text>, nets: Seq<Net>) -> Option<(Ip, u16)>
    decreases endpoints.len(),
{
    if endpoints.len() == 0 {
        None
    } else if endpoint_local(nets, endpoints.first()) {
        endpoint_addr(endpoints.first())
    } else {
        first_local(endpoints.drop_first(), nets)
    }
}

/// The first of a peer's endpoints that lies in a network of this machine.
pub fn find_local_address(endpoints: &[String], nets: &[Net]) -> (found: Option<(Ip, u16)>)
    ensures
        found == first_local(endpoints.deep_view(), nets@),
{
    let ghost model = endpoints.deep_view();
    let mut i: usize = 0;
    assert(model.skip(0) == model);
    while i < endpoints.len()
        invariant
            i <= endpoints@.len(),
            model == endpoints.deep_view(),
            first_local(model, nets@) == first_local(model.skip(i as int), nets@),
        decreases endpoints@.len() - i,
    {
        assert(model[i as int] == endpoints@[i as int]@);
        assert(model.skip(i as int).drop_first() == model.skip(i + 1));
        match parse_endpoint(endpoints[i].as_str()) {
            Some((ip, port)) => {
                if is_local(nets, &ip) {
                    return Some((ip, port));
                }
            },
            None => {},
        }
        i = i + 1;
    }
    None
}

/// The first of the endpoints that lies in one of the networks: the text of
/// its address, and its port.
pub open spec fn same_lan(endpoints: Seq<Text>, nets: Seq<Net>) -> Option<(Text, u16)> {
    match first_local(endpoints, nets) {
        Some((ip, port)) => Some((address_text(ip), port)),
        None => None,
    }
}

/// The first of a peer's endpoints that lies in a network of this machine, as
/// the text of its address and its port.
pub fn find_same_lan_endpoint(peer_local_endpoints: &[String], my_nets: &[Net]) -> (found: Option<
    (String, u16),
>)
    ensures
        found.deep_view() == same_lan(peer_local_endpoints.deep_view(), my_nets@),
{
    match find_local_address(peer_local_endpoints, my_nets) {
        Some((ip, port)) => Some((show_ip(&ip), port)),
        None => None,
    }
}

// ---------- what holds of the networks ----------

/// The address of an interface.
pub open spec fn address_of(iface: IfaceModel) -> Ip {
    match iface.addr {
        IfAddr::V4 { ip, netmask: _ } => Ip::V4(ip),
        IfAddr::V6 { ip, netmask: _ } => Ip::V6(ip),
    }
}

/// The local network of an interface holds the address of the interface.
pub proof fn law_network_holds_its_address(iface: IfaceModel)
    ensures
        lan_net(iface) matches Some(net) ==> in_net(net, address_of(iface)),
{
    match iface.addr {
        IfAddr::V4 { ip, netmask } => {
            if exists|prefix: nat| is_mask(netmask as nat, 32, prefix) {
                let prefix = choose|prefix: nat| is_mask(netmask as nat, 32, prefix);
                let size = net_size(32, prefix);
                lemma_truncation(ip as nat, size, (32 - prefix) as nat);
                assert(prefix as u8 == prefix);
                let cut = (ip - ip as nat % size) as u32;
                assert(cut as nat == (ip - ip as nat % size) as nat);
                assert(cut as nat / size == ip as nat / size);
            }
        },
        IfAddr::V6 { ip, netmask } => {
            if exists|prefix: nat| is_mask(netmask as nat, 128, prefix) {
                let prefix = choose|prefix: nat| is_mask(netmask as nat, 128, prefix);
                let size = net_size(128, prefix);
                lemma_truncation(ip as nat, size, (128 - prefix) as nat);
                assert(prefix as u8 == prefix);
                let cut = (ip - ip as nat % size) as u128;
                assert(cut as nat == (ip - ip as nat % size) as nat);
                assert(cut as nat / size == ip as nat / size);
            }
        },
    }
}

/// Clearing the bits behind a prefix leaves the prefix as it is.
proof fn lemma_truncation(ip: nat, size: nat, bits: nat)
    requires
        size == pow2(bits),
    ensures
        0 <= ip % size <= ip,
        (ip - ip % size) as nat / size == ip / size,
{
    lemma_pow2_pos(bits);
    lemma_fundamental_div_mod(ip as int, size as int);
    let q = ip as int / size as int;
    lemma_mod_bound(ip as int, size as int);
    assert(ip - ip % size == size * q);
    assert(q >= 0) by {
        lemma_div_pos_is_pos(ip as int, size as int);
    }
    assert(size * q >= 0) by (nonlinear_arith)
        requires
            q >= 0,
            size >= 0,
    ;
    lemma_div_multiples_vanish(q, size as int);
}

/// WireGuard's own interfaces count neither as local networks nor as local
/// endpoints.
pub proof fn law_no_network_of_a_tunnel(iface: IfaceModel, port: u16)
    requires
        is_tunnel(iface),
    ensures
        lan_net(iface) is None,
        local_endpoint(iface, port) is None,
{
}

/// Only addresses of private networks are told to others.
pub proof fn law_only_private_addresses_are_reported(iface: IfaceModel, port: u16)
    requires
        local_endpoint(iface, port) is Some,
    ensures
        match address_of(iface) {
            Ip::V4(ip) => private_v4(ip),
            Ip::V6(ip) => unique_local_v6(ip),
        },
{
}

/// The endpoint that is found is one of the peer's endpoints, and lies in a
/// local network; and one is found wherever there is such an endpoint.
pub proof fn law_same_lan_is_local(endpoints: Seq<Text>, nets: Seq<Net>)
    ensures
        match first_local(endpoints, nets) {
            Some((ip, port)) => in_any(nets, ip) && exists|i: int|
                0 <= i < endpoints.len() && endpoint_addr(#[trigger] endpoints[i]) == Some(
                    (ip, port),
                ),
            None => forall|i: int|
                0 <= i < endpoints.len() ==> !endpoint_local(nets, #[trigger] endpoints[i]),
        },
    decreases endpoints.len(),
{
    if endpoints.len() > 0 {
        if endpoint_local(nets, endpoints.first()) {
            assert(endpoint_addr(endpoints[0]) == first_local(endpoints, nets));
        } else {
            let rest = endpoints.drop_first();
            law_same_lan_is_local(rest, nets);
            match first_local(rest, nets) {
                Some((ip, port)) => {
                    let i = choose|i: int|
                        0 <= i < rest.len() && endpoint_addr(#[trigger] rest[i]) == Some((ip, port));
                    assert(endpoints[i + 1] == rest[i]);
                },
                None => {
                    assert forall|i: int| 0 <= i < endpoints.len() implies !endpoint_local(
                        nets,
                        #[trigger] endpoints[i],
                    ) by {
                        if i > 0 {
                            assert(rest[i - 1] == endpoints[i]);
                        }
                    }
                },
            }
        }
    }
}

/// An endpoint that is written as an address, a colon and a port reads as that
/// address and that port: so does every IPv4 endpoint that is told to others.
pub proof fn law_plain_endpoint_reads_back(address: Text, port: u16)
    ensures
        plain_parts(address + ":"@ + decimal(port as nat)) == Some((address, port)),
        address.len() > 0 && address.first() != '[' ==> bracket_parts(
            address + ":"@ + decimal(port as nat),
        ) is None,
{
    reveal_strlit(":");
    let digits = decimal(port as nat);
    lemma_decimal(port as nat);
    lemma_no_mark(digits, ':');
    assert(address + ":"@ + digits == address + seq![':'] + digits);
    lemma_cut_last(address, ':', digits);
}

/// An endpoint that is written with brackets reads as that address and that
/// port: so does every IPv6 endpoint that is told to others.
pub proof fn law_bracketed_endpoint_reads_back(address: Text, port: u16)
    requires
        !address.contains(']'),
        !address.contains('%'),
    ensures
        bracket_parts("["@ + address + "]:"@ + decimal(port as nat)) == Some((address, port)),
{
    reveal_strlit("[");
    reveal_strlit("]:");
    let digits = decimal(port as nat);
    let s = "["@ + address + "]:"@ + digits;
    lemma_decimal(port as nat);
    let rest = seq![':'] + digits;
    assert(s.skip(1) == address + seq![']'] + rest);
    assert(s.first() == '[');
    lemma_cut_first(address, ']', rest);
    assert(rest.skip(1) == digits);
    address.index_of_first_ensures('%');
    assert(without_zone(address) == Some(address));
}

/// A row of digits does not hold a mark that is no digit.
proof fn lemma_no_mark(digits: Text, mark: char)
    requires
        all_digits(digits),
        !is_digit(mark),
    ensures
        !digits.contains(mark),
{
    if digits.contains(mark) {
        let i = choose|i: int| 0 <= i < digits.len() && digits[i] == mark;
        assert(is_digit(digits[i]));
    }
}

// ---------- which addresses count, in numbers ----------

/// An address on an interface that is none of WireGuard's own is told to others
/// exactly where, of its octets `a.b.c.d`, `a` is 10, or `a` is 172 and `b` is
/// 16 to 31, or `a` is 192 and `b` is 168; and it is told as these octets and
/// the port.
pub proof fn law_private_octets_are_told(
    name: Text,
    a: u8,
    b: u8,
    c: u8,
    d: u8,
    ip: u32,
    netmask: u32,
    port: u16,
)
    requires
        ip == a * 0x1000000 + b * 0x10000 + c * 0x100 + d,
    ensures
        ({
            let told = local_endpoint(
                IfaceModel { name, addr: IfAddr::V4 { ip, netmask } },
                port,
            );
            let own = name.len() >= 2 && name[0] == 'w' && name[1] == 'g';
            &&& told is Some <==> !own && (a == 10 || a == 172 && 16 <= b <= 31 || a == 192 && b
                == 168)
            &&& told matches Some(endpoint) ==> endpoint == decimal(a as nat) + seq!['.'] + decimal(
                b as nat,
            ) + seq!['.'] + decimal(c as nat) + seq!['.'] + decimal(d as nat) + seq![':']
                + decimal(port as nat)
        }),
{
    reveal_strlit(":");
    assert(":"@ == seq![':']);
    lemma_own_name(name);
    assert(ip / 0x1000000 == a);
    assert(ip / 0x100000 == a * 16 + b / 16);
    assert(ip / 0x10000 == a * 256 + b);
    assert(ip as nat / 0x10000 % 0x100 == b);
    assert(ip as nat / 0x100 % 0x100 == c);
    assert(ip as nat % 0x100 == d);
}

/// The names of WireGuard's own interfaces begin with its two letters.
proof fn lemma_own_name(name: Text)
    ensures
        begins(name, "wg"@) <==> name.len() >= 2 && name[0] == 'w' && name[1] == 'g',
{
    reveal_strlit("wg");
    if name.len() >= 2 {
        assert(name.take(2)[0] == name[0] && name.take(2)[1] == name[1]);
        if name[0] == 'w' && name[1] == 'g' {
            assert(name.take(2) == "wg"@);
        }
    }
}

/// The network of such an address is a local one where the mask is one: it has
/// the mask's prefix, and begins at the address with the other bits cleared.
/// Any other address, and a mask with gaps, gives no network.
pub proof fn law_private_octets_are_local(
    name: Text,
    a: u8,
    b: u8,
    c: u8,
    d: u8,
    ip: u32,
    netmask: u32,
    prefix: nat,
)
    requires
        ip == a * 0x1000000 + b * 0x10000 + c * 0x100 + d,
    ensures
        ({
            let net = lan_net(IfaceModel { name, addr: IfAddr::V4 { ip, netmask } });
            let own = name.len() >= 2 && name[0] == 'w' && name[1] == 'g';
            let private = a == 10 || a == 172 && 16 <= b <= 31 || a == 192 && b == 168;
            &&& net is Some ==> !own && private
            &&& !own && private && prefix <= 32 && netmask as nat + pow2((32 - prefix) as nat)
                == pow2(32) ==> net == Some(
                Net::V4 {
                    addr: (ip - ip as nat % pow2((32 - prefix) as nat)) as u32,
                    prefix: prefix as u8,
                },
            )
            &&& (forall|p: nat|
                p <= 32 ==> netmask as nat + #[trigger] pow2((32 - p) as nat) != pow2(32))
                ==> net is None
        }),
{
    lemma_own_name(name);
    assert(ip / 0x1000000 == a);
    assert(ip / 0x100000 == a * 16 + b / 16);
    assert(ip / 0x10000 == a * 256 + b);
    if prefix <= 32 && netmask as nat + pow2((32 - prefix) as nat) == pow2(32) {
        assert(is_mask(netmask as nat, 32, prefix));
        let chosen = choose|p: nat| is_mask(netmask as nat, 32, p);
        lemma_mask_unique(netmask as nat, 32, prefix, chosen);
    }
    if exists|p: nat| is_mask(netmask as nat, 32, p) {
        let p = choose|p: nat| is_mask(netmask as nat, 32, p);
        assert(netmask as nat + pow2((32 - p) as nat) == pow2(32));
    }
}

/// An IPv6 address on an interface that is none of WireGuard's own is told to
/// others exactly where its first group is fc00 to fdff; and with a mask that
/// is one it gives a local network.
pub proof fn law_unique_local_groups_are_told(
    name: Text,
    group: nat,
    rest: nat,
    ip: u128,
    netmask: u128,
    port: u16,
    prefix: nat,
)
    requires
        group < 0x10000,
        rest < 0x10000000000000000000000000000,
        ip == group * 0x10000000000000000000000000000 + rest,
    ensures
        ({
            let iface = IfaceModel { name, addr: IfAddr::V6 { ip, netmask } };
            let told = local_endpoint(iface, port);
            let net = lan_net(iface);
            let own = name.len() >= 2 && name[0] == 'w' && name[1] == 'g';
            &&& told is Some <==> !own && 0xfc00 <= group <= 0xfdff
            &&& told matches Some(endpoint) ==> endpoint == "["@ + ip_text(Ip::V6(ip)) + "]:"@
                + decimal(port as nat)
            &&& net is Some ==> told is Some
            &&& told is Some && prefix <= 128 && netmask as nat + pow2((128 - prefix) as nat)
                == pow2(128) ==> net == Some(
                Net::V6 {
                    addr: (ip - ip as nat % pow2((128 - prefix) as nat)) as u128,
                    prefix: prefix as u8,
                },
            )
        }),
{
    lemma_own_name(name);
    assert(ip / 0x2000000000000000000000000000000 == group / 0x200);
    if prefix <= 128 && netmask as nat + pow2((128 - prefix) as nat) == pow2(128) {
        assert(is_mask(netmask as nat, 128, prefix));
        let chosen = choose|p: nat| is_mask(netmask as nat, 128, p);
        lemma_mask_unique(netmask as nat, 128, prefix, chosen);
    }
}

/// Every interface of the machine counts, whatever the others are: the networks
/// and endpoints of some interfaces are those of each, in their order.
pub proof fn law_every_interface_counts(
    before: Seq<IfaceModel>,
    behind: Seq<IfaceModel>,
    iface: IfaceModel,
    port: u16,
)
    ensures
        lan_nets(before + behind) == lan_nets(before) + lan_nets(behind),
        local_endpoints(before + behind, port) == local_endpoints(before, port) + local_endpoints(
            behind,
            port,
        ),
        lan_net(iface) matches Some(net) ==> lan_nets(seq![iface]) == seq![net],
        lan_net(iface) is None ==> lan_nets(seq![iface]).len() == 0,
        local_endpoint(iface, port) matches Some(endpoint) ==> local_endpoints(seq![iface], port)
            == seq![endpoint],
        local_endpoint(iface, port) is None ==> local_endpoints(seq![iface], port).len() == 0,
    decreases behind.len(),
{
    assert(seq![iface].drop_last() == Seq::<IfaceModel>::empty());
    assert(lan_nets(Seq::empty()) == Seq::<Net>::empty());
    assert(local_endpoints(Seq::empty(), port) == Seq::<Text>::empty());
    if behind.len() == 0 {
        assert(before + behind == before);
        assert(lan_nets(before) + lan_nets(behind) == lan_nets(before));
        assert(local_endpoints(before, port) + local_endpoints(behind, port) == local_endpoints(
            before,
            port,
        ));
    } else {
        law_every_interface_counts(before, behind.drop_last(), iface, port);
        assert((before + behind).drop_last() == before + behind.drop_last());
        assert((before + behind).last() == behind.last());
    }
}

/// A network is a range of addresses: those from its first one on, as many as
/// the bits behind the prefix can tell apart.
pub proof fn law_network_is_a_range(addr: u32, prefix: u8, ip: u32)
    requires
        prefix <= 32,
    ensures
        ({
            let size = pow2((32 - prefix) as nat);
            let first = addr - addr as nat % size;
            in_net(Net::V4 { addr, prefix }, Ip::V4(ip)) <==> first <= ip < first + size
        }),
        !in_net(Net::V4 { addr, prefix }, Ip::V6(ip as u128)),
{
    let size = pow2((32 - prefix) as nat);
    lemma_pow2_pos((32 - prefix) as nat);
    lemma_range(addr as int, ip as int, size as int);
}

/// An IPv6 network is a range of addresses in the same way.
pub proof fn law_network_is_a_range_v6(addr: u128, prefix: u8, ip: u128)
    requires
        prefix <= 128,
    ensures
        ({
            let size = pow2((128 - prefix) as nat);
            let first = addr - addr as nat % size;
            in_net(Net::V6 { addr, prefix }, Ip::V6(ip)) <==> first <= ip < first + size
        }),
        !in_net(Net::V6 { addr, prefix }, Ip::V4(ip as u32)),
{
    let size = pow2((128 - prefix) as nat);
    lemma_pow2_pos((128 - prefix) as nat);
    lemma_range(addr as int, ip as int, size as int);
}

/// Two numbers have the same quotient where they lie between the same multiples.
proof fn lemma_range(a: int, b: int, size: int)
    requires
        size > 0,
        a >= 0,
        b >= 0,
    ensures
        a / size == b / size <==> a - a % size <= b < a - a % size + size,
{
    lemma_fundamental_div_mod(a, size);
    lemma_fundamental_div_mod(b, size);
    lemma_mod_bound(a, size);
    lemma_mod_bound(b, size);
    let q = a / size;
    let r = b / size;
    if r > q {
        assert(size * r >= size * q + size) by (nonlinear_arith)
            requires
                r >= q + 1,
                size > 0,
        ;
    }
    if r < q {
        assert(size * q >= size * r + size) by (nonlinear_arith)
            requires
                q >= r + 1,
                size > 0,
        ;
    }
}

/// An endpoint lies in a local network where its address does, in one of them
/// or another; more networks never make it foreign.
pub proof fn law_any_network_will_do(
    nets: Seq<Net>,
    more: Seq<Net>,
    endpoint: Text,
    ip: Ip,
    port: u16,
)
    requires
        endpoint_addr(endpoint) == Some((ip, port)),
    ensures
        endpoint_local(nets + more, endpoint) <==> endpoint_local(nets, endpoint)
            || endpoint_local(more, endpoint),
        forall|net: Net| endpoint_local(seq![net], endpoint) <==> #[trigger] in_net(net, ip),
        !endpoint_local(Seq::empty(), endpoint),
{
    let all = nets + more;
    if in_any(nets, ip) {
        let i = choose|i: int| 0 <= i < nets.len() && in_net(#[trigger] nets[i], ip);
        assert(all[i] == nets[i]);
    }
    if in_any(more, ip) {
        let i = choose|i: int| 0 <= i < more.len() && in_net(#[trigger] more[i], ip);
        assert(all[nets.len() + i] == more[i]);
    }
    if in_any(all, ip) {
        let i = choose|i: int| 0 <= i < all.len() && in_net(#[trigger] all[i], ip);
        if i < nets.len() {
            assert(nets[i] == all[i]);
        } else {
            assert(more[i - nets.len()] == all[i]);
        }
    }
    assert forall|net: Net| endpoint_local(seq![net], endpoint) <==> #[trigger] in_net(net, ip) by {
        assert(seq![net][0] == net);
    }
}

/// Of a peer's endpoints the first one that is local is found, with its address
/// and its port, whatever stands behind it.
pub proof fn law_first_local_endpoint_is_found(endpoints: Seq<Text>, nets: Seq<Net>, i: int)
    requires
        0 <= i < endpoints.len(),
        endpoint_local(nets, endpoints[i]),
        forall|j: int| 0 <= j < i ==> !endpoint_local(nets, #[trigger] endpoints[j]),
    ensures
        first_local(endpoints, nets) == endpoint_addr(endpoints[i]),
        same_lan(endpoints, nets) matches Some((text, port)) && endpoint_addr(endpoints[i])
            matches Some((ip, p)) && p == port && text == address_text(ip),
    decreases endpoints.len(),
{
    if i > 0 {
        let rest = endpoints.drop_first();
        assert(!endpoint_local(nets, endpoints[0]));
        assert(rest[i - 1] == endpoints[i]);
        assert forall|j: int| 0 <= j < i - 1 implies !endpoint_local(nets, #[trigger] rest[j]) by {
            assert(rest[j] == endpoints[j + 1]);
        }
        law_first_local_endpoint_is_found(rest, nets, i - 1);
    }
}

/// An endpoint is read in brackets where an IPv6 address stands in them, else
/// without brackets; where neither gives an address it is none.
pub proof fn law_brackets_come_first(
    bracket: Option<(Option<Ip>, u16)>,
    plain: Option<(Option<Ip>, u16)>,
    bits: u128,
    ip: Ip,
    port: u16,
)
    ensures
        bracket == Some((Some(Ip::V6(bits)), port)) ==> picked(bracket, plain) == Some(
            (Ip::V6(bits), port),
        ),
        bracket is None && plain == Some((Some(ip), port)) ==> picked(bracket, plain) == Some(
            (ip, port),
        ),
        bracket is None && plain is None ==> picked(bracket, plain) is None,
        picked(bracket, plain) matches Some((found, p)) ==> plain == Some((Some(found), p))
            || bracket == Some((Some(found), p)) && found is V6,
{
}

/// What is written as an endpoint is read as the same address and port, where
/// the text of an address reads as that address.
pub proof fn law_endpoint_reads_back(ip: Ip, port: u16)
    requires
        ip_of_text(address_text(ip)) == Some(ip),
        ip is V6 ==> !address_text(ip).contains(']') && !address_text(ip).contains('%'),
    ensures
        endpoint_addr(endpoint_text(ip, port)) == Some((ip, port)),
{
    let text = address_text(ip);
    match ip {
        Ip::V4(bits) => {
            law_plain_endpoint_reads_back(text, port);
            let front = decimal(bits as nat / 0x1000000);
            lemma_decimal(bits as nat / 0x1000000);
            assert(is_digit(front[0]));
            assert(text[0] == front[0]);
        },
        Ip::V6(_) => {
            law_bracketed_endpoint_reads_back(text, port);
        },
    }
}

/// An endpoint whose port is over 65535, and one without a port, is none; the
/// index of a zone behind an address in brackets does not change the address.
pub proof fn law_endpoint_needs_a_port(address: Text, n: nat, zone: u32, port: u16)
    ensures
        n > 65535 ==> plain_parts(address + ":"@ + decimal(n)) is None,
        n > 65535 && !address.contains(']') ==> bracket_parts(
            "["@ + address + "]:"@ + decimal(n),
        ) is None,
        !address.contains(':') ==> plain_parts(address) is None && bracket_parts(address) is None,
        !address.contains(']') && !address.contains('%') ==> bracket_parts(
            "["@ + (address + seq!['%'] + decimal(zone as nat)) + "]:"@ + decimal(port as nat),
        ) == Some((address, port)),
        address.len() == 0 || address[0] != '[' ==> bracket_parts(address) is None,
{
    reveal_strlit(":");
    reveal_strlit("[");
    reveal_strlit("]:");
    let digits = decimal(n);
    lemma_decimal(n);
    lemma_no_mark(digits, ':');
    assert(address + ":"@ + digits == address + seq![':'] + digits);
    lemma_cut_last(address, ':', digits);
    if !address.contains(']') {
        let s = "["@ + address + "]:"@ + digits;
        let rest = seq![':'] + digits;
        assert(s.skip(1) == address + seq![']'] + rest);
        lemma_cut_first(address, ']', rest);
        assert(rest.skip(1) == digits);
    }
    if !address.contains(':') {
        law_cut(address, ':');
        if address.len() > 0 && address.first() == '[' {
            let tail = address.skip(1);
            law_cut(tail, ']');
            if let Some((inner, rest)) = cut_first(tail, ']') {
                if rest.len() > 0 && rest.first() == ':' {
                    assert(tail[inner.len() as int + 1] == ':');
                    assert(address[inner.len() as int + 2] == ':');
                }
            }
        }
    }
    if !address.contains(']') && !address.contains('%') {
        let z = decimal(zone as nat);
        let p = decimal(port as nat);
        lemma_decimal(zone as nat);
        lemma_decimal(port as nat);
        lemma_no_mark(z, ']');
        let inner = address + seq!['%'] + z;
        let s = "["@ + inner + "]:"@ + p;
        let rest = seq![':'] + p;
        assert(s.skip(1) == inner + seq![']'] + rest);
        assert(!inner.contains(']')) by {
            if inner.contains(']') {
                let i = choose|i: int| 0 <= i < inner.len() && inner[i] == ']';
                if i < address.len() {
                    assert(address[i] == ']');
                } else {
                    assert(z[i - address.len() - 1] == ']');
                }
            }
        }
        lemma_cut_first(inner, ']', rest);
        lemma_cut_first(address, '%', z);
        assert(rest.skip(1) == p);
        assert(s.first() == '[');
    }
}

/// Where none of a peer's endpoints is local, none is found.
pub proof fn law_no_local_endpoint_is_found(endpoints: Seq<Text>, nets: Seq<Net>)
    requires
        forall|j: int| 0 <= j < endpoints.len() ==> !endpoint_local(nets, #[trigger] endpoints[j]),
    ensures
        first_local(endpoints, nets) is None,
        same_lan(endpoints, nets) is None,
{
    law_same_lan_is_local(endpoints, nets);
    if let Some((ip, port)) = first_local(endpoints, nets) {
        let i = choose|i: int|
            0 <= i < endpoints.len() && endpoint_addr(#[trigger] endpoints[i]) == Some((ip, port));
        assert(endpoint_local(nets, endpoints[i]));
    }
}

} // verus!
