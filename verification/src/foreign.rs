//! The calls into other crates and into parts of the standard library that
//! have no specification. Nothing here is proved: each contract states what
//! the call is trusted to do.
use vstd::arithmetic::power2::pow2;
use vstd::prelude::*;

use crate::text::{decimal, Text};

verus! {

// ---------- addresses ----------

/// An IP address, as the number that its bytes make up in network order.
#[derive(Clone, Copy, PartialEq, Eq, Structural, Debug)]
pub enum Ip {
    V4(u32),
    V6(u128),
}

impl DeepView for Ip {
    type V = Ip;

    open spec fn deep_view(&self) -> Ip {
        *self
    }
}

/// A network: an address in it and the length of the prefix that its addresses share.
#[derive(Clone, Copy, PartialEq, Eq, Structural, Debug)]
#[allow(inconsistent_fields)]
pub enum Net {
    V4 { addr: u32, prefix: u8 },
    V6 { addr: u128, prefix: u8 },
}

impl DeepView for Net {
    type V = Net;

    open spec fn deep_view(&self) -> Net {
        *self
    }
}

/// The number of addresses in a network whose addresses have `bits` bits.
pub open spec fn net_size(bits: nat, prefix: nat) -> nat {
    pow2((bits - prefix) as nat)
}

/// The address lies in the network: it is of the same family, and the two
/// addresses agree in the bits of the prefix.
pub open spec fn in_net(net: Net, ip: Ip) -> bool {
    match (net, ip) {
        (Net::V4 { addr, prefix }, Ip::V4(ip)) => prefix <= 32 && addr as nat / net_size(
            32,
            prefix as nat,
        ) == ip as nat / net_size(32, prefix as nat),
        (Net::V6 { addr, prefix }, Ip::V6(ip)) => prefix <= 128 && addr as nat / net_size(
            128,
            prefix as nat,
        ) == ip as nat / net_size(128, prefix as nat),
        _ => false,
    }
}

/// `ipnet::IpNet::contains` on an address: whether it lies in the network. A
/// prefix that is too long for its family, of which `ipnet::IpNet::new` makes
/// no network, contains nothing.
#[verifier::external_body]
pub(crate) fn net_contains(net: &Net, ip: &Ip) -> (answer: bool)
    ensures
        answer == in_net(*net, *ip),
{
    let net = match *net {
        Net::V4 { addr, prefix } => ipnet::IpNet::new(addr.to_be_bytes().into(), prefix),
        Net::V6 { addr, prefix } => ipnet::IpNet::new(addr.to_be_bytes().into(), prefix),
    };
    let host = match *ip {
        Ip::V4(bits) => ipnet::IpNet::new(bits.to_be_bytes().into(), 0),
        Ip::V6(bits) => ipnet::IpNet::new(bits.to_be_bytes().into(), 0),
    };
    match (net, host) {
        (Ok(net), Ok(host)) => net.contains(&host.addr()),
        _ => false,
    }
}

/// The mask has its first `prefix` bits set and no other.
pub open spec fn is_mask(mask: nat, bits: nat, prefix: nat) -> bool {
    prefix <= bits && mask + net_size(bits, prefix) == pow2(bits)
}

/// `ipnet::Ipv4Net::with_netmask`: the network of an address and a mask, or
/// nothing where the set bits of the mask are not those of a prefix. The
/// address is kept as it is.
#[verifier::external_body]
pub(crate) fn net_of_mask_v4(ip: u32, mask: u32) -> (net: Option<Net>)
    ensures
        match net {
            Some(Net::V4 { addr, prefix }) => addr == ip && is_mask(
                mask as nat,
                32,
                prefix as nat,
            ),
            Some(Net::V6 { .. }) => false,
            None => forall|prefix: nat| !is_mask(mask as nat, 32, prefix),
        },
{
    let net = ipnet::Ipv4Net::with_netmask(ip.into(), mask.into()).ok()?;
    Some(Net::V4 { addr: net.addr().into(), prefix: net.prefix_len() })
}

/// `ipnet::Ipv6Net::with_netmask`: the network of an address and a mask, or
/// nothing where the set bits of the mask are not those of a prefix. The
/// address is kept as it is.
#[verifier::external_body]
pub(crate) fn net_of_mask_v6(ip: u128, mask: u128) -> (net: Option<Net>)
    ensures
        match net {
            Some(Net::V6 { addr, prefix }) => addr == ip && is_mask(
                mask as nat,
                128,
                prefix as nat,
            ),
            Some(Net::V4 { .. }) => false,
            None => forall|prefix: nat| !is_mask(mask as nat, 128, prefix),
        },
{
    let net = ipnet::Ipv6Net::with_netmask(ip.into(), mask.into()).ok()?;
    Some(Net::V6 { addr: net.addr().into(), prefix: net.prefix_len() })
}

/// The prefix is not longer than an address of the family.
pub open spec fn valid_net(net: Net) -> bool {
    match net {
        Net::V4 { prefix, .. } => prefix <= 32,
        Net::V6 { prefix, .. } => prefix <= 128,
    }
}

/// The network with the bits of the address behind the prefix cleared.
pub open spec fn truncated(net: Net) -> Net {
    match net {
        Net::V4 { addr, prefix } => Net::V4 {
            addr: (addr - addr as nat % net_size(32, prefix as nat)) as u32,
            prefix,
        },
        Net::V6 { addr, prefix } => Net::V6 {
            addr: (addr - addr as nat % net_size(128, prefix as nat)) as u128,
            prefix,
        },
    }
}

/// `ipnet::IpNet::trunc`: the bits behind the prefix are cleared. The prefix
/// has to fit its family, for there is no `ipnet::IpNet` otherwise.
#[verifier::external_body]
pub(crate) fn net_trunc(net: Net) -> (cut: Net)
    requires
        valid_net(net),
    ensures
        cut == truncated(net),
{
    let net = match net {
        Net::V4 { addr, prefix } => ipnet::IpNet::new(addr.to_be_bytes().into(), prefix),
        Net::V6 { addr, prefix } => ipnet::IpNet::new(addr.to_be_bytes().into(), prefix),
    };
    match net.unwrap().trunc() {
        ipnet::IpNet::V4(cut) => Net::V4 { addr: cut.addr().into(), prefix: cut.prefix_len() },
        ipnet::IpNet::V6(cut) => Net::V6 { addr: cut.addr().into(), prefix: cut.prefix_len() },
    }
}

/// Whether a text is an IP network in the notation of an address, a slash and
/// a prefix length: what `ipnet::IpNet` accepts.
pub uninterp spec fn is_cidr(text: Seq<char>) -> bool;

/// The parse of an `ipnet::IpNet`: whether it accepts the text.
#[verifier::external_body]
pub(crate) fn cidr_accepted(text: &str) -> (answer: bool)
    ensures
        answer == is_cidr(text@),
{
    text.parse::<ipnet::IpNet>().is_ok()
}

/// An IPv4 address in dot-decimal notation.
pub open spec fn dotted(bits: u32) -> Text {
    let b = bits as nat;
    decimal(b / 0x1000000) + seq!['.'] + decimal(b / 0x10000 % 0x100) + seq!['.'] + decimal(
        b / 0x100 % 0x100,
    ) + seq!['.'] + decimal(b % 0x100)
}

/// The address that a text stands for, in the notations of the standard library.
pub uninterp spec fn ip_of_text(text: Seq<char>) -> Option<Ip>;

/// The standard library's parse of an IP address. An IPv4 address is accepted
/// in dot-decimal notation and in no other; which texts are IPv6 addresses is
/// left to the name.
#[verifier::external_body]
pub(crate) fn parse_ip(text: &str) -> (ip: Option<Ip>)
    ensures
        ip == ip_of_text(text@),
        forall|bits: u32| (ip == Some(Ip::V4(bits))) == (text@ == #[trigger] dotted(bits)),
{
    match ipnet::IpNet::new(text.parse().ok()?, 0).ok()? {
        ipnet::IpNet::V4(net) => Some(Ip::V4(net.addr().into())),
        ipnet::IpNet::V6(net) => Some(Ip::V6(net.addr().into())),
    }
}

/// The text of an address, as the standard library writes it.
pub uninterp spec fn ip_text(ip: Ip) -> Seq<char>;

/// The standard library's `Display` of an IP address. An IPv4 address is
/// written in dot-decimal notation; how an IPv6 address is written is left to
/// the name.
#[verifier::external_body]
pub(crate) fn show_ip(ip: &Ip) -> (text: String)
    ensures
        text@ == ip_text(*ip),
        match *ip {
            Ip::V4(bits) => text@ == dotted(bits),
            Ip::V6(_) => true,
        },
{
    let host = match *ip {
        Ip::V4(bits) => ipnet::IpNet::new(bits.to_be_bytes().into(), 0),
        Ip::V6(bits) => ipnet::IpNet::new(bits.to_be_bytes().into(), 0),
    };
    host.map(|net| net.addr().to_string()).unwrap_or_default()
}

// ---------- text ----------

/// A text in lower case, after Unicode's tables.
pub uninterp spec fn lowercase(text: Seq<char>) -> Seq<char>;

/// `str::to_lowercase`: the text in lower case.
#[verifier::external_body]
pub(crate) fn to_lowercase(text: &str) -> (lower: String)
    ensures
        lower@ == lowercase(text@),
{
    text.to_lowercase()
}

/// The words of a command line in the quoting of a POSIX shell, or nothing
/// where the quoting does not close.
pub uninterp spec fn shell_words(line: Seq<char>) -> Option<Seq<Seq<char>>>;

/// `shlex::split`: the words of a command line.
#[verifier::external_body]
pub(crate) fn shell_split(line: &str) -> (words: Option<Vec<String>>)
    ensures
        words.deep_view() == shell_words(line@),
{
    shlex::split(line)
}

// ---------- payloads ----------

/// The BLAKE3 hash of some bytes.
pub uninterp spec fn blake3_of(data: Seq<u8>) -> Seq<u8>;

/// `blake3::hash`: the 32 bytes of the hash.
#[verifier::external_body]
pub(crate) fn blake3_hash(data: &[u8]) -> (hash: Vec<u8>)
    ensures
        hash@ == blake3_of(data@),
        hash@.len() == 32,
{
    blake3::hash(data).as_bytes().to_vec()
}

/// What a Zstandard stream holds, or nothing where the bytes are no such stream.
pub uninterp spec fn zstd_content(data: Seq<u8>) -> Option<Seq<u8>>;

/// `zstd::decode_all`: the content of a Zstandard stream.
#[verifier::external_body]
pub(crate) fn zstd_decode(data: &[u8]) -> (content: Option<Vec<u8>>)
    ensures
        content.deep_view() == zstd_content(data@),
{
    zstd::decode_all(data).ok()
}

/// The bytes are a JSON document.
pub uninterp spec fn is_json(data: Seq<u8>) -> bool;

/// `serde_json::from_slice` into a `serde_json::Value`: whether it succeeds.
#[verifier::external_body]
pub(crate) fn json_accepted(data: &[u8]) -> (answer: bool)
    ensures
        answer == is_json(data@),
{
    serde_json::from_slice::<serde_json::Value>(data).is_ok()
}

/// The string that a field of a JSON object holds, where it holds a string.
pub uninterp spec fn json_string(data: Seq<u8>, key: Seq<char>) -> Option<Seq<char>>;

/// `serde_json::Value::get` and `as_str` on a document.
#[verifier::external_body]
pub(crate) fn json_field_string(data: &[u8], key: &str) -> (text: Option<String>)
    ensures
        text.deep_view() == json_string(data@, key@),
{
    let document: serde_json::Value = serde_json::from_slice(data).ok()?;
    Some(document.get(key)?.as_str()?.to_string())
}

/// The number that a field of a JSON object holds, where it holds an integer
/// from zero up to the largest `u64`.
pub uninterp spec fn json_integer(data: Seq<u8>, key: Seq<char>) -> Option<u64>;

/// `serde_json::Value::get` and `as_u64` on a document.
#[verifier::external_body]
pub(crate) fn json_field_integer(data: &[u8], key: &str) -> (number: Option<u64>)
    ensures
        number == json_integer(data@, key@),
{
    let document: serde_json::Value = serde_json::from_slice(data).ok()?;
    document.get(key)?.as_u64()
}

/// The items of the array that a field of a JSON object holds, where it holds
/// an array: each string as itself, every other item as nothing.
pub uninterp spec fn json_array(data: Seq<u8>, key: Seq<char>) -> Option<Seq<Option<Seq<char>>>>;

/// `serde_json::Value::get` and `as_array` on a document, and `as_str` on each item.
#[verifier::external_body]
pub(crate) fn json_field_array(data: &[u8], key: &str) -> (items: Option<Vec<Option<String>>>)
    ensures
        items.deep_view() == json_array(data@, key@),
{
    let document: serde_json::Value = serde_json::from_slice(data).ok()?;
    let items = document.get(key)?.as_array()?;
    Some(items.iter().map(|item| item.as_str().map(String::from)).collect())
}

// ---------- certificates ----------

/// The certificates in a text in PEM format, in order, or nothing where the
/// text breaks that format.
pub uninterp spec fn pem_certificates(pem: Seq<char>) -> Option<Seq<Seq<u8>>>;

/// `rustls_pemfile::certs` on the bytes of a text: the content of each
/// certificate in it.
#[verifier::external_body]
pub(crate) fn pem_certs(pem: &str) -> (certs: Option<Vec<Vec<u8>>>)
    ensures
        certs.deep_view() == pem_certificates(pem@),
{
    rustls_pemfile::certs(&mut pem.as_bytes()).ok()
}

// ---------- chance ----------

/// `rand::Rng::gen_range` with the generator of the thread: some number of the
/// range, and nothing is said of which. An empty range makes it panic.
#[verifier::external_body]
pub(crate) fn random_between(min: u16, max: u16) -> (n: u16)
    requires
        min <= max,
    ensures
        min <= n <= max,
{
    rand::Rng::gen_range(&mut rand::thread_rng(), min..=max)
}

} // verus!
