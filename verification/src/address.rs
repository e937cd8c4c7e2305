//! The addresses of the interface itself.
use vstd::prelude::*;

use crate::foreign::{ip_of_text, parse_ip, Ip};
use crate::list::put;
use crate::text::{
    before_first, concat2, cut_first, head, is_space, law_cut, law_split, law_words,
    lemma_before_first, lemma_before_sep, lemma_cut_first, lines, lines_of, number, owned,
    parse_up_to, split_once, split_words, words_of, Text,
};

verus! {

// ---------- the addresses that are there ----------

/// The address in a line of `ip -o addr show`, where it is of that family.
pub open spec fn row_cidr(row: Text, family: Text) -> Option<Text> {
    let words = words_of(row);
    if words.len() >= 4 && words[2] == family {
        Some(words[3])
    } else {
        None
    }
}

/// The addresses of that family in those lines.
pub open spec fn rows_cidrs(rows: Seq<Text>, family: Text) -> Seq<Text>
    decreases rows.len(),
{
    if rows.len() == 0 {
        Seq::empty()
    } else {
        let before = rows_cidrs(rows.drop_last(), family);
        match row_cidr(rows.last(), family) {
            Some(cidr) => before.push(cidr),
            None => before,
        }
    }
}

/// The IPv4 and the IPv6 addresses that `ip -o addr show` printed, in CIDR notation.
pub fn get_interface_cidrs(stdout: &str) -> (cidrs: (Vec<String>, Vec<String>))
    ensures
        cidrs.0.deep_view() == rows_cidrs(lines_of(stdout@), "inet"@),
        cidrs.1.deep_view() == rows_cidrs(lines_of(stdout@), "inet6"@),
{
    let rows = lines(stdout);
    let ghost model = rows.deep_view();
    let mut v4: Vec<String> = Vec::new();
    let mut v6: Vec<String> = Vec::new();
    let mut i: usize = 0;
    proof {
        assert(model.take(0) == Seq::<Text>::empty());
        reveal_strlit("inet");
        reveal_strlit("inet6");
        assert("inet"@.len() != "inet6"@.len());
    }
    while i < rows.len()
        invariant
            i <= rows@.len(),
            model == rows.deep_view(),
            "inet"@ != "inet6"@,
            v4.deep_view() == rows_cidrs(model.take(i as int), "inet"@),
            v6.deep_view() == rows_cidrs(model.take(i as int), "inet6"@),
        decreases rows@.len() - i,
    {
        assert(model[i as int] == rows@[i as int]@);
        assert(model.take(i + 1).drop_last() == model.take(i as int));
        let words = split_words(rows[i].as_str());
        let ghost parts = words.deep_view();
        assert(words@.len() == parts.len());
        if words.len() >= 4 {
            assert(parts[2] == words@[2]@ && parts[3] == words@[3]@);
            if words[2].as_str().eq("inet") {
                put(&mut v4, words[3].clone());
            } else if words[2].as_str().eq("inet6") {
                put(&mut v6, words[3].clone());
            }
        }
        i = i + 1;
    }
    assert(model.take(i as int) == model);
    (v4, v6)
}

// ---------- the addresses that are wanted ----------

/// The part of a network in front of its prefix length.
pub open spec fn host_of(cidr: Text) -> Text {
    match cut_first(cidr, '/') {
        Some((host, _)) => host,
        None => cidr,
    }
}

/// The prefix length: 32 where there is none, 0 where it cannot be read.
pub open spec fn prefix_of(cidr: Text) -> nat {
    match cut_first(cidr, '/') {
        Some((_, prefix)) => match number(prefix, 255) {
            Some(n) => n,
            None => 0,
        },
        None => 32,
    }
}

/// The own addresses after a look at one more network, whose address reads as
/// `ip`: it is taken where it is a single host, the first of its family.
pub open spec fn considered(found: (Text, Text), cidr: Text, ip: Option<Ip>) -> (Text, Text) {
    match ip {
        Some(Ip::V4(_)) => if prefix_of(cidr) == 32 && found.0.len() == 0 {
            (cidr, found.1)
        } else {
            found
        },
        Some(Ip::V6(_)) => if prefix_of(cidr) == 128 && found.1.len() == 0 {
            (found.0, cidr)
        } else {
            found
        },
        None => found,
    }
}

/// The own addresses among those networks: the first single host of each
/// family, or nothing.
pub open spec fn self_ips(cidrs: Seq<Text>) -> (Text, Text)
    decreases cidrs.len(),
{
    if cidrs.len() == 0 {
        (Seq::empty(), Seq::empty())
    } else {
        considered(self_ips(cidrs.drop_last()), cidrs.last(), ip_of_text(host_of(cidrs.last())))
    }
}

/// A look at one more network, whose address reads as `ip`.
pub fn consider_self_ip(found: (String, String), cidr: &str, ip: Option<Ip>) -> (next: (
    String,
    String,
))
    ensures
        (next.0@, next.1@) == considered((found.0@, found.1@), cidr@, ip),
{
    let prefix: u64 = match split_once(cidr, '/') {
        Some((_, length)) => match parse_up_to(length.as_str(), 255) {
            Some(n) => n,
            None => 0,
        },
        None => 32,
    };
    assert(prefix == prefix_of(cidr@));
    match ip {
        Some(Ip::V4(_)) => {
            if prefix == 32 && found.0.as_str().is_empty() {
                (cidr.to_owned(), found.1)
            } else {
                found
            }
        },
        Some(Ip::V6(_)) => {
            if prefix == 128 && found.1.as_str().is_empty() {
                (found.0, cidr.to_owned())
            } else {
                found
            }
        },
        None => found,
    }
}

/// The own addresses among the networks that the server gives this node: the
/// first IPv4 and the first IPv6 host, each empty where there is none.
pub fn extract_self_ips(allowed_ips: &[String]) -> (found: (String, String))
    ensures
        (found.0@, found.1@) == self_ips(allowed_ips.deep_view()),
{
    let ghost model = allowed_ips.deep_view();
    let mut found = (String::new(), String::new());
    let mut i: usize = 0;
    assert(model.take(0) == Seq::<Text>::empty());
    while i < allowed_ips.len()
        invariant
            i <= allowed_ips@.len(),
            model == allowed_ips.deep_view(),
            (found.0@, found.1@) == self_ips(model.take(i as int)),
        decreases allowed_ips@.len() - i,
    {
        assert(model[i as int] == allowed_ips@[i as int]@);
        assert(model.take(i + 1).drop_last() == model.take(i as int));
        let cidr = allowed_ips[i].as_str();
        let ip = match split_once(cidr, '/') {
            Some((host, _)) => parse_ip(host.as_str()),
            None => parse_ip(cidr),
        };
        assert(ip == ip_of_text(host_of(cidr@)));
        found = consider_self_ip(found, cidr, ip);
        i = i + 1;
    }
    assert(model.take(i as int) == model);
    found
}

// ---------- from the one to the other ----------

/// A change of the interface's addresses.
pub enum Change {
    Add(Text),
    Del(Text),
}

/// The arguments of `ip` for a change.
pub open spec fn change_args(v6: bool, change: Change, interface: Text) -> Seq<Text> {
    let (verb, cidr) = match change {
        Change::Add(cidr) => ("add"@, cidr),
        Change::Del(cidr) => ("del"@, cidr),
    };
    if v6 {
        seq!["-6"@, "addr"@, verb, cidr, "dev"@, interface]
    } else {
        seq!["addr"@, verb, cidr, "dev"@, interface]
    }
}

/// The arguments of `ip` for those changes.
pub open spec fn changes_args(v6: bool, changes: Seq<Change>, interface: Text) -> Seq<Seq<Text>> {
    changes.map_values(|c: Change| change_args(v6, c, interface))
}

/// The address that is wanted, as a single host.
pub open spec fn target_cidr(v6: bool, wanted: Text) -> Text {
    before_first(wanted, '/') + (if v6 {
        "/128"@
    } else {
        "/32"@
    })
}

/// What is done about one address that is there. Where none is wanted, or
/// another, it goes; where it is the one that is wanted with another prefix
/// length, that is corrected.
pub open spec fn settled(v6: bool, cidr: Text, wanted: Text) -> Seq<Change> {
    let target = target_cidr(v6, wanted);
    if wanted.len() == 0 || before_first(cidr, '/') != before_first(wanted, '/') {
        seq![Change::Del(cidr)]
    } else if cidr != target {
        seq![Change::Del(cidr), Change::Add(target)]
    } else {
        Seq::empty()
    }
}

/// What is done about the addresses that are there.
pub open spec fn all_settled(v6: bool, current: Seq<Text>, wanted: Text) -> Seq<Change>
    decreases current.len(),
{
    if current.len() == 0 {
        Seq::empty()
    } else {
        all_settled(v6, current.drop_last(), wanted) + settled(v6, current.last(), wanted)
    }
}

/// The address that is wanted is there, whatever its prefix length.
pub open spec fn is_present(current: Seq<Text>, wanted: Text) -> bool {
    exists|i: int|
        0 <= i < current.len() && before_first(#[trigger] current[i], '/') == before_first(
            wanted,
            '/',
        )
}

/// How the addresses of one family become the one that is wanted, or none
/// where none is.
pub open spec fn family_changes(v6: bool, current: Seq<Text>, wanted: Text) -> Seq<Change> {
    if wanted.len() == 0 || is_present(current, wanted) {
        all_settled(v6, current, wanted)
    } else {
        all_settled(v6, current, wanted).push(Change::Add(target_cidr(v6, wanted)))
    }
}

/// Where the addresses that are there cannot be read, the wanted one is added.
pub open spec fn blind_changes(wanted: Text) -> Seq<Change> {
    if wanted.len() == 0 {
        Seq::empty()
    } else {
        seq![Change::Add(wanted)]
    }
}

/// The commands that give the interface the addresses `ipv4` and `ipv6`.
pub open spec fn self_ip_commands(
    interface: Text,
    current: Option<(Seq<Text>, Seq<Text>)>,
    ipv4: Text,
    ipv6: Text,
) -> Seq<Seq<Text>> {
    match current {
        Some((v4, v6)) => changes_args(false, family_changes(false, v4, ipv4), interface)
            + changes_args(true, family_changes(true, v6, ipv6), interface),
        None => changes_args(false, blind_changes(ipv4), interface) + changes_args(
            true,
            blind_changes(ipv6),
            interface,
        ),
    }
}

/// The arguments of `ip` for a change.
fn change_command(v6: bool, add: bool, cidr: &str, interface: &str) -> (args: Vec<String>)
    ensures
        args.deep_view() == change_args(
            v6,
            if add {
                Change::Add(cidr@)
            } else {
                Change::Del(cidr@)
            },
            interface@,
        ),
{
    let verb = if add {
        "add"
    } else {
        "del"
    };
    if v6 {
        owned(vec!["-6", "addr", verb, cidr, "dev", interface])
    } else {
        owned(vec!["addr", verb, cidr, "dev", interface])
    }
}

/// Adds the commands for the addresses of one family to `all`.
fn put_family(
    all: &mut Vec<Vec<String>>,
    v6: bool,
    current: &Vec<String>,
    wanted: &str,
    interface: &str,
)
    ensures
        final(all).deep_view() == old(all).deep_view() + changes_args(
            v6,
            family_changes(v6, current.deep_view(), wanted@),
            interface@,
        ),
{
    let ghost before = all.deep_view();
    let ghost model = current.deep_view();
    let none_wanted = wanted.is_empty();
    let host = head(wanted, '/');
    let target = if v6 {
        concat2(host.as_str(), "/128")
    } else {
        concat2(host.as_str(), "/32")
    };
    let mut found = false;
    let mut i: usize = 0;
    assert(model.take(0) == Seq::<Text>::empty());
    while i < current.len()
        invariant
            i <= current@.len(),
            model == current.deep_view(),
            none_wanted == (wanted@.len() == 0),
            host@ == before_first(wanted@, '/'),
            target@ == target_cidr(v6, wanted@),
            !none_wanted ==> found == is_present(model.take(i as int), wanted@),
            all.deep_view() == before + changes_args(
                v6,
                all_settled(v6, model.take(i as int), wanted@),
                interface@,
            ),
        decreases current@.len() - i,
    {
        let cidr = current[i].as_str();
        let ghost front = model.take(i as int);
        proof {
            assert(model[i as int] == current@[i as int]@);
            assert(model.take(i + 1).drop_last() == front);
            assert(is_present(model.take(i + 1), wanted@) <==> is_present(front, wanted@)
                || before_first(cidr@, '/') == before_first(wanted@, '/')) by {
                if is_present(front, wanted@) {
                    let j = choose|j: int|
                        0 <= j < front.len() && before_first(#[trigger] front[j], '/')
                            == before_first(wanted@, '/');
                    assert(model.take(i + 1)[j] == front[j]);
                }
                if is_present(model.take(i + 1), wanted@) {
                    let j = choose|j: int|
                        0 <= j < i + 1 && before_first(#[trigger] model.take(i + 1)[j], '/')
                            == before_first(wanted@, '/');
                    if j < i {
                        assert(front[j] == model.take(i + 1)[j]);
                    }
                }
                assert(model.take(i + 1)[i as int] == cidr@);
            }
        }
        let ghost done = all.deep_view();
        if none_wanted || !head(cidr, '/').as_str().eq(host.as_str()) {
            put(all, change_command(v6, false, cidr, interface));
        } else {
            found = true;
            if !cidr.eq(target.as_str()) {
                put(all, change_command(v6, false, cidr, interface));
                put(all, change_command(v6, true, target.as_str(), interface));
            }
        }
        assert(all.deep_view() == done + changes_args(v6, settled(v6, cidr@, wanted@), interface@));
        i = i + 1;
    }
    assert(model.take(i as int) == model);
    if !none_wanted && !found {
        put(all, change_command(v6, true, target.as_str(), interface));
    }
}

/// The commands that give the interface the addresses `ipv4` and `ipv6`, each
/// of them empty where there is to be none. `current` holds the addresses that
/// are there, where these could be read.
pub fn configure_self_ip(
    interface: &str,
    current: &Option<(Vec<String>, Vec<String>)>,
    ipv4: &str,
    ipv6: &str,
) -> (commands: Vec<Vec<String>>)
    ensures
        commands.deep_view() == self_ip_commands(
            interface@,
            current.deep_view(),
            ipv4@,
            ipv6@,
        ),
{
    let mut all: Vec<Vec<String>> = Vec::new();
    match current {
        Some((v4, v6)) => {
            put_family(&mut all, false, v4, ipv4, interface);
            put_family(&mut all, true, v6, ipv6, interface);
        },
        None => {
            if !ipv4.is_empty() {
                put(&mut all, change_command(false, true, ipv4, interface));
            }
            if !ipv6.is_empty() {
                put(&mut all, change_command(true, true, ipv6, interface));
            }
        },
    }
    all
}

// ---------- what the changes come to ----------

/// The addresses after those changes.
pub open spec fn changed(addresses: Set<Text>, changes: Seq<Change>) -> Set<Text>
    decreases changes.len(),
{
    if changes.len() == 0 {
        addresses
    } else {
        let before = changed(addresses, changes.drop_last());
        match changes.last() {
            Change::Add(cidr) => before.insert(cidr),
            Change::Del(cidr) => before.remove(cidr),
        }
    }
}

/// Whatever addresses of a family the interface has, after the changes it has
/// the wanted one as a single host and no other, or none where none is wanted.
pub proof fn law_only_the_wanted_address_stays(v6: bool, current: Seq<Text>, wanted: Text)
    ensures
        changed(current.to_set(), family_changes(v6, current, wanted)) == if wanted.len() == 0 {
            Set::empty()
        } else {
            set![target_cidr(v6, wanted)]
        },
{
    let target = target_cidr(v6, wanted);
    let start = current.to_set();
    let settled_set = changed(start, all_settled(v6, current, wanted));
    lemma_settled(v6, start, current, wanted);
    lemma_target_host(v6, wanted);
    assert forall|x: Text| settled_set.contains(x) implies wanted.len() > 0 && x == target by {
        assert(start.contains(x) ==> current.contains(x));
    }
    if wanted.len() == 0 {
        assert(settled_set =~= Set::empty());
    } else {
        let changes = family_changes(v6, current, wanted);
        if is_present(current, wanted) {
            assert(settled_set =~= set![target]);
        } else {
            assert(changes.drop_last() == all_settled(v6, current, wanted));
            assert(changed(start, changes) =~= set![target]);
        }
    }
}

/// Once only the wanted address is there, configuring it again changes nothing.
pub proof fn law_second_configuration_does_nothing(
    v6: bool,
    current: Seq<Text>,
    wanted: Text,
    again: Seq<Text>,
)
    requires
        again.to_set() == changed(current.to_set(), family_changes(v6, current, wanted)),
    ensures
        family_changes(v6, again, wanted) == Seq::<Change>::empty(),
{
    law_only_the_wanted_address_stays(v6, current, wanted);
    let target = target_cidr(v6, wanted);
    lemma_target_host(v6, wanted);
    assert forall|x: Text| again.contains(x) implies wanted.len() > 0 && x == target by {
        assert(again.to_set().contains(x));
    }
    if wanted.len() > 0 {
        assert(again.to_set().contains(target));
        assert(again.contains(target));
        let i = choose|i: int| 0 <= i < again.len() && again[i] == target;
        assert(before_first(again[i], '/') == before_first(wanted, '/'));
        assert(is_present(again, wanted));
    }
    lemma_nothing_to_settle(v6, again, wanted);
}

/// Where every address is the wanted one, nothing is done about them.
proof fn lemma_nothing_to_settle(v6: bool, current: Seq<Text>, wanted: Text)
    requires
        forall|x: Text| current.contains(x) ==> wanted.len() > 0 && x == target_cidr(v6, wanted),
    ensures
        all_settled(v6, current, wanted) == Seq::<Change>::empty(),
    decreases current.len(),
{
    lemma_target_host(v6, wanted);
    if current.len() > 0 {
        let front = current.drop_last();
        assert forall|x: Text| front.contains(x) implies current.contains(x) by {
            let i = choose|i: int| 0 <= i < front.len() && front[i] == x;
            assert(current[i] == x);
        }
        lemma_nothing_to_settle(v6, front, wanted);
        assert(current.contains(current.last()));
    }
}

/// The address that is wanted has the host of the one it was made from.
proof fn lemma_target_host(v6: bool, wanted: Text)
    ensures
        before_first(target_cidr(v6, wanted), '/') == before_first(wanted, '/'),
{
    reveal_strlit("/32");
    reveal_strlit("/128");
    let host = before_first(wanted, '/');
    let length = if v6 {
        seq!['1', '2', '8']
    } else {
        seq!['3', '2']
    };
    lemma_before_first(wanted, '/');
    lemma_before_sep(host, '/', length);
    assert(target_cidr(v6, wanted) == host + seq!['/'] + length);
}

/// Which addresses are there once those of a front have been settled: of the
/// others those that were, and the wanted one if it was, or has come.
proof fn lemma_settled(v6: bool, start: Set<Text>, front: Seq<Text>, wanted: Text)
    requires
        forall|x: Text| front.contains(x) ==> start.contains(x),
    ensures
        forall|x: Text| #[trigger]
            changed(start, all_settled(v6, front, wanted)).contains(x) <==> if wanted.len() > 0
                && x == target_cidr(v6, wanted) {
                start.contains(x) || is_present(front, wanted)
            } else {
                start.contains(x) && !front.contains(x)
            },
    decreases front.len(),
{
    let target = target_cidr(v6, wanted);
    lemma_target_host(v6, wanted);
    if front.len() > 0 {
        let rest = front.drop_last();
        let cidr = front.last();
        assert forall|x: Text| rest.contains(x) implies start.contains(x) by {
            let i = choose|i: int| 0 <= i < rest.len() && rest[i] == x;
            assert(front[i] == x);
        }
        assert(front.contains(cidr));
        lemma_settled(v6, start, rest, wanted);
        let done = all_settled(v6, rest, wanted);
        let more = settled(v6, cidr, wanted);
        assert(front == rest.push(cidr));
        let all = done + more;
        let was = changed(start, done);
        let now = changed(start, all_settled(v6, front, wanted));
        assert(all_settled(v6, front, wanted) == all);
        if more.len() == 0 {
            assert(all == done);
        } else if more.len() == 1 {
            assert(all.drop_last() == done);
            assert(all.last() == Change::Del(cidr));
            assert(now == was.remove(cidr));
        } else {
            let mid = all.drop_last();
            assert(mid.drop_last() == done);
            assert(mid.last() == Change::Del(cidr));
            assert(all.last() == Change::Add(target));
            assert(changed(start, mid) == was.remove(cidr));
            assert(now == was.remove(cidr).insert(target));
        }
        assert forall|x: Text| #[trigger] now.contains(x) <==> if wanted.len() > 0 && x == target {
            start.contains(x) || is_present(front, wanted)
        } else {
            start.contains(x) && !front.contains(x)
        } by {
            assert(was.contains(x) == changed(start, done).contains(x));
            assert(front.contains(x) <==> rest.contains(x) || x == cidr) by {
                if front.contains(x) {
                    let i = choose|i: int| 0 <= i < front.len() && front[i] == x;
                    if i < rest.len() {
                        assert(rest[i] == x);
                    }
                }
                if rest.contains(x) {
                    let i = choose|i: int| 0 <= i < rest.len() && rest[i] == x;
                    assert(front[i] == x);
                }
                assert(front[front.len() - 1] == cidr);
            }
            assert(is_present(front, wanted) <==> is_present(rest, wanted) || before_first(
                cidr,
                '/',
            ) == before_first(wanted, '/')) by {
                if is_present(rest, wanted) {
                    let i = choose|i: int|
                        0 <= i < rest.len() && before_first(#[trigger] rest[i], '/')
                            == before_first(wanted, '/');
                    assert(front[i] == rest[i]);
                }
                if is_present(front, wanted) {
                    let i = choose|i: int|
                        0 <= i < front.len() && before_first(#[trigger] front[i], '/')
                            == before_first(wanted, '/');
                    if i < rest.len() {
                        assert(rest[i] == front[i]);
                    }
                }
                assert(front[front.len() - 1] == cidr);
            }
        }
    }
}

// ---------- which addresses are the own ----------

/// An address, a slash and a prefix length.
pub open spec fn slashed(host: Text, length: Text) -> Text {
    host + seq!['/'] + length
}

/// The address is of that family.
pub open spec fn of_family(ip: Option<Ip>, v6: bool) -> bool {
    match ip {
        Some(Ip::V4(_)) => !v6,
        Some(Ip::V6(_)) => v6,
        None => false,
    }
}

/// The network is a single host of that family: an address with 32 or 128 bits
/// behind the slash. An IPv4 address alone is one too.
pub open spec fn single_host(cidr: Text, v6: bool) -> bool {
    ||| !v6 && cidr.len() > 0 && !cidr.contains('/') && of_family(ip_of_text(cidr), false)
    ||| exists|host: Text, length: Text|
        cidr == #[trigger] slashed(host, length) && !host.contains('/') && of_family(
            ip_of_text(host),
            v6,
        ) && number(length, 255) == Some(
            if v6 {
                128nat
            } else {
                32nat
            },
        )
}

/// The network at that place is the first single host of its family.
pub open spec fn is_first_host(cidrs: Seq<Text>, i: int, v6: bool) -> bool {
    &&& 0 <= i < cidrs.len()
    &&& single_host(cidrs[i], v6)
    &&& forall|j: int| 0 <= j < i ==> !single_host(#[trigger] cidrs[j], v6)
}

/// What makes a network a single host, after its parts.
proof fn lemma_single_host(cidr: Text, v6: bool)
    ensures
        single_host(cidr, v6) <==> cidr.len() > 0 && of_family(ip_of_text(host_of(cidr)), v6)
            && prefix_of(cidr) == if v6 {
            128nat
        } else {
            32nat
        },
{
    law_cut(cidr, '/');
    match cut_first(cidr, '/') {
        Some((host, length)) => {
            assert(cidr == slashed(host, length));
            assert forall|h: Text, l: Text|
                cidr == #[trigger] slashed(h, l) && !h.contains('/') implies h == host && l
                == length by {
                lemma_cut_first(h, '/', l);
            }
        },
        None => {
            assert forall|h: Text, l: Text| cidr != #[trigger] slashed(h, l) by {
                if cidr == slashed(h, l) {
                    assert(cidr[h.len() as int] == '/');
                }
            }
        },
    }
}

/// The own address of each family is the first single host of that family
/// among the networks, whether or not there is one of the other family, and
/// whatever else there is; and without one it is empty.
pub proof fn law_first_host_is_the_own(cidrs: Seq<Text>, i: int)
    ensures
        is_first_host(cidrs, i, false) ==> self_ips(cidrs).0 == cidrs[i],
        is_first_host(cidrs, i, true) ==> self_ips(cidrs).1 == cidrs[i],
        (forall|j: int| 0 <= j < cidrs.len() ==> !single_host(#[trigger] cidrs[j], false))
            ==> self_ips(cidrs).0.len() == 0,
        (forall|j: int| 0 <= j < cidrs.len() ==> !single_host(#[trigger] cidrs[j], true))
            ==> self_ips(cidrs).1.len() == 0,
        single_host(cidrs[i], false) || single_host(cidrs[i], true) ==> cidrs[i].len() > 0,
    decreases cidrs.len(),
{
    lemma_single_host(cidrs[i], false);
    lemma_single_host(cidrs[i], true);
    if cidrs.len() > 0 {
        let front = cidrs.drop_last();
        let last = cidrs.last();
        law_first_host_is_the_own(front, i);
        lemma_single_host(last, false);
        lemma_single_host(last, true);
        assert(cidrs[cidrs.len() - 1] == last);
        assert(forall|j: int| 0 <= j < front.len() ==> front[j] == #[trigger] cidrs[j]);
        assert(forall|j: int| 0 <= j < front.len() ==> #[trigger] front[j] == cidrs[j]);
        if is_first_host(cidrs, i, false) && i < front.len() {
            assert(is_first_host(front, i, false));
        }
        if is_first_host(cidrs, i, true) && i < front.len() {
            assert(is_first_host(front, i, true));
        }
    }
}

/// A single host stands among the networks as soon as one does, and then there
/// is a first one.
pub proof fn lemma_some_first_host(cidrs: Seq<Text>, v6: bool) -> (i: int)
    requires
        exists|j: int| 0 <= j < cidrs.len() && single_host(#[trigger] cidrs[j], v6),
    ensures
        is_first_host(cidrs, i, v6),
    decreases cidrs.len(),
{
    let front = cidrs.drop_last();
    if exists|j: int| 0 <= j < front.len() && single_host(#[trigger] front[j], v6) {
        let i = lemma_some_first_host(front, v6);
        assert(cidrs[i] == front[i]);
        assert forall|j: int| 0 <= j < i implies !single_host(#[trigger] cidrs[j], v6) by {
            assert(front[j] == cidrs[j]);
        }
        i
    } else {
        let i = cidrs.len() - 1;
        assert forall|j: int| 0 <= j < i implies !single_host(#[trigger] cidrs[j], v6) by {
            assert(front[j] == cidrs[j]);
        }
        i
    }
}

// ---------- what holds of the commands ----------

/// The addresses that are there are read line by line: each line of that family
/// counts, with its fourth word, and no other.
pub proof fn law_every_line_counts(
    rows: Seq<Text>,
    number: Text,
    name: Text,
    family: Text,
    cidr: Text,
    rest: Text,
    wanted: Text,
)
    requires
        is_word(number),
        is_word(name),
        is_word(family),
        is_word(cidr),
    ensures
        ({
            let row = number + seq![' '] + (name + seq![' '] + (family + seq![' '] + (cidr + seq![
                ' ',
            ] + rest)));
            rows_cidrs(rows.push(row), wanted) == if family == wanted {
                rows_cidrs(rows, wanted).push(cidr)
            } else {
                rows_cidrs(rows, wanted)
            }
        }),
        rows_cidrs(Seq::empty(), wanted).len() == 0,
{
    let d = cidr + seq![' '] + rest;
    let c = family + seq![' '] + d;
    let b = name + seq![' '] + c;
    let row = number + seq![' '] + b;
    law_words(cidr, ' ', rest);
    law_words(family, ' ', d);
    law_words(name, ' ', c);
    law_words(number, ' ', b);
    let words = words_of(row);
    assert(words == seq![number] + (seq![name] + (seq![family] + (seq![cidr] + words_of(rest)))));
    assert(words[2] == family && words[3] == cidr);
    assert(rows.push(row).drop_last() == rows);
}

/// The text is a word: not empty, and without white space.
pub open spec fn is_word(s: Text) -> bool {
    s.len() > 0 && forall|i: int| 0 <= i < s.len() ==> !is_space(#[trigger] s[i])
}

/// The interface gets the wanted address as a single host, whatever prefix
/// length it comes with.
pub proof fn law_wanted_address_is_a_host(host: Text, length: Text)
    requires
        !host.contains('/'),
    ensures
        target_cidr(false, slashed(host, length)) == host + "/32"@,
        target_cidr(true, slashed(host, length)) == host + "/128"@,
        target_cidr(false, host) == host + "/32"@,
        target_cidr(true, host) == host + "/128"@,
{
    law_split(host, '/', length);
}

/// Each family gets its address by itself: what is done about one does not
/// depend on the other. Where the addresses that are there are not known, each
/// wanted one is added.
pub proof fn law_families_are_independent(
    interface: Text,
    v4: Seq<Text>,
    v6: Seq<Text>,
    ipv4: Text,
    ipv6: Text,
)
    ensures
        self_ip_commands(interface, Some((v4, v6)), ipv4, ipv6) == self_ip_commands(
            interface,
            Some((v4, Seq::empty())),
            ipv4,
            Seq::empty(),
        ) + self_ip_commands(interface, Some((Seq::empty(), v6)), Seq::empty(), ipv6),
        ipv4.len() > 0 ==> self_ip_commands(interface, None, ipv4, ipv6).contains(
            seq!["addr"@, "add"@, ipv4, "dev"@, interface],
        ),
        ipv6.len() > 0 ==> self_ip_commands(interface, None, ipv4, ipv6).contains(
            seq!["-6"@, "addr"@, "add"@, ipv6, "dev"@, interface],
        ),
        self_ip_commands(interface, None, Seq::empty(), Seq::empty()).len() == 0,
{
    let none = Seq::<Text>::empty();
    assert(family_changes(false, none, Seq::empty()) == Seq::<Change>::empty());
    assert(family_changes(true, none, Seq::empty()) == Seq::<Change>::empty());
    assert(changes_args(true, family_changes(true, none, Seq::empty()), interface) == Seq::<
        Seq<Text>,
    >::empty());
    assert(changes_args(false, family_changes(false, none, Seq::empty()), interface) == Seq::<
        Seq<Text>,
    >::empty());
    let first = changes_args(false, blind_changes(ipv4), interface);
    let second = changes_args(true, blind_changes(ipv6), interface);
    let all = self_ip_commands(interface, None, ipv4, ipv6);
    assert(all == first + second);
    if ipv4.len() > 0 {
        assert(all[0] == seq!["addr"@, "add"@, ipv4, "dev"@, interface]);
    }
    if ipv6.len() > 0 {
        assert(all[first.len() as int] == second[0]);
        assert(second[0] == seq!["-6"@, "addr"@, "add"@, ipv6, "dev"@, interface]);
    }
}

/// A change of the addresses is a command for that interface, that address and
/// that family.
pub proof fn law_change_is_a_command(v6: bool, cidr: Text, interface: Text)
    ensures
        change_args(v6, Change::Add(cidr), interface) == if v6 {
            seq!["-6"@, "addr"@, "add"@, cidr, "dev"@, interface]
        } else {
            seq!["addr"@, "add"@, cidr, "dev"@, interface]
        },
        change_args(v6, Change::Del(cidr), interface) == if v6 {
            seq!["-6"@, "addr"@, "del"@, cidr, "dev"@, interface]
        } else {
            seq!["addr"@, "del"@, cidr, "dev"@, interface]
        },
{
}

/// The wanted address of a family comes to be there by a command wherever it is
/// not there as a single host already; and one that is there so is not touched.
pub proof fn law_wanted_address_comes(v6: bool, current: Seq<Text>, wanted: Text)
    requires
        wanted.len() > 0,
    ensures
        !current.contains(target_cidr(v6, wanted)) ==> family_changes(
            v6,
            current,
            wanted,
        ).contains(Change::Add(target_cidr(v6, wanted))),
        forall|i: int|
            0 <= i < family_changes(v6, current, wanted).len() ==> #[trigger] family_changes(
                v6,
                current,
                wanted,
            )[i] != Change::Del(target_cidr(v6, wanted)),
{
    let target = target_cidr(v6, wanted);
    let changes = family_changes(v6, current, wanted);
    law_only_the_wanted_address_stays(v6, current, wanted);
    let done = changed(current.to_set(), changes);
    assert(done.contains(target));
    if !current.contains(target) {
        assert(!current.to_set().contains(target));
        lemma_came_by_addition(current.to_set(), changes, target);
    }
    lemma_target_stays(v6, current, wanted);
}

/// An address that comes to be there has been added.
proof fn lemma_came_by_addition(addresses: Set<Text>, changes: Seq<Change>, cidr: Text)
    requires
        !addresses.contains(cidr),
        changed(addresses, changes).contains(cidr),
    ensures
        changes.contains(Change::Add(cidr)),
    decreases changes.len(),
{
    let front = changes.drop_last();
    if changed(addresses, front).contains(cidr) {
        lemma_came_by_addition(addresses, front, cidr);
        let i = choose|i: int| 0 <= i < front.len() && front[i] == Change::Add(cidr);
        assert(changes[i] == Change::Add(cidr));
    } else {
        assert(changes[changes.len() - 1] == Change::Add(cidr));
    }
}

/// The wanted address is not deleted.
proof fn lemma_target_stays(v6: bool, current: Seq<Text>, wanted: Text)
    requires
        wanted.len() > 0,
    ensures
        !all_settled(v6, current, wanted).contains(Change::Del(target_cidr(v6, wanted))),
    decreases current.len(),
{
    lemma_target_host(v6, wanted);
    if current.len() > 0 {
        let front = all_settled(v6, current.drop_last(), wanted);
        let more = settled(v6, current.last(), wanted);
        let all = all_settled(v6, current, wanted);
        let gone = Change::Del(target_cidr(v6, wanted));
        lemma_target_stays(v6, current.drop_last(), wanted);
        if all.contains(gone) {
            let i = choose|i: int| 0 <= i < all.len() && all[i] == gone;
            if i < front.len() {
                assert(front[i] == gone);
            } else {
                assert(more[i - front.len()] == gone);
            }
        }
    }
}

} // verus!
