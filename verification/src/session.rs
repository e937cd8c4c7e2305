//! The connection to the broker and the registration with the server.
use vstd::arithmetic::power2::{
    lemma2_to64, lemma_pow2_strictly_increases, lemma_pow2_unfold, pow2,
};
use vstd::prelude::*;
use vstd::utf8::encode_utf8;

use crate::clock::{lesser, power_of_two};
use crate::foreign::{blake3_hash, blake3_of};
use crate::text::{concat2, Text};

verus! {

// ---------- waiting ----------

/// The seconds to wait after so many failures in a row: none without one, then
/// doubled with each failure, and a minute at most.
pub open spec fn backoff_secs(failures: u32) -> nat {
    if failures == 0 {
        0
    } else {
        lesser(pow2(lesser(failures as nat, 6)), 60)
    }
}

/// The seconds to wait after so many failures in a row.
pub fn exponential_backoff(failures: u32) -> (secs: u64)
    ensures
        secs == backoff_secs(failures),
{
    if failures == 0 {
        return 0;
    }
    let doubled: u64 = if failures < 6 {
        power_of_two(failures)
    } else {
        power_of_two(6)
    };
    if doubled < 60 {
        doubled
    } else {
        60
    }
}

/// More failures never shorten the wait, and it is never over a minute.
pub proof fn law_backoff(a: u32, b: u32)
    requires
        a <= b,
    ensures
        backoff_secs(a) <= backoff_secs(b) <= 60,
        a >= 1 ==> backoff_secs(a) >= 2,
        a >= 6 ==> backoff_secs(a) == 60,
{
    lemma2_to64();
    let m = lesser(a as nat, 6);
    let n = lesser(b as nat, 6);
    if m < n {
        lemma_pow2_strictly_increases(m, n);
    }
    if 1 < m {
        lemma_pow2_strictly_increases(1, m);
    }
}

// ---------- the connection ----------

/// How far the registration with the server has come.
#[derive(Clone, Copy, PartialEq, Eq, Structural)]
pub enum RegistrationState {
    NotRegistered,
    InProgress,
    Registered,
}

/// What is remembered of the connection: the failures in a row, and the registration.
pub struct Session {
    pub failures: u32,
    pub registration: RegistrationState,
}

impl Session {
    /// Nothing has happened yet.
    pub fn new() -> (session: Session)
        ensures
            session == (Session {
                failures: 0,
                registration: RegistrationState::NotRegistered,
            }),
    {
        Session { failures: 0, registration: RegistrationState::NotRegistered }
    }

    /// The broker accepted the connection.
    pub fn connected(&mut self)
        ensures
            *final(self) == (Session { failures: 0, ..*old(self) }),
    {
        self.failures = 0;
    }

    /// The broker refused the connection, or could not be reached: the seconds
    /// to wait before the next try.
    pub fn refused(&mut self) -> (secs: u64)
        requires
            old(self).failures < u32::MAX,
        ensures
            *final(self) == (Session { failures: (old(self).failures + 1) as u32, ..*old(self) }),
            secs == backoff_secs((old(self).failures + 1) as u32),
    {
        self.failures = self.failures + 1;
        exponential_backoff(self.failures)
    }

    /// The connection was lost, and the registration with it: the seconds to
    /// wait before the next try.
    pub fn lost(&mut self) -> (secs: u64)
        requires
            old(self).failures < u32::MAX,
        ensures
            *final(self) == (Session {
                failures: (old(self).failures + 1) as u32,
                registration: RegistrationState::NotRegistered,
            }),
            secs == backoff_secs((old(self).failures + 1) as u32),
    {
        self.registration = RegistrationState::NotRegistered;
        self.refused()
    }

    /// Whether it is time to register again, as far as the registration goes.
    pub fn needs_registration(&self) -> (answer: bool)
        ensures
            answer == (self.registration != RegistrationState::Registered),
    {
        match self.registration {
            RegistrationState::Registered => false,
            _ => true,
        }
    }
}

// ---------- the registration ----------

/// The seconds between two tries to register.
pub const REGISTER_RETRY_INTERVAL_SECS: u64 = 5;

/// How often it is tried to register.
pub const REGISTER_MAX_RETRIES: u32 = 5;

/// What follows a try to register: it is under way, is to be tried again, or
/// has failed for good.
#[derive(Clone, Copy, PartialEq, Eq, Structural)]
pub enum RegisterStep {
    Sent,
    TryAgain,
    GiveUp,
}

/// What follows a try to register.
pub open spec fn register_step(attempt: u32, published: bool) -> RegisterStep {
    if published {
        RegisterStep::Sent
    } else if attempt < REGISTER_MAX_RETRIES {
        RegisterStep::TryAgain
    } else {
        RegisterStep::GiveUp
    }
}

/// What follows the try to register with that number, the first being 1, where
/// `published` says whether the request was sent.
pub fn start_registration(session: &mut Session, attempt: u32, published: bool) -> (step:
    RegisterStep)
    ensures
        step == register_step(attempt, published),
        *final(session) == if published {
            (Session { registration: RegistrationState::InProgress, ..*old(session) })
        } else {
            *old(session)
        },
{
    if published {
        session.registration = RegistrationState::InProgress;
        RegisterStep::Sent
    } else if attempt < REGISTER_MAX_RETRIES {
        RegisterStep::TryAgain
    } else {
        RegisterStep::GiveUp
    }
}

/// It is tried `REGISTER_MAX_RETRIES` times at most: the step after the last
/// try is never another one, and before it never the end.
pub proof fn law_registration_ends(attempt: u32)
    ensures
        register_step(attempt, false) == RegisterStep::GiveUp <==> attempt >= REGISTER_MAX_RETRIES,
        register_step(attempt, true) == RegisterStep::Sent,
{
}

// ---------- names ----------

/// A hexadecimal digit.
pub open spec fn hex_char(d: nat) -> char {
    if d < 10 {
        (d + '0' as nat) as char
    } else {
        (d - 10 + 'a' as nat) as char
    }
}

/// The bytes in hexadecimal notation.
pub open spec fn hex(bytes: Seq<u8>) -> Text
    decreases bytes.len(),
{
    if bytes.len() == 0 {
        Seq::empty()
    } else {
        hex(bytes.drop_last()).push(hex_char((bytes.last() / 16) as nat)).push(
            hex_char((bytes.last() % 16) as nat),
        )
    }
}

/// A hexadecimal digit.
fn hex_digit(d: u8) -> (c: char)
    requires
        d < 16,
    ensures
        c == hex_char(d as nat),
{
    if d < 10 {
        (d + 48) as char
    } else {
        (d + 87) as char
    }
}

/// The bytes in hexadecimal notation.
pub fn hex_text(bytes: &[u8]) -> (text: String)
    ensures
        text@ == hex(bytes@),
{
    let mut text = String::new();
    let mut i: usize = 0;
    assert(bytes@.take(0) == Seq::<u8>::empty());
    while i < bytes.len()
        invariant
            i <= bytes@.len(),
            text@ == hex(bytes@.take(i as int)),
        decreases bytes@.len() - i,
    {
        assert(bytes@.take(i + 1).drop_last() == bytes@.take(i as int));
        text.push(hex_digit(bytes[i] / 16));
        text.push(hex_digit(bytes[i] % 16));
        i = i + 1;
    }
    assert(bytes@.take(i as int) == bytes@);
    text
}

/// The name of the client whose key has that hash: its first ten bytes, twenty digits.
pub open spec fn client_name(hash: Seq<u8>) -> Text {
    "wg-"@ + hex(hash.take(10))
}

/// The name of the client whose key has that hash.
pub fn client_id_of_hash(hash: &[u8]) -> (name: String)
    requires
        hash@.len() >= 10,
    ensures
        name@ == client_name(hash@),
{
    let mut front: Vec<u8> = Vec::new();
    let mut i: usize = 0;
    while i < 10
        invariant
            i <= 10 <= hash@.len(),
            front@ == hash@.take(i as int),
        decreases 10 - i,
    {
        front.push(hash[i]);
        i = i + 1;
    }
    let digits = hex_text(&front);
    concat2("wg-", digits.as_str())
}

/// The name under which the client with that key meets the broker.
pub fn client_id(local_pubkey: &str) -> (name: String)
    ensures
        name@ == client_name(blake3_of(encode_utf8(local_pubkey@))),
{
    let hash = blake3_hash(local_pubkey.as_bytes());
    client_id_of_hash(&hash)
}

/// The topics of an interface. The client subscribes to `full`, `delta` and
/// `response`, and publishes on `register` and `request`.
pub struct Topics {
    pub full: String,
    pub delta: String,
    pub response: String,
    pub register: String,
    pub request: String,
}

/// A topic of that interface.
pub open spec fn topic_of(interface: Text, rest: Text) -> Text {
    "wg/"@ + interface + rest
}

/// A topic of that interface.
fn topic(interface: &str, rest: &str) -> (name: String)
    ensures
        name@ == topic_of(interface@, rest@),
{
    let front = concat2("wg/", interface);
    concat2(front.as_str(), rest)
}

impl Topics {
    /// The topics of an interface and a client.
    pub fn new(interface: &str, client_id: &str) -> (topics: Topics)
        ensures
            topics.full@ == topic_of(interface@, "/full"@),
            topics.delta@ == topic_of(interface@, "/delta"@),
            topics.response@ == topic_of(interface@, "/full/response/"@ + client_id@),
            topics.register@ == topic_of(interface@, "/register"@),
            topics.request@ == topic_of(interface@, "/full/request/"@ + client_id@),
    {
        let response = concat2("/full/response/", client_id);
        let request = concat2("/full/request/", client_id);
        Topics {
            full: topic(interface, "/full"),
            delta: topic(interface, "/delta"),
            response: topic(interface, response.as_str()),
            register: topic(interface, "/register"),
            request: topic(interface, request.as_str()),
        }
    }

    /// What a message on that topic is.
    pub fn kind_of(&self, topic: &str) -> (kind: MessageKind)
        ensures
            kind == if topic@ == self.response@ {
                MessageKind::Response
            } else if topic@ == self.full@ {
                MessageKind::Full
            } else if topic@ == self.delta@ {
                MessageKind::Delta
            } else {
                MessageKind::Other
            },
    {
        if topic.eq(self.response.as_str()) {
            MessageKind::Response
        } else if topic.eq(self.full.as_str()) {
            MessageKind::Full
        } else if topic.eq(self.delta.as_str()) {
            MessageKind::Delta
        } else {
            MessageKind::Other
        }
    }
}

/// What a message is: the full state for all, the full state in response to
/// the own request, a change, or nothing that is known here. After a response
/// the subscription to responses ends.
#[derive(Clone, Copy, PartialEq, Eq, Structural)]
pub enum MessageKind {
    Full,
    Response,
    Delta,
    Other,
}

// ---------- what holds of the waits and the names ----------

/// The wait is 2 seconds after the first failure and doubles with each up to
/// the fifth; from the sixth on it is a minute, and without one there is none.
pub proof fn law_wait_doubles(failures: u32)
    ensures
        backoff_secs(0) == 0,
        backoff_secs(1) == 2,
        1 <= failures < 5 ==> backoff_secs((failures + 1) as u32) == 2 * backoff_secs(failures),
        failures >= 6 ==> backoff_secs(failures) == 60,
{
    lemma2_to64();
    if 1 <= failures < 5 {
        lemma_pow2_unfold((failures + 1) as nat);
        lemma_pow2_strictly_increases(failures as nat, 5);
        if failures < 4 {
            lemma_pow2_strictly_increases((failures + 1) as nat, 5);
        }
    }
}

/// It is tried to register five times: a request that went out is never sent
/// again, and one that did not is, until the fifth try.
pub proof fn law_five_tries_to_register(attempt: u32)
    ensures
        register_step(attempt, true) == RegisterStep::Sent,
        attempt < 5 ==> register_step(attempt, false) == RegisterStep::TryAgain,
        attempt >= 5 ==> register_step(attempt, false) == RegisterStep::GiveUp,
{
}

/// Bytes in hexadecimal notation stand one behind the other, each with its two
/// digits, the higher one first.
pub proof fn law_hex(a: Seq<u8>, b: Seq<u8>, byte: u8)
    ensures
        hex(a + b) == hex(a) + hex(b),
        hex(seq![byte]) == seq!["0123456789abcdef"@[byte as int / 16], "0123456789abcdef"@[byte as int
            % 16]],
        hex(Seq::empty()) == Seq::<char>::empty(),
        hex(a).len() == 2 * a.len(),
    decreases a.len() + b.len(),
{
    reveal_strlit("0123456789abcdef");
    lemma_hex_digit((byte / 16) as nat);
    lemma_hex_digit((byte % 16) as nat);
    assert(hex(Seq::empty()) == Seq::<char>::empty());
    assert(seq![byte].drop_last() == Seq::<u8>::empty());
    assert(hex(seq![byte]) == seq![
        hex_char((byte / 16) as nat),
        hex_char((byte % 16) as nat),
    ]);
    if b.len() == 0 {
        assert(a + b == a);
        assert(hex(a) + hex(b) == hex(a));
    } else {
        law_hex(a, b.drop_last(), byte);
        assert((a + b).drop_last() == a + b.drop_last());
        assert((a + b).last() == b.last());
    }
    if a.len() > 0 && b.len() == 0 {
        law_hex(a.drop_last(), b, byte);
    }
}

/// A hexadecimal digit is the one at its place.
proof fn lemma_hex_digit(d: nat)
    requires
        d < 16,
    ensures
        hex_char(d) == "0123456789abcdef"@[d as int],
{
    reveal_strlit("0123456789abcdef");
    if d < 10 {
        assert(hex_char(d) as nat == 48 + d);
    } else {
        assert(hex_char(d) as nat == 87 + d);
    }
}

/// The name of a client is made of the first ten bytes of the hash of its key:
/// other bytes play no part.
pub proof fn law_client_name(hash: Seq<u8>, other: Seq<u8>)
    requires
        hash.len() >= 10,
        other.len() >= 10,
    ensures
        client_name(hash).len() == 23,
        client_name(hash).take(3) == "wg-"@,
        client_name(hash).skip(3) == hex(hash.take(10)),
        hash.take(10) == other.take(10) ==> client_name(hash) == client_name(other),
{
    reveal_strlit("wg-");
    law_hex(hash.take(10), Seq::empty(), 0);
    assert(client_name(hash).take(3) == "wg-"@);
    assert(client_name(hash).skip(3) == hex(hash.take(10)));
}

/// A topic begins with the common prefix and the interface, and ends with what
/// it is for.
pub proof fn law_topics_name_the_interface(interface: Text, rest: Text)
    ensures
        ({
            let topic = topic_of(interface, rest);
            &&& topic.take(3) == "wg/"@
            &&& topic.subrange(3, 3 + interface.len() as int) == interface
            &&& topic.skip(3 + interface.len() as int) == rest
        }),
{
    reveal_strlit("wg/");
    let topic = topic_of(interface, rest);
    assert(topic.take(3) == "wg/"@);
    assert(topic.subrange(3, 3 + interface.len() as int) == interface);
    assert(topic.skip(3 + interface.len() as int) == rest);
}

} // verus!
