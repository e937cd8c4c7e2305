//! Settings from the environment, each given as the text that was found, if any.
use vstd::arithmetic::power2::pow2;
use vstd::prelude::*;

use crate::clock::{elapsed, has_elapsed, lesser, power_of_two, NANOS_PER_SEC};
use crate::foreign::{lowercase, shell_split, shell_words, to_lowercase};
use crate::text::{
    chars_of, decimal, law_number_reads_decimal, number, parse_u16, parse_u64, pieces,
    text_between, Text,
};

verus! {

// ---------- plain settings ----------

/// The port of the broker where none is set.
pub const DEFAULT_MQTT_PORT: u16 = 1883;

/// The seconds for which the state of the interface is not read again.
pub const DEFAULT_STATE_CACHE_TTL_SECS: u64 = 2;

/// The seconds in which a switch to a local endpoint has to bring a handshake.
pub const DEFAULT_LAN_HANDSHAKE_WAIT_SECS: u64 = 8;

/// The seconds between scheduled changes of the port.
pub const DEFAULT_SCHEDULED_PORT_CHANGE_SECS: u64 = 7200;

/// The seconds after which it is tried again to register.
pub const DEFAULT_RE_REGISTER_SECS: u64 = 600;

/// The ports among which a new one is drawn.
pub const DEFAULT_PORT_MIN: u16 = 1024;

/// The ports among which a new one is drawn.
pub const DEFAULT_PORT_MAX: u16 = 65535;

/// The interface where none is named.
pub const DEFAULT_INTERFACE: &'static str = "wg0";

/// The IPv4 network that marks a relay.
pub const DEFAULT_RELAY_CIDR_V4: &'static str = "10.254.1.0/24";

/// The IPv6 network that marks a relay.
pub const DEFAULT_RELAY_CIDR_V6: &'static str = "fd00:1:1::/64";

/// The setting is on: it is `1` or `true`.
pub open spec fn is_on(value: Option<Text>) -> bool {
    value == Some("1"@) || value == Some("true"@)
}

/// Whether a setting is on.
pub fn flag(value: Option<&str>) -> (on: bool)
    ensures
        on == is_on(value.deep_view()),
{
    match value {
        Some(text) => text.eq("1") || text.eq("true"),
        None => false,
    }
}

/// The text of a setting, or the default.
pub fn text_setting(value: Option<&str>, default: &str) -> (text: String)
    ensures
        text@ == match value {
            Some(set) => set@,
            None => default@,
        },
{
    match value {
        Some(set) => set.to_owned(),
        None => default.to_owned(),
    }
}

/// The number of a setting up to `max`, or the default where there is none
/// that can be read.
pub open spec fn number_setting(value: Option<Text>, max: nat, default: nat) -> nat {
    match value {
        Some(text) => match number(text, max) {
            Some(n) => n,
            None => default,
        },
        None => default,
    }
}

/// The port of a setting, or the default.
pub fn port_setting(value: Option<&str>, default: u16) -> (port: u16)
    ensures
        port == number_setting(value.deep_view(), u16::MAX as nat, default as nat),
{
    match value {
        Some(text) => match parse_u16(text) {
            Some(n) => n,
            None => default,
        },
        None => default,
    }
}

/// The seconds of a setting, or the default.
pub fn secs_setting(value: Option<&str>, default: u64) -> (secs: u64)
    ensures
        secs == number_setting(value.deep_view(), u64::MAX as nat, default as nat),
{
    match value {
        Some(text) => match parse_u64(text) {
            Some(n) => n,
            None => default,
        },
        None => default,
    }
}

/// Whether peers are switched to local endpoints.
pub fn is_lan_switching_enabled(value: Option<&str>) -> (on: bool)
    ensures
        on == is_on(value.deep_view()),
{
    flag(value)
}

/// The name of the tool, by whether the one of AmneziaWG is to be used.
pub fn wg_cmd(use_awg: Option<&str>) -> (name: &'static str)
    ensures
        name@ == if is_on(use_awg.deep_view()) {
            "awg"@
        } else {
            "wg"@
        },
{
    if flag(use_awg) {
        "awg"
    } else {
        "wg"
    }
}

/// The type of the interface, by whether that of AmneziaWG is to be used.
pub fn wg_interface_type(use_awg: Option<&str>) -> (name: &'static str)
    ensures
        name@ == if is_on(use_awg.deep_view()) {
            "amneziawg"@
        } else {
            "wireguard"@
        },
{
    if flag(use_awg) {
        "amneziawg"
    } else {
        "wireguard"
    }
}

/// The lowest and the highest port of two settings, in order.
pub open spec fn range_of(min: Option<Text>, max: Option<Text>) -> (u16, u16) {
    let a = number_setting(min, u16::MAX as nat, DEFAULT_PORT_MIN as nat) as u16;
    let b = number_setting(max, u16::MAX as nat, DEFAULT_PORT_MAX as nat) as u16;
    if a > b {
        (b, a)
    } else {
        (a, b)
    }
}

/// The lowest and the highest port to draw from. Where they come in the wrong
/// order, they change places.
pub fn get_port_range(min: Option<&str>, max: Option<&str>) -> (range: (u16, u16))
    ensures
        range == range_of(min.deep_view(), max.deep_view()),
        range.0 <= range.1,
{
    let min: u16 = port_setting(min, DEFAULT_PORT_MIN);
    let max: u16 = port_setting(max, DEFAULT_PORT_MAX);
    if min > max {
        (max, min)
    } else {
        (min, max)
    }
}

/// The range that is in force: the one that is kept, or that of the settings
/// where none is kept yet.
pub open spec fn range_in_force(
    kept: Option<(u16, u16)>,
    min: Option<Text>,
    max: Option<Text>,
) -> (u16, u16) {
    match kept {
        Some(range) => range,
        None => range_of(min, max),
    }
}

/// The ports to draw from, as they were set when they were first asked for.
pub struct PortRange {
    kept: Option<(u16, u16)>,
}

impl View for PortRange {
    type V = Option<(u16, u16)>;

    closed spec fn view(&self) -> Option<(u16, u16)> {
        self.kept
    }
}

impl PortRange {
    #[verifier::type_invariant]
    closed spec fn in_order(self) -> bool {
        self.kept matches Some(range) ==> range.0 <= range.1
    }

    /// Nothing was asked for yet.
    pub fn new() -> (range: PortRange)
        ensures
            range@ is None,
    {
        PortRange { kept: None }
    }

    /// The ports to draw from. What the settings say counts only the first
    /// time; from then on the range is kept.
    pub fn get(&mut self, min: Option<&str>, max: Option<&str>) -> (range: (u16, u16))
        ensures
            range == range_in_force(old(self)@, min.deep_view(), max.deep_view()),
            final(self)@ == Some(range),
            range.0 <= range.1,
    {
        proof {
            use_type_invariant(&*self);
        }
        match self.kept {
            Some(range) => range,
            None => {
                let range: (u16, u16) = get_port_range(min, max);
                self.kept = Some(range);
                range
            },
        }
    }
}

/// However the settings change, the range stays the one of the first time.
pub proof fn law_first_port_range_is_kept(
    kept: Option<(u16, u16)>,
    min: Option<Text>,
    max: Option<Text>,
    later_min: Option<Text>,
    later_max: Option<Text>,
)
    ensures
        range_in_force(Some(range_in_force(kept, min, max)), later_min, later_max)
            == range_in_force(kept, min, max),
        range_of(min, max).0 <= range_of(min, max).1,
{
}

/// The name and the password for the broker, where both are set.
pub fn credentials(user: Option<String>, password: Option<String>) -> (both: Option<
    (String, String),
>)
    ensures
        both == match (user, password) {
            (Some(u), Some(p)) => Some((u, p)),
            _ => None,
        },
{
    match (user, password) {
        (Some(u), Some(p)) => Some((u, p)),
        _ => None,
    }
}

// ---------- the backend ----------

/// What drives the interface: the kernel, or a process of one of two kinds.
#[derive(Clone, Copy, PartialEq, Eq, Structural, Debug)]
pub enum Backend {
    Kernel,
    Gotatun,
    AmneziaWG,
}

/// There is no backend of that name.
pub struct UnsupportedBackend {
    pub name: String,
}

/// The backend of that name, in lower case.
pub open spec fn backend_named(name: Text) -> Option<Backend> {
    if name == "kernel"@ {
        Some(Backend::Kernel)
    } else if name == "gotatun"@ {
        Some(Backend::Gotatun)
    } else if name == "amneziawg"@ {
        Some(Backend::AmneziaWG)
    } else {
        None
    }
}

/// The backend of that name, in lower case.
pub fn backend_of_name(name: &str) -> (backend: Result<Backend, UnsupportedBackend>)
    ensures
        match backend {
            Ok(b) => backend_named(name@) == Some(b),
            Err(e) => backend_named(name@) is None && e.name@ == name@,
        },
{
    if name.eq("kernel") {
        Ok(Backend::Kernel)
    } else if name.eq("gotatun") {
        Ok(Backend::Gotatun)
    } else if name.eq("amneziawg") {
        Ok(Backend::AmneziaWG)
    } else {
        Err(UnsupportedBackend { name: name.to_owned() })
    }
}

/// The backend that is set, in whatever case; the kernel where none is.
pub fn parse_backend(value: Option<&str>) -> (backend: Result<Backend, UnsupportedBackend>)
    ensures
        match value {
            Some(name) => match backend {
                Ok(b) => backend_named(lowercase(name@)) == Some(b),
                Err(e) => backend_named(lowercase(name@)) is None && e.name@ == lowercase(name@),
            },
            None => backend matches Ok(b) && b == Backend::Kernel,
        },
{
    match value {
        Some(name) => backend_of_name(to_lowercase(name).as_str()),
        None => Ok(Backend::Kernel),
    }
}

/// The backend is a process of its own.
pub open spec fn in_userspace(backend: Backend) -> bool {
    backend != Backend::Kernel
}

/// Whether the backend is a process of its own, to be ended with the program.
pub fn is_userspace(backend: Backend) -> (answer: bool)
    ensures
        answer == in_userspace(backend),
{
    match backend {
        Backend::Kernel => false,
        Backend::Gotatun | Backend::AmneziaWG => true,
    }
}

/// Why there is no command for the backend: it is set but empty, or it is not
/// set for the backend of that name.
pub enum BackendCommandError {
    Empty,
    Unset(&'static str),
}

/// The words of the command: those it splits into, or the whole of it where
/// its quoting does not close.
pub open spec fn command_words(split: Option<Seq<Text>>, command: Text) -> Seq<Text> {
    match split {
        Some(words) => words,
        None => seq![command],
    }
}

/// The words of the command, where `split` is what it splits into.
pub fn backend_command(split: Option<Vec<String>>, command: &str) -> (words: Result<
    Vec<String>,
    BackendCommandError,
>)
    ensures
        match words {
            Ok(list) => list.deep_view() == command_words(split.deep_view(), command@)
                && list.deep_view().len() > 0,
            Err(e) => e is Empty && command_words(split.deep_view(), command@).len() == 0,
        },
{
    let words = match split {
        Some(words) => words,
        None => {
            let words = vec![command.to_owned()];
            assert(words.deep_view() == seq![command@]);
            words
        },
    };
    assert(words@.len() == words.deep_view().len());
    if words.len() == 0 {
        Err(BackendCommandError::Empty)
    } else {
        Ok(words)
    }
}

/// The name of a backend that is a process of its own.
pub open spec fn backend_name(backend: Backend) -> Text {
    match backend {
        Backend::Gotatun => "gotatun"@,
        _ => "amneziawg"@,
    }
}

/// The words of the command that starts a backend, which has to be set for it.
pub fn get_userspace_backend_command(backend: Backend, command: Option<&str>) -> (words: Result<
    Vec<String>,
    BackendCommandError,
>)
    requires
        command is Some || in_userspace(backend),
    ensures
        match (command, words) {
            (Some(set), Ok(list)) => list.deep_view() == command_words(shell_words(set@), set@)
                && list.deep_view().len() > 0,
            (Some(set), Err(e)) => e is Empty && command_words(shell_words(set@), set@).len() == 0,
            (None, Ok(_)) => false,
            (None, Err(e)) => e matches BackendCommandError::Unset(name) && name@ == backend_name(
                backend,
            ),
        },
{
    match command {
        Some(set) => backend_command(shell_split(set), set),
        None => Err(
            BackendCommandError::Unset(
                match backend {
                    Backend::Gotatun => "gotatun",
                    _ => "amneziawg",
                },
            ),
        ),
    }
}

/// The level in front of the first comma or semicolon.
pub open spec fn first_level(setting: Text) -> Text {
    pieces(setting, |c: char| c == ',' || c == ';')[0]
}

/// The level of the log in a setting for several parts of a program: what
/// stands before the first comma or semicolon.
pub fn log_level(setting: &str) -> (level: String)
    ensures
        level@ == first_level(setting@),
{
    let chars = chars_of(setting);
    let ghost cut = |c: char| c == ',' || c == ';';
    let mut i: usize = 0;
    while i < chars.len() && chars[i] != ',' && chars[i] != ';'
        invariant
            i <= chars@.len(),
            chars@ == setting@,
            forall|j: int| 0 <= j < i ==> chars@[j] != ',' && chars@[j] != ';',
        decreases chars@.len() - i,
    {
        i = i + 1;
    }
    let level = text_between(&chars, 0, i);
    proof {
        assert(level@ == setting@.take(i as int));
        lemma_first_piece(setting@, cut, i as int);
    }
    level
}

/// What stands before the first character that cuts is the first piece.
proof fn lemma_first_piece(s: Text, cut: spec_fn(char) -> bool, n: int)
    requires
        0 <= n <= s.len(),
        forall|j: int| 0 <= j < n ==> !cut(#[trigger] s[j]),
        n < s.len() ==> cut(s[n]),
    ensures
        pieces(s, cut)[0] == s.take(n),
        pieces(s, cut).len() >= 1,
        n < s.len() ==> pieces(s, cut).len() >= 2,
        n == s.len() ==> pieces(s, cut).len() == 1,
    decreases s.len(),
{
    if s.len() == 0 {
        assert(s.take(n) == s);
    } else {
        let front = s.drop_last();
        if n == s.len() {
            lemma_first_piece(front, cut, n - 1);
            assert(front.take(n - 1) == front);
            assert(s.take(n) == front.push(s.last()));
        } else {
            lemma_first_piece(front, cut, n);
            assert(front.take(n) == s.take(n));
        }
    }
}

/// The level of the log that a backend is started with, in lower case.
pub fn backend_log_level(setting: Option<&str>) -> (level: String)
    ensures
        level@ == lowercase(
            first_level(
                match setting {
                    Some(set) => set@,
                    None => "info"@,
                },
            ),
        ),
{
    let set = text_setting(setting, "info");
    to_lowercase(log_level(set.as_str()).as_str())
}

/// The seconds in which a backend has to make its interface.
pub const BACKEND_START_SECS: u64 = 5;

/// The milliseconds between two looks at whether the interface is there.
pub const BACKEND_LOOK_MS: u64 = 200;

/// What to do while a backend starts: look again after `BACKEND_LOOK_MS`, look
/// a last time at once, go on, or give up.
#[derive(Clone, Copy, PartialEq, Eq, Structural, Debug)]
pub enum WaitStep {
    LookAgain,
    LookLast,
    Ready,
    GiveUp,
}

/// What to do while a backend starts. Once the interface was seen, or the time
/// is up, a last look decides.
pub open spec fn wait_step(start: u64, now: u64, exists_now: bool, last_look: bool) -> WaitStep {
    if last_look {
        if exists_now {
            WaitStep::Ready
        } else {
            WaitStep::GiveUp
        }
    } else if exists_now || elapsed(start, now) >= BACKEND_START_SECS * NANOS_PER_SEC {
        WaitStep::LookLast
    } else {
        WaitStep::LookAgain
    }
}

/// What to do while a backend starts that was started at `start`, where
/// `exists_now` says whether its interface was there at this look, and
/// `last_look` whether that was the last one.
pub fn backend_wait(start: u64, now: u64, exists_now: bool, last_look: bool) -> (step: WaitStep)
    ensures
        step == wait_step(start, now, exists_now, last_look),
{
    if last_look {
        if exists_now {
            WaitStep::Ready
        } else {
            WaitStep::GiveUp
        }
    } else if exists_now || has_elapsed(start, now, BACKEND_START_SECS) {
        WaitStep::LookLast
    } else {
        WaitStep::LookAgain
    }
}

/// How often it is asked whether the backend is ready.
pub const BACKEND_MAX_ATTEMPTS: u32 = 10;

/// The milliseconds to wait after so many attempts: 200, doubled with each up
/// to the fourth.
pub open spec fn poll_delay_ms(attempt: u32) -> nat {
    200 * pow2(lesser(attempt as nat, 4))
}

/// The milliseconds to wait after so many attempts.
pub fn backend_poll_delay_ms(attempt: u32) -> (ms: u64)
    ensures
        ms == poll_delay_ms(attempt),
{
    let doubled: u64 = if attempt < 4 {
        power_of_two(attempt)
    } else {
        power_of_two(4)
    };
    proof {
        vstd::arithmetic::power2::lemma2_to64();
        if attempt < 4 {
            vstd::arithmetic::power2::lemma_pow2_strictly_increases(attempt as nat, 4);
        }
    }
    200 * doubled
}

/// What to do when a backend was asked whether it is ready: go on, ask again,
/// or give up.
#[derive(Clone, Copy, PartialEq, Eq, Structural, Debug)]
pub enum PollStep {
    Ready,
    AskAgain,
    GiveUp,
}

/// What to do when a backend was asked.
pub open spec fn poll_step(attempt: u32, answered: bool) -> PollStep {
    if answered {
        PollStep::Ready
    } else if attempt < BACKEND_MAX_ATTEMPTS {
        PollStep::AskAgain
    } else {
        PollStep::GiveUp
    }
}

/// What to do when a backend was asked for the time with that number, the
/// first being 1. The next step comes after `backend_poll_delay_ms`.
pub fn backend_poll(attempt: u32, answered: bool) -> (step: PollStep)
    ensures
        step == poll_step(attempt, answered),
{
    if answered {
        PollStep::Ready
    } else if attempt < BACKEND_MAX_ATTEMPTS {
        PollStep::AskAgain
    } else {
        PollStep::GiveUp
    }
}

// ---------- what holds of the settings ----------

/// A setting is on where it is `1` or `true`, and off in any other case.
pub proof fn law_on_is_one_or_true(text: Text)
    ensures
        is_on(Some(text)) <==> text == "1"@ || text == "true"@,
        !is_on(None),
{
}

/// A number that is set counts where it is not too large; a text that is no
/// number, or a larger one, gives way to the default.
pub proof fn law_number_is_read(n: nat, text: Text, max: nat, default: nat)
    ensures
        number_setting(Some(decimal(n)), max, default) == if n <= max {
            n
        } else {
            default
        },
        number(text, max) is None ==> number_setting(Some(text), max, default) == default,
        number_setting(None, max, default) == default,
{
    law_number_reads_decimal(n, max);
}

/// The range of ports is the same in whatever order its ends are set, and goes
/// from the lower to the higher; what is not set is 1024 or 65535.
pub proof fn law_port_range_has_no_order(a: u16, b: u16)
    ensures
        range_of(Some(decimal(a as nat)), Some(decimal(b as nat))) == if a <= b {
            (a, b)
        } else {
            (b, a)
        },
        range_of(None, Some(decimal(b as nat))) == if 1024 <= b {
            (1024u16, b)
        } else {
            (b, 1024u16)
        },
        range_of(Some(decimal(a as nat)), None) == (a, 65535u16),
        range_of(None, None) == (1024u16, 65535u16),
{
    law_number_reads_decimal(a as nat, 65535);
    law_number_reads_decimal(b as nat, 65535);
}

/// The range that was taken first stays; without one the settings decide.
pub proof fn law_range_is_taken_once(kept: (u16, u16), min: Option<Text>, max: Option<Text>)
    ensures
        range_in_force(Some(kept), min, max) == kept,
        range_in_force(None, min, max) == range_of(min, max),
{
}

/// There are three backends, each with its name, and no other; all but the
/// kernel are processes of their own.
pub proof fn law_backends_have_names(name: Text)
    ensures
        backend_named("kernel"@) == Some(Backend::Kernel),
        backend_named("gotatun"@) == Some(Backend::Gotatun),
        backend_named("amneziawg"@) == Some(Backend::AmneziaWG),
        name != "kernel"@ && name != "gotatun"@ && name != "amneziawg"@ ==> backend_named(
            name,
        ) is None,
        !in_userspace(Backend::Kernel),
        in_userspace(Backend::Gotatun),
        in_userspace(Backend::AmneziaWG),
        backend_named(backend_name(Backend::Gotatun)) == Some(Backend::Gotatun),
        backend_named(backend_name(Backend::AmneziaWG)) == Some(Backend::AmneziaWG),
{
    reveal_strlit("kernel");
    reveal_strlit("gotatun");
    reveal_strlit("amneziawg");
    assert("kernel"@.len() == 6 && "gotatun"@.len() == 7 && "amneziawg"@.len() == 9);
}

/// A command that splits into words is these words, and one that does not is
/// one word.
pub proof fn law_command_is_its_words(words: Seq<Text>, command: Text)
    ensures
        command_words(Some(words), command) == words,
        command_words(None, command) == seq![command],
{
}

/// The level is what stands before the first comma or semicolon, whatever
/// follows, and the whole setting where there is neither.
pub proof fn law_first_level_counts(level: Text, mark: char, rest: Text)
    requires
        !level.contains(','),
        !level.contains(';'),
        mark == ',' || mark == ';',
    ensures
        first_level(level + seq![mark] + rest) == level,
        first_level(level) == level,
{
    let cut = |c: char| c == ',' || c == ';';
    let setting = level + seq![mark] + rest;
    let n = level.len() as int;
    assert forall|j: int| 0 <= j < n implies !cut(#[trigger] setting[j]) by {
        assert(setting[j] == level[j]);
        assert(level.contains(level[j]));
    }
    assert(cut(setting[n]));
    lemma_first_piece(setting, cut, n);
    assert(setting.take(n) == level);
    assert forall|j: int| 0 <= j < n implies !cut(#[trigger] level[j]) by {
        assert(level.contains(level[j]));
    }
    lemma_first_piece(level, cut, n);
    assert(level.take(n) == level);
}

/// A backend whose interface has not been seen is looked for again for five
/// seconds; after that, or once it was seen, the last look alone decides.
pub proof fn law_backend_has_five_seconds(start: u64, now: u64, exists_now: bool)
    requires
        start <= now,
    ensures
        wait_step(start, now, true, true) == WaitStep::Ready,
        wait_step(start, now, false, true) == WaitStep::GiveUp,
        wait_step(start, now, true, false) == WaitStep::LookLast,
        now - start < 5 * 1_000_000_000 ==> wait_step(start, now, false, false)
            == WaitStep::LookAgain,
        now - start >= 5 * 1_000_000_000 ==> wait_step(start, now, false, false)
            == WaitStep::LookLast,
{
}

/// A backend is asked ten times at most, and no more once it has answered; the
/// waits between are 200 milliseconds, doubled up to the fourth time.
pub proof fn law_backend_is_asked_ten_times(attempt: u32)
    ensures
        poll_step(attempt, true) == PollStep::Ready,
        attempt < 10 ==> poll_step(attempt, false) == PollStep::AskAgain,
        attempt >= 10 ==> poll_step(attempt, false) == PollStep::GiveUp,
        poll_delay_ms(0) == 200,
        attempt < 4 ==> poll_delay_ms((attempt + 1) as u32) == 2 * poll_delay_ms(attempt),
        attempt >= 4 ==> poll_delay_ms(attempt) == 3200,
{
    vstd::arithmetic::power2::lemma2_to64();
    if attempt < 4 {
        vstd::arithmetic::power2::lemma_pow2_unfold((attempt + 1) as nat);
    }
}

} // verus!
