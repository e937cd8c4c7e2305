//! The interface itself: how it is set up, and how it is taken down.
use vstd::prelude::*;

use crate::clock::{elapsed, has_elapsed, NANOS_PER_SEC};
use crate::config::{in_userspace, is_userspace, Backend};
use crate::list::put;
use crate::peer::{remove_args, remove_peer};
use crate::state::{WgState, WgStateModel};
use crate::text::{concat2, is_blank, law_trimmed, owned, trim, trimmed, Text};

verus! {

// ---------- keys ----------

/// Where the private key of an interface is kept.
pub open spec fn key_file(interface: Text) -> Text {
    "/etc/wireguard/"@ + interface + ".key"@
}

/// Where the private key of an interface is kept.
pub fn key_path(interface: &str) -> (path: String)
    ensures
        path@ == key_file(interface@),
{
    let front = concat2("/etc/wireguard/", interface);
    concat2(front.as_str(), ".key")
}

/// The file holds a key: more than white space.
pub open spec fn holds_key(content: Option<Text>) -> bool {
    content matches Some(text) && trimmed(text).len() > 0
}

/// Whether the file of the private key holds one, where `content` is what it
/// holds if it is there.
pub fn has_private_key(content: Option<&str>) -> (answer: bool)
    ensures
        answer == holds_key(content.deep_view()),
{
    match content {
        Some(text) => !trim(text).as_str().is_empty(),
        None => false,
    }
}

/// `wg` printed no key.
pub struct EmptyPublicKey;

/// The public key that `wg show <interface> public-key` printed.
pub fn get_local_public_key(stdout: &str) -> (key: Result<String, EmptyPublicKey>)
    ensures
        match key {
            Ok(k) => k@ == trimmed(stdout@) && k@.len() > 0,
            Err(_) => trimmed(stdout@).len() == 0,
        },
{
    let key = trim(stdout);
    if key.as_str().is_empty() {
        Err(EmptyPublicKey)
    } else {
        Ok(key)
    }
}

// ---------- setting up ----------

/// A step towards an interface that is up. Of `TrySetPort` nothing depends on
/// how it goes; of `SetPrivateKey` and `BringUp` only that the command can be
/// run; of the others that they go well.
#[derive(Clone, Copy, PartialEq, Eq, Structural, Debug)]
pub enum SetupStep {
    TrySetPort,
    GenerateKey,
    CreateKernelInterface,
    StartUserspaceBackend,
    SetPrivateKey,
    SetPort,
    BringUp,
}

impl DeepView for SetupStep {
    type V = SetupStep;

    open spec fn deep_view(&self) -> SetupStep {
        *self
    }
}

/// The steps towards an interface that is up. One that is there only gets its
/// port; one that is not is made, with a new key where there is none.
pub open spec fn setup_steps(exists_already: bool, backend: Backend, has_key: bool) -> Seq<SetupStep> {
    if exists_already {
        seq![SetupStep::TrySetPort]
    } else {
        (if has_key {
            Seq::empty()
        } else {
            seq![SetupStep::GenerateKey]
        }) + seq![
            if in_userspace(backend) {
                SetupStep::StartUserspaceBackend
            } else {
                SetupStep::CreateKernelInterface
            },
            SetupStep::SetPrivateKey,
            SetupStep::SetPort,
            SetupStep::BringUp,
        ]
    }
}

/// The steps towards an interface that is up.
pub fn ensure_wireguard_interface(exists_already: bool, backend: Backend, has_key: bool) -> (steps:
    Vec<SetupStep>)
    ensures
        steps@ == setup_steps(exists_already, backend, has_key),
{
    let mut steps: Vec<SetupStep> = Vec::new();
    if exists_already {
        steps.push(SetupStep::TrySetPort);
        return steps;
    }
    if !has_key {
        steps.push(SetupStep::GenerateKey);
    }
    if is_userspace(backend) {
        steps.push(SetupStep::StartUserspaceBackend);
    } else {
        steps.push(SetupStep::CreateKernelInterface);
    }
    steps.push(SetupStep::SetPrivateKey);
    steps.push(SetupStep::SetPort);
    steps.push(SetupStep::BringUp);
    steps
}

/// The arguments of `ip` that make an interface of that type.
pub fn create_kernel_interface(interface: &str, kind: &str) -> (args: Vec<String>)
    ensures
        args.deep_view() == seq!["link"@, "add"@, interface@, "type"@, kind@],
{
    owned(vec!["link", "add", interface, "type", kind])
}

/// The arguments of `wg` that set the private key from its file.
pub fn private_key_args(interface: &str) -> (args: Vec<String>)
    ensures
        args.deep_view() == seq!["set"@, interface@, "private-key"@, key_file(interface@)],
{
    let path = key_path(interface);
    owned(vec!["set", interface, "private-key", path.as_str()])
}

/// The arguments of `ip` that bring an interface up.
pub fn link_up_args(interface: &str) -> (args: Vec<String>)
    ensures
        args.deep_view() == seq!["link"@, "set"@, "up"@, interface@],
{
    owned(vec!["link", "set", "up", interface])
}

/// The words that start a backend for an interface: the command, and the name
/// of the interface behind it.
pub fn start_userspace_backend(command: Vec<String>, interface: &str) -> (words: Vec<String>)
    ensures
        words.deep_view() == command.deep_view().push(interface@),
{
    let mut words = command;
    put(&mut words, interface.to_owned());
    words
}

// ---------- taking down ----------

/// The commands that remove the first of the peers, `count` of them.
pub open spec fn removals(interface: Text, state: WgStateModel, count: nat) -> Seq<Seq<Text>> {
    state.peers.keys.take(count as int).map_values(|pubkey: Text| remove_args(interface, pubkey))
}

/// The commands that remove all peers before a backend is ended. The kernel's
/// peers stay.
pub fn cleanup_userspace_backend(interface: &str, backend: Backend, state: &WgState) -> (commands: Vec<
    Vec<String>,
>)
    ensures
        commands.deep_view() == if in_userspace(backend) {
            removals(interface@, state.deep_view(), state.deep_view().peers.keys.len())
        } else {
            Seq::empty()
        },
{
    let ghost keys = state.deep_view().peers.keys;
    let mut commands: Vec<Vec<String>> = Vec::new();
    if !is_userspace(backend) {
        return commands;
    }
    let mut i: usize = 0;
    let n: usize = state.peers.len();
    while i < n
        invariant
            i <= n == keys.len(),
            keys == state.deep_view().peers.keys,
            commands.deep_view() == removals(interface@, state.deep_view(), i as nat),
        decreases n - i,
    {
        let ghost done = commands.deep_view();
        put(&mut commands, remove_peer(interface, state.peers.key_at(i).as_str()));
        assert(keys.take(i + 1) == keys.take(i as int).push(keys[i as int]));
        assert(removals(interface@, state.deep_view(), (i + 1) as nat) == done.push(
            remove_args(interface@, keys[i as int]),
        ));
        i = i + 1;
    }
    commands
}

/// The arguments of `ip` that delete an interface.
pub fn link_delete_args(interface: &str) -> (args: Vec<String>)
    ensures
        args.deep_view() == seq!["link"@, "delete"@, interface@],
{
    owned(vec!["link", "delete", interface])
}

// ---------- running a command ----------

/// What to do about a command that was started.
#[derive(Clone, Copy, PartialEq, Eq, Structural, Debug)]
pub enum CommandPoll {
    Succeeded,
    Failed,
    Kill,
    Wait,
}

/// What to do about a command that was started: it has ended well or badly,
/// has used its time up, or is to be waited for.
pub open spec fn command_poll(ended: Option<bool>, start: u64, now: u64, timeout_secs: u64) -> CommandPoll {
    match ended {
        Some(true) => CommandPoll::Succeeded,
        Some(false) => CommandPoll::Failed,
        None => if elapsed(start, now) >= timeout_secs * NANOS_PER_SEC {
            CommandPoll::Kill
        } else {
            CommandPoll::Wait
        },
    }
}

/// What to do about a command that was started at `start`. `ended` says
/// whether it went well, where it has ended.
pub fn run_cmd_with_timeout(ended: Option<bool>, start: u64, now: u64, timeout_secs: u64) -> (poll:
    CommandPoll)
    ensures
        poll == command_poll(ended, start, now, timeout_secs),
{
    match ended {
        Some(well) => {
            if well {
                CommandPoll::Succeeded
            } else {
                CommandPoll::Failed
            }
        },
        None => {
            if has_elapsed(start, now, timeout_secs) {
                CommandPoll::Kill
            } else {
                CommandPoll::Wait
            }
        },
    }
}

// ---------- what holds of the steps ----------

/// An existing key is never replaced, and an existing interface never made anew.
pub proof fn law_nothing_is_made_twice(backend: Backend, has_key: bool)
    ensures
        !setup_steps(true, backend, has_key).contains(SetupStep::GenerateKey),
        !setup_steps(true, backend, has_key).contains(SetupStep::CreateKernelInterface),
        !setup_steps(true, backend, has_key).contains(SetupStep::StartUserspaceBackend),
        !setup_steps(false, backend, true).contains(SetupStep::GenerateKey),
        setup_steps(false, backend, false)[0] == SetupStep::GenerateKey,
{
}

/// An interface that is there only gets its port. One that is not gets a key
/// first where there is none, is then made, in the kernel or by a process of
/// its own as the backend is, and then gets its key, its port, and comes up.
pub proof fn law_interface_is_made(backend: Backend, has_key: bool)
    ensures
        setup_steps(true, backend, has_key) == seq![SetupStep::TrySetPort],
        ({
            let steps = setup_steps(false, backend, has_key);
            let made: int = if has_key {
                0
            } else {
                1
            };
            &&& steps.len() == made + 4
            &&& !has_key ==> steps[0] == SetupStep::GenerateKey
            &&& backend == Backend::Kernel ==> steps[made] == SetupStep::CreateKernelInterface
            &&& backend != Backend::Kernel ==> steps[made] == SetupStep::StartUserspaceBackend
            &&& steps[made + 1] == SetupStep::SetPrivateKey
            &&& steps[made + 2] == SetupStep::SetPort
            &&& steps[made + 3] == SetupStep::BringUp
        }),
{
}

/// The file of the key is that of the interface.
pub proof fn law_key_file_names_the_interface(interface: Text)
    ensures
        ({
            let file = key_file(interface);
            &&& file.take(15) == "/etc/wireguard/"@
            &&& file.subrange(15, 15 + interface.len() as int) == interface
            &&& file.skip(15 + interface.len() as int) == ".key"@
        }),
{
    reveal_strlit("/etc/wireguard/");
    let file = key_file(interface);
    assert(file.take(15) == "/etc/wireguard/"@);
    assert(file.subrange(15, 15 + interface.len() as int) == interface);
    assert(file.skip(15 + interface.len() as int) == ".key"@);
}

/// A file holds a key as soon as something in it is not white space.
pub proof fn law_file_holds_a_key(content: Text)
    ensures
        holds_key(Some(content)) <==> !is_blank(content),
        !holds_key(None),
{
    law_trimmed(content);
}

/// Before a backend is ended every peer is removed, each by a command of its
/// own, in their order.
pub proof fn law_every_peer_is_removed(interface: Text, state: WgStateModel, i: int)
    requires
        0 <= i < state.peers.keys.len(),
    ensures
        ({
            let commands = removals(interface, state, state.peers.keys.len());
            &&& commands.len() == state.peers.keys.len()
            &&& commands[i] == seq![
                "set"@,
                interface,
                "peer"@,
                state.peers.keys[i],
                "remove"@,
            ]
        }),
{
}

/// A command that has ended went well or badly, however long it took; one that
/// has not is waited for until its time is up, and then killed.
pub proof fn law_command_has_its_time(start: u64, now: u64, timeout_secs: u64)
    requires
        start <= now,
    ensures
        command_poll(Some(true), start, now, timeout_secs) == CommandPoll::Succeeded,
        command_poll(Some(false), start, now, timeout_secs) == CommandPoll::Failed,
        now - start < timeout_secs * 1_000_000_000 ==> command_poll(None, start, now, timeout_secs)
            == CommandPoll::Wait,
        now - start >= timeout_secs * 1_000_000_000 ==> command_poll(None, start, now, timeout_secs)
            == CommandPoll::Kill,
{
}

} // verus!
