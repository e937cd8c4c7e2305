use wg_subscriber::config::Backend;
use wg_subscriber::interface::{
    cleanup_userspace_backend, create_kernel_interface, ensure_wireguard_interface,
    get_local_public_key, has_private_key, key_path, link_delete_args, link_up_args,
    private_key_args, run_cmd_with_timeout, start_userspace_backend, CommandPoll, SetupStep,
};
use wg_subscriber::state::get_wg_state;

const SEC: u64 = 1_000_000_000;

#[test]
fn keys_and_their_files() {
    assert_eq!(key_path("wg0"), "/etc/wireguard/wg0.key");
    assert!(has_private_key(Some("key\n")));
    assert!(!has_private_key(Some(" \n")));
    assert!(!has_private_key(None));
    assert_eq!(get_local_public_key(" abc=\n").ok().unwrap(), "abc=");
    assert!(get_local_public_key("\n").is_err());
}

#[test]
fn existing_interface_only_gets_its_port() {
    assert_eq!(
        ensure_wireguard_interface(true, Backend::Kernel, false),
        vec![SetupStep::TrySetPort]
    );
}

#[test]
fn interface_is_made() {
    assert_eq!(
        ensure_wireguard_interface(false, Backend::Kernel, false),
        vec![
            SetupStep::GenerateKey,
            SetupStep::CreateKernelInterface,
            SetupStep::SetPrivateKey,
            SetupStep::SetPort,
            SetupStep::BringUp
        ]
    );
    assert_eq!(
        ensure_wireguard_interface(false, Backend::AmneziaWG, true),
        vec![
            SetupStep::StartUserspaceBackend,
            SetupStep::SetPrivateKey,
            SetupStep::SetPort,
            SetupStep::BringUp
        ]
    );
}

#[test]
fn commands_of_the_setup() {
    assert_eq!(
        create_kernel_interface("wg0", "wireguard"),
        vec!["link", "add", "wg0", "type", "wireguard"]
    );
    assert_eq!(
        private_key_args("wg0"),
        vec!["set", "wg0", "private-key", "/etc/wireguard/wg0.key"]
    );
    assert_eq!(link_up_args("wg0"), vec!["link", "set", "up", "wg0"]);
    assert_eq!(link_delete_args("wg0"), vec!["link", "delete", "wg0"]);
    assert_eq!(
        start_userspace_backend(vec!["gotatun".to_string()], "wg0"),
        vec!["gotatun", "wg0"]
    );
}

#[test]
fn peers_go_with_a_process_of_its_own() {
    let state = get_wg_state("i\na\t-\t-\t\t0\t0\t0\t0\nb\t-\t-\t\t0\t0\t0\t0\n");
    assert_eq!(
        cleanup_userspace_backend("wg0", Backend::Gotatun, &state),
        vec![
            vec!["set", "wg0", "peer", "a", "remove"],
            vec!["set", "wg0", "peer", "b", "remove"],
        ]
    );
    assert!(cleanup_userspace_backend("wg0", Backend::Kernel, &state).is_empty());
}

#[test]
fn commands_have_their_time() {
    let poll = run_cmd_with_timeout;
    assert_eq!(poll(Some(true), 0, 99 * SEC, 10), CommandPoll::Succeeded);
    assert_eq!(poll(Some(false), 0, 0, 10), CommandPoll::Failed);
    assert_eq!(poll(None, SEC, 11 * SEC - 1, 10), CommandPoll::Wait);
    assert_eq!(poll(None, SEC, 11 * SEC, 10), CommandPoll::Kill);
}
