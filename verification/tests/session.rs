use wg_subscriber::session::{
    client_id, client_id_of_hash, exponential_backoff, hex_text, start_registration, MessageKind,
    RegisterStep, RegistrationState, Session, Topics, REGISTER_MAX_RETRIES,
};

#[test]
fn waits_grow_to_a_minute() {
    let waits: Vec<u64> = (0..9).map(exponential_backoff).collect();
    assert_eq!(waits, vec![0, 2, 4, 8, 16, 32, 60, 60, 60]);
    assert_eq!(exponential_backoff(u32::MAX), 60);
}

#[test]
fn failures_are_counted() {
    let mut session = Session::new();
    assert_eq!(session.refused(), 2);
    session.registration = RegistrationState::Registered;
    assert_eq!(session.refused(), 4);
    // A refusal leaves the registration, a loss does not.
    assert!(!session.needs_registration());
    assert_eq!(session.lost(), 8);
    assert!(session.needs_registration());
    assert_eq!(session.failures, 3);
    session.connected();
    assert_eq!(session.failures, 0);
    assert_eq!(session.refused(), 2);
}

#[test]
fn registration_is_tried_five_times() {
    let mut session = Session::new();
    let steps: Vec<RegisterStep> =
        (1..=REGISTER_MAX_RETRIES).map(|n| start_registration(&mut session, n, false)).collect();
    assert!(steps[..4].iter().all(|s| *s == RegisterStep::TryAgain));
    assert!(steps[4] == RegisterStep::GiveUp);
    assert!(session.registration == RegistrationState::NotRegistered);
    assert!(start_registration(&mut session, 3, true) == RegisterStep::Sent);
    assert!(session.registration == RegistrationState::InProgress);
    assert!(session.needs_registration());
}

#[test]
fn names_in_hexadecimal() {
    assert_eq!(hex_text(&[0x00, 0x9f, 0xa0, 0xff]), "009fa0ff");
    assert_eq!(hex_text(&[]), "");
    assert_eq!(client_id_of_hash(&[0xab; 32]), "wg-abababababababababab");
}

#[test]
fn client_is_named_after_its_key() {
    assert_eq!(client_id(""), "wg-af1349b9f5f9a1a6a040");
    let key = "a public key";
    let hex = blake3::hash(key.as_bytes()).to_hex();
    assert_eq!(client_id(key), format!("wg-{}", &hex[..20]));
}

#[test]
fn topics_of_an_interface() {
    let topics = Topics::new("wg0", "wg-ab");
    assert_eq!(topics.full, "wg/wg0/full");
    assert_eq!(topics.delta, "wg/wg0/delta");
    assert_eq!(topics.response, "wg/wg0/full/response/wg-ab");
    assert_eq!(topics.register, "wg/wg0/register");
    assert_eq!(topics.request, "wg/wg0/full/request/wg-ab");
    assert!(topics.kind_of("wg/wg0/full") == MessageKind::Full);
    assert!(topics.kind_of("wg/wg0/delta") == MessageKind::Delta);
    assert!(topics.kind_of("wg/wg0/full/response/wg-ab") == MessageKind::Response);
    assert!(topics.kind_of("wg/wg0/full/response/wg-cd") == MessageKind::Other);
    assert!(topics.kind_of("wg/wg0/register") == MessageKind::Other);
}
