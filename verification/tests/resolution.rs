use ssh_copy_id::identity::{
    candidate_paths, choose_source_path, expand_home, expand_identity_path, first_existing,
    has_pub_suffix, identity_from_agent, identity_from_file, path_needs_home, with_pub_suffix,
    ResolveError,
};

fn bytes(s: &str) -> Vec<u8> {
    s.as_bytes().to_vec()
}

#[test]
fn existing_pub_path_used_directly() {
    let r = choose_source_path(bytes("/home/u/.ssh/id_rsa.pub"), true, false);
    assert_eq!(r.unwrap(), bytes("/home/u/.ssh/id_rsa.pub"));
    let r = choose_source_path(bytes("/home/u/.ssh/id_rsa.pub"), true, true);
    assert_eq!(r.unwrap(), bytes("/home/u/.ssh/id_rsa.pub"));
}

#[test]
fn private_path_prefers_pub_sibling() {
    let r = choose_source_path(bytes("/home/u/.ssh/id_rsa"), true, true);
    assert_eq!(r.unwrap(), bytes("/home/u/.ssh/id_rsa.pub"));
}

#[test]
fn private_path_without_sibling_used_itself() {
    let r = choose_source_path(bytes("/home/u/unconventional_key"), true, false);
    assert_eq!(r.unwrap(), bytes("/home/u/unconventional_key"));
}

#[test]
fn missing_path_falls_back_to_pub_variant() {
    let r = choose_source_path(bytes("/home/u/.ssh/id_rsa"), false, true);
    assert_eq!(r.unwrap(), bytes("/home/u/.ssh/id_rsa.pub"));
}

#[test]
fn missing_path_and_variant_not_found() {
    let r = choose_source_path(bytes("/home/u/.ssh/nope"), false, false);
    match r {
        Err(ResolveError::IdentityNotFound(p)) => assert_eq!(p, bytes("/home/u/.ssh/nope")),
        other => panic!("expected IdentityNotFound, got {:?}", other),
    }
}

#[test]
fn tilde_prefix_detected() {
    assert!(path_needs_home(&bytes("~/.ssh/id_rsa")));
    assert!(path_needs_home(&bytes("~\\keys")));
    assert!(!path_needs_home(&bytes("/etc/key")));
    assert!(!path_needs_home(&bytes("~x/key")));
    assert!(!path_needs_home(&bytes("~")));
}

#[test]
fn tilde_expansion_prepends_home() {
    let r = expand_home(&bytes("~/.ssh/id_rsa"), &bytes("/home/u"));
    assert_eq!(r, bytes("/home/u/.ssh/id_rsa"));
}

#[test]
fn absolute_path_needs_no_expansion() {
    let r = expand_identity_path(bytes("/etc/key.pub"));
    assert_eq!(r.unwrap(), bytes("/etc/key.pub"));
}

#[test]
fn pub_suffix_appended_and_detected() {
    assert_eq!(with_pub_suffix(&bytes("/k/id_rsa")), bytes("/k/id_rsa.pub"));
    assert!(has_pub_suffix(&bytes("/k/id_rsa.pub")));
    assert!(!has_pub_suffix(&bytes("/k/id_rsa")));
    assert!(!has_pub_suffix(&bytes("pub")));
}

#[test]
fn candidates_probed_in_fixed_order() {
    let c = candidate_paths(&bytes("/home/u"));
    let expected = vec![
        bytes("/home/u/.ssh/id_rsa.pub"),
        bytes("/home/u/.ssh/id_ed25519.pub"),
        bytes("/home/u/.ssh/id_ecdsa.pub"),
        bytes("/home/u/.ssh/id_dsa.pub"),
        bytes("/home/u/.ssh/identity.pub"),
    ];
    assert_eq!(c, expected);
}

#[test]
fn first_existing_candidate_wins() {
    assert_eq!(first_existing(&vec![false, true, true, false, true]), Some(1));
    assert_eq!(first_existing(&vec![true, false, false, false, false]), Some(0));
    assert_eq!(first_existing(&vec![false, false, false, false, true]), Some(4));
    assert_eq!(first_existing(&vec![false, false, false, false, false]), None);
    assert_eq!(first_existing(&vec![]), None);
}

#[test]
fn agent_reply_becomes_identity() {
    let r = identity_from_agent(Some(bytes("ssh-ed25519 AAAA... comment\n")));
    let id = r.unwrap();
    assert_eq!(id.source, bytes("agent"));
    assert_eq!(id.content, bytes("ssh-ed25519 AAAA... comment"));
}

#[test]
fn agent_without_identities_yields_nothing() {
    let r = identity_from_agent(Some(bytes("The agent has no identities.\n")));
    assert!(matches!(r, Err(ResolveError::NoIdentityFound)));
}

#[test]
fn empty_agent_reply_yields_nothing() {
    let r = identity_from_agent(Some(bytes("  \n")));
    assert!(matches!(r, Err(ResolveError::NoIdentityFound)));
    let r = identity_from_agent(None);
    assert!(matches!(r, Err(ResolveError::NoIdentityFound)));
}

#[test]
fn read_file_becomes_identity() {
    let r = identity_from_file(bytes("/k/id_rsa.pub"), Some(bytes("ssh-rsa AAA k\n")));
    let id = r.unwrap();
    assert_eq!(id.source, bytes("/k/id_rsa.pub"));
    assert_eq!(id.content, bytes("ssh-rsa AAA k\n"));
}

#[test]
fn unreadable_file_reported_with_path() {
    let r = identity_from_file(bytes("/k/id_rsa.pub"), None);
    match r {
        Err(ResolveError::ReadError(p)) => assert_eq!(p, bytes("/k/id_rsa.pub")),
        other => panic!("expected ReadError, got {:?}", other),
    }
}
