use ssh_copy_id::remote::{apply_remote_install, split_lines_vec};

fn bytes(s: &str) -> Vec<u8> {
    s.as_bytes().to_vec()
}

fn lines(ls: &[&str]) -> Vec<Vec<u8>> {
    ls.iter().map(|l| l.as_bytes().to_vec()).collect()
}

#[test]
fn payload_split_at_line_feeds() {
    assert_eq!(split_lines_vec(&bytes("a\nb\n")), lines(&["a", "b"]));
    assert_eq!(split_lines_vec(&bytes("a\nb")), lines(&["a", "b"]));
    assert_eq!(split_lines_vec(&bytes("\n\n")), lines(&["", ""]));
    assert_eq!(split_lines_vec(&bytes("")), lines(&[]));
}

#[test]
fn install_into_empty_store_twice_keeps_one_copy() {
    let payload = bytes("ssh-ed25519 AAAA... comment\n");
    let once = apply_remote_install(Vec::new(), &payload);
    assert_eq!(once, lines(&["ssh-ed25519 AAAA... comment"]));
    let twice = apply_remote_install(once.clone(), &payload);
    assert_eq!(twice, once);
}

#[test]
fn multi_line_payload_adds_every_line() {
    let payload = bytes("ssh-rsa A one\nssh-ed25519 B two\nssh-ecdsa C three\n");
    let store = apply_remote_install(Vec::new(), &payload);
    assert_eq!(store, lines(&["ssh-rsa A one", "ssh-ed25519 B two", "ssh-ecdsa C three"]));
}

#[test]
fn blank_lines_never_appended() {
    let payload = bytes("ssh-rsa A one\n\n   \n\t\nssh-ed25519 B two\n");
    let store = apply_remote_install(Vec::new(), &payload);
    assert_eq!(store, lines(&["ssh-rsa A one", "ssh-ed25519 B two"]));
}

#[test]
fn present_line_leaves_store_unchanged() {
    let store = lines(&["ssh-ed25519 AAAA... comment"]);
    let after = apply_remote_install(store.clone(), &bytes("ssh-ed25519 AAAA... comment\n"));
    assert_eq!(after, store);
}

#[test]
fn duplicate_payload_lines_added_once() {
    let payload = bytes("ssh-rsa A k\nssh-rsa A k\n");
    let store = apply_remote_install(Vec::new(), &payload);
    assert_eq!(store, lines(&["ssh-rsa A k"]));
}

#[test]
fn unrelated_lines_are_kept() {
    let store = lines(&["ssh-rsa OLD other"]);
    let after = apply_remote_install(store, &bytes("ssh-ed25519 NEW one\n"));
    assert_eq!(after, lines(&["ssh-rsa OLD other", "ssh-ed25519 NEW one"]));
}
