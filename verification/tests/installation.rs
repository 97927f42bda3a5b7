use ssh_copy_id::identity::Identity;
use ssh_copy_id::install::{
    install_outcome, normalize_key_content, prepare_install, remote_install_command,
    transport_args, transport_program, Destination, InstallError,
};

fn bytes(s: &str) -> Vec<u8> {
    s.as_bytes().to_vec()
}

const SCRIPT: &str = "umask 077; mkdir -p .ssh && chmod 700 .ssh; if [ ! -f .ssh/authorized_keys ]; then touch .ssh/authorized_keys && chmod 600 .ssh/authorized_keys; fi; while read -r key; do if [ -n \"$key\" ]; then if ! grep -qxF \"$key\" .ssh/authorized_keys; then echo \"$key\" >> .ssh/authorized_keys; fi; fi; done";

#[test]
fn normalization_adds_missing_terminator() {
    let r = normalize_key_content(&bytes("ssh-rsa AAA k"));
    assert_eq!(r.unwrap(), bytes("ssh-rsa AAA k\n"));
}

#[test]
fn normalization_trims_surrounding_blank_lines() {
    let r = normalize_key_content(&bytes("\n\n  ssh-rsa AAA k \n\n"));
    assert_eq!(r.unwrap(), bytes("ssh-rsa AAA k\n"));
}

#[test]
fn normalization_keeps_normalized_content() {
    let r = normalize_key_content(&bytes("ssh-rsa AAA k\n"));
    assert_eq!(r.unwrap(), bytes("ssh-rsa AAA k\n"));
}

#[test]
fn normalization_keeps_inner_lines() {
    let r = normalize_key_content(&bytes("ssh-rsa A one\nssh-ed25519 B two\n"));
    assert_eq!(r.unwrap(), bytes("ssh-rsa A one\nssh-ed25519 B two\n"));
}

#[test]
fn empty_content_rejected() {
    let r = normalize_key_content(&bytes("  \n \t\n"));
    assert!(matches!(r, Err(InstallError::EmptyIdentity)));
}

#[test]
fn remote_command_is_the_fixed_procedure() {
    assert_eq!(remote_install_command(), SCRIPT.as_bytes().to_vec());
}

#[test]
fn transport_args_without_port() {
    let dest = Destination { host: bytes("user@host"), port: None };
    let args = transport_args(&dest);
    assert_eq!(args.len(), 2);
    assert_eq!(args[0], bytes("user@host"));
    assert_eq!(args[1], SCRIPT.as_bytes().to_vec());
}

#[test]
fn transport_args_with_port_override() {
    let dest = Destination { host: bytes("user@host"), port: Some(bytes("2222")) };
    let args = transport_args(&dest);
    assert_eq!(args.len(), 4);
    assert_eq!(args[0], bytes("-p"));
    assert_eq!(args[1], bytes("2222"));
    assert_eq!(args[2], bytes("user@host"));
    assert_eq!(args[3], SCRIPT.as_bytes().to_vec());
}

#[test]
fn transport_binary_name() {
    assert_eq!(transport_program(), "ssh");
}

#[test]
fn prepare_install_builds_full_request() {
    let id = Identity { source: bytes("/k/id.pub"), content: bytes("  ssh-rsa AAA k\n\n") };
    let dest = Destination { host: bytes("u@h"), port: Some(bytes("22")) };
    let req = prepare_install(&id, &dest).unwrap();
    assert_eq!(req.payload, bytes("ssh-rsa AAA k\n"));
    assert_eq!(req.args[0], bytes("-p"));
    assert_eq!(req.args[1], bytes("22"));
    assert_eq!(req.args[2], bytes("u@h"));
    assert_eq!(req.args[3], SCRIPT.as_bytes().to_vec());
}

#[test]
fn prepare_install_refuses_empty_identity() {
    let id = Identity { source: bytes("agent"), content: bytes("  \n") };
    let dest = Destination { host: bytes("u@h"), port: None };
    assert!(matches!(prepare_install(&id, &dest), Err(InstallError::EmptyIdentity)));
}

#[test]
fn successful_exit_is_success() {
    assert!(install_outcome(true, Some(0)).is_ok());
}

#[test]
fn unreachable_host_reports_exit_255() {
    let r = install_outcome(false, Some(255));
    match r {
        Err(InstallError::RemoteExecutionFailed(code)) => assert_eq!(code, Some(255)),
        other => panic!("expected RemoteExecutionFailed, got {:?}", other),
    }
}

#[test]
fn signal_termination_reports_unknown_code() {
    let r = install_outcome(false, None);
    match r {
        Err(InstallError::RemoteExecutionFailed(code)) => assert_eq!(code, None),
        other => panic!("expected RemoteExecutionFailed, got {:?}", other),
    }
}
