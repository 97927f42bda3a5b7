//! Remote installation: normalizing the key text and building the transport
//! invocation that runs the idempotent install procedure on the destination.
//!
//! The transport itself is an external collaborator; this module prepares
//! exactly what is handed to it — the argument list and the standard-input
//! payload — and interprets how its run ended.

use crate::identity::Identity;
use crate::text::{
    clone_bytes, is_space_byte, lemma_trim_ends_not_space, lemma_trim_of_trimmed, trim, trim_bytes,
    trim_end, trim_start,
};
use vstd::prelude::*;
use vstd::string::{StrSliceExecFns, StringSliceAdditionalSpecFns};

verus! {

/// Where the keys are to be installed: the transport's destination string
/// and an optional port override.
#[derive(Debug)]
pub struct Destination {
    /// The user-at-host string, passed through to the transport unmodified.
    pub host: Vec<u8>,
    /// An optional override of the transport's default port.
    pub port: Option<Vec<u8>>,
}

/// Why an installation failed.
#[derive(Debug)]
pub enum InstallError {
    /// The resolved key content was empty after trimming.
    EmptyIdentity,
    /// The transport process could not be launched.
    TransportSpawnFailed,
    /// The transport ran but reported an unsuccessful exit; carries the exit
    /// code, or `None` where none was reported.
    RemoteExecutionFailed(Option<i32>),
}

/// A single line-feed byte, the line terminator the payload ends with.
pub open spec fn newline() -> Seq<u8> {
    seq![10u8]
}

/// The key text as the remote procedure receives it: surrounding whitespace
/// removed and exactly one trailing line terminator.
pub open spec fn normalized_content(content: Seq<u8>) -> Seq<u8> {
    trim(content) + newline()
}

/// Normalize the key text for transmission; text that is empty after
/// trimming is refused.
pub fn normalize_key_content(content: &Vec<u8>) -> (r: Result<Vec<u8>, InstallError>)
    ensures
        trim(content@).len() == 0 ==> (r matches Err(e) && e matches InstallError::EmptyIdentity),
        trim(content@).len() > 0 ==> (r matches Ok(p) && p@ == normalized_content(content@)),
{
    let mut t = trim_bytes(content);
    if t.len() == 0 {
        return Err(InstallError::EmptyIdentity);
    }
    t.push(10);
    proof {
        assert(t@ =~= normalized_content(content@));
    }
    Ok(t)
}

/// The normalized payload ends with exactly one line terminator — its last
/// byte is the terminator and the byte before it is not whitespace — and
/// normalizing changes nothing beyond the surrounding whitespace: the
/// trimmed text is kept as it was.
pub proof fn lemma_normalized_content_shape(content: Seq<u8>)
    requires
        trim(content).len() > 0,
    ensures
        normalized_content(content).len() >= 2,
        normalized_content(content).last() == 10,
        !is_space_byte(normalized_content(content)[normalized_content(content).len() - 2]),
        trim(normalized_content(content)) == trim(content),
{
    let t = trim(content);
    let p = normalized_content(content);
    lemma_trim_ends_not_space(content);
    assert(p[p.len() - 2] == t.last());
    assert(trim_start(p) == p);
    assert(p.drop_last() =~= t);
    assert(trim_end(p) == trim_end(t));
    lemma_trim_of_trimmed(t);
}

/// Normalization is idempotent: a payload that is already in normalized form
/// is left exactly as it is.
pub proof fn lemma_normalize_idempotent(content: Seq<u8>)
    requires
        trim(content).len() > 0,
    ensures
        normalized_content(normalized_content(content)) == normalized_content(content),
{
    lemma_normalized_content_shape(content);
}

/// The fixed procedure the destination runs: owner-only permission mask,
/// the SSH configuration directory and authorized-keys file ensured to exist
/// with owner-only permissions, then every non-blank input line appended
/// unless it already appears verbatim as a whole line.
pub open spec fn remote_install_script() -> Seq<u8> {
    "umask 077; mkdir -p .ssh && chmod 700 .ssh; if [ ! -f .ssh/authorized_keys ]; then touch .ssh/authorized_keys && chmod 600 .ssh/authorized_keys; fi; while read -r key; do if [ -n \"$key\" ]; then if ! grep -qxF \"$key\" .ssh/authorized_keys; then echo \"$key\" >> .ssh/authorized_keys; fi; fi; done".spec_bytes()
}

/// The remote procedure, as the command argument handed to the transport.
pub fn remote_install_command() -> (r: Vec<u8>)
    ensures
        r@ == remote_install_script(),
{
    "umask 077; mkdir -p .ssh && chmod 700 .ssh; if [ ! -f .ssh/authorized_keys ]; then touch .ssh/authorized_keys && chmod 600 .ssh/authorized_keys; fi; while read -r key; do if [ -n \"$key\" ]; then if ! grep -qxF \"$key\" .ssh/authorized_keys; then echo \"$key\" >> .ssh/authorized_keys; fi; fi; done".as_bytes_vec()
}

/// The flag that precedes a port override in the transport's argument list.
pub open spec fn port_flag() -> Seq<u8> {
    "-p".spec_bytes()
}

/// The port of a destination as an optional byte string.
pub open spec fn port_view(port: Option<Vec<u8>>) -> Option<Seq<u8>> {
    match port {
        Some(p) => Some(p@),
        None => None,
    }
}

/// The transport's argument list: the optional port override first, then the
/// destination, then the remote procedure; the key payload is never part of
/// it.
pub open spec fn transport_args_for(host: Seq<u8>, port: Option<Seq<u8>>) -> Seq<Seq<u8>> {
    match port {
        Some(p) => seq![port_flag(), p, host, remote_install_script()],
        None => seq![host, remote_install_script()],
    }
}

/// Build the transport's argument list for a destination.
pub fn transport_args(dest: &Destination) -> (r: Vec<Vec<u8>>)
    ensures
        r.deep_view() == transport_args_for(dest.host@, port_view(dest.port)),
{
    let mut r: Vec<Vec<u8>> = Vec::new();
    match &dest.port {
        Some(p) => {
            r.push("-p".as_bytes_vec());
            r.push(clone_bytes(p));
        },
        None => {},
    }
    r.push(clone_bytes(&dest.host));
    r.push(remote_install_command());
    proof {
        assert(r.deep_view() =~~= transport_args_for(dest.host@, port_view(dest.port)));
    }
    r
}

/// The name under which the transport binary is invoked.
pub fn transport_program() -> (r: &'static str)
    ensures
        r@ == "ssh"@,
{
    "ssh"
}

/// Everything handed to the transport for one installation: its argument
/// list and the standard-input payload.
#[derive(Debug)]
pub struct TransportRequest {
    /// The transport's arguments, in order.
    pub args: Vec<Vec<u8>>,
    /// The normalized key text, sent on the transport's standard input.
    pub payload: Vec<u8>,
}

/// Prepare one installation: normalize the identity's content and build the
/// transport invocation for the destination. Content that is empty after
/// trimming is refused and nothing is prepared for it.
pub fn prepare_install(identity: &Identity, dest: &Destination) -> (r: Result<
    TransportRequest,
    InstallError,
>)
    ensures
        trim(identity.content@).len() == 0 ==> (r matches Err(e)
            && e matches InstallError::EmptyIdentity),
        trim(identity.content@).len() > 0 ==> (r matches Ok(req) && req.payload@
            == normalized_content(identity.content@) && req.args.deep_view()
            == transport_args_for(dest.host@, port_view(dest.port))),
{
    let payload = match normalize_key_content(&identity.content) {
        Ok(p) => p,
        Err(e) => {
            return Err(e);
        },
    };
    let args = transport_args(dest);
    Ok(TransportRequest { args, payload })
}

/// Interpret how the transport's run ended: a successful exit is success,
/// anything else fails with the reported exit code, or with none where the
/// transport was terminated without one.
pub fn install_outcome(exit_success: bool, exit_code: Option<i32>) -> (r: Result<(), InstallError>)
    ensures
        exit_success ==> r is Ok,
        !exit_success ==> (r matches Err(e) && e matches InstallError::RemoteExecutionFailed(c)
            && c == exit_code),
{
    if exit_success {
        Ok(())
    } else {
        Err(InstallError::RemoteExecutionFailed(exit_code))
    }
}

} // verus!
