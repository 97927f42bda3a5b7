//! Identity resolution: locating the public-key material to install, from an
//! explicit path, auto-discovered conventional key files, or a running key
//! agent.
//!
//! Paths and key text are handled as byte strings; the thin outer layer that
//! performs the filesystem probes and the agent query converts to and from
//! them at its edge.

use crate::text::{
    concat_bytes, contains_bytes, contains_seq, ends_with, ends_with_bytes, trim, trim_bytes,
};
use vstd::prelude::*;
use vstd::string::{StrSliceExecFns, StringSliceAdditionalSpecFns};

verus! {

/// Resolved public-key material: a label naming where it came from and the
/// raw key text.
#[derive(Debug)]
pub struct Identity {
    /// Where the key text came from: a file path, or the agent label.
    pub source: Vec<u8>,
    /// The raw key text, one or more key lines.
    pub content: Vec<u8>,
}

/// Why no identity could be resolved.
#[derive(Debug)]
pub enum ResolveError {
    /// The home directory could not be determined while it was needed.
    HomeDirUnavailable,
    /// The explicit path, and its public-key-suffixed variant, do not exist;
    /// carries the (expanded) path that was asked for.
    IdentityNotFound(Vec<u8>),
    /// The resolved file exists but could not be read; carries its path.
    ReadError(Vec<u8>),
    /// Auto-discovery exhausted the file candidates and the agent yielded
    /// nothing.
    NoIdentityFound,
}

/// The conventional suffix of public-key files, `.pub`, as bytes.
pub open spec fn pub_suffix() -> Seq<u8> {
    seq![46u8, 112u8, 117u8, 98u8]
}

/// The `.pub` suffix as a byte vector.
fn pub_suffix_bytes() -> (r: Vec<u8>)
    ensures
        r@ == pub_suffix(),
{
    let mut r: Vec<u8> = Vec::new();
    r.push(46);
    r.push(112);
    r.push(117);
    r.push(98);
    proof {
        assert(r@ =~= pub_suffix());
    }
    r
}

/// Whether the path carries a leading home-directory shorthand: `~` as its
/// first segment, before a forward or backward separator.
pub open spec fn needs_home_expansion(path: Seq<u8>) -> bool {
    path.len() >= 2 && path[0] == 126 && (path[1] == 47 || path[1] == 92)
}

pub fn path_needs_home(path: &Vec<u8>) -> (r: bool)
    ensures
        r == needs_home_expansion(path@),
{
    path.len() >= 2 && path[0] == 126 && (path[1] == 47 || path[1] == 92)
}

/// The home shorthand replaced by the home directory: the leading `~` is
/// dropped and the home directory put in its place.
pub open spec fn expanded_home(path: Seq<u8>, home: Seq<u8>) -> Seq<u8> {
    home + path.skip(1)
}

pub fn expand_home(path: &Vec<u8>, home: &Vec<u8>) -> (r: Vec<u8>)
    requires
        needs_home_expansion(path@),
    ensures
        r@ == expanded_home(path@, home@),
{
    let mut rest: Vec<u8> = Vec::new();
    let mut k: usize = 1;
    while k < path.len()
        invariant
            1 <= k <= path.len(),
            rest@ == path@.subrange(1, k as int),
        decreases path.len() - k,
    {
        rest.push(path[k]);
        assert(path@.subrange(1, k + 1 as int) =~= path@.subrange(1, k as int).push(
            path@[k as int],
        ));
        k = k + 1;
    }
    assert(path@.subrange(1, path@.len() as int) =~= path@.skip(1));
    concat_bytes(home, &rest)
}

/// Relies on `dirs::home_dir`: the user's home directory as the environment
/// defines it, or `None` where it cannot be determined. The result depends on
/// the environment, so nothing is promised of it.
#[verifier::external_body]
fn home_dir_bytes() -> (r: Option<Vec<u8>>) {
    dirs::home_dir().map(|p| p.to_string_lossy().into_owned().into_bytes())
}

/// Expand a leading home-directory shorthand in an explicit identity path.
/// A path without the shorthand is returned unchanged; with it, the home
/// directory is consulted, and its absence is the only failure.
pub fn expand_identity_path(path: Vec<u8>) -> (r: Result<Vec<u8>, ResolveError>)
    ensures
        !needs_home_expansion(path@) ==> (r matches Ok(p) && p == path),
        needs_home_expansion(path@) ==> match r {
            Ok(p) => exists|home: Seq<u8>| p@ == expanded_home(path@, home),
            Err(e) => e matches ResolveError::HomeDirUnavailable,
        },
{
    if !path_needs_home(&path) {
        return Ok(path);
    }
    match home_dir_bytes() {
        Some(home) => {
            let p = expand_home(&path, &home);
            proof {
                assert(p@ == expanded_home(path@, home@));
            }
            Ok(p)
        },
        None => Err(ResolveError::HomeDirUnavailable),
    }
}

/// The given path with the public-key suffix appended.
pub fn with_pub_suffix(path: &Vec<u8>) -> (r: Vec<u8>)
    ensures
        r@ == path@ + pub_suffix(),
{
    let suffix = pub_suffix_bytes();
    concat_bytes(path, &suffix)
}

/// Whether the path already ends with the public-key suffix.
pub fn has_pub_suffix(path: &Vec<u8>) -> (r: bool)
    ensures
        r == ends_with(path@, pub_suffix()),
{
    let suffix = pub_suffix_bytes();
    ends_with_bytes(path, &suffix)
}

/// Which file an explicit (already expanded) path designates, given whether
/// the path itself and its suffixed variant exist: an existing suffixed path
/// is used as given; an existing unsuffixed path defers to an existing
/// suffixed sibling, else is used itself; a missing path falls back to its
/// suffixed variant, and failing that the resolution is refused.
pub open spec fn chosen_source_path(
    path: Seq<u8>,
    path_exists: bool,
    pub_exists: bool,
) -> Result<Seq<u8>, Seq<u8>> {
    if path_exists {
        if ends_with(path, pub_suffix()) {
            Ok(path)
        } else if pub_exists {
            Ok(path + pub_suffix())
        } else {
            Ok(path)
        }
    } else {
        if pub_exists {
            Ok(path + pub_suffix())
        } else {
            Err(path)
        }
    }
}

/// Decide which file to read for an explicit path, from the two existence
/// probes; a missing path whose suffixed variant is missing too is refused,
/// naming the path.
pub fn choose_source_path(path: Vec<u8>, path_exists: bool, pub_exists: bool) -> (r: Result<
    Vec<u8>,
    ResolveError,
>)
    ensures
        match chosen_source_path(path@, path_exists, pub_exists) {
            Ok(p) => r matches Ok(q) && q@ == p,
            Err(p) => r matches Err(e) && e matches ResolveError::IdentityNotFound(q) && q@ == p,
        },
{
    if path_exists {
        if has_pub_suffix(&path) {
            Ok(path)
        } else if pub_exists {
            Ok(with_pub_suffix(&path))
        } else {
            Ok(path)
        }
    } else {
        if pub_exists {
            Ok(with_pub_suffix(&path))
        } else {
            Err(ResolveError::IdentityNotFound(path))
        }
    }
}

/// An existing explicit path that already carries the public-key suffix is
/// chosen unchanged, whatever its sibling probes say.
pub proof fn lemma_pub_path_used_directly(path: Seq<u8>, pub_exists: bool)
    requires
        ends_with(path, pub_suffix()),
    ensures
        chosen_source_path(path, true, pub_exists) == Ok::<Seq<u8>, Seq<u8>>(path),
{
}

/// An existing explicit path without the suffix whose suffixed sibling exists
/// is resolved to the sibling — never to the given path itself.
pub proof fn lemma_private_path_defers_to_sibling(path: Seq<u8>)
    requires
        !ends_with(path, pub_suffix()),
    ensures
        chosen_source_path(path, true, true) == Ok::<Seq<u8>, Seq<u8>>(path + pub_suffix()),
        chosen_source_path(path, true, true) != Ok::<Seq<u8>, Seq<u8>>(path),
{
    assert((path + pub_suffix()).len() == path.len() + 4);
}

/// An explicit path that does not exist, and whose suffixed variant does not
/// exist either, is refused.
pub proof fn lemma_missing_path_refused(path: Seq<u8>)
    ensures
        chosen_source_path(path, false, false) == Err::<Seq<u8>, Seq<u8>>(path),
{
}

/// Build the identity once the chosen file has been read: the path becomes
/// the source label and the file text the content; a failed read is reported
/// with the path.
pub fn identity_from_file(path: Vec<u8>, content: Option<Vec<u8>>) -> (r: Result<
    Identity,
    ResolveError,
>)
    ensures
        match content {
            Some(c) => r matches Ok(id) && id.source == path && id.content == c,
            None => r matches Err(e) && e matches ResolveError::ReadError(p) && p == path,
        },
{
    match content {
        Some(c) => Ok(Identity { source: path, content: c }),
        None => Err(ResolveError::ReadError(path)),
    }
}

/// The SSH configuration directory under a home directory, with a trailing
/// separator: `<home>/.ssh/`.
pub open spec fn ssh_dir_prefix(home: Seq<u8>) -> Seq<u8> {
    home + "/.ssh/".spec_bytes()
}

/// The fixed candidate list that auto-discovery probes, most preferred first:
/// the conventional public-key file names inside `<home>/.ssh/`.
pub open spec fn candidate_paths_for(home: Seq<u8>) -> Seq<Seq<u8>> {
    seq![
        ssh_dir_prefix(home) + "id_rsa.pub".spec_bytes(),
        ssh_dir_prefix(home) + "id_ed25519.pub".spec_bytes(),
        ssh_dir_prefix(home) + "id_ecdsa.pub".spec_bytes(),
        ssh_dir_prefix(home) + "id_dsa.pub".spec_bytes(),
        ssh_dir_prefix(home) + "identity.pub".spec_bytes(),
    ]
}

/// The candidate paths for a given home directory, in probe order.
pub fn candidate_paths(home: &Vec<u8>) -> (r: Vec<Vec<u8>>)
    ensures
        r.deep_view() == candidate_paths_for(home@),
{
    let prefix = concat_bytes(home, &"/.ssh/".as_bytes_vec());
    let mut r: Vec<Vec<u8>> = Vec::new();
    r.push(concat_bytes(&prefix, &"id_rsa.pub".as_bytes_vec()));
    r.push(concat_bytes(&prefix, &"id_ed25519.pub".as_bytes_vec()));
    r.push(concat_bytes(&prefix, &"id_ecdsa.pub".as_bytes_vec()));
    r.push(concat_bytes(&prefix, &"id_dsa.pub".as_bytes_vec()));
    r.push(concat_bytes(&prefix, &"identity.pub".as_bytes_vec()));
    proof {
        assert(r.deep_view() =~~= candidate_paths_for(home@));
    }
    r
}

/// The candidate paths under the environment's home directory; the home
/// directory's absence is the only failure.
pub fn auto_candidate_paths() -> (r: Result<Vec<Vec<u8>>, ResolveError>)
    ensures
        match r {
            Ok(c) => exists|home: Seq<u8>| c.deep_view() == candidate_paths_for(home),
            Err(e) => e matches ResolveError::HomeDirUnavailable,
        },
{
    match home_dir_bytes() {
        Some(home) => {
            let c = candidate_paths(&home);
            proof {
                assert(c.deep_view() == candidate_paths_for(home@));
            }
            Ok(c)
        },
        None => Err(ResolveError::HomeDirUnavailable),
    }
}

/// The index of the first existing candidate, where `exists` holds the probe
/// results in candidate order; `None` when no candidate exists.
pub fn first_existing(exists: &Vec<bool>) -> (r: Option<usize>)
    ensures
        match r {
            Some(i) => i < exists.len() && exists@[i as int] && forall|j: int|
                0 <= j < i ==> !exists@[j],
            None => forall|j: int| 0 <= j < exists@.len() ==> !exists@[j],
        },
{
    let mut k: usize = 0;
    while k < exists.len()
        invariant
            k <= exists.len(),
            forall|j: int| 0 <= j < k ==> !exists@[j],
        decreases exists.len() - k,
    {
        if exists[k] {
            return Some(k);
        }
        k = k + 1;
    }
    None
}

/// The source label used for key material obtained from the agent.
pub open spec fn agent_label() -> Seq<u8> {
    "agent".spec_bytes()
}

/// The sentinel text with which the agent reports that it holds no
/// identities.
pub open spec fn agent_sentinel() -> Seq<u8> {
    "The agent has no identities".spec_bytes()
}

/// Whether an agent reply yields usable key material: non-empty after
/// trimming, and not the agent's "no identities held" report.
pub open spec fn agent_reply_usable(out: Seq<u8>) -> bool {
    trim(out).len() > 0 && !contains_seq(trim(out), agent_sentinel())
}

/// Build the identity from the agent's reply, `None` standing for an agent
/// that could not be queried or reported failure. A usable reply becomes the
/// identity, trimmed, under the agent label; anything else ends the
/// auto-discovery empty-handed.
pub fn identity_from_agent(output: Option<Vec<u8>>) -> (r: Result<Identity, ResolveError>)
    ensures
        match output {
            Some(out) => (if agent_reply_usable(out@) {
                r matches Ok(id) && id.source@ == agent_label() && id.content@ == trim(out@)
            } else {
                r matches Err(e) && e matches ResolveError::NoIdentityFound
            }),
            None => r matches Err(e) && e matches ResolveError::NoIdentityFound,
        },
{
    match output {
        Some(out) => {
            let t = trim_bytes(&out);
            let sentinel = "The agent has no identities".as_bytes_vec();
            if t.len() > 0 && !contains_bytes(&t, &sentinel) {
                Ok(Identity { source: "agent".as_bytes_vec(), content: t })
            } else {
                Err(ResolveError::NoIdentityFound)
            }
        },
        None => Err(ResolveError::NoIdentityFound),
    }
}

} // verus!
