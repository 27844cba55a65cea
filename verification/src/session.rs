//! What a remote session is asked to do, and the decisions around logging in.

use vstd::prelude::*;
use crate::path::FsPath;
use crate::path::rendered;
use crate::path::PathModel;

verus! {

/// Permission bits of every uploaded file and of the executable.
pub const EXECUTABLE_MODE: i32 = 0o755;

/// Permission bits of the uploaded unit definition.
pub const UNIT_FILE_MODE: i32 = 0o644;

/// The ways a run can fail.
#[derive(Debug, Clone, Copy, PartialEq, Eq, Structural)]
pub enum DeployError {
    /// The credentials were rejected, or the session is not authenticated.
    Authentication,
    /// The connection or the handshake failed.
    Transport,
    /// An upload failed, or a remote command signalled failure.
    Transfer,
    /// A local artifact could not be built.
    Build,
    /// The local package descriptor is missing or names no package.
    Configuration,
}

/// What a request is.
pub enum RequestModel {
    Execute { command: Seq<char> },
    Send { remote: Seq<char>, mode: int, content: Seq<u8> },
}

/// One request to the remote session: run a command, or upload bytes under a
/// remote path with permission bits.
///
/// A command counts as done once its channel has closed. Its exit status is
/// not read: a command that fails remotely, such as a rename of a file that
/// is not there, fails the run only where the session itself reports an
/// error. This keeps what the session has always done; a caller that needs
/// more has to look at what the command printed.
#[derive(Debug)]
pub enum Request {
    Execute { command: String },
    Send { remote: String, mode: i32, content: Vec<u8> },
}

impl View for Request {
    type V = RequestModel;

    open spec fn view(&self) -> RequestModel {
        match self {
            Request::Execute { command } => RequestModel::Execute { command: command@ },
            Request::Send { remote, mode, content } => RequestModel::Send {
                remote: remote@,
                mode: *mode as int,
                content: content@,
            },
        }
    }
}

/// The requests of `v`, each by its view.
pub open spec fn request_views(v: Seq<Request>) -> Seq<RequestModel> {
    Seq::new(v.len(), |i: int| v[i]@)
}

/// The upload of `content` to `remote` with the bits `mode`.
pub open spec fn upload(remote: PathModel, mode: int, content: Seq<u8>) -> RequestModel {
    RequestModel::Send { remote: rendered(remote), mode, content }
}

/// The request that uploads the bytes of a local file: the content as it was
/// read, the remote path as text, the declared permission bits.
pub fn send_file(content: Vec<u8>, remote: &FsPath, mode: i32) -> (r: Request)
    ensures
        r@ == upload(remote@, mode as int, content@),
{
    Request::Send { remote: remote.render(), mode, content }
}

/// What the `Debug` form of a text is: the text between double quotes, with
/// the characters escaped that the standard library escapes there.
pub uninterp spec fn debug_quoted(text: Seq<char>) -> Seq<char>;

/// Formats `text` with the standard library's `Debug` for `str`. The result
/// depends on the text alone; it is `debug_quoted` of it.
#[verifier::external_body]
fn quote(text: &str) -> (r: String)
    ensures
        r@ == debug_quoted(text@),
{
    format!("{:?}", text)
}

/// The command that makes sure that a remote directory and its parents exist.
pub open spec fn make_dir_text(remote: PathModel) -> Seq<char> {
    "mkdir -p "@ + debug_quoted(rendered(remote))
}

/// The command that makes sure that the directory with the given quoted
/// path, and its parents, exist.
pub fn make_dir_command(quoted: &str) -> (r: String)
    ensures
        r@ == "mkdir -p "@ + quoted@,
{
    let mut command = String::from_str("mkdir -p ");
    command.append(quoted);
    command
}

/// The request that makes sure that `remote` and its parents exist; asking
/// twice changes nothing more.
pub fn make_dir(remote: &FsPath) -> (r: Request)
    ensures
        r@ == (RequestModel::Execute { command: make_dir_text(remote@) }),
{
    let text = remote.render();
    let quoted = quote(text.as_str());
    Request::Execute { command: make_dir_command(quoted.as_str()) }
}

/// How a login is attempted.
#[derive(Debug)]
pub enum Credential {
    /// A key pair, with the passphrase that unlocks the private key, if any.
    KeyPair { public_key: String, private_key: String, passphrase: Option<String> },
    /// A password.
    Password { password: String },
}

/// What a credential is.
pub enum CredentialModel {
    KeyPair { public_key: Seq<char>, private_key: Seq<char>, passphrase: Option<Seq<char>> },
    Password { password: Seq<char> },
}

impl View for Credential {
    type V = CredentialModel;

    open spec fn view(&self) -> CredentialModel {
        match self {
            Credential::KeyPair { public_key, private_key, passphrase } => CredentialModel::KeyPair {
                public_key: public_key@,
                private_key: private_key@,
                passphrase: match passphrase {
                    Some(p) => Some(p@),
                    None => None,
                },
            },
            Credential::Password { password } => CredentialModel::Password { password: password@ },
        }
    }
}

/// The prompt under which the secret is asked for.
pub open spec fn prompt_text(with_keys: bool) -> Seq<char> {
    if with_keys {
        "Key password:"@
    } else {
        "Password:"@
    }
}

/// The prompt for the secret of a login with or without a key pair.
pub fn login_prompt(with_keys: bool) -> (r: String)
    ensures
        r@ == prompt_text(with_keys),
{
    if with_keys {
        String::from_str("Key password:")
    } else {
        String::from_str("Password:")
    }
}

/// What is left of a text once the white space at both ends is removed, as
/// the standard library removes it.
pub uninterp spec fn trimmed(text: Seq<char>) -> Seq<char>;

/// Calls `str::trim` of the standard library. The result depends on the text
/// alone; it is `trimmed` of it.
#[verifier::external_body]
fn trim(text: &str) -> (r: String)
    ensures
        r@ == trimmed(text@),
{
    text.trim().to_owned()
}

/// The credential that a login uses, from the key pair (public key first) and
/// the secret that was entered.
pub open spec fn credential_of(
    keys: Option<(Seq<char>, Seq<char>)>,
    secret: Seq<char>,
) -> CredentialModel {
    match keys {
        Some(pair) => CredentialModel::KeyPair {
            public_key: pair.0,
            private_key: pair.1,
            passphrase: if secret.len() == 0 {
                None
            } else {
                Some(secret)
            },
        },
        None => CredentialModel::Password { password: trimmed(secret) },
    }
}

/// Chooses the way to log in: with a key pair where one is given, the entered
/// secret then being its passphrase (none where nothing was entered), else
/// with the entered secret, without the white space around it, as the
/// password.
pub fn credential(keys: Option<(String, String)>, secret: String) -> (r: Credential)
    ensures
        r@ == credential_of(
            match keys {
                Some(pair) => Some((pair.0@, pair.1@)),
                None => None,
            },
            secret@,
        ),
{
    match keys {
        Some(pair) => {
            let passphrase = if secret.as_str().unicode_len() == 0 {
                None
            } else {
                Some(secret)
            };
            Credential::KeyPair { public_key: pair.0, private_key: pair.1, passphrase }
        },
        None => Credential::Password { password: trim(secret.as_str()) },
    }
}

/// The end of an attempt to connect and log in. Without a connection and a
/// handshake there is no transport; with them, the attempt succeeded exactly
/// if the remote host reports the session as authenticated.
pub fn check_login(established: bool, authenticated: bool) -> (r: Result<(), DeployError>)
    ensures
        r == if !established {
            Err::<(), DeployError>(DeployError::Transport)
        } else if !authenticated {
            Err::<(), DeployError>(DeployError::Authentication)
        } else {
            Ok::<(), DeployError>(())
        },
{
    if !established {
        Err(DeployError::Transport)
    } else if !authenticated {
        Err(DeployError::Authentication)
    } else {
        Ok(())
    }
}

} // verus!
