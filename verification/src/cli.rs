//! The command line of the systemd-boot installer and of the signing server, as plain values,
//! and the decisions taken from it: the log verbosity, the signer, the route of a request.
use vstd::prelude::*;

verus! {

/// The default log level: 2 is `INFO`.
pub const DEFAULT_LOG_LEVEL: usize = 2;

/// The installer's command line.
pub struct Cli {
    /// Silence all output.
    pub quiet: bool,
    /// Verbose mode (`-v`, `-vv`, ...).
    pub verbose: u8,
    pub commands: Commands,
}

/// The installer's subcommands.
pub enum Commands {
    Install(InstallCommand),
}

/// The arguments of `install`.
pub struct InstallCommand {
    /// The systemd package.
    pub systemd: String,
    /// The systemd-boot loader configuration.
    pub systemd_boot_loader_config: String,
    /// The `sbsign` certificate.
    pub public_key: Option<String>,
    /// The `sbsign` private key.
    pub private_key: Option<String>,
    /// A remote signing server.
    pub remote_signing_server_url: Option<String>,
    /// The number of newest generations to install.
    pub configuration_limit: usize,
    /// The mount point of the ESP.
    pub esp: String,
    /// The generation links.
    pub generations: Vec<String>,
}

impl Cli {
    /// The log verbosity: the default level raised by each `-v`.
    pub fn verbosity(&self) -> (r: usize)
        ensures
            r == DEFAULT_LOG_LEVEL + self.verbose,
    {
        DEFAULT_LOG_LEVEL + self.verbose as usize
    }
}

/// Who signs the installed binaries.
#[derive(Debug, Clone, PartialEq, Eq)]
pub enum SignerChoice {
    /// A key pair on the local file system.
    Local { public_key: String, private_key: String },
    /// A remote signing server.
    Remote { url: String },
}

/// Why no signer could be chosen.
#[derive(Debug, Clone, Copy, PartialEq, Eq, Structural)]
pub enum SignerError {
    MissingPrivateKey,
    MissingPublicKey,
    NoSignatureMechanism,
}

impl InstallCommand {
    /// The signer: a local key pair where both keys are given, a remote server otherwise; a
    /// single key alone, or nothing at all, is an error.
    pub fn signer(&self) -> (r: Result<SignerChoice, SignerError>)
        ensures
            (self.public_key is Some && self.private_key is Some) ==> (r matches Ok(SignerChoice::Local { public_key, private_key })
                && public_key == self.public_key->0 && private_key == self.private_key->0),
            (self.public_key is Some && self.private_key is None) ==> r == Err::<SignerChoice, SignerError>(SignerError::MissingPrivateKey),
            (self.public_key is None && self.private_key is Some) ==> r == Err::<SignerChoice, SignerError>(SignerError::MissingPublicKey),
            (self.public_key is None && self.private_key is None && self.remote_signing_server_url is Some) ==> (r matches Ok(SignerChoice::Remote { url })
                && url == self.remote_signing_server_url->0),
            (self.public_key is None && self.private_key is None && self.remote_signing_server_url is None) ==> r == Err::<SignerChoice, SignerError>(SignerError::NoSignatureMechanism),
    {
        match (&self.public_key, &self.private_key) {
            (Some(public_key), Some(private_key)) => Ok(SignerChoice::Local { public_key: public_key.clone(), private_key: private_key.clone() }),
            (Some(_), None) => Err(SignerError::MissingPrivateKey),
            (None, Some(_)) => Err(SignerError::MissingPublicKey),
            (None, None) => match &self.remote_signing_server_url {
                Some(url) => Ok(SignerChoice::Remote { url: url.clone() }),
                None => Err(SignerError::NoSignatureMechanism),
            },
        }
    }
}

/// Errors of the signing server's handlers.
#[derive(Debug, Clone, Copy, PartialEq, Eq, Structural)]
pub enum ErrorKind {
    /// The request's body was already read.
    BodyAlreadyOpened,
}

impl ErrorKind {
    /// The message of the error.
    pub fn message(&self) -> (r: &'static str)
        ensures
            r@ == "body was already opened in request"@,
    {
        match self {
            ErrorKind::BodyAlreadyOpened => "body was already opened in request",
        }
    }
}

/// The handler of a request to the signing server.
#[derive(Debug, Clone, Copy, PartialEq, Eq, Structural)]
pub enum Route {
    SignStub,
    SignStorePath,
    Verify,
    /// Anything else: a short text about the server.
    Index,
}

/// The handler of a request: the three `POST` endpoints, and the index for anything else.
pub open spec fn spec_route(post: bool, path: Seq<char>) -> Route {
    if post && path == "/sign-stub"@ {
        Route::SignStub
    } else if post && path == "/sign-store-path"@ {
        Route::SignStorePath
    } else if post && path == "/verify"@ {
        Route::Verify
    } else {
        Route::Index
    }
}

/// Routes a request by its method (`post` for `POST`) and path.
pub fn route(post: bool, path: &str) -> (r: Route)
    ensures
        r == spec_route(post, path@),
{
    let p = crate::text::str_chars(path);
    if post && crate::strmap::chars_eq(&p, &crate::text::str_chars("/sign-stub")) {
        Route::SignStub
    } else if post && crate::strmap::chars_eq(&p, &crate::text::str_chars("/sign-store-path")) {
        Route::SignStorePath
    } else if post && crate::strmap::chars_eq(&p, &crate::text::str_chars("/verify")) {
        Route::Verify
    } else {
        Route::Index
    }
}

} // verus!
