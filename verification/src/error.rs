//! What can go wrong while a worker receives its socket.

use vstd::prelude::*;
use vstd::std_specs::convert::{FromSpec, FromSpecImpl};
use vstd::string::StringExecFns;

verus! {

/// `std::io::Error`, carried through unread.
#[verifier::external_type_specification]
#[verifier::external_body]
pub struct ExIoError(std::io::Error);

/// `serde_json::Error`, carried through unread.
#[verifier::external_type_specification]
#[verifier::external_body]
pub struct ExJsonError(serde_json::Error);

/// Errors that can occur during the handshake between daemon and worker.
#[derive(Debug)]
pub enum K8sError {
    /// Failed to connect or perform I/O on the Unix domain socket.
    Io(std::io::Error),
    /// The worker configuration received from the daemon could not be parsed.
    ConfigParse(serde_json::Error),
    /// The `SCM_RIGHTS` message was received but contained no file descriptors.
    NoFdsReceived,
}

/// The error that lies beneath a [`K8sError`].
pub enum ErrorSource<'a> {
    /// That of the operating system.
    Io(&'a std::io::Error),
    /// That of the parser.
    ConfigParse(&'a serde_json::Error),
}

impl From<std::io::Error> for K8sError {
    fn from(e: std::io::Error) -> (error: Self) {
        K8sError::Io(e)
    }
}

impl FromSpecImpl<std::io::Error> for K8sError {
    open spec fn obeys_from_spec() -> bool {
        true
    }

    open spec fn from_spec(e: std::io::Error) -> Self {
        K8sError::Io(e)
    }
}

impl From<serde_json::Error> for K8sError {
    fn from(e: serde_json::Error) -> (error: Self) {
        K8sError::ConfigParse(e)
    }
}

impl FromSpecImpl<serde_json::Error> for K8sError {
    open spec fn obeys_from_spec() -> bool {
        true
    }

    open spec fn from_spec(e: serde_json::Error) -> Self {
        K8sError::ConfigParse(e)
    }
}

/// An I/O error becomes [`K8sError::Io`] and a parse error [`K8sError::ConfigParse`], each with the
/// error itself inside.
pub proof fn law_conversions_keep_the_error(io: std::io::Error, json: serde_json::Error)
    ensures
        <K8sError as FromSpec<std::io::Error>>::from_spec(io) == K8sError::Io(io),
        <K8sError as FromSpec<serde_json::Error>>::from_spec(json) == K8sError::ConfigParse(json),
        <K8sError as FromSpec<std::io::Error>>::obeys_from_spec(),
        <K8sError as FromSpec<serde_json::Error>>::obeys_from_spec(),
{
}

/// `prefix` and `rest` as one text.
fn join(prefix: &str, rest: &str) -> (text: String)
    ensures
        text@ == prefix@ + rest@,
{
    let mut text: String = prefix.to_string();
    text.append(rest);
    text
}

impl K8sError {
    /// The message for this error, where `words` are those of the error beneath, if there is one.
    pub fn message_with(&self, words: &str) -> (text: String)
        ensures
            text@ == (match *self {
                K8sError::Io(_) => "Unix socket I/O error: "@ + words@,
                K8sError::ConfigParse(_) => "Worker config parse error: "@ + words@,
                K8sError::NoFdsReceived => "SCM_RIGHTS message contained no file descriptors"@,
            }),
    {
        match self {
            K8sError::Io(_) => join("Unix socket I/O error: ", words),
            K8sError::ConfigParse(_) => join("Worker config parse error: ", words),
            K8sError::NoFdsReceived => "SCM_RIGHTS message contained no file descriptors".to_string(),
        }
    }

    /// The message for this error. The error beneath, where there is one, is told as it displays
    /// itself.
    pub fn message(&self) -> (text: String)
        ensures
            match *self {
                K8sError::Io(e) => exists|words: String|
                    vstd::string::to_string_from_display_ensures(&e, words) && text@
                        == "Unix socket I/O error: "@ + words@,
                K8sError::ConfigParse(e) => exists|words: String|
                    vstd::string::to_string_from_display_ensures(&e, words) && text@
                        == "Worker config parse error: "@ + words@,
                K8sError::NoFdsReceived => text@
                    == "SCM_RIGHTS message contained no file descriptors"@,
            },
    {
        let words: String = match self {
            K8sError::Io(e) => e.to_string(),
            K8sError::ConfigParse(e) => e.to_string(),
            K8sError::NoFdsReceived => String::new(),
        };
        self.message_with(words.as_str())
    }

    /// The error beneath this one, where there is one.
    pub fn source(&self) -> (source: Option<ErrorSource<'_>>)
        ensures
            source == (match *self {
                K8sError::Io(e) => Some(ErrorSource::Io(&e)),
                K8sError::ConfigParse(e) => Some(ErrorSource::ConfigParse(&e)),
                K8sError::NoFdsReceived => None::<ErrorSource<'_>>,
            }),
    {
        match self {
            K8sError::Io(e) => Some(ErrorSource::Io(e)),
            K8sError::ConfigParse(e) => Some(ErrorSource::ConfigParse(e)),
            K8sError::NoFdsReceived => None,
        }
    }
}

} // verus!
