//! Why certificates, keys and roots cannot be loaded.

use vstd::prelude::*;
use vstd::string::*;

verus! {

/// Why the certificates, the keys or the roots cannot be loaded. The text that most of them
/// carry is the message of the underlying error.
pub enum LoadError {
    /// There are more certificates than keys, or fewer.
    CountsDiffer,
    /// A certificate file cannot be opened.
    OpenCert(String),
    /// A certificate file holds a section that cannot be read.
    ReadCerts(String),
    /// A certificate file holds no certificate.
    NoCertificate,
    /// A key file cannot be opened.
    OpenKey(String),
    /// A key file cannot be read.
    ReadKey(String),
    /// A key file holds a section that cannot be read, before any key.
    ParseKey(String),
    /// A key file holds no private key.
    MissingKey,
    /// The cryptography does not take the private key.
    LoadKey(String),
    /// The roots of the platform cannot be found.
    PlatformCerts(String),
    /// A root file cannot be opened.
    OpenRoot(String),
    /// A root file holds no certificate.
    NoRoots,
    /// A root file starts with a section that cannot be read.
    ReadRoot(String),
    /// A root is not a certificate that can be trusted.
    AddRoot(String),
}

impl LoadError {
    /// The message of the error.
    pub open spec fn text(self) -> Seq<char> {
        match self {
            LoadError::CountsDiffer => "--tls-cert and --tls-key counts differ"@,
            LoadError::OpenCert(_) => "failed to open cert file"@,
            LoadError::ReadCerts(_) => "failed to read certs"@,
            LoadError::NoCertificate => "could not find certificate"@,
            LoadError::OpenKey(_) => "failed to open key file"@,
            LoadError::ReadKey(cause) => cause@,
            LoadError::ParseKey(cause) => cause@,
            LoadError::MissingKey => "missing private key"@,
            LoadError::LoadKey(_) => "failed to load private key with pure provider"@,
            LoadError::PlatformCerts(_) => "could not load platform certs"@,
            LoadError::OpenRoot(_) => "failed to open root cert file"@,
            LoadError::NoRoots => "no roots found"@,
            LoadError::ReadRoot(_) => "failed to read root cert"@,
            LoadError::AddRoot(_) => "failed to add root cert"@,
        }
    }

    /// The message of the error. An error of reading a key has the message of its cause.
    pub fn message(&self) -> (text: String)
        ensures
            text@ == self.text(),
    {
        match self {
            LoadError::CountsDiffer => "--tls-cert and --tls-key counts differ".to_string(),
            LoadError::OpenCert(_) => "failed to open cert file".to_string(),
            LoadError::ReadCerts(_) => "failed to read certs".to_string(),
            LoadError::NoCertificate => "could not find certificate".to_string(),
            LoadError::OpenKey(_) => "failed to open key file".to_string(),
            LoadError::ReadKey(cause) => cause.clone(),
            LoadError::ParseKey(cause) => cause.clone(),
            LoadError::MissingKey => "missing private key".to_string(),
            LoadError::LoadKey(_) => "failed to load private key with pure provider".to_string(),
            LoadError::PlatformCerts(_) => "could not load platform certs".to_string(),
            LoadError::OpenRoot(_) => "failed to open root cert file".to_string(),
            LoadError::NoRoots => "no roots found".to_string(),
            LoadError::ReadRoot(_) => "failed to read root cert".to_string(),
            LoadError::AddRoot(_) => "failed to add root cert".to_string(),
        }
    }

    /// The message of the underlying error, for an error that has a message of its own.
    pub open spec fn cause_text(self) -> Option<Seq<char>> {
        match self {
            LoadError::OpenCert(cause) => Some(cause@),
            LoadError::ReadCerts(cause) => Some(cause@),
            LoadError::OpenKey(cause) => Some(cause@),
            LoadError::LoadKey(cause) => Some(cause@),
            LoadError::PlatformCerts(cause) => Some(cause@),
            LoadError::OpenRoot(cause) => Some(cause@),
            LoadError::ReadRoot(cause) => Some(cause@),
            LoadError::AddRoot(cause) => Some(cause@),
            _ => None,
        }
    }

    /// The message of the underlying error, for an error that has a message of its own.
    pub fn cause(&self) -> (cause: Option<String>)
        ensures
            match cause {
                Some(text) => self.cause_text() == Some(text@),
                None => self.cause_text() is None,
            },
    {
        match self {
            LoadError::OpenCert(cause) => Some(cause.clone()),
            LoadError::ReadCerts(cause) => Some(cause.clone()),
            LoadError::OpenKey(cause) => Some(cause.clone()),
            LoadError::LoadKey(cause) => Some(cause.clone()),
            LoadError::PlatformCerts(cause) => Some(cause.clone()),
            LoadError::OpenRoot(cause) => Some(cause.clone()),
            LoadError::ReadRoot(cause) => Some(cause.clone()),
            LoadError::AddRoot(cause) => Some(cause.clone()),
            _ => None,
        }
    }
}

/// An error passes on the message of what caused it, whole: as its own message where a key file
/// cannot be read, and behind its own message otherwise.
pub proof fn law_errors_keep_their_cause(cause: String)
    ensures
        LoadError::ReadKey(cause).text() == cause@,
        LoadError::ParseKey(cause).text() == cause@,
        LoadError::OpenCert(cause).cause_text() == Some(cause@),
        LoadError::ReadCerts(cause).cause_text() == Some(cause@),
        LoadError::OpenKey(cause).cause_text() == Some(cause@),
        LoadError::LoadKey(cause).cause_text() == Some(cause@),
        LoadError::PlatformCerts(cause).cause_text() == Some(cause@),
        LoadError::OpenRoot(cause).cause_text() == Some(cause@),
        LoadError::ReadRoot(cause).cause_text() == Some(cause@),
        LoadError::AddRoot(cause).cause_text() == Some(cause@),
{
}

} // verus!
