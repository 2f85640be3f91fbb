//! Identity material decisions: where a tunnel's certificates live, whether
//! existing files are loaded or new ones created, and what a leaf
//! certificate names. Generating keys and reading or writing files is left
//! to the caller.
use vstd::prelude::*;
use vstd::string::StringExecFns;

pub use crate::pem::{cert_from_pem, key_from_pem};

verus! {

/// Which end of a tunnel a leaf certificate identifies.
#[derive(Clone, Copy, Debug, PartialEq, Eq, Structural)]
pub enum TunnelEnd {
    Server,
    Client,
}

/// What to do for a certificate and key pair on disk.
#[derive(Clone, Copy, Debug, PartialEq, Eq, Structural)]
pub enum CertAction {
    /// Both files exist: load them as they are.
    Load,
    /// Neither file exists: create both.
    Create,
}

#[derive(Clone, Copy, Debug, PartialEq, Eq, Structural)]
pub enum CertError {
    /// Only one of the certificate and its key exists; it is neither loaded
    /// nor overwritten.
    IncompletePair,
}

pub open spec fn action_for(cert_exists: bool, key_exists: bool) -> Result<CertAction, CertError> {
    if cert_exists && key_exists {
        Ok(CertAction::Load)
    } else if !cert_exists && !key_exists {
        Ok(CertAction::Create)
    } else {
        Err(CertError::IncompletePair)
    }
}

/// Decides between loading and creating a certificate and key pair, given
/// which of the two files exist.
pub fn cert_action(cert_exists: bool, key_exists: bool) -> (r: Result<CertAction, CertError>)
    ensures
        r == action_for(cert_exists, key_exists),
{
    if cert_exists && key_exists {
        Ok(CertAction::Load)
    } else if !cert_exists && !key_exists {
        Ok(CertAction::Create)
    } else {
        Err(CertError::IncompletePair)
    }
}

/// Generating certificates is idempotent: a complete pair on disk is always
/// loaded, and files are only ever created where neither exists, so nothing
/// on disk is overwritten.
pub proof fn lemma_generation_idempotent(cert_exists: bool, key_exists: bool)
    ensures
        cert_exists && key_exists ==> action_for(cert_exists, key_exists) == Ok::<CertAction, CertError>(CertAction::Load),
        action_for(cert_exists, key_exists) == Ok::<CertAction, CertError>(CertAction::Create) ==> !cert_exists && !key_exists,
{
}

/// The files of one tunnel identity, relative to the certificate directory.
pub struct IdentityFiles {
    pub ca_cert: String,
    pub ca_key: String,
    pub server_cert: String,
    pub server_key: String,
    pub client_cert: String,
    pub client_key: String,
}

/// The file names of the tunnel identity `name`: its CA, server and client
/// certificates and keys, each prefixed with the name.
pub fn identity_files(name: &str) -> (r: IdentityFiles)
    ensures
        r.ca_cert@ == name@ + "_ca.pem"@,
        r.ca_key@ == name@ + "_ca.key.pem"@,
        r.server_cert@ == name@ + "_server.pem"@,
        r.server_key@ == name@ + "_server.key.pem"@,
        r.client_cert@ == name@ + "_client.pem"@,
        r.client_key@ == name@ + "_client.key.pem"@,
{
    IdentityFiles {
        ca_cert: <String as StringExecFns>::from_str(name).concat("_ca.pem"),
        ca_key: <String as StringExecFns>::from_str(name).concat("_ca.key.pem"),
        server_cert: <String as StringExecFns>::from_str(name).concat("_server.pem"),
        server_key: <String as StringExecFns>::from_str(name).concat("_server.key.pem"),
        client_cert: <String as StringExecFns>::from_str(name).concat("_client.pem"),
        client_key: <String as StringExecFns>::from_str(name).concat("_client.key.pem"),
    }
}

/// The extended key usage of a leaf certificate.
#[derive(Clone, Copy, Debug, PartialEq, Eq, Structural)]
pub enum KeyPurpose {
    ClientAuth,
    ServerAuth,
}

/// What a leaf certificate states about its subject.
pub struct LeafProfile {
    pub subject_alt_names: Vec<String>,
    pub common_name: String,
    pub purpose: KeyPurpose,
    pub serial: Option<Vec<u8>>,
}

/// The profile of a leaf certificate for `subject` at the given end. A
/// client is named by its common name; a server by its subject alternative
/// name, which is what the client checks against the expected peer name.
pub fn leaf_profile(end: TunnelEnd, subject: &str) -> (r: LeafProfile)
    ensures
        end == TunnelEnd::Client ==> {
            &&& r.subject_alt_names@.len() == 0
            &&& r.common_name@ == subject@
            &&& r.purpose == KeyPurpose::ClientAuth
            &&& r.serial is Some
            &&& r.serial->Some_0@ == seq![0xC0u8, 0xFFu8, 0xEEu8]
        },
        end == TunnelEnd::Server ==> {
            &&& r.subject_alt_names@.len() == 1
            &&& r.subject_alt_names@[0]@ == subject@
            &&& r.common_name@ == "Example Client"@
            &&& r.purpose == KeyPurpose::ServerAuth
            &&& r.serial is None
        },
{
    match end {
        TunnelEnd::Client => {
            let serial: Vec<u8> = vec![0xC0u8, 0xFFu8, 0xEEu8];
            assert(serial@ =~= seq![0xC0u8, 0xFFu8, 0xEEu8]);
            LeafProfile {
                subject_alt_names: Vec::new(),
                common_name: <String as StringExecFns>::from_str(subject),
                purpose: KeyPurpose::ClientAuth,
                serial: Some(serial),
            }
        },
        TunnelEnd::Server => {
            let mut names: Vec<String> = Vec::new();
            names.push(<String as StringExecFns>::from_str(subject));
            LeafProfile {
                subject_alt_names: names,
                common_name: <String as StringExecFns>::from_str("Example Client"),
                purpose: KeyPurpose::ServerAuth,
                serial: None,
            }
        },
    }
}

/// The files of `name`'s identity, as `identity_files` names them.
pub open spec fn names_identity(f: IdentityFiles, name: Seq<char>) -> bool {
    &&& f.ca_cert@ == name + "_ca.pem"@
    &&& f.ca_key@ == name + "_ca.key.pem"@
    &&& f.server_cert@ == name + "_server.pem"@
    &&& f.server_key@ == name + "_server.key.pem"@
    &&& f.client_cert@ == name + "_client.pem"@
    &&& f.client_key@ == name + "_client.key.pem"@
}

/// Generates, or loads where they exist, the certificates of named tunnel
/// identities in one directory.
pub struct QuickCertsSubCommand {
    /// The directory the files are written to.
    pub dir: String,
    /// The names of the tunnel identities.
    pub client_names: Vec<String>,
}

impl QuickCertsSubCommand {
    /// The files of each named identity, in the order the names were given,
    /// relative to `dir`.
    pub fn identities(&self) -> (r: Vec<IdentityFiles>)
        ensures
            r@.len() == self.client_names@.len(),
            forall|i: int| 0 <= i < r@.len() ==> names_identity(#[trigger] r@[i], self.client_names@[i]@),
    {
        let mut r: Vec<IdentityFiles> = Vec::new();
        let mut i: usize = 0;
        while i < self.client_names.len()
            invariant
                i <= self.client_names@.len(),
                r@.len() == i,
                forall|j: int| 0 <= j < i ==> names_identity(#[trigger] r@[j], self.client_names@[j]@),
            decreases self.client_names@.len() - i,
        {
            let f = identity_files(self.client_names[i].as_str());
            r.push(f);
            i = i + 1;
        }
        r
    }
}

} // verus!
