//! The server's configuration, and the checks made on the configuration
//! file's fields.

use vstd::prelude::*;

verus! {

/// Why the configuration could not be read.
#[derive(Clone, Copy, PartialEq, Eq, Structural, Debug)]
pub enum ConfigReadError {
    IOError,
    JSONParseError,
    MissingCertPath,
    MissingCertPassword,
    MissingBindIP,
    MissingBindPort,
}

impl ConfigReadError {
    pub open spec fn spec_message(&self) -> Seq<char> {
        match self {
            ConfigReadError::IOError => "IO Error"@,
            ConfigReadError::JSONParseError => "The configuration file is not valid JSON."@,
            ConfigReadError::MissingCertPath => "cert_path is missing or invalid."@,
            ConfigReadError::MissingCertPassword => "cert_password is missing or invalid."@,
            ConfigReadError::MissingBindIP => "bind_ip is missing or invalid."@,
            ConfigReadError::MissingBindPort => "bind_port is missing or invalid."@,
        }
    }

    /// The error's text.
    pub fn message(&self) -> (r: &'static str)
        ensures
            r@ == self.spec_message(),
    {
        match self {
            ConfigReadError::IOError => "IO Error",
            ConfigReadError::JSONParseError => "The configuration file is not valid JSON.",
            ConfigReadError::MissingCertPath => "cert_path is missing or invalid.",
            ConfigReadError::MissingCertPassword => "cert_password is missing or invalid.",
            ConfigReadError::MissingBindIP => "bind_ip is missing or invalid.",
            ConfigReadError::MissingBindPort => "bind_port is missing or invalid.",
        }
    }
}

/// The configuration file's fields that the server reads: each is present
/// only when the file has it with the right JSON type (a string, or for
/// `bind_port` an unsigned integer).
#[derive(Debug)]
pub struct ConfigFields {
    pub cert_path: Option<String>,
    pub cert_password: Option<String>,
    pub bind_ip: Option<String>,
    pub bind_port: Option<u64>,
}

/// The server's configuration: the PKCS #12 certificate and its password,
/// and the address to listen on.
#[derive(Debug)]
pub struct ServerConfig {
    pub cert: Vec<u8>,
    pub cert_password: String,
    pub bind_ip: String,
    pub port: u64,
}

/// Where the certificate is, and its password: `MissingCertPath` or
/// `MissingCertPassword` when the field is absent (checked in that order).
pub fn cert_location(fields: &ConfigFields) -> (r: Result<(String, String), ConfigReadError>)
    ensures
        fields.cert_path is None ==> r == Err::<(String, String), ConfigReadError>(
            ConfigReadError::MissingCertPath,
        ),
        fields.cert_path is Some && fields.cert_password is None ==> r == Err::<
            (String, String),
            ConfigReadError,
        >(ConfigReadError::MissingCertPassword),
        fields.cert_path matches Some(p) ==> (fields.cert_password matches Some(w) ==> (r matches Ok(
            pair,
        ) && pair.0 == p && pair.1 == w)),
{
    let path = match &fields.cert_path {
        Some(p) => p.clone(),
        None => {
            return Err(ConfigReadError::MissingCertPath);
        },
    };
    let password = match &fields.cert_password {
        Some(w) => w.clone(),
        None => {
            return Err(ConfigReadError::MissingCertPassword);
        },
    };
    Ok((path, password))
}

/// The configuration once the certificate has been read: `MissingBindIP`
/// or `MissingBindPort` when that field is absent (checked in that order).
pub fn build_config(fields: &ConfigFields, cert: Vec<u8>, cert_password: String) -> (r: Result<
    ServerConfig,
    ConfigReadError,
>)
    ensures
        fields.bind_ip is None ==> r == Err::<ServerConfig, ConfigReadError>(ConfigReadError::MissingBindIP),
        fields.bind_ip is Some && fields.bind_port is None ==> r == Err::<ServerConfig, ConfigReadError>(
            ConfigReadError::MissingBindPort,
        ),
        fields.bind_ip matches Some(ip) ==> (fields.bind_port matches Some(port) ==> (r matches Ok(c)
            && c.cert == cert && c.cert_password == cert_password && c.bind_ip == ip && c.port == port)),
{
    let bind_ip = match &fields.bind_ip {
        Some(ip) => ip.clone(),
        None => {
            return Err(ConfigReadError::MissingBindIP);
        },
    };
    let port = match fields.bind_port {
        Some(p) => p,
        None => {
            return Err(ConfigReadError::MissingBindPort);
        },
    };
    Ok(ServerConfig { cert, cert_password, bind_ip, port })
}

} // verus!
