//! Where the gateway is reached and where it keeps its files.
use vstd::prelude::*;

use crate::failure::Failure;

verus! {

pub const LISTEN_SOCKET: &'static str = "/run/connector/.gateway.sock";

pub const PUBLIC_URL: &'static str = "https://connector.ylxdzsw.com";

pub const RESOURCE_URL: &'static str = "https://connector.ylxdzsw.com/mcp";

pub const DATABASE: &'static str = "/var/lib/connector/connector.db";

pub const SOCKET_DIR: &'static str = "/run/connector";

pub const CLIENT_BINARY: &'static str = "/opt/connector/connector-client";

pub const WINDOWS_CLIENT_BINARY: &'static str =
    "/opt/connector/connector-client-windows-x86_64.exe";

pub const SUBJECT_HEADER: &'static str = "x-connector-subject";

pub const OAUTH_CLIENT_ID: &'static str = "chatgpt";

pub const OAUTH_REDIRECT_URI: &'static str =
    "https://chatgpt.com/connector_platform_oauth_redirect";

/// What the gateway takes from its environment.
#[derive(Debug)]
pub struct Config {
    pub oauth_client_secret: String,
}

impl Config {
    /// The configuration for the value of `CONNECTOR_OAUTH_CLIENT_SECRET`, or
    /// for the reason why it cannot be read.
    pub fn from_value(secret: Result<String, String>) -> (r: Result<Config, Failure>)
        ensures
            match r {
                Ok(config) => secret matches Ok(s) && config.oauth_client_secret@ == s@,
                Err(failure) => secret matches Err(e) && failure@
                    == seq!["CONNECTOR_OAUTH_CLIENT_SECRET is required"@, e@],
            },
    {
        match secret {
            Ok(oauth_client_secret) => Ok(Config { oauth_client_secret }),
            Err(e) => Err(
                Failure::because(
                    "CONNECTOR_OAUTH_CLIENT_SECRET is required".to_string(),
                    e.as_str(),
                ),
            ),
        }
    }
}

} // verus!
