//! How the proxy is set up.

#[allow(unused_imports)]
use crate::error::ConfigFailure;
use crate::error::{ConfigContext, ConfigError};
use crate::headers::header_value_of_text;
#[allow(unused_imports)]
use crate::headers::is_header_value;
#[allow(unused_imports)]
use crate::text::decimal_text;
use crate::text::push_decimal;
use std::path::PathBuf;
use vstd::prelude::*;
use vstd::utf8::*;

verus! {

/// A path of the file system, carried through without looking inside.
#[verifier::external_type_specification]
#[verifier::external_body]
pub struct ExPathBuf(std::path::PathBuf);

/// The upstream that requests go to where none is named.
pub const DEFAULT_UPSTREAM_URL: &'static str = "https://api.openai.com/v1/responses";

/// The API that the upstream speaks.
#[derive(Copy, Clone, Debug, PartialEq, Eq, Structural)]
pub enum UpstreamWireApi {
    Responses,
    ChatCompletions,
}

/// How the proxy was called.
#[derive(Debug, Clone)]
pub struct Args {
    /// Port to listen on. If not set, an ephemeral port is used.
    pub port: Option<u16>,
    /// Path to a JSON file to write startup info (single line).
    pub server_info: Option<PathBuf>,
    /// Enable HTTP shutdown endpoint at GET /shutdown
    pub http_shutdown: bool,
    /// Absolute URL the proxy should forward requests to.
    pub upstream_url: String,
    /// Upstream wire API format used at the upstream URL.
    pub upstream_wire_api: UpstreamWireApi,
    /// Directory where request/response dumps should be written as JSON.
    pub dump_dir: Option<PathBuf>,
}

/// Where requests go, and how.
pub struct ForwardConfig {
    pub upstream_url: String,
    pub host_header: Vec<u8>,
    pub upstream_wire_api: UpstreamWireApi,
}

/// What the proxy needs of a URL.
pub struct UrlParts {
    pub host: Option<String>,
    pub port: Option<u16>,
}

/// The host and the port of the URL that `Url::parse` of `reqwest` reads from a text, or what the
/// error says that it reports.
pub uninterp spec fn parsed_url(text: Seq<char>) -> Result<
    (Option<Seq<char>>, Option<u16>),
    Seq<char>,
>;

/// The characters of a text that may be missing.
pub open spec fn host_view(host: Option<String>) -> Option<Seq<char>> {
    match host {
        Some(host) => Some(host@),
        None => None,
    }
}

/// The host and the port of the URL that was read, or why none was.
pub open spec fn parts_view(
    parts: Result<UrlParts, String>,
) -> Result<(Option<Seq<char>>, Option<u16>), Seq<char>> {
    match parts {
        Ok(parts) => Ok((host_view(parts.host), parts.port)),
        Err(cause) => Err(cause@),
    }
}

/// Calls `Url::parse` of `reqwest`, and `host_str` and `port` of what it reads. The result, and
/// what an error says, depend on the text alone; they are given a name.
#[verifier::external_body]
fn parse_url(text: &str) -> (parts: Result<UrlParts, String>)
    ensures
        parts_view(parts) == parsed_url(text@),
{
    match reqwest::Url::parse(text) {
        Ok(url) => Ok(UrlParts { host: url.host_str().map(str::to_owned), port: url.port() }),
        Err(error) => Err(error.to_string()),
    }
}

/// The host that a request names: with its port, where the URL gives one.
pub open spec fn host_text(host: Seq<char>, port: Option<u16>) -> Seq<char> {
    match port {
        Some(port) => host + ":"@ + decimal_text(port as nat),
        None => host,
    }
}

/// The value of the host header, for the host and the port of the upstream's URL.
pub open spec fn host_header(
    host: Option<Seq<char>>,
    port: Option<u16>,
) -> Result<Seq<u8>, ConfigFailure> {
    match host {
        Some(host) => {
            let value = encode_utf8(host_text(host, port));
            if is_header_value(value) {
                Ok(value)
            } else {
                Err(
                    ConfigFailure {
                        context: ConfigContext::HostHeader,
                        cause: Some("failed to parse header value"@),
                    },
                )
            }
        },
        None => Err(ConfigFailure { context: ConfigContext::NoUpstreamHost, cause: None }),
    }
}

/// The value of the host header, for the upstream's URL.
pub open spec fn upstream_host_header(url: Seq<char>) -> Result<Seq<u8>, ConfigFailure> {
    match parsed_url(url) {
        Ok((host, port)) => host_header(host, port),
        Err(cause) => Err(
            ConfigFailure { context: ConfigContext::ParseUpstreamUrl, cause: Some(cause) },
        ),
    }
}

/// The value of the host header, for the host and the port of the upstream's URL.
pub fn host_header_of(parts: &UrlParts) -> (value: Result<Vec<u8>, ConfigError>)
    ensures
        match host_header(host_view(parts.host), parts.port) {
            Ok(bytes) => value matches Ok(value) && value@ == bytes,
            Err(failure) => value matches Err(error) && error@ == failure,
        },
{
    let Some(host) = &parts.host else {
        return Err(ConfigError { context: ConfigContext::NoUpstreamHost, cause: None });
    };
    let mut text = host.clone();
    if let Some(port) = parts.port {
        text.append(":");
        push_decimal(&mut text, port);
    }
    assert(text@ =~= host_text(host@, parts.port));
    match header_value_of_text(text.as_str()) {
        Ok(value) => Ok(value),
        Err(cause) => Err(
            ConfigError { context: ConfigContext::HostHeader, cause: Some(cause) },
        ),
    }
}

/// Where requests go, and how, by the way the proxy was called.
pub fn forward_config(args: &Args) -> (config: Result<ForwardConfig, ConfigError>)
    ensures
        match upstream_host_header(args.upstream_url@) {
            Ok(value) => config matches Ok(config) && config.upstream_url@ == args.upstream_url@
                && config.host_header@ == value && config.upstream_wire_api
                == args.upstream_wire_api,
            Err(failure) => config matches Err(error) && error@ == failure,
        },
{
    let parts = match parse_url(args.upstream_url.as_str()) {
        Ok(parts) => parts,
        Err(cause) => {
            return Err(
                ConfigError { context: ConfigContext::ParseUpstreamUrl, cause: Some(cause) },
            );
        },
    };
    match host_header_of(&parts) {
        Ok(host_header) => Ok(
            ForwardConfig {
                upstream_url: args.upstream_url.clone(),
                host_header,
                upstream_wire_api: args.upstream_wire_api,
            },
        ),
        Err(error) => Err(error),
    }
}

/// The loopback address and the port to listen on; port zero lets the system pick one.
pub fn listen_on(port: Option<u16>) -> (address: ([u8; 4], u16))
    ensures
        address.0@ == seq![127u8, 0u8, 0u8, 1u8],
        address.1 == match port {
            Some(port) => port,
            None => 0u16,
        },
{
    let loopback: [u8; 4] = [127, 0, 0, 1];
    assert(loopback@ =~= seq![127u8, 0u8, 0u8, 1u8]);
    (loopback, port.unwrap_or(0))
}

}
