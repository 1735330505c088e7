//! What can go wrong, and why.

use vstd::prelude::*;

verus! {

/// What the proxy was doing when a translation failed.
#[derive(Clone, Copy, Debug, PartialEq, Eq, Structural)]
pub enum TranslateContext {
    /// The client's request was read.
    ParseRequest,
    /// The translated request was written.
    SerializeRequest,
    /// The upstream's response was read.
    ParseResponse,
    /// The translated response was written.
    SerializeResponse,
    /// The upstream's stream was decoded.
    DecodeStream,
    /// A translated event was written.
    SerializeEvent,
}

impl TranslateContext {
    /// What the context says.
    pub open spec fn says(self) -> Seq<char> {
        match self {
            TranslateContext::ParseRequest => "parsing responses request json"@,
            TranslateContext::SerializeRequest => "serializing chat completions request"@,
            TranslateContext::ParseResponse => "parsing chat completions response json"@,
            TranslateContext::SerializeResponse => "serializing mapped responses json"@,
            TranslateContext::DecodeStream => "reading chat completions sse as utf-8"@,
            TranslateContext::SerializeEvent => "serializing mapped sse event"@,
        }
    }

    /// What the context says.
    pub fn message(&self) -> (message: &'static str)
        ensures
            message@ == self.says(),
    {
        match self {
            TranslateContext::ParseRequest => "parsing responses request json",
            TranslateContext::SerializeRequest => "serializing chat completions request",
            TranslateContext::ParseResponse => "parsing chat completions response json",
            TranslateContext::SerializeResponse => "serializing mapped responses json",
            TranslateContext::DecodeStream => "reading chat completions sse as utf-8",
            TranslateContext::SerializeEvent => "serializing mapped sse event",
        }
    }
}

/// A failed translation: the context, and what the reader or writer below it reported.
pub struct TranslateFailure {
    pub context: TranslateContext,
    pub cause: Seq<char>,
}

/// Why a body could not be translated: the context, and what the reader or writer below it
/// reported.
#[derive(Debug, PartialEq, Eq)]
pub struct TranslateError {
    pub context: TranslateContext,
    pub cause: String,
}

impl View for TranslateError {
    type V = TranslateFailure;

    open spec fn view(&self) -> TranslateFailure {
        TranslateFailure { context: self.context, cause: self.cause@ }
    }
}

/// What the proxy was doing when it could not be set up.
#[derive(Clone, Copy, Debug, PartialEq, Eq, Structural)]
pub enum ConfigContext {
    /// The upstream's URL was read.
    ParseUpstreamUrl,
    /// The upstream's host was looked up in its URL.
    NoUpstreamHost,
    /// The upstream's host was put into a header.
    HostHeader,
}

impl ConfigContext {
    /// What the context says.
    pub open spec fn says(self) -> Seq<char> {
        match self {
            ConfigContext::ParseUpstreamUrl => "parsing --upstream-url"@,
            ConfigContext::NoUpstreamHost => "upstream URL must include a host"@,
            ConfigContext::HostHeader => "constructing Host header from upstream URL"@,
        }
    }

    /// What the context says.
    pub fn message(&self) -> (message: &'static str)
        ensures
            message@ == self.says(),
    {
        match self {
            ConfigContext::ParseUpstreamUrl => "parsing --upstream-url",
            ConfigContext::NoUpstreamHost => "upstream URL must include a host",
            ConfigContext::HostHeader => "constructing Host header from upstream URL",
        }
    }
}

/// A failed setup: the context, and what was reported below it, if anything was.
pub struct ConfigFailure {
    pub context: ConfigContext,
    pub cause: Option<Seq<char>>,
}

/// Why the proxy could not be set up: the context, and what was reported below it, if anything was.
#[derive(Debug, PartialEq, Eq)]
pub struct ConfigError {
    pub context: ConfigContext,
    pub cause: Option<String>,
}

impl View for ConfigError {
    type V = ConfigFailure;

    open spec fn view(&self) -> ConfigFailure {
        ConfigFailure {
            context: self.context,
            cause: match self.cause {
                Some(cause) => Some(cause@),
                None => None,
            },
        }
    }
}

}
