//! Gateway-local error type and its mapping to HTTP / JSON-RPC responses.

use vstd::prelude::*;

verus! {

/// Errors produced by the gateway itself (not relayed from upstream).
#[derive(Debug)]
pub enum ProxyError {
    /// Missing or incorrect gateway api-key.
    Unauthorized,
    /// Request body exceeded `gateway.max_body_bytes`.
    PayloadTooLarge,
    /// Every upstream key was over quota or rate-limited.
    AllUpstreamsExhausted {
        /// Seconds until the soonest upstream becomes available again, if known.
        retry_after_secs: Option<u64>,
    },
    /// Could not reach any upstream (connect/timeout on all tries).
    BadGateway(String),
}

/// What the gateway answers in place of an upstream: the HTTP status, the `Retry-After`
/// header if there is one, and the code and the message of the JSON-RPC error in the body.
#[derive(Debug)]
pub struct ErrorReply {
    pub status: u16,
    pub retry_after_secs: Option<u64>,
    pub code: i64,
    pub message: String,
}

impl ProxyError {
    /// The HTTP status of this error.
    pub open spec fn http_status(&self) -> u16 {
        match self {
            ProxyError::Unauthorized => 401,
            ProxyError::PayloadTooLarge => 413,
            ProxyError::AllUpstreamsExhausted { .. } => 429,
            ProxyError::BadGateway(_) => 502,
        }
    }

    /// The JSON-RPC code of this error.
    pub open spec fn json_rpc_code(&self) -> int {
        match self {
            ProxyError::Unauthorized => -32001,
            ProxyError::PayloadTooLarge => -32600,
            ProxyError::AllUpstreamsExhausted { .. } => -32005,
            ProxyError::BadGateway(_) => -32603,
        }
    }

    /// This error in words.
    pub open spec fn text(&self) -> Seq<char> {
        match self {
            ProxyError::Unauthorized => "unauthorized"@,
            ProxyError::PayloadTooLarge => "payload too large"@,
            ProxyError::AllUpstreamsExhausted { .. } => "all upstreams exhausted"@,
            ProxyError::BadGateway(reason) => "bad gateway: "@ + reason@,
        }
    }

    /// When to come back, where this error knows it.
    pub open spec fn retry_after(&self) -> Option<u64> {
        match self {
            ProxyError::AllUpstreamsExhausted { retry_after_secs } => *retry_after_secs,
            _ => None,
        }
    }

    /// The HTTP status of this error.
    pub fn status(&self) -> (status: u16)
        ensures
            status == self.http_status(),
    {
        match self {
            ProxyError::Unauthorized => 401,
            ProxyError::PayloadTooLarge => 413,
            ProxyError::AllUpstreamsExhausted { .. } => 429,
            ProxyError::BadGateway(_) => 502,
        }
    }

    /// JSON-RPC error code, mirroring Helius conventions where relevant.
    pub fn rpc_code(&self) -> (code: i64)
        ensures
            code == self.json_rpc_code(),
    {
        match self {
            ProxyError::Unauthorized => -32001,
            ProxyError::PayloadTooLarge => -32600,
            ProxyError::AllUpstreamsExhausted { .. } => -32005,  // "Too many requests"
            ProxyError::BadGateway(_) => -32603,
        }
    }

    /// This error in words.
    pub fn message(&self) -> (message: String)
        ensures
            message@ == self.text(),
    {
        match self {
            ProxyError::Unauthorized => "unauthorized".to_owned(),
            ProxyError::PayloadTooLarge => "payload too large".to_owned(),
            ProxyError::AllUpstreamsExhausted { .. } => "all upstreams exhausted".to_owned(),
            ProxyError::BadGateway(reason) => "bad gateway: ".to_owned().concat(reason.as_str()),
        }
    }

    /// What the client is answered.
    pub fn into_response(self) -> (reply: ErrorReply)
        ensures
            reply.status == self.http_status(),
            reply.retry_after_secs == self.retry_after(),
            reply.code == self.json_rpc_code(),
            reply.message@ == self.text(),
    {
        let status = self.status();
        let code = self.rpc_code();
        let message = self.message();
        let retry_after_secs = match self {
            ProxyError::AllUpstreamsExhausted { retry_after_secs } => retry_after_secs,
            _ => None,
        };
        ErrorReply { status, retry_after_secs, code, message }
    }
}

} // verus!
