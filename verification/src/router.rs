use vstd::prelude::*;

use crate::cost::UsageInfo;

verus! {

/// The upstream response JSON, held as the parser produced it.
#[verifier::external_type_specification]
#[verifier::external_body]
pub struct ExValue(serde_json::Value);

/// Relies on serde_json's Value::get: the value of a key of a JSON object,
/// `None` for other values or absent keys.
#[verifier::external_body]
fn json_get<'a>(v: &'a serde_json::Value, key: &str) -> (r: Option<&'a serde_json::Value>) {
    v.get(key)
}

/// Relies on serde_json's Value::as_u64: the value of a JSON number that is
/// an unsigned 64-bit integer, `None` otherwise.
#[verifier::external_body]
fn json_as_u64(v: &serde_json::Value) -> (r: Option<u64>) {
    v.as_u64()
}

/// Relies on serde_json's to_string: the serialized text of a JSON value.
/// Serialization of a `Value` cannot fail; an empty string stands in if it
/// ever did.
#[verifier::external_body]
fn json_to_text(v: &serde_json::Value) -> (r: String) {
    match serde_json::to_string(v) {
        Ok(s) => s,
        Err(_) => String::new(),
    }
}

/// Token counts assembled from the fields of a reported `usage` object.
/// Counts above the 32-bit range wrap, as the wire type is 64-bit; a
/// missing total is the sum of the prompt and completion counts.
pub fn usage_from_fields(prompt: Option<u64>, completion: Option<u64>, total: Option<u64>) -> (r: UsageInfo)
    ensures
        ({
            let p = if prompt is Some { prompt->Some_0 } else { 0u64 };
            let c = if completion is Some { completion->Some_0 } else { 0u64 };
            &&& r.prompt_tokens == p % 0x100000000
            &&& r.completion_tokens == c % 0x100000000
            &&& r.total_tokens == if total is Some {
                (total->Some_0 % 0x100000000) as int
            } else {
                (((p % 0x100000000) + (c % 0x100000000)) % 0x100000000) as int
            }
        }),
{
    let p64: u64 = match prompt {
        Some(v) => v,
        None => 0,
    };
    let c64: u64 = match completion {
        Some(v) => v,
        None => 0,
    };
    let p: u32 = (p64 % 0x100000000) as u32;
    let c: u32 = (c64 % 0x100000000) as u32;
    let t: u32 = match total {
        Some(v) => (v % 0x100000000) as u32,
        None => ((p as u64 + c as u64) % 0x100000000) as u32,
    };
    UsageInfo { prompt_tokens: p, completion_tokens: c, total_tokens: t }
}

/// The estimator used when the upstream reports no usage: roughly one token
/// per four characters of response text, counted as completion tokens.
pub fn estimate_usage(text_len: usize) -> (r: UsageInfo)
    ensures
        r.prompt_tokens == 0,
        r.completion_tokens == (text_len as int / 4) % 0x100000000,
        r.total_tokens == r.completion_tokens,
{
    let t: u32 = ((text_len / 4) as u64 % 0x100000000) as u32;
    UsageInfo { prompt_tokens: 0, completion_tokens: t, total_tokens: t }
}

/// Read the token usage out of an upstream response. When the response
/// carries a `usage` object its `prompt_tokens`, `completion_tokens` and
/// `total_tokens` fields are taken as reported. When it does not, the
/// counts are estimated from the serialized response length divided by
/// four, and the second component is `true` so that the fallback is
/// observable and a warning can be recorded.
pub fn extract_usage(response: &serde_json::Value) -> (r: (UsageInfo, bool))
    ensures
        r.1 ==> r.0.prompt_tokens == 0 && r.0.completion_tokens == r.0.total_tokens,
{
    match json_get(response, "usage") {
        Some(usage) => {
            let prompt = match json_get(usage, "prompt_tokens") {
                Some(v) => json_as_u64(v),
                None => None,
            };
            let completion = match json_get(usage, "completion_tokens") {
                Some(v) => json_as_u64(v),
                None => None,
            };
            let total = match json_get(usage, "total_tokens") {
                Some(v) => json_as_u64(v),
                None => None,
            };
            (usage_from_fields(prompt, completion, total), false)
        },
        None => {
            let text = json_to_text(response);
            let len: usize = text.as_str().len();
            (estimate_usage(len), true)
        },
    }
}

/// How one upstream attempt ended, as the router classifies it.
#[derive(Debug, Clone, Copy, PartialEq, Eq, Structural)]
pub enum UpstreamOutcome {
    /// A 2xx response: hand the body on.
    Success,
    /// A transport failure, 5xx or 429: worth another attempt.
    RetryableFailure,
    /// Any other 4xx: the request itself is bad; do not retry.
    TerminalFailure,
}

/// Classify an HTTP status from the upstream: 2xx succeed, 5xx and 429 are
/// retryable, every other status is terminal.
pub fn classify_upstream_status(status: u16) -> (r: UpstreamOutcome)
    ensures
        r == UpstreamOutcome::Success <==> 200 <= status < 300,
        r == UpstreamOutcome::RetryableFailure <==> (status >= 500 || status == 429),
        r == UpstreamOutcome::TerminalFailure
            <==> !(200 <= status < 300) && !(status >= 500 || status == 429),
{
    if 200 <= status && status < 300 {
        UpstreamOutcome::Success
    } else if status >= 500 || status == 429 {
        UpstreamOutcome::RetryableFailure
    } else {
        UpstreamOutcome::TerminalFailure
    }
}

} // verus!
