//! Choosing and addressing the chat backend of an OpenAI-compatible API.
use vstd::prelude::*;
use crate::text::{chars_of, eq_lit, push_all, push_str, string_of};
use crate::num::{dec, dec_chars};
use crate::search::strip_end;

verus! {

/// The providers a session can talk to.
#[derive(Debug, Clone, Copy, PartialEq, Eq)]
pub enum Provider {
    VolcEngine,
    Kimi,
    /// Also the choice for any other name.
    DeepSeek,
}

/// The provider configured under `name`: "volcengine", "kimi", else
/// DeepSeek.
pub fn provider_of(name: &str) -> (r: Provider)
    ensures
        r == (if name@ == "volcengine"@ {
            Provider::VolcEngine
        } else if name@ == "kimi"@ {
            Provider::Kimi
        } else {
            Provider::DeepSeek
        }),
{
    let n = chars_of(name);
    if eq_lit(&n, "volcengine") {
        Provider::VolcEngine
    } else if eq_lit(&n, "kimi") {
        Provider::Kimi
    } else {
        Provider::DeepSeek
    }
}

/// The VolcEngine (Ark) API used when no other address is configured.
pub const VOLCENGINE_BASE_URL: &'static str = "https://ark.cn-beijing.volces.com/api/v3";

/// The VolcEngine address: the configured one, else the default.
pub fn volcengine_base_url(base: Option<String>) -> (r: String)
    ensures
        r@ == (match base {
            Some(b) => b@,
            None => VOLCENGINE_BASE_URL@,
        }),
{
    match base {
        Some(b) => b,
        None => String::from_str(VOLCENGINE_BASE_URL),
    }
}

/// Where chat completions are requested: the base address without
/// trailing '/', then "/chat/completions".
pub open spec fn completions_url(base: Seq<char>) -> Seq<char> {
    strip_end(base, '/') + "/chat/completions"@
}

pub fn chat_url(base: &str) -> (r: String)
    ensures
        r@ == completions_url(base@),
{
    let b = chars_of(base);
    let mut v = crate::search::strip_end_chars(&b, '/');
    push_str(&mut v, "/chat/completions");
    string_of(&v)
}

/// The tokens a reply may use when the request sets no limit.
pub const DEFAULT_MAX_TOKENS: u32 = 4096;

pub fn max_tokens_of(requested: Option<u32>) -> (r: u32)
    ensures
        r == (match requested {
            Some(n) => n,
            None => DEFAULT_MAX_TOKENS,
        }),
{
    match requested {
        Some(n) => n,
        None => DEFAULT_MAX_TOKENS,
    }
}

/// The error event of a refused chat request: "HTTP <code> <reason>: <body>"
/// (the reason empty when the status has none).
pub fn chat_http_error(code: u16, reason: Option<&str>, body: &str) -> (r: String)
    ensures
        r@ == "HTTP "@ + dec(code as nat) + " "@ + (match reason {
            Some(s) => s@,
            None => seq![],
        }) + ": "@ + body@,
{
    let mut v: Vec<char> = Vec::new();
    push_str(&mut v, "HTTP ");
    let d = dec_chars(code as u64);
    push_all(&mut v, &d);
    push_str(&mut v, " ");
    match reason {
        Some(s) => push_str(&mut v, s),
        None => {},
    }
    push_str(&mut v, ": ");
    push_str(&mut v, body);
    string_of(&v)
}

/// The error event of a broken reply stream.
pub fn stream_error(e: &str) -> (r: String)
    ensures
        r@ == "Stream error: "@ + e@,
{
    let mut v: Vec<char> = Vec::new();
    push_str(&mut v, "Stream error: ");
    push_str(&mut v, e);
    string_of(&v)
}

} // verus!
