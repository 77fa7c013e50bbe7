//! The configuration of the chat-model agent and the keys its calls are
//! recorded under.
//!
//! A model call is recorded under a key derived from its request text: the
//! 64-bit FNV-1a hash of the text's UTF-8 bytes, in hexadecimal, after
//! `llm-`. Replays look recorded responses up by that key.

use crate::agent::{AgentOutput, AgentStatus};
use crate::id::AgentId;
use crate::value::Value;
use serde_json::Value as JsonValue;
use vstd::prelude::*;
use vstd::string::StringExecFns;

verus! {

/// Calls `serde_json::Value::get` with `key`: the member under `key` when the
/// value is an object that has one. A JSON value is opaque here, so nothing
/// is stated of the result.
#[verifier::external_body]
fn json_member<'a>(v: &'a JsonValue, key: &str) -> Option<&'a JsonValue> {
    v.get(key)
}

/// Calls `serde_json::Value::as_str`: the text when the value is a JSON
/// string. A JSON value is opaque here, so nothing is stated of the result.
#[verifier::external_body]
fn json_as_text(v: &JsonValue) -> Option<String> {
    v.as_str().map(|t| t.to_string())
}

/// The reply text of a recorded response, given the text found under its
/// `reply` member: that text, or empty when there was none.
pub fn reply_text(found: Option<String>) -> (r: String)
    ensures
        r@ == match found {
            Some(t) => t@,
            None => Seq::<char>::empty(),
        },
{
    match found {
        Some(t) => t,
        None => String::new(),
    }
}

/// The output a replayed model call gives: the text of the recorded
/// response's `reply` member, or empty text when it has no string there.
pub fn replayed_reply(recorded: &JsonValue) -> (r: AgentOutput)
    ensures
        r.value is Str,
        r.status == AgentStatus::Done,
        r.message is None,
{
    let found = match json_member(recorded, "reply") {
        Some(v) => json_as_text(v),
        None => None,
    };
    AgentOutput::done(Value::Str(reply_text(found)))
}

/// Configuration of an agent that calls an OpenAI-compatible chat endpoint.
pub struct LlmConfig {
    pub agent_id: AgentId,
    pub name: String,
    pub endpoint: String,
    pub api_key: String,
    pub model: String,
}

/// The FNV-1a offset basis.
pub const FNV_OFFSET: u64 = 0xcbf2_9ce4_8422_2325;

/// The FNV-1a prime.
pub const FNV_PRIME: u64 = 0x0000_0100_0000_01b3;

/// The 64-bit FNV-1a hash of `bytes`: xor each byte in, then multiply by
/// the prime, modulo 2^64.
pub open spec fn fnv1a(bytes: Seq<u8>) -> u64
    decreases bytes.len(),
{
    if bytes.len() == 0 {
        FNV_OFFSET
    } else {
        (fnv1a(bytes.drop_last()) ^ (bytes.last() as u64)).wrapping_mul(FNV_PRIME)
    }
}

/// The 64-bit FNV-1a hash of `bytes`.
pub fn fnv1a_hash(bytes: &[u8]) -> (r: u64)
    ensures
        r == fnv1a(bytes@),
{
    let mut h: u64 = FNV_OFFSET;
    let mut i: usize = 0;
    while i < bytes.len()
        invariant
            i <= bytes@.len(),
            h == fnv1a(bytes@.take(i as int)),
        decreases bytes.len() - i,
    {
        proof {
            assert(bytes@.take(i + 1).drop_last() =~= bytes@.take(i as int));
        }
        h = (h ^ (bytes[i] as u64)).wrapping_mul(FNV_PRIME);
        i = i + 1;
    }
    proof {
        assert(bytes@.take(bytes@.len() as int) =~= bytes@);
    }
    h
}

/// The lower-case hexadecimal digit for `d`.
pub open spec fn hex_digit(d: nat) -> char {
    if d < 10 {
        crate::text::digit_char(d)
    } else if d == 10 {
        'a'
    } else if d == 11 {
        'b'
    } else if d == 12 {
        'c'
    } else if d == 13 {
        'd'
    } else if d == 14 {
        'e'
    } else {
        'f'
    }
}

/// The lower-case hexadecimal text of `n`, without leading zeros.
pub open spec fn hex(n: nat) -> Seq<char>
    decreases n,
{
    if n < 16 {
        seq![hex_digit(n)]
    } else {
        hex(n / 16).push(hex_digit(n % 16))
    }
}

fn hex_digit_of(d: u64) -> (r: char)
    requires
        d < 16,
    ensures
        r == hex_digit(d as nat),
{
    if d < 10 {
        crate::text::digit_of(d)
    } else if d == 10 {
        'a'
    } else if d == 11 {
        'b'
    } else if d == 12 {
        'c'
    } else if d == 13 {
        'd'
    } else if d == 14 {
        'e'
    } else {
        'f'
    }
}

/// The lower-case hexadecimal text of `n`, as `{:x}` writes it.
pub fn hex_string(n: u64) -> (r: String)
    ensures
        r@ == hex(n as nat),
{
    let mut digits: Vec<char> = Vec::new();
    let mut m: u64 = n;
    loop
        invariant_except_break
            m <= n,
            hex(n as nat) == hex(m as nat) + digits@.reverse(),
        ensures
            hex(n as nat) == digits@.reverse(),
        decreases m,
    {
        if m < 16 {
            let ghost before = digits@;
            digits.push(hex_digit_of(m));
            proof {
                assert(digits@.reverse() =~= seq![hex_digit(m as nat)] + before.reverse());
                assert(hex(n as nat) =~= digits@.reverse());
            }
            break;
        }
        let ghost before = digits@;
        let d = m % 16;
        digits.push(hex_digit_of(d));
        proof {
            assert(digits@.reverse() =~= seq![hex_digit(d as nat)] + before.reverse());
            assert(hex(m as nat) == hex((m / 16) as nat).push(hex_digit(d as nat)));
            assert(hex(n as nat) =~= hex((m / 16) as nat) + digits@.reverse());
        }
        m = m / 16;
    }
    let mut out = String::new();
    let mut i: usize = digits.len();
    while i > 0
        invariant
            i <= digits@.len(),
            out@ == digits@.reverse().subrange(0, (digits@.len() - i) as int),
        decreases i,
    {
        i = i - 1;
        crate::text::push_char(&mut out, digits[i]);
        proof {
            assert(out@ =~= digits@.reverse().subrange(0, (digits@.len() - i) as int));
        }
    }
    assert(out@ =~= hex(n as nat));
    out
}

/// The key a model call is recorded under: `llm-` and the hexadecimal
/// FNV-1a hash of the UTF-8 bytes of the request text.
pub fn replay_key(request: &str) -> (r: String)
    ensures
        r@ == "llm-"@ + hex(fnv1a(vstd::utf8::encode_utf8(request@)) as nat),
{
    let bytes = request.as_bytes();
    let h = fnv1a_hash(bytes);
    let mut out = String::from_str("llm-");
    let t = hex_string(h);
    out.append(t.as_str());
    out
}

/// The tokens a model reply reports: its total when that is non-zero, else
/// prompt plus completion.
pub fn usage_total(prompt: u64, completion: u64, total: u64) -> (r: u64)
    requires
        total == 0 ==> prompt + completion <= u64::MAX,
    ensures
        r == if total > 0 { total as int } else { prompt + completion },
{
    if total > 0 {
        total
    } else {
        prompt + completion
    }
}

} // verus!
