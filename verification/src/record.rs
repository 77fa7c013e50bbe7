//! The run record, for replay.
//!
//! Every model call an agent makes is recorded (request and response) into a
//! `RunRecord`, together with the blackboard seed the run started from. Fed
//! back to agents instead of a real model, the recorded responses make a run
//! reproducible.

use crate::error::json_clone;
use crate::id::SpanId;
use serde_json::Value as JsonValue;
use vstd::prelude::*;
use vstd::string::StringExecFns;

verus! {

broadcast use vstd::std_specs::vec::group_vec_axioms;

/// One recorded model call: the request that went out and the response that
/// came back, under a key derived from the request.
#[derive(Debug)]
pub struct ModelCall {
    pub span: SpanId,
    /// Which agent or step made the call.
    pub caller: String,
    /// A key derived from the request, so that replays can match calls.
    pub key: String,
    /// The request payload.
    pub request: JsonValue,
    /// The response payload that was returned.
    pub response: JsonValue,
    /// Tokens spent, if known.
    pub tokens: u64,
}

impl Clone for ModelCall {
    fn clone(&self) -> (r: Self)
        ensures
            r.span == self.span,
            r.caller@ == self.caller@,
            r.key@ == self.key@,
            r.request == self.request,
            r.response == self.response,
            r.tokens == self.tokens,
    {
        ModelCall {
            span: self.span,
            caller: self.caller.clone(),
            key: self.key.clone(),
            request: json_clone(&self.request),
            response: json_clone(&self.response),
            tokens: self.tokens,
        }
    }
}

/// The run record: the model calls in the order made, and the blackboard
/// seed of the run.
pub struct RunRecord {
    pub calls: Vec<ModelCall>,
    /// The blackboard seed at run start (slot, value).
    pub seed: Vec<(String, JsonValue)>,
}

/// The position of the first call recorded under `key`, among the first `n`.
pub open spec fn first_call(calls: Seq<ModelCall>, key: Seq<char>, n: int) -> Option<int>
    decreases n,
{
    if n <= 0 || n > calls.len() {
        None
    } else {
        match first_call(calls, key, n - 1) {
            Some(i) => Some(i),
            None => if calls[n - 1].key@ == key {
                Some(n - 1)
            } else {
                None
            },
        }
    }
}

proof fn lemma_first_call_stays(calls: Seq<ModelCall>, key: Seq<char>, a: int, b: int)
    requires
        0 < a <= b <= calls.len(),
        first_call(calls, key, a) is Some,
    ensures
        first_call(calls, key, b) == first_call(calls, key, a),
    decreases b - a,
{
    if a < b {
        lemma_first_call_stays(calls, key, a, b - 1);
    }
}

impl RunRecord {
    /// An empty record.
    pub fn new() -> (r: Self)
        ensures
            r.calls@.len() == 0,
            r.seed@.len() == 0,
    {
        RunRecord { calls: Vec::new(), seed: Vec::new() }
    }

    /// An empty log of calls over the given seed.
    pub fn with_seed(seed: Vec<(String, JsonValue)>) -> (r: Self)
        ensures
            r.calls@.len() == 0,
            r.seed == seed,
    {
        RunRecord { calls: Vec::new(), seed }
    }

    /// Append a call to the log.
    pub fn record_call(&mut self, call: ModelCall)
        ensures
            final(self).calls@ == old(self).calls@.push(call),
            final(self).seed == old(self).seed,
    {
        self.calls.push(call);
    }

    /// The response of the first call recorded under `key`.
    pub fn response_for(&self, key: &str) -> (r: Option<&JsonValue>)
        ensures
            match first_call(self.calls@, key@, self.calls@.len() as int) {
                Some(i) => r == Some(&self.calls@[i].response),
                None => r is None,
            },
    {
        let wanted = String::from_str(key);
        let mut i: usize = 0;
        while i < self.calls.len()
            invariant
                i <= self.calls@.len(),
                wanted@ == key@,
                first_call(self.calls@, key@, i as int) is None,
            decreases self.calls.len() - i,
        {
            if self.calls[i].key == wanted {
                proof {
                    assert(first_call(self.calls@, key@, i + 1) == Some(i as int));
                    lemma_first_call_stays(self.calls@, key@, i + 1, self.calls@.len() as int);
                }
                return Some(&self.calls[i].response);
            }
            i = i + 1;
        }
        None
    }
}

impl Default for RunRecord {
    fn default() -> (r: Self)
        ensures
            r.calls@.len() == 0,
            r.seed@.len() == 0,
    {
        RunRecord::new()
    }
}

/// Law: a recorded call can be looked up by its key, and recording more
/// calls never changes the answer for a key already recorded.
pub proof fn law_lookup_after_record(calls: Seq<ModelCall>, call: ModelCall)
    ensures
        first_call(calls.push(call), call.key@, (calls.len() + 1) as int) is Some,
        first_call(calls, call.key@, calls.len() as int) is Some ==> first_call(
            calls.push(call),
            call.key@,
            (calls.len() + 1) as int,
        ) == first_call(calls, call.key@, calls.len() as int),
{
    assert(calls.push(call)[calls.len() as int] == call);
    lemma_first_call_prefix(calls, call, call.key@, calls.len() as int);
}

proof fn lemma_first_call_prefix(calls: Seq<ModelCall>, call: ModelCall, key: Seq<char>, n: int)
    requires
        0 <= n <= calls.len(),
    ensures
        first_call(calls.push(call), key, n) == first_call(calls, key, n),
    decreases n,
{
    if n > 0 {
        lemma_first_call_prefix(calls, call, key, n - 1);
        assert(calls.push(call)[n - 1] == calls[n - 1]);
    }
}

} // verus!
