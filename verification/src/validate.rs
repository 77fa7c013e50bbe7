//! Input validation at agent boundaries.
//!
//! Inputs that reach an agent come from other agents and may be wrong,
//! poisoned or malformed. The validator runs cheap structural and content
//! checks on every boundary: no oversized string or blob field, no known
//! prompt-injection marker, and the caller's own rules.

use crate::error::{AgentError, AgentResult};
use crate::text::{chars_of, contains_chars, debug_quoted, debug_text, decimal, decimal_string, occurs_in};
use crate::value::{field_views, lemma_list_view, lemma_object_view, views_of, Value, ValueView};
use vstd::prelude::*;
use vstd::string::StringExecFns;

verus! {

broadcast use vstd::std_specs::vec::group_vec_axioms;

/// The lower-case form of `s`, as `str::to_lowercase` gives it.
pub uninterp spec fn lowercased(s: Seq<char>) -> Seq<char>;

/// Calls `str::to_lowercase`, which maps every character to its Unicode
/// lower-case form; the result is named by `lowercased`.
#[verifier::external_body]
fn to_lowercase(s: &str) -> (r: String)
    ensures
        r@ == lowercased(s@),
{
    s.to_lowercase()
}

/// A validation rule. Implement it to add checks of your own.
pub trait Rule: Send + Sync {
    /// Does the rule promise that `check` answers by `verdict`? A rule
    /// that does not say so promises nothing of its answers.
    open spec fn obeys_verdict(&self) -> bool {
        false
    }

    /// The rule's decision on an input: `None` accepts the input, `Some(m)`
    /// rejects it with the reason `m`.
    open spec fn verdict(&self, input: ValueView) -> Option<Seq<char>> {
        None
    }

    /// Check an input: `Ok` when the rule accepts it, else its reason.
    fn check(&self, input: &Value) -> (r: Result<(), String>)
        ensures
            self.obeys_verdict() ==> match self.verdict(input@) {
                None => r is Ok,
                Some(m) => r matches Err(e) && e@ == m,
            },
    ;
}

/// The first rejection among the verdicts of the first `n` rules, in order.
pub open spec fn first_rejection(verdicts: Seq<Option<Seq<char>>>, n: int) -> Option<Seq<char>>
    decreases n,
{
    if n <= 0 || n > verdicts.len() {
        None
    } else {
        match first_rejection(verdicts, n - 1) {
            Some(m) => Some(m),
            None => verdicts[n - 1],
        }
    }
}

/// Law: an input passes the caller's rules only when every rule accepts it;
/// otherwise it is refused with the reason of the first rule, in order,
/// that rejects it.
pub proof fn law_every_rule_must_accept(verdicts: Seq<Option<Seq<char>>>)
    ensures
        first_rejection(verdicts, verdicts.len() as int) is None <==> forall|i: int|
            0 <= i < verdicts.len() ==> #[trigger] verdicts[i] is None,
        forall|m: Seq<char>|
            #[trigger] first_rejection(verdicts, verdicts.len() as int) == Some(m) ==> exists|i: int|
                0 <= i < verdicts.len() && verdicts[i] == Some(m) && forall|j: int| 0 <= j < i ==> #[trigger] verdicts[j] is None,
    decreases verdicts.len(),
{
    if verdicts.len() > 0 {
        let n = verdicts.len() as int;
        let init = verdicts.drop_last();
        law_every_rule_must_accept(init);
        lemma_first_rejection_take(verdicts, n - 1, n - 1);
        assert(verdicts.take(n - 1) =~= init);
        let before = first_rejection(init, n - 1);
        assert(first_rejection(verdicts, n - 1) == before);
        assert(first_rejection(verdicts, n) == match before {
            Some(m) => Some(m),
            None => verdicts[n - 1],
        });
        assert forall|i: int| 0 <= i < n - 1 implies #[trigger] init[i] == verdicts[i] by {}
        if first_rejection(verdicts, n) is None {
            assert(before is None);
            assert forall|i: int| 0 <= i < n implies #[trigger] verdicts[i] is None by {
                if i < n - 1 {
                    assert(init[i] is None);
                }
            }
        }
        if forall|i: int| 0 <= i < n ==> #[trigger] verdicts[i] is None {
            assert forall|i: int| 0 <= i < init.len() implies #[trigger] init[i] is None by {
                assert(verdicts[i] is None);
            }
            assert(before is None);
            assert(verdicts[n - 1] is None);
        }
        assert forall|m: Seq<char>|
            #[trigger] first_rejection(verdicts, verdicts.len() as int) == Some(m) implies exists|i: int|
                0 <= i < verdicts.len() && verdicts[i] == Some(m) && forall|j: int| 0 <= j < i ==> #[trigger] verdicts[j] is None by {
            if before == Some(m) {
                let i = choose|i: int|
                    0 <= i < init.len() && init[i] == Some(m) && forall|j: int| 0 <= j < i ==> #[trigger] init[j] is None;
                assert(verdicts[i] == Some(m));
                assert forall|j: int| 0 <= j < i implies #[trigger] verdicts[j] is None by {
                    assert(init[j] is None);
                }
            } else {
                assert(before is None);
                assert forall|j: int| 0 <= j < n - 1 implies #[trigger] verdicts[j] is None by {
                    assert(init[j] is None);
                }
                assert(verdicts[n - 1] == Some(m));
            }
        }
    }
}

/// The first rejection among the first `k` verdicts depends on those alone.
proof fn lemma_first_rejection_take(verdicts: Seq<Option<Seq<char>>>, n: int, k: int)
    requires
        0 <= k <= n <= verdicts.len(),
    ensures
        first_rejection(verdicts, k) == first_rejection(verdicts.take(n), k),
    decreases k,
{
    if k > 0 {
        lemma_first_rejection_take(verdicts, n, k - 1);
        assert(verdicts.take(n)[k - 1] == verdicts[k - 1]);
    }
}

/// A report from a failed validation.
#[derive(Debug)]
pub struct ValidationReport {
    pub reason: String,
}

impl Clone for ValidationReport {
    fn clone(&self) -> (r: Self)
        ensures
            r.reason@ == self.reason@,
    {
        ValidationReport { reason: self.reason.clone() }
    }
}

/// `r` is a validation error with message `m`.
pub open spec fn is_validation_error(r: AgentResult<()>, m: Seq<char>) -> bool {
    r matches Err(AgentError::Validation(e)) && e@ == m
}

/// The markers that suggest a prompt injection.
pub open spec fn default_markers() -> Seq<Seq<char>> {
    seq!["ignore previous instructions"@, "system:"@, "<|im_start|>"@]
}

/// The first of `markers` whose lower-case form occurs in `lower`.
pub open spec fn first_marker(lower: Seq<char>, markers: Seq<Seq<char>>, n: int) -> Option<Seq<char>>
    decreases n,
{
    if n <= 0 || n > markers.len() {
        None
    } else {
        match first_marker(lower, markers, n - 1) {
            Some(m) => Some(m),
            None => if occurs_in(lower, lowercased(markers[n - 1])) {
                Some(markers[n - 1])
            } else {
                None
            },
        }
    }
}

/// `prefix` followed by `a > b)`, as the size messages write it.
pub open spec fn size_message(prefix: Seq<char>, a: nat, b: nat) -> Seq<char> {
    prefix + decimal(a) + " > "@ + decimal(b) + ")"@
}

/// The first problem the size and injection scan finds in `v`, as the
/// message of the error it raises; `None` when the scan passes.
pub open spec fn scan_error(v: ValueView, max: nat, markers: Seq<Seq<char>>) -> Option<Seq<char>>
    decreases v, 0nat,
{
    match v {
        ValueView::Str(s) => {
            let n = (vstd::utf8::encode_utf8(s).len() as usize) as nat;
            if n > max {
                Some(size_message("field exceeds max bytes ("@, n, max))
            } else {
                match first_marker(lowercased(s), markers, markers.len() as int) {
                    Some(m) => Some("possible prompt injection marker: "@ + debug_quoted(m)),
                    None => None,
                }
            }
        },
        ValueView::Blob(_, bytes) => if bytes.len() > max {
            Some(size_message("blob exceeds max bytes ("@, bytes.len(), max))
        } else {
            None
        },
        ValueView::Object(fields) => scan_fields(fields, max, markers, fields.len() as int),
        ValueView::List(items) => scan_items(items, max, markers, items.len() as int),
        _ => None,
    }
}

/// The first problem in the first `n` fields.
pub open spec fn scan_fields(
    fields: Seq<(Seq<char>, ValueView)>,
    max: nat,
    markers: Seq<Seq<char>>,
    n: int,
) -> Option<Seq<char>>
    decreases fields, n,
{
    if n <= 0 || n > fields.len() {
        None
    } else {
        match scan_fields(fields, max, markers, n - 1) {
            Some(e) => Some(e),
            None => scan_error(fields[n - 1].1, max, markers),
        }
    }
}

/// The first problem in the first `n` items.
pub open spec fn scan_items(items: Seq<ValueView>, max: nat, markers: Seq<Seq<char>>, n: int) -> Option<
    Seq<char>,
>
    decreases items, n,
{
    if n <= 0 || n > items.len() {
        None
    } else {
        match scan_items(items, max, markers, n - 1) {
            Some(e) => Some(e),
            None => scan_error(items[n - 1], max, markers),
        }
    }
}

/// The input validator: a byte limit per field, the injection markers, and
/// the caller's rules.
pub struct InputValidator {
    rules: Vec<Box<dyn Rule>>,
    max_field_bytes: usize,
    injection_markers: Vec<String>,
}

impl InputValidator {
    /// The markers are the default ones.
    pub closed spec fn wf(&self) -> bool {
        Seq::new(self.injection_markers@.len(), |i: int| self.injection_markers@[i]@)
            == default_markers()
    }

    /// The byte limit on a single string or blob field.
    pub closed spec fn max_bytes(&self) -> nat {
        self.max_field_bytes as nat
    }

    /// What each rule of the caller's answers for `input`, in order.
    pub closed spec fn verdicts(&self, input: ValueView) -> Seq<Option<Seq<char>>> {
        Seq::new(self.rules@.len(), |i: int| self.rules@[i].verdict(input))
    }

    /// Every rule of the caller's promises that it answers by its verdict.
    pub closed spec fn rules_obey(&self) -> bool {
        forall|i: int| 0 <= i < self.rules@.len() ==> (#[trigger] self.rules@[i]).obeys_verdict()
    }

    /// The number of rules of the caller's.
    pub closed spec fn rule_count(&self) -> nat {
        self.rules@.len()
    }

    /// The marker texts.
    pub closed spec fn markers(&self) -> Seq<Seq<char>> {
        Seq::new(self.injection_markers@.len(), |i: int| self.injection_markers@[i]@)
    }

    /// A validator with a 64 KiB field limit, the default markers and no
    /// rules of the caller's.
    pub fn new() -> (r: Self)
        ensures
            r.wf(),
            r.max_bytes() == 65536,
            r.markers() == default_markers(),
            r.rule_count() == 0,
            r.rules_obey(),
    {
        let markers = vec![
            String::from_str("ignore previous instructions"),
            String::from_str("system:"),
            String::from_str("<|im_start|>"),
        ];
        let r = InputValidator { rules: Vec::new(), max_field_bytes: 64 * 1024, injection_markers: markers };
        assert(r.markers() =~= default_markers());
        r
    }

    /// Add a rule of the caller's, checked after the built-in scan.
    pub fn add_rule<R: Rule + 'static>(&mut self, r: R)
        ensures
            final(self).max_bytes() == old(self).max_bytes(),
            final(self).markers() == old(self).markers(),
            final(self).wf() == old(self).wf(),
            final(self).rule_count() == old(self).rule_count() + 1,
    {
        let b: Box<dyn Rule> = Box::new(r);
        let ghost before = self.rules@;
        self.rules.push(b);
        proof {
            vstd::seq::axiom_seq_push_len(before, b);
        }
    }

    pub fn with_max_field_bytes(self, n: usize) -> (r: Self)
        ensures
            r.max_bytes() == n,
            r.markers() == self.markers(),
            r.wf() == self.wf(),
            r.rule_count() == self.rule_count(),
    {
        InputValidator { max_field_bytes: n, ..self }
    }

    /// Validate an input. Null always passes; otherwise the size and
    /// injection scan runs first, then the caller's rules in order.
    pub fn validate(&self, input: &Value) -> (r: AgentResult<()>)
        ensures
            input@ == ValueView::Null ==> r is Ok,
            input@ != ValueView::Null ==> match scan_error(input@, self.max_bytes(), self.markers()) {
                Some(m) => is_validation_error(r, m),
                None => true,
            },
            input@ != ValueView::Null && self.rule_count() == 0 ==> (r is Ok <==> scan_error(
                input@,
                self.max_bytes(),
                self.markers(),
            ) is None),
            input@ != ValueView::Null && scan_error(input@, self.max_bytes(), self.markers()) is None
                && self.rules_obey() ==> match first_rejection(
                self.verdicts(input@),
                self.rule_count() as int,
            ) {
                None => r is Ok,
                Some(m) => is_validation_error(r, m),
            },
            r is Err ==> r matches Err(AgentError::Validation(_)),
    {
        if input.is_null() {
            return Ok(());
        }
        match self.scan(input) {
            Err(e) => {
                return Err(e);
            },
            Ok(()) => {},
        }
        let n = self.rules.len();
        let mut i: usize = 0;
        while i < n
            invariant
                i <= n,
                n == self.rules@.len(),
                input@ != ValueView::Null,
                scan_error(input@, self.max_bytes(), self.markers()) is None,
                self.rules_obey() ==> first_rejection(self.verdicts(input@), i as int) is None,
            decreases n - i,
        {
            match self.rules[i].check(input) {
                Err(reason) => {
                    proof {
                        if self.rules_obey() {
                            assert(self.rules@[i as int].obeys_verdict());
                            assert(self.verdicts(input@)[i as int] == Some(reason@));
                            lemma_first_rejection_stays(self.verdicts(input@), i + 1, n as int);
                        }
                    }
                    return Err(AgentError::Validation(reason));
                },
                Ok(()) => {
                    proof {
                        if self.rules_obey() {
                            assert(self.rules@[i as int].obeys_verdict());
                            assert(self.verdicts(input@)[i as int] is None);
                        }
                    }
                },
            }
            i = i + 1;
        }
        Ok(())
    }

    /// The size and injection scan over a value and everything inside it.
    fn scan(&self, v: &Value) -> (r: AgentResult<()>)
        ensures
            match scan_error(v@, self.max_bytes(), self.markers()) {
                Some(m) => is_validation_error(r, m),
                None => r is Ok,
            },
        decreases v,
    {
        match v {
            Value::Str(s) => {
                let n = s.as_str().len();
                if n > self.max_field_bytes {
                    let mut msg = String::from_str("field exceeds max bytes (");
                    let a = decimal_string(n as u64);
                    msg.append(a.as_str());
                    msg.append(" > ");
                    let b = decimal_string(self.max_field_bytes as u64);
                    msg.append(b.as_str());
                    msg.append(")");
                    proof {
                        assert(msg@ =~= size_message("field exceeds max bytes ("@, n as nat, self.max_bytes()));
                    }
                    return Err(AgentError::Validation(msg));
                }
                let lower = to_lowercase(s.as_str());
                let hay = chars_of(lower.as_str());
                let mut i: usize = 0;
                while i < self.injection_markers.len()
                    invariant
                        i <= self.injection_markers@.len(),
                        hay@ == lowercased(s@),
                        v@ == ValueView::Str(s@),
                        n == (vstd::utf8::encode_utf8(s@).len() as usize),
                        n <= self.max_field_bytes,
                        first_marker(lowercased(s@), self.markers(), i as int) is None,
                    decreases self.injection_markers.len() - i,
                {
                    let m = &self.injection_markers[i];
                    let ml = to_lowercase(m.as_str());
                    let needle = chars_of(ml.as_str());
                    if contains_chars(&hay, &needle) {
                        let mut msg = String::from_str("possible prompt injection marker: ");
                        let quoted = debug_text(m.as_str());
                        msg.append(quoted.as_str());
                        proof {
                            assert(first_marker(lowercased(s@), self.markers(), i + 1) == Some(m@));
                            lemma_first_marker_stays(lowercased(s@), self.markers(), i + 1, self.markers().len() as int);
                            assert(msg@ =~= "possible prompt injection marker: "@ + debug_quoted(m@));
                            assert(scan_error(v@, self.max_bytes(), self.markers()) == Some(msg@));
                        }
                        return Err(AgentError::Validation(msg));
                    }
                    i = i + 1;
                }
                Ok(())
            },
            Value::Blob(_, bytes) => {
                if bytes.len() > self.max_field_bytes {
                    let mut msg = String::from_str("blob exceeds max bytes (");
                    let a = decimal_string(bytes.len() as u64);
                    msg.append(a.as_str());
                    msg.append(" > ");
                    let b = decimal_string(self.max_field_bytes as u64);
                    msg.append(b.as_str());
                    msg.append(")");
                    proof {
                        assert(msg@ =~= size_message("blob exceeds max bytes ("@, bytes@.len(), self.max_bytes()));
                    }
                    return Err(AgentError::Validation(msg));
                }
                Ok(())
            },
            Value::Object(fields) => {
                let ghost fv = field_views(fields@);
                proof {
                    lemma_object_view(*fields);
                }
                let mut i: usize = 0;
                while i < fields.len()
                    invariant
                        i <= fields.len(),
                        fv == field_views(fields@),
                        *v == Value::Object(*fields),
                        v@ == ValueView::Object(fv),
                        scan_fields(fv, self.max_bytes(), self.markers(), i as int) is None,
                    decreases fields.len() - i,
                {
                    proof {
                        assert(decreases_to!(*fields => fields[i as int]));
                        assert(decreases_to!(*v => (*v)->Object_0));
                    }
                    match self.scan(&fields[i].1) {
                        Err(e) => {
                            proof {
                                assert(fv[i as int].1 == fields@[i as int].1@);
                                assert(scan_fields(fv, self.max_bytes(), self.markers(), i + 1) == scan_error(fv[i as int].1, self.max_bytes(), self.markers()));
                                lemma_scan_fields_stays(fv, self.max_bytes(), self.markers(), i + 1, fv.len() as int);
                                assert(v@ == ValueView::Object(fv));
                            }
                            return Err(e);
                        },
                        Ok(()) => {},
                    }
                    i = i + 1;
                }
                Ok(())
            },
            Value::List(items) => {
                let ghost iv = views_of(items@);
                proof {
                    lemma_list_view(*items);
                }
                let mut i: usize = 0;
                while i < items.len()
                    invariant
                        i <= items.len(),
                        iv == views_of(items@),
                        *v == Value::List(*items),
                        v@ == ValueView::List(iv),
                        scan_items(iv, self.max_bytes(), self.markers(), i as int) is None,
                    decreases items.len() - i,
                {
                    proof {
                        assert(decreases_to!(*items => items[i as int]));
                        assert(decreases_to!(*v => (*v)->List_0));
                    }
                    match self.scan(&items[i]) {
                        Err(e) => {
                            proof {
                                assert(iv[i as int] == items@[i as int]@);
                                assert(scan_items(iv, self.max_bytes(), self.markers(), i + 1) == scan_error(iv[i as int], self.max_bytes(), self.markers()));
                                lemma_scan_items_stays(iv, self.max_bytes(), self.markers(), i + 1, iv.len() as int);
                                assert(v@ == ValueView::List(iv));
                            }
                            return Err(e);
                        },
                        Ok(()) => {},
                    }
                    i = i + 1;
                }
                Ok(())
            },
            _ => Ok(()),
        }
    }
}

impl Default for InputValidator {
    fn default() -> (r: Self)
        ensures
            r.wf(),
            r.max_bytes() == 65536,
            r.markers() == default_markers(),
            r.rule_count() == 0,
            r.rules_obey(),
    {
        InputValidator::new()
    }
}

/// The first of the first `n` required names that is not a key of `keys`.
pub open spec fn first_missing(keys: Seq<Seq<char>>, required: Seq<Seq<char>>, n: int) -> Option<Seq<char>>
    decreases n,
{
    if n <= 0 || n > required.len() {
        None
    } else {
        match first_missing(keys, required, n - 1) {
            Some(m) => Some(m),
            None => if keys.contains(required[n - 1]) {
                None
            } else {
                Some(required[n - 1])
            },
        }
    }
}

/// What `RequireFields` answers for an input.
pub open spec fn require_fields_result(input: ValueView, required: Seq<Seq<char>>) -> Result<(), Seq<char>> {
    match input {
        ValueView::Object(fields) => {
            let keys = Seq::new(fields.len(), |i: int| fields[i].0);
            match first_missing(keys, required, required.len() as int) {
                Some(m) => Err("missing required field: "@ + m),
                None => Ok(()),
            }
        },
        _ => Err("expected an object"@),
    }
}

/// A rule requiring a set of object fields to be present.
pub struct RequireFields(pub Vec<String>);

impl Rule for RequireFields {
    open spec fn obeys_verdict(&self) -> bool {
        true
    }

    open spec fn verdict(&self, input: ValueView) -> Option<Seq<char>> {
        match require_fields_result(input, Seq::new(self.0@.len(), |i: int| self.0@[i]@)) {
            Ok(()) => None,
            Err(m) => Some(m),
        }
    }

    fn check(&self, input: &Value) -> (r: Result<(), String>)
        ensures
            match require_fields_result(input@, Seq::new(self.0@.len(), |i: int| self.0@[i]@)) {
                Ok(()) => r is Ok,
                Err(m) => r matches Err(e) && e@ == m,
            },
    {
        let ghost required = Seq::new(self.0@.len(), |i: int| self.0@[i]@);
        match input {
            Value::Object(fields) => {
                proof {
                    lemma_object_view(*fields);
                }
                let ghost keys = Seq::new(fields@.len(), |i: int| fields@[i].0@);
                let mut k: usize = 0;
                while k < self.0.len()
                    invariant
                        k <= self.0@.len(),
                        required == Seq::new(self.0@.len(), |i: int| self.0@[i]@),
                        keys == Seq::new(fields@.len(), |i: int| fields@[i].0@),
                        input@ == ValueView::Object(field_views(fields@)),
                        first_missing(keys, required, k as int) is None,
                    decreases self.0.len() - k,
                {
                    let req = &self.0[k];
                    let mut found = false;
                    let mut j: usize = 0;
                    while j < fields.len()
                        invariant
                            j <= fields@.len(),
                            keys == Seq::new(fields@.len(), |i: int| fields@[i].0@),
                            found == keys.take(j as int).contains(req@),
                        decreases fields.len() - j,
                    {
                        let ghost prefix = keys.take(j as int);
                        proof {
                            let grown = keys.take(j + 1);
                            assert(grown =~= prefix.push(keys[j as int]));
                            assert(grown.contains(req@) == (prefix.contains(req@) || keys[j as int] == req@)) by {
                                if keys[j as int] == req@ {
                                    assert(grown[j as int] == req@);
                                }
                                if prefix.contains(req@) {
                                    let w = choose|w: int| 0 <= w < prefix.len() && prefix[w] == req@;
                                    assert(grown[w] == req@);
                                }
                                if grown.contains(req@) {
                                    let w = choose|w: int| 0 <= w < grown.len() && grown[w] == req@;
                                    if w < j {
                                        assert(prefix[w] == req@);
                                    }
                                }
                            }
                        }
                        if fields[j].0 == *req {
                            found = true;
                        }
                        j = j + 1;
                    }
                    proof {
                        assert(keys.take(fields@.len() as int) =~= keys);
                    }
                    if !found {
                        let mut msg = String::from_str("missing required field: ");
                        msg.append(req.as_str());
                        proof {
                            assert(first_missing(keys, required, k + 1) == Some(req@));
                            assert(first_missing(keys, required, required.len() as int) == Some(req@)) by {
                                lemma_first_missing_stays(keys, required, k + 1, required.len() as int);
                            }
                            assert(Seq::new(fields@.len(), |i: int| field_views(fields@)[i].0) =~= keys);
                        }
                        return Err(msg);
                    }
                    k = k + 1;
                }
                proof {
                    assert(Seq::new(fields@.len(), |i: int| field_views(fields@)[i].0) =~= keys);
                }
                Ok(())
            },
            _ => Err(String::from_str("expected an object")),
        }
    }
}

proof fn lemma_first_rejection_stays(verdicts: Seq<Option<Seq<char>>>, a: int, b: int)
    requires
        0 < a <= b <= verdicts.len(),
        first_rejection(verdicts, a) is Some,
    ensures
        first_rejection(verdicts, b) == first_rejection(verdicts, a),
    decreases b - a,
{
    if a < b {
        lemma_first_rejection_stays(verdicts, a, b - 1);
    }
}

proof fn lemma_first_marker_stays(lower: Seq<char>, markers: Seq<Seq<char>>, a: int, b: int)
    requires
        0 < a <= b <= markers.len(),
        first_marker(lower, markers, a) is Some,
    ensures
        first_marker(lower, markers, b) == first_marker(lower, markers, a),
    decreases b - a,
{
    if a < b {
        lemma_first_marker_stays(lower, markers, a, b - 1);
    }
}

proof fn lemma_scan_fields_stays(
    fields: Seq<(Seq<char>, ValueView)>,
    max: nat,
    markers: Seq<Seq<char>>,
    a: int,
    b: int,
)
    requires
        0 < a <= b <= fields.len(),
        scan_fields(fields, max, markers, a) is Some,
    ensures
        scan_fields(fields, max, markers, b) == scan_fields(fields, max, markers, a),
    decreases b - a,
{
    if a < b {
        lemma_scan_fields_stays(fields, max, markers, a, b - 1);
    }
}

proof fn lemma_scan_items_stays(items: Seq<ValueView>, max: nat, markers: Seq<Seq<char>>, a: int, b: int)
    requires
        0 < a <= b <= items.len(),
        scan_items(items, max, markers, a) is Some,
    ensures
        scan_items(items, max, markers, b) == scan_items(items, max, markers, a),
    decreases b - a,
{
    if a < b {
        lemma_scan_items_stays(items, max, markers, a, b - 1);
    }
}

proof fn lemma_first_missing_stays(keys: Seq<Seq<char>>, required: Seq<Seq<char>>, a: int, b: int)
    requires
        0 < a <= b <= required.len(),
        first_missing(keys, required, a) is Some,
    ensures
        first_missing(keys, required, b) == first_missing(keys, required, a),
    decreases b - a,
{
    if a < b {
        lemma_first_missing_stays(keys, required, a, b - 1);
    }
}

} // verus!
