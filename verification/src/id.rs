//! Identifiers used across all layers.
//!
//! Every entity in a run (graph, node, edge, span, trace, run, ...) gets an
//! opaque, copyable id: the 128 bits of a UUID. Distinct newtypes keep a
//! `NodeId` from being mixed up with an `EdgeId`.

use uuid::Uuid;
use vstd::prelude::*;
use vstd::string::StringExecFns;

verus! {

#[verifier::external_type_specification]
#[verifier::external_body]
pub struct ExUuid(Uuid);

/// The lower-case hexadecimal digit for `n < 16`.
pub open spec fn hex_digit(n: u128) -> char {
    if n < 10 {
        (48 + n) as char
    } else {
        (87 + n) as char
    }
}

/// The `k`-th of the 32 hexadecimal digits of `bits`, most significant
/// first.
pub open spec fn hex_digit_at(bits: u128, k: int) -> char {
    hex_digit((bits >> ((4 * (31 - k)) as u128)) & 0xfu128)
}

/// The hyphenated lower-case text of the UUID whose 128 bits are `bits`:
/// its 32 hexadecimal digits, most significant first, in groups of 8, 4, 4,
/// 4 and 12 joined by `-`.
pub open spec fn uuid_hyphenated(bits: u128) -> Seq<char> {
    Seq::new(
        36,
        |i: int|
            if i == 8 || i == 13 || i == 18 || i == 23 {
                '-'
            } else if i < 8 {
                hex_digit_at(bits, i)
            } else if i < 13 {
                hex_digit_at(bits, i - 1)
            } else if i < 18 {
                hex_digit_at(bits, i - 2)
            } else if i < 23 {
                hex_digit_at(bits, i - 3)
            } else {
                hex_digit_at(bits, i - 4)
            },
    )
}

/// The 128 bits of a UUID, its 16 bytes read in big-endian order, as
/// `Uuid::as_u128` gives them.
pub uninterp spec fn uuid_bits(u: Uuid) -> u128;

/// A version-4 layout: the version field (bits 76 to 79) holds 4 and the
/// variant field (bits 62 and 63) holds `0b10`.
pub open spec fn has_v4_layout(bits: u128) -> bool {
    &&& (bits >> 76u128) & 0xfu128 == 4u128
    &&& (bits >> 62u128) & 0x3u128 == 2u128
}

/// Calls `Uuid::new_v4`, which masks a random 128-bit number so that the
/// version field is 4 and the variant field is `0b10`. Only that layout is
/// stated of the result; the other 122 bits are random.
#[verifier::external_body]
fn new_v4_uuid() -> (r: Uuid)
    ensures
        has_v4_layout(uuid_bits(r)),
{
    Uuid::new_v4()
}

/// Calls `Uuid::as_u128`: the UUID's 128 bits, named by `uuid_bits`.
#[verifier::external_body]
fn uuid_as_u128(u: &Uuid) -> (r: u128)
    ensures
        r == uuid_bits(*u),
{
    u.as_u128()
}

/// Calls `Uuid::from_u128`, which stores the bits as 16 big-endian bytes:
/// the result is the one UUID whose bits are `bits`.
#[verifier::external_body]
fn uuid_from_u128(bits: u128) -> (r: Uuid)
    ensures
        uuid_bits(r) == bits,
        forall|v: Uuid| #[trigger] uuid_bits(v) == bits ==> v == r,
{
    Uuid::from_u128(bits)
}

/// Formats the UUID with the given bits through its `Display` impl, which
/// writes the hyphenated lower-case form (`uuid_hyphenated`).
#[verifier::external_body]
pub(crate) fn uuid_text(bits: u128) -> (r: String)
    ensures
        r@ == uuid_hyphenated(bits),
{
    Uuid::from_u128(bits).to_string()
}

/// Identifies a whole graph definition.
#[derive(Clone, Copy, Debug, PartialEq, Eq, Structural, Hash, PartialOrd, Ord)]
pub struct GraphId(pub u128);

impl GraphId {
    /// A fresh random id: the bits of a version-4 UUID.
    pub fn new() -> (r: GraphId)
        ensures
            has_v4_layout(r.0),
    {
        GraphId(uuid_as_u128(&new_v4_uuid()))
    }

    /// The id whose bits are those of `u`.
    pub fn from_uuid(u: Uuid) -> (r: GraphId)
        ensures
            r.0 == uuid_bits(u),
    {
        GraphId(uuid_as_u128(&u))
    }

    /// The uuid whose bits are this id's.
    pub fn as_uuid(&self) -> (r: Uuid)
        ensures
            uuid_bits(r) == self.0,
            forall|v: Uuid| #[trigger] uuid_bits(v) == self.0 ==> v == r,
    {
        uuid_from_u128(self.0)
    }

    /// `graph-` followed by the hyphenated uuid.
    pub fn to_string(&self) -> (r: String)
        ensures
            r@ == "graph-"@ + uuid_hyphenated(self.0),
    {
        let mut s = String::from_str("graph-");
        let t = uuid_text(self.0);
        s.append(t.as_str());
        s
    }
}

/// Identifies a node within a graph.
#[derive(Clone, Copy, Debug, PartialEq, Eq, Structural, Hash, PartialOrd, Ord)]
pub struct NodeId(pub u128);

impl NodeId {
    /// A fresh random id: the bits of a version-4 UUID.
    pub fn new() -> (r: NodeId)
        ensures
            has_v4_layout(r.0),
    {
        NodeId(uuid_as_u128(&new_v4_uuid()))
    }

    /// The id whose bits are those of `u`.
    pub fn from_uuid(u: Uuid) -> (r: NodeId)
        ensures
            r.0 == uuid_bits(u),
    {
        NodeId(uuid_as_u128(&u))
    }

    /// The uuid whose bits are this id's.
    pub fn as_uuid(&self) -> (r: Uuid)
        ensures
            uuid_bits(r) == self.0,
            forall|v: Uuid| #[trigger] uuid_bits(v) == self.0 ==> v == r,
    {
        uuid_from_u128(self.0)
    }

    /// `node-` followed by the hyphenated uuid.
    pub fn to_string(&self) -> (r: String)
        ensures
            r@ == "node-"@ + uuid_hyphenated(self.0),
    {
        let mut s = String::from_str("node-");
        let t = uuid_text(self.0);
        s.append(t.as_str());
        s
    }
}

/// Identifies an edge between two nodes.
#[derive(Clone, Copy, Debug, PartialEq, Eq, Structural, Hash, PartialOrd, Ord)]
pub struct EdgeId(pub u128);

impl EdgeId {
    /// A fresh random id: the bits of a version-4 UUID.
    pub fn new() -> (r: EdgeId)
        ensures
            has_v4_layout(r.0),
    {
        EdgeId(uuid_as_u128(&new_v4_uuid()))
    }

    /// The id whose bits are those of `u`.
    pub fn from_uuid(u: Uuid) -> (r: EdgeId)
        ensures
            r.0 == uuid_bits(u),
    {
        EdgeId(uuid_as_u128(&u))
    }

    /// The uuid whose bits are this id's.
    pub fn as_uuid(&self) -> (r: Uuid)
        ensures
            uuid_bits(r) == self.0,
            forall|v: Uuid| #[trigger] uuid_bits(v) == self.0 ==> v == r,
    {
        uuid_from_u128(self.0)
    }

    /// `edge-` followed by the hyphenated uuid.
    pub fn to_string(&self) -> (r: String)
        ensures
            r@ == "edge-"@ + uuid_hyphenated(self.0),
    {
        let mut s = String::from_str("edge-");
        let t = uuid_text(self.0);
        s.append(t.as_str());
        s
    }
}

/// Identifies a single run (one execution of a graph).
#[derive(Clone, Copy, Debug, PartialEq, Eq, Structural, Hash, PartialOrd, Ord)]
pub struct RunId(pub u128);

impl RunId {
    /// A fresh random id: the bits of a version-4 UUID.
    pub fn new() -> (r: RunId)
        ensures
            has_v4_layout(r.0),
    {
        RunId(uuid_as_u128(&new_v4_uuid()))
    }

    /// The id whose bits are those of `u`.
    pub fn from_uuid(u: Uuid) -> (r: RunId)
        ensures
            r.0 == uuid_bits(u),
    {
        RunId(uuid_as_u128(&u))
    }

    /// The uuid whose bits are this id's.
    pub fn as_uuid(&self) -> (r: Uuid)
        ensures
            uuid_bits(r) == self.0,
            forall|v: Uuid| #[trigger] uuid_bits(v) == self.0 ==> v == r,
    {
        uuid_from_u128(self.0)
    }

    /// `run-` followed by the hyphenated uuid.
    pub fn to_string(&self) -> (r: String)
        ensures
            r@ == "run-"@ + uuid_hyphenated(self.0),
    {
        let mut s = String::from_str("run-");
        let t = uuid_text(self.0);
        s.append(t.as_str());
        s
    }
}

/// Identifies a span within a causal trace (one node invocation).
#[derive(Clone, Copy, Debug, PartialEq, Eq, Structural, Hash, PartialOrd, Ord)]
pub struct SpanId(pub u128);

impl SpanId {
    /// A fresh random id: the bits of a version-4 UUID.
    pub fn new() -> (r: SpanId)
        ensures
            has_v4_layout(r.0),
    {
        SpanId(uuid_as_u128(&new_v4_uuid()))
    }

    /// The id whose bits are those of `u`.
    pub fn from_uuid(u: Uuid) -> (r: SpanId)
        ensures
            r.0 == uuid_bits(u),
    {
        SpanId(uuid_as_u128(&u))
    }

    /// The uuid whose bits are this id's.
    pub fn as_uuid(&self) -> (r: Uuid)
        ensures
            uuid_bits(r) == self.0,
            forall|v: Uuid| #[trigger] uuid_bits(v) == self.0 ==> v == r,
    {
        uuid_from_u128(self.0)
    }

    /// `span-` followed by the hyphenated uuid.
    pub fn to_string(&self) -> (r: String)
        ensures
            r@ == "span-"@ + uuid_hyphenated(self.0),
    {
        let mut s = String::from_str("span-");
        let t = uuid_text(self.0);
        s.append(t.as_str());
        s
    }
}

/// Identifies a causal trace as a whole.
#[derive(Clone, Copy, Debug, PartialEq, Eq, Structural, Hash, PartialOrd, Ord)]
pub struct TraceId(pub u128);

impl TraceId {
    /// A fresh random id: the bits of a version-4 UUID.
    pub fn new() -> (r: TraceId)
        ensures
            has_v4_layout(r.0),
    {
        TraceId(uuid_as_u128(&new_v4_uuid()))
    }

    /// The id whose bits are those of `u`.
    pub fn from_uuid(u: Uuid) -> (r: TraceId)
        ensures
            r.0 == uuid_bits(u),
    {
        TraceId(uuid_as_u128(&u))
    }

    /// The uuid whose bits are this id's.
    pub fn as_uuid(&self) -> (r: Uuid)
        ensures
            uuid_bits(r) == self.0,
            forall|v: Uuid| #[trigger] uuid_bits(v) == self.0 ==> v == r,
    {
        uuid_from_u128(self.0)
    }

    /// `trace-` followed by the hyphenated uuid.
    pub fn to_string(&self) -> (r: String)
        ensures
            r@ == "trace-"@ + uuid_hyphenated(self.0),
    {
        let mut s = String::from_str("trace-");
        let t = uuid_text(self.0);
        s.append(t.as_str());
        s
    }
}

/// Identifies a single agent instance.
#[derive(Clone, Copy, Debug, PartialEq, Eq, Structural, Hash, PartialOrd, Ord)]
pub struct AgentId(pub u128);

impl AgentId {
    /// A fresh random id: the bits of a version-4 UUID.
    pub fn new() -> (r: AgentId)
        ensures
            has_v4_layout(r.0),
    {
        AgentId(uuid_as_u128(&new_v4_uuid()))
    }

    /// The id whose bits are those of `u`.
    pub fn from_uuid(u: Uuid) -> (r: AgentId)
        ensures
            r.0 == uuid_bits(u),
    {
        AgentId(uuid_as_u128(&u))
    }

    /// The uuid whose bits are this id's.
    pub fn as_uuid(&self) -> (r: Uuid)
        ensures
            uuid_bits(r) == self.0,
            forall|v: Uuid| #[trigger] uuid_bits(v) == self.0 ==> v == r,
    {
        uuid_from_u128(self.0)
    }

    /// `agent-` followed by the hyphenated uuid.
    pub fn to_string(&self) -> (r: String)
        ensures
            r@ == "agent-"@ + uuid_hyphenated(self.0),
    {
        let mut s = String::from_str("agent-");
        let t = uuid_text(self.0);
        s.append(t.as_str());
        s
    }
}

/// Identifies a negotiation session between agents.
#[derive(Clone, Copy, Debug, PartialEq, Eq, Structural, Hash, PartialOrd, Ord)]
pub struct NegotiationId(pub u128);

impl NegotiationId {
    /// A fresh random id: the bits of a version-4 UUID.
    pub fn new() -> (r: NegotiationId)
        ensures
            has_v4_layout(r.0),
    {
        NegotiationId(uuid_as_u128(&new_v4_uuid()))
    }

    /// The id whose bits are those of `u`.
    pub fn from_uuid(u: Uuid) -> (r: NegotiationId)
        ensures
            r.0 == uuid_bits(u),
    {
        NegotiationId(uuid_as_u128(&u))
    }

    /// The uuid whose bits are this id's.
    pub fn as_uuid(&self) -> (r: Uuid)
        ensures
            uuid_bits(r) == self.0,
            forall|v: Uuid| #[trigger] uuid_bits(v) == self.0 ==> v == r,
    {
        uuid_from_u128(self.0)
    }

    /// `neg-` followed by the hyphenated uuid.
    pub fn to_string(&self) -> (r: String)
        ensures
            r@ == "neg-"@ + uuid_hyphenated(self.0),
    {
        let mut s = String::from_str("neg-");
        let t = uuid_text(self.0);
        s.append(t.as_str());
        s
    }
}

/// Identifies a human-review request.
#[derive(Clone, Copy, Debug, PartialEq, Eq, Structural, Hash, PartialOrd, Ord)]
pub struct HumanRequestId(pub u128);

impl HumanRequestId {
    /// A fresh random id: the bits of a version-4 UUID.
    pub fn new() -> (r: HumanRequestId)
        ensures
            has_v4_layout(r.0),
    {
        HumanRequestId(uuid_as_u128(&new_v4_uuid()))
    }

    /// The id whose bits are those of `u`.
    pub fn from_uuid(u: Uuid) -> (r: HumanRequestId)
        ensures
            r.0 == uuid_bits(u),
    {
        HumanRequestId(uuid_as_u128(&u))
    }

    /// The uuid whose bits are this id's.
    pub fn as_uuid(&self) -> (r: Uuid)
        ensures
            uuid_bits(r) == self.0,
            forall|v: Uuid| #[trigger] uuid_bits(v) == self.0 ==> v == r,
    {
        uuid_from_u128(self.0)
    }

    /// `human-` followed by the hyphenated uuid.
    pub fn to_string(&self) -> (r: String)
        ensures
            r@ == "human-"@ + uuid_hyphenated(self.0),
    {
        let mut s = String::from_str("human-");
        let t = uuid_text(self.0);
        s.append(t.as_str());
        s
    }
}

} // verus!
