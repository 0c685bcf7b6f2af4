//! The typed values of the wire format, and their mathematical model.
//!
//! `Value` is the executable type. Contracts speak of `ValueModel`, the
//! mathematical image of a `Value` under [`Value::dv`]: strings become
//! sequences of characters, vectors become sequences, and every nested
//! value is modelled the same way.

use vstd::prelude::*;

verus! {

/// A protocol-transmittable datum.
///
/// Floating-point fields are carried as their raw IEEE-754 bit patterns:
/// the engine moves them across the wire bit-exactly and never computes
/// with them, and callers convert at the boundary.
#[derive(Debug)]
pub enum Value {
    Null,
    Bool(bool),
    Integer(i64),
    /// IEEE-754 double bits.
    Float(u64),
    Str(String),
    Bytes(Vec<u8>),
    List(Vec<Value>),
    /// Keys are unique in every map the driver builds; decoded maps carry
    /// whatever the server sent.
    Dictionary(Vec<(String, Value)>),
    Node(BoltNode),
    Relationship(BoltRelationship),
    UnboundRelationship(BoltUnboundRelationship),
    Path(BoltPath),
    Point2D(BoltPoint2D),
    Point3D(BoltPoint3D),
}

/// A graph node: identity, labels, properties.
#[derive(Debug)]
pub struct BoltNode {
    pub id: i64,
    pub labels: Vec<String>,
    pub properties: Vec<(String, Value)>,
}

/// A relationship bound to its endpoints.
#[derive(Debug)]
pub struct BoltRelationship {
    pub id: i64,
    pub start_node_id: i64,
    pub end_node_id: i64,
    pub typ: String,
    pub properties: Vec<(String, Value)>,
}

/// A relationship as it appears inside a path, without endpoints.
#[derive(Debug)]
pub struct BoltUnboundRelationship {
    pub id: i64,
    pub typ: String,
    pub properties: Vec<(String, Value)>,
}

/// An alternating walk: nodes, the relationships among them, and the
/// index sequence that orders the walk.
#[derive(Debug)]
pub struct BoltPath {
    pub nodes: Vec<BoltNode>,
    pub relationships: Vec<BoltUnboundRelationship>,
    pub indices: Vec<i64>,
}

/// A 2-dimensional spatial point; coordinates are IEEE-754 double bits.
#[derive(Clone, Copy, PartialEq, Eq, Structural, Debug)]
pub struct BoltPoint2D {
    pub srid: i64,
    pub x: u64,
    pub y: u64,
}

/// A 3-dimensional spatial point; coordinates are IEEE-754 double bits.
#[derive(Clone, Copy, PartialEq, Eq, Structural, Debug)]
pub struct BoltPoint3D {
    pub srid: i64,
    pub x: u64,
    pub y: u64,
    pub z: u64,
}

/// The mathematical image of a `Value`.
pub enum ValueModel {
    Null,
    Bool(bool),
    Integer(i64),
    Float(u64),
    Str(Seq<char>),
    Bytes(Seq<u8>),
    List(Seq<ValueModel>),
    Dictionary(Seq<(Seq<char>, ValueModel)>),
    Node(NodeModel),
    Relationship(RelationshipModel),
    UnboundRelationship(UnboundModel),
    Path(PathModel),
    Point2D(BoltPoint2D),
    Point3D(BoltPoint3D),
}

pub struct NodeModel {
    pub id: i64,
    pub labels: Seq<Seq<char>>,
    pub properties: Seq<(Seq<char>, ValueModel)>,
}

pub struct RelationshipModel {
    pub id: i64,
    pub start_node_id: i64,
    pub end_node_id: i64,
    pub typ: Seq<char>,
    pub properties: Seq<(Seq<char>, ValueModel)>,
}

pub struct UnboundModel {
    pub id: i64,
    pub typ: Seq<char>,
    pub properties: Seq<(Seq<char>, ValueModel)>,
}

pub struct PathModel {
    pub nodes: Seq<NodeModel>,
    pub relationships: Seq<UnboundModel>,
    pub indices: Seq<i64>,
}

pub open spec fn dv_seq(s: Seq<Value>) -> Seq<ValueModel>
    decreases s,
{
    if s.len() == 0 {
        Seq::empty()
    } else {
        seq![s[0].dv()] + dv_seq(s.drop_first())
    }
}

pub open spec fn dv_entries(s: Seq<(String, Value)>) -> Seq<(Seq<char>, ValueModel)>
    decreases s,
{
    if s.len() == 0 {
        Seq::empty()
    } else {
        seq![(s[0].0@, s[0].1.dv())] + dv_entries(s.drop_first())
    }
}

pub open spec fn dv_strs(s: Seq<String>) -> Seq<Seq<char>> {
    s.map(|i: int, x: String| x@)
}

pub open spec fn dv_nodes(s: Seq<BoltNode>) -> Seq<NodeModel>
    decreases s,
{
    if s.len() == 0 {
        Seq::empty()
    } else {
        seq![s[0].dv()] + dv_nodes(s.drop_first())
    }
}

pub open spec fn dv_unbounds(s: Seq<BoltUnboundRelationship>) -> Seq<UnboundModel>
    decreases s,
{
    if s.len() == 0 {
        Seq::empty()
    } else {
        seq![s[0].dv()] + dv_unbounds(s.drop_first())
    }
}

impl Value {
    /// The mathematical model of this value.
    pub open spec fn dv(self) -> ValueModel
        decreases self,
    {
        match self {
            Value::Null => ValueModel::Null,
            Value::Bool(b) => ValueModel::Bool(b),
            Value::Integer(n) => ValueModel::Integer(n),
            Value::Float(bits) => ValueModel::Float(bits),
            Value::Str(s) => ValueModel::Str(s@),
            Value::Bytes(b) => ValueModel::Bytes(b@),
            Value::List(items) => ValueModel::List(dv_seq(items@)),
            Value::Dictionary(entries) => ValueModel::Dictionary(dv_entries(entries@)),
            Value::Node(n) => ValueModel::Node(n.dv()),
            Value::Relationship(r) => ValueModel::Relationship(r.dv()),
            Value::UnboundRelationship(r) => ValueModel::UnboundRelationship(r.dv()),
            Value::Path(p) => ValueModel::Path(p.dv()),
            Value::Point2D(p) => ValueModel::Point2D(p),
            Value::Point3D(p) => ValueModel::Point3D(p),
        }
    }
}

impl BoltNode {
    pub open spec fn dv(self) -> NodeModel
        decreases self,
    {
        NodeModel {
            id: self.id,
            labels: dv_strs(self.labels@),
            properties: dv_entries(self.properties@),
        }
    }
}

impl BoltRelationship {
    pub open spec fn dv(self) -> RelationshipModel
        decreases self,
    {
        RelationshipModel {
            id: self.id,
            start_node_id: self.start_node_id,
            end_node_id: self.end_node_id,
            typ: self.typ@,
            properties: dv_entries(self.properties@),
        }
    }
}

impl BoltUnboundRelationship {
    pub open spec fn dv(self) -> UnboundModel
        decreases self,
    {
        UnboundModel { id: self.id, typ: self.typ@, properties: dv_entries(self.properties@) }
    }
}

impl BoltPath {
    pub open spec fn dv(self) -> PathModel
        decreases self,
    {
        PathModel {
            nodes: dv_nodes(self.nodes@),
            relationships: dv_unbounds(self.relationships@),
            indices: self.indices@,
        }
    }
}

/// A string is representable when its UTF-8 form fits a 32-bit length field.
pub open spec fn str_wf(s: Seq<char>) -> bool {
    vstd::utf8::encode_utf8(s).len() < 0x1_0000_0000
}

/// A short ASCII string is representable: its UTF-8 form is one byte per
/// character.
pub proof fn lemma_ascii_str_wf(s: Seq<char>)
    requires
        s.len() < 0x1_0000_0000,
        vstd::utf8::is_ascii_chars(s),
    ensures
        str_wf(s),
{
    vstd::utf8::is_ascii_chars_encode_utf8(s);
}

/// A property map is representable when it fits a 32-bit length field and
/// every key and value is representable.
pub open spec fn map_wf(es: Seq<(Seq<char>, ValueModel)>) -> bool
    decreases es,
{
    &&& es.len() < 0x1_0000_0000
    &&& forall|i: int| 0 <= i < es.len() ==> str_wf(#[trigger] es[i].0)
    &&& forall|i: int| 0 <= i < es.len() ==> (#[trigger] es[i].1).wf()
}

pub open spec fn node_wf(n: NodeModel) -> bool
    decreases n,
{
    &&& n.labels.len() < 0x1_0000_0000
    &&& forall|i: int| 0 <= i < n.labels.len() ==> str_wf(#[trigger] n.labels[i])
    &&& map_wf(n.properties)
}

pub open spec fn unbound_wf(r: UnboundModel) -> bool
    decreases r,
{
    str_wf(r.typ) && map_wf(r.properties)
}

impl ValueModel {
    /// Representable: every length fits the widest explicit length field
    /// of the wire format.
    pub open spec fn wf(self) -> bool
        decreases self,
    {
        match self {
            ValueModel::Null => true,
            ValueModel::Bool(_) => true,
            ValueModel::Integer(_) => true,
            ValueModel::Float(_) => true,
            ValueModel::Str(s) => str_wf(s),
            ValueModel::Bytes(b) => b.len() < 0x1_0000_0000,
            ValueModel::List(items) => {
                &&& items.len() < 0x1_0000_0000
                &&& forall|i: int| 0 <= i < items.len() ==> (#[trigger] items[i]).wf()
            },
            ValueModel::Dictionary(es) => map_wf(es),
            ValueModel::Node(n) => node_wf(n),
            ValueModel::Relationship(r) => {
                str_wf(r.typ) && map_wf(r.properties)
            },
            ValueModel::UnboundRelationship(r) => unbound_wf(r),
            ValueModel::Path(p) => {
                &&& p.nodes.len() < 0x1_0000_0000
                &&& forall|i: int| 0 <= i < p.nodes.len() ==> node_wf(#[trigger] p.nodes[i])
                &&& p.relationships.len() < 0x1_0000_0000
                &&& forall|i: int|
                    0 <= i < p.relationships.len() ==> unbound_wf(#[trigger] p.relationships[i])
                &&& p.indices.len() < 0x1_0000_0000
            },
            ValueModel::Point2D(_) => true,
            ValueModel::Point3D(_) => true,
        }
    }
}

/// No two entries share a key.
pub open spec fn keys_unique(es: Seq<(Seq<char>, ValueModel)>) -> bool {
    forall|i: int, j: int| 0 <= i < j < es.len() ==> (#[trigger] es[i]).0 != (#[trigger] es[j]).0
}

} // verus!

verus! {

pub proof fn lemma_dv_seq(s: Seq<Value>)
    ensures
        dv_seq(s).len() == s.len(),
        forall|i: int| 0 <= i < s.len() ==> #[trigger] dv_seq(s)[i] == s[i].dv(),
    decreases s.len(),
{
    if s.len() > 0 {
        lemma_dv_seq(s.drop_first());
    }
}

pub proof fn lemma_dv_entries(s: Seq<(String, Value)>)
    ensures
        dv_entries(s).len() == s.len(),
        forall|i: int|
            0 <= i < s.len() ==> #[trigger] dv_entries(s)[i] == (s[i].0@, s[i].1.dv()),
    decreases s.len(),
{
    if s.len() > 0 {
        lemma_dv_entries(s.drop_first());
    }
}

pub proof fn lemma_dv_strs_len(s: Seq<String>)
    ensures
        dv_strs(s).len() == s.len(),
{
}

pub proof fn lemma_dv_nodes(s: Seq<BoltNode>)
    ensures
        dv_nodes(s).len() == s.len(),
        forall|i: int| 0 <= i < s.len() ==> #[trigger] dv_nodes(s)[i] == s[i].dv(),
    decreases s.len(),
{
    if s.len() > 0 {
        lemma_dv_nodes(s.drop_first());
    }
}

pub proof fn lemma_dv_unbounds(s: Seq<BoltUnboundRelationship>)
    ensures
        dv_unbounds(s).len() == s.len(),
        forall|i: int| 0 <= i < s.len() ==> #[trigger] dv_unbounds(s)[i] == s[i].dv(),
    decreases s.len(),
{
    if s.len() > 0 {
        lemma_dv_unbounds(s.drop_first());
    }
}

} // verus!
