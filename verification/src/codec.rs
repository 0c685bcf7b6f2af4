//! The typed value codec: the compact binary form of [`Value`].
//!
//! A value starts with a one-byte marker that carries both its type and,
//! for short strings, lists, maps and structures, its length; longer
//! payloads use a marker with an explicit 1-, 2- or 4-byte big-endian
//! length field. Structures carry a one-byte signature after the length.
//!
//! The specification is `enc` (what the encoder emits) and `dec` (what the
//! decoder accepts); [`lemma_dec_enc`] proves that decoding inverts
//! encoding for every representable value.

use vstd::prelude::*;
use crate::ints::{pow256, be_bytes, from_be, lemma_be_bytes_len, lemma_from_be_be_bytes,
    lemma_pow256_values, push_be, read_be};
use crate::value::{Value, ValueModel, BoltNode, BoltRelationship, BoltUnboundRelationship,
    BoltPath, BoltPoint2D, BoltPoint3D, NodeModel, RelationshipModel, UnboundModel, PathModel,
    dv_seq, dv_entries, dv_strs, dv_nodes, dv_unbounds, str_wf, map_wf, node_wf, unbound_wf,
    lemma_dv_seq, lemma_dv_entries, lemma_dv_strs_len, lemma_dv_nodes, lemma_dv_unbounds};
use crate::errors::DecodeError;
use vstd::utf8::{encode_utf8, decode_utf8, valid_utf8};

verus! {

// Marker bytes of the wire format.
pub const MARKER_NULL: u8 = 0xC0;
pub const MARKER_FLOAT: u8 = 0xC1;
pub const MARKER_FALSE: u8 = 0xC2;
pub const MARKER_TRUE: u8 = 0xC3;
pub const MARKER_INT8: u8 = 0xC8;
pub const MARKER_INT16: u8 = 0xC9;
pub const MARKER_INT32: u8 = 0xCA;
pub const MARKER_INT64: u8 = 0xCB;
pub const MARKER_BYTES8: u8 = 0xCC;
pub const MARKER_BYTES16: u8 = 0xCD;
pub const MARKER_BYTES32: u8 = 0xCE;
pub const MARKER_TINY_STRING: u8 = 0x80;
pub const MARKER_STRING8: u8 = 0xD0;
pub const MARKER_STRING16: u8 = 0xD1;
pub const MARKER_STRING32: u8 = 0xD2;
pub const MARKER_TINY_LIST: u8 = 0x90;
pub const MARKER_LIST8: u8 = 0xD4;
pub const MARKER_LIST16: u8 = 0xD5;
pub const MARKER_LIST32: u8 = 0xD6;
pub const MARKER_TINY_MAP: u8 = 0xA0;
pub const MARKER_MAP8: u8 = 0xD8;
pub const MARKER_MAP16: u8 = 0xD9;
pub const MARKER_MAP32: u8 = 0xDA;
pub const MARKER_TINY_STRUCT: u8 = 0xB0;

// Structure signature bytes of the graph entities.
pub const SIG_NODE: u8 = 0x4E;
pub const SIG_RELATIONSHIP: u8 = 0x52;
pub const SIG_UNBOUND_RELATIONSHIP: u8 = 0x72;
pub const SIG_PATH: u8 = 0x50;
pub const SIG_POINT_2D: u8 = 0x58;
pub const SIG_POINT_3D: u8 = 0x59;

/// The marker bytes the wire format defines.
pub open spec fn marker_recognized(b: u8) -> bool {
    ||| b < 0xC0
    ||| b >= 0xF0
    ||| MARKER_NULL <= b <= MARKER_TRUE
    ||| MARKER_INT8 <= b <= MARKER_BYTES32
    ||| MARKER_STRING8 <= b <= MARKER_STRING32
    ||| MARKER_LIST8 <= b <= MARKER_LIST32
    ||| MARKER_MAP8 <= b <= MARKER_MAP32
}

/// The signature and field-count pairs that name a graph structure.
pub open spec fn struct_known(size: nat, sig: u8) -> bool {
    ||| sig == SIG_NODE && size == 3
    ||| sig == SIG_RELATIONSHIP && size == 5
    ||| sig == SIG_UNBOUND_RELATIONSHIP && size == 3
    ||| sig == SIG_PATH && size == 3
    ||| sig == SIG_POINT_2D && size == 3
    ||| sig == SIG_POINT_3D && size == 4
}

// ---------------------------------------------------------------------
// Specification: encoding
// ---------------------------------------------------------------------

/// A length header: a tiny marker for lengths under 16, otherwise an
/// explicit-size marker followed by the big-endian length.
pub open spec fn enc_size(tiny: u8, m8: u8, m16: u8, m32: u8, len: nat) -> Seq<u8> {
    if len < 16 {
        seq![(tiny + len) as u8]
    } else if len < 0x100 {
        seq![m8] + be_bytes(len, 1)
    } else if len < 0x1_0000 {
        seq![m16] + be_bytes(len, 2)
    } else {
        seq![m32] + be_bytes(len, 4)
    }
}

/// The unsigned `w`-byte image of a signed value (two's complement).
pub open spec fn unsigned_of(n: int, w: nat) -> nat {
    if n >= 0 {
        n as nat
    } else {
        (n + pow256(w)) as nat
    }
}

/// The signed value of an unsigned `w`-byte field (two's complement).
pub open spec fn signed_of(m: nat, w: nat) -> int {
    if m < pow256(w) / 2 {
        m as int
    } else {
        m - pow256(w)
    }
}

/// An integer takes the narrowest of the five integer encodings.
pub open spec fn enc_int(n: i64) -> Seq<u8> {
    if -16 <= n <= 127 {
        seq![(unsigned_of(n as int, 1) as u8)]
    } else if -0x80 <= n <= 0x7F {
        seq![MARKER_INT8] + be_bytes(unsigned_of(n as int, 1), 1)
    } else if -0x8000 <= n <= 0x7FFF {
        seq![MARKER_INT16] + be_bytes(unsigned_of(n as int, 2), 2)
    } else if -0x8000_0000 <= n <= 0x7FFF_FFFF {
        seq![MARKER_INT32] + be_bytes(unsigned_of(n as int, 4), 4)
    } else {
        seq![MARKER_INT64] + be_bytes(unsigned_of(n as int, 8), 8)
    }
}

pub open spec fn enc_float(bits: u64) -> Seq<u8> {
    seq![MARKER_FLOAT] + be_bytes(bits as nat, 8)
}

pub open spec fn enc_str(s: Seq<char>) -> Seq<u8> {
    enc_size(MARKER_TINY_STRING, MARKER_STRING8, MARKER_STRING16, MARKER_STRING32,
        encode_utf8(s).len()) + encode_utf8(s)
}

pub open spec fn enc_bytes(b: Seq<u8>) -> Seq<u8> {
    if b.len() < 0x100 {
        seq![MARKER_BYTES8] + be_bytes(b.len(), 1) + b
    } else if b.len() < 0x1_0000 {
        seq![MARKER_BYTES16] + be_bytes(b.len(), 2) + b
    } else {
        seq![MARKER_BYTES32] + be_bytes(b.len(), 4) + b
    }
}

pub open spec fn enc_list_size(len: nat) -> Seq<u8> {
    enc_size(MARKER_TINY_LIST, MARKER_LIST8, MARKER_LIST16, MARKER_LIST32, len)
}

pub open spec fn enc_map_size(len: nat) -> Seq<u8> {
    enc_size(MARKER_TINY_MAP, MARKER_MAP8, MARKER_MAP16, MARKER_MAP32, len)
}

/// Strings in sequence, without a header.
pub open spec fn enc_strs(ls: Seq<Seq<char>>) -> Seq<u8>
    decreases ls.len(),
{
    if ls.len() == 0 {
        Seq::empty()
    } else {
        enc_str(ls[0]) + enc_strs(ls.drop_first())
    }
}

/// Integers in sequence, without a header.
pub open spec fn enc_ints(is: Seq<i64>) -> Seq<u8>
    decreases is.len(),
{
    if is.len() == 0 {
        Seq::empty()
    } else {
        enc_int(is[0]) + enc_ints(is.drop_first())
    }
}

pub open spec fn enc(v: ValueModel) -> Seq<u8>
    decreases v, 1nat,
{
    match v {
        ValueModel::Null => seq![MARKER_NULL],
        ValueModel::Bool(b) => if b { seq![MARKER_TRUE] } else { seq![MARKER_FALSE] },
        ValueModel::Integer(n) => enc_int(n),
        ValueModel::Float(bits) => enc_float(bits),
        ValueModel::Str(s) => enc_str(s),
        ValueModel::Bytes(b) => enc_bytes(b),
        ValueModel::List(items) => enc_list_size(items.len()) + enc_items(items),
        ValueModel::Dictionary(es) => enc_map_size(es.len()) + enc_entries(es),
        ValueModel::Node(n) => seq![(MARKER_TINY_STRUCT + 3) as u8, SIG_NODE] + enc_node_body(n),
        ValueModel::Relationship(r) => seq![(MARKER_TINY_STRUCT + 5) as u8, SIG_RELATIONSHIP]
            + enc_rel_body(r),
        ValueModel::UnboundRelationship(r) => seq![(MARKER_TINY_STRUCT + 3) as u8,
            SIG_UNBOUND_RELATIONSHIP] + enc_unbound_body(r),
        ValueModel::Path(p) => seq![(MARKER_TINY_STRUCT + 3) as u8, SIG_PATH] + enc_path_body(p),
        ValueModel::Point2D(p) => seq![(MARKER_TINY_STRUCT + 3) as u8, SIG_POINT_2D]
            + enc_int(p.srid) + enc_float(p.x) + enc_float(p.y),
        ValueModel::Point3D(p) => seq![(MARKER_TINY_STRUCT + 4) as u8, SIG_POINT_3D]
            + enc_int(p.srid) + enc_float(p.x) + enc_float(p.y) + enc_float(p.z),
    }
}

pub open spec fn enc_items(items: Seq<ValueModel>) -> Seq<u8>
    decreases items, 2nat,
{
    if items.len() == 0 {
        Seq::empty()
    } else {
        enc(items[0]) + enc_items(items.drop_first())
    }
}

pub open spec fn enc_entries(es: Seq<(Seq<char>, ValueModel)>) -> Seq<u8>
    decreases es, 2nat,
{
    if es.len() == 0 {
        Seq::empty()
    } else {
        enc_str(es[0].0) + enc(es[0].1) + enc_entries(es.drop_first())
    }
}

/// The three fields of a node structure: identity, labels, properties.
pub open spec fn enc_node_body(n: NodeModel) -> Seq<u8>
    decreases n, 2nat,
{
    enc_int(n.id) + enc_list_size(n.labels.len()) + enc_strs(n.labels)
        + enc_map_size(n.properties.len()) + enc_entries(n.properties)
}

/// The five fields of a relationship structure.
pub open spec fn enc_rel_body(r: RelationshipModel) -> Seq<u8>
    decreases r, 2nat,
{
    enc_int(r.id) + enc_int(r.start_node_id) + enc_int(r.end_node_id) + enc_str(r.typ)
        + enc_map_size(r.properties.len()) + enc_entries(r.properties)
}

/// The three fields of an unbound relationship structure.
pub open spec fn enc_unbound_body(r: UnboundModel) -> Seq<u8>
    decreases r, 2nat,
{
    enc_int(r.id) + enc_str(r.typ) + enc_map_size(r.properties.len()) + enc_entries(r.properties)
}

/// The three fields of a path structure: nodes, relationships, indices.
pub open spec fn enc_path_body(p: PathModel) -> Seq<u8>
    decreases p, 2nat,
{
    enc_list_size(p.nodes.len()) + enc_node_structs(p.nodes)
        + enc_list_size(p.relationships.len()) + enc_unbound_structs(p.relationships)
        + enc_list_size(p.indices.len()) + enc_ints(p.indices)
}

pub open spec fn enc_node_structs(ns: Seq<NodeModel>) -> Seq<u8>
    decreases ns, 3nat,
{
    if ns.len() == 0 {
        Seq::empty()
    } else {
        seq![(MARKER_TINY_STRUCT + 3) as u8, SIG_NODE] + enc_node_body(ns[0])
            + enc_node_structs(ns.drop_first())
    }
}

pub open spec fn enc_unbound_structs(rs: Seq<UnboundModel>) -> Seq<u8>
    decreases rs, 3nat,
{
    if rs.len() == 0 {
        Seq::empty()
    } else {
        seq![(MARKER_TINY_STRUCT + 3) as u8, SIG_UNBOUND_RELATIONSHIP] + enc_unbound_body(rs[0])
            + enc_unbound_structs(rs.drop_first())
    }
}

// ---------------------------------------------------------------------
// Specification: decoding
// ---------------------------------------------------------------------

/// The continuation after a recursive parse: the parsed suffix, clamped so
/// that the parser's termination is structural. On every reachable path the
/// suffix is strictly shorter and the clamp changes nothing.
pub open spec fn step(s: Seq<u8>, r: Seq<u8>) -> Seq<u8> {
    if r.len() < s.len() {
        r
    } else {
        Seq::empty()
    }
}

/// Reads any of the five integer encodings.
pub open spec fn dec_int_any(s: Seq<u8>) -> Option<(i64, Seq<u8>)> {
    if s.len() == 0 {
        None
    } else {
        let b = s[0];
        if b < 0x80 {
            Some(((b as i64), s.drop_first()))
        } else if b >= 0xF0 {
            Some(((b - 0x100) as i64, s.drop_first()))
        } else if b == MARKER_INT8 && s.len() >= 2 {
            Some(((signed_of(s[1] as nat, 1) as i64), s.skip(2)))
        } else if b == MARKER_INT16 && s.len() >= 3 {
            Some(((signed_of(from_be(s.subrange(1, 3)), 2) as i64), s.skip(3)))
        } else if b == MARKER_INT32 && s.len() >= 5 {
            Some(((signed_of(from_be(s.subrange(1, 5)), 4) as i64), s.skip(5)))
        } else if b == MARKER_INT64 && s.len() >= 9 {
            Some(((signed_of(from_be(s.subrange(1, 9)), 8) as i64), s.skip(9)))
        } else {
            None
        }
    }
}

/// Reads a string in any of its four encodings.
pub open spec fn dec_str_any(s: Seq<u8>) -> Option<(Seq<char>, Seq<u8>)> {
    if s.len() == 0 {
        None
    } else {
        let b = s[0];
        if MARKER_TINY_STRING <= b < MARKER_TINY_STRING + 16 {
            dec_str_data(s.drop_first(), (b - MARKER_TINY_STRING) as nat)
        } else if b == MARKER_STRING8 && s.len() >= 2 {
            dec_str_data(s.skip(2), s[1] as nat)
        } else if b == MARKER_STRING16 && s.len() >= 3 {
            dec_str_data(s.skip(3), from_be(s.subrange(1, 3)))
        } else if b == MARKER_STRING32 && s.len() >= 5 {
            dec_str_data(s.skip(5), from_be(s.subrange(1, 5)))
        } else {
            None
        }
    }
}

/// Takes `len` bytes and decodes them as UTF-8.
pub open spec fn dec_str_data(s: Seq<u8>, len: nat) -> Option<(Seq<char>, Seq<u8>)> {
    if s.len() >= len && valid_utf8(s.take(len as int)) {
        Some((decode_utf8(s.take(len as int)), s.skip(len as int)))
    } else {
        None
    }
}

/// Reads a float field: its eight payload bytes are the IEEE-754 bits.
pub open spec fn dec_float_bits(s: Seq<u8>) -> Option<(u64, Seq<u8>)> {
    if s.len() >= 9 && s[0] == MARKER_FLOAT {
        Some(((from_be(s.subrange(1, 9)) as u64), s.skip(9)))
    } else {
        None
    }
}

/// Reads a list header, yielding the element count.
pub open spec fn dec_list_header(s: Seq<u8>) -> Option<(nat, Seq<u8>)> {
    if s.len() == 0 {
        None
    } else {
        let b = s[0];
        if MARKER_TINY_LIST <= b < MARKER_TINY_LIST + 16 {
            Some(((b - MARKER_TINY_LIST) as nat, s.drop_first()))
        } else if b == MARKER_LIST8 && s.len() >= 2 {
            Some((s[1] as nat, s.skip(2)))
        } else if b == MARKER_LIST16 && s.len() >= 3 {
            Some((from_be(s.subrange(1, 3)), s.skip(3)))
        } else if b == MARKER_LIST32 && s.len() >= 5 {
            Some((from_be(s.subrange(1, 5)), s.skip(5)))
        } else {
            None
        }
    }
}

/// Reads a map header, yielding the entry count.
pub open spec fn dec_map_header(s: Seq<u8>) -> Option<(nat, Seq<u8>)> {
    if s.len() == 0 {
        None
    } else {
        let b = s[0];
        if MARKER_TINY_MAP <= b < MARKER_TINY_MAP + 16 {
            Some(((b - MARKER_TINY_MAP) as nat, s.drop_first()))
        } else if b == MARKER_MAP8 && s.len() >= 2 {
            Some((s[1] as nat, s.skip(2)))
        } else if b == MARKER_MAP16 && s.len() >= 3 {
            Some((from_be(s.subrange(1, 3)), s.skip(3)))
        } else if b == MARKER_MAP32 && s.len() >= 5 {
            Some((from_be(s.subrange(1, 5)), s.skip(5)))
        } else {
            None
        }
    }
}

/// Reads `n` strings in sequence.
pub open spec fn dec_strs(s: Seq<u8>, n: nat) -> Option<(Seq<Seq<char>>, Seq<u8>)>
    decreases n,
{
    if n == 0 {
        Some((Seq::empty(), s))
    } else {
        match dec_str_any(s) {
            None => None,
            Some((head, r)) => match dec_strs(r, (n - 1) as nat) {
                None => None,
                Some((tail, r2)) => Some((seq![head] + tail, r2)),
            },
        }
    }
}

/// Reads `n` integers in sequence.
pub open spec fn dec_ints(s: Seq<u8>, n: nat) -> Option<(Seq<i64>, Seq<u8>)>
    decreases n,
{
    if n == 0 {
        Some((Seq::empty(), s))
    } else {
        match dec_int_any(s) {
            None => None,
            Some((head, r)) => match dec_ints(r, (n - 1) as nat) {
                None => None,
                Some((tail, r2)) => Some((seq![head] + tail, r2)),
            },
        }
    }
}

/// Reads one value.
pub open spec fn dec(s: Seq<u8>) -> Option<(ValueModel, Seq<u8>)>
    decreases s.len(), 0nat,
{
    if s.len() == 0 {
        None
    } else {
        let b = s[0];
        if b < 0x80 || b >= 0xF0 || b == MARKER_INT8 || b == MARKER_INT16 || b == MARKER_INT32
            || b == MARKER_INT64 {
            match dec_int_any(s) {
                None => None,
                Some((n, r)) => Some((ValueModel::Integer(n), r)),
            }
        } else if b < 0x90 || b == MARKER_STRING8 || b == MARKER_STRING16 || b == MARKER_STRING32 {
            match dec_str_any(s) {
                None => None,
                Some((cs, r)) => Some((ValueModel::Str(cs), r)),
            }
        } else if b < 0xA0 || b == MARKER_LIST8 || b == MARKER_LIST16 || b == MARKER_LIST32 {
            match dec_list_header(s) {
                None => None,
                Some((n, r)) => match dec_items(step(s, r), n) {
                    None => None,
                    Some((items, r2)) => Some((ValueModel::List(items), r2)),
                },
            }
        } else if b < 0xB0 || b == MARKER_MAP8 || b == MARKER_MAP16 || b == MARKER_MAP32 {
            match dec_map_header(s) {
                None => None,
                Some((n, r)) => match dec_entries(step(s, r), n) {
                    None => None,
                    Some((es, r2)) => Some((ValueModel::Dictionary(es), r2)),
                },
            }
        } else if b < 0xC0 {
            if s.len() >= 2 {
                dec_struct((b - MARKER_TINY_STRUCT) as nat, s[1], s.skip(2))
            } else {
                None
            }
        } else if b == MARKER_NULL {
            Some((ValueModel::Null, s.drop_first()))
        } else if b == MARKER_FALSE {
            Some((ValueModel::Bool(false), s.drop_first()))
        } else if b == MARKER_TRUE {
            Some((ValueModel::Bool(true), s.drop_first()))
        } else if b == MARKER_FLOAT {
            match dec_float_bits(s) {
                None => None,
                Some((bits, r)) => Some((ValueModel::Float(bits), r)),
            }
        } else if b == MARKER_BYTES8 && s.len() >= 2 {
            dec_bytes_data(s.skip(2), s[1] as nat)
        } else if b == MARKER_BYTES16 && s.len() >= 3 {
            dec_bytes_data(s.skip(3), from_be(s.subrange(1, 3)))
        } else if b == MARKER_BYTES32 && s.len() >= 5 {
            dec_bytes_data(s.skip(5), from_be(s.subrange(1, 5)))
        } else {
            None
        }
    }
}

pub open spec fn dec_bytes_data(s: Seq<u8>, len: nat) -> Option<(ValueModel, Seq<u8>)> {
    if s.len() >= len {
        Some((ValueModel::Bytes(s.take(len as int)), s.skip(len as int)))
    } else {
        None
    }
}

/// Dispatches a structure body on its signature and field count.
pub open spec fn dec_struct(size: nat, sig: u8, s: Seq<u8>) -> Option<(ValueModel, Seq<u8>)>
    decreases s.len(), 3nat,
{
    if sig == SIG_NODE && size == 3 {
        match dec_node_body(s) {
            None => None,
            Some((n, r)) => Some((ValueModel::Node(n), r)),
        }
    } else if sig == SIG_RELATIONSHIP && size == 5 {
        match dec_rel_body(s) {
            None => None,
            Some((x, r)) => Some((ValueModel::Relationship(x), r)),
        }
    } else if sig == SIG_UNBOUND_RELATIONSHIP && size == 3 {
        match dec_unbound_body(s) {
            None => None,
            Some((x, r)) => Some((ValueModel::UnboundRelationship(x), r)),
        }
    } else if sig == SIG_PATH && size == 3 {
        match dec_path_body(s) {
            None => None,
            Some((x, r)) => Some((ValueModel::Path(x), r)),
        }
    } else if sig == SIG_POINT_2D && size == 3 {
        match dec_int_any(s) {
            None => None,
            Some((srid, r1)) => match dec_float_bits(r1) {
                None => None,
                Some((x, r2)) => match dec_float_bits(r2) {
                    None => None,
                    Some((y, r3)) => Some((ValueModel::Point2D(BoltPoint2D { srid, x, y }), r3)),
                },
            },
        }
    } else if sig == SIG_POINT_3D && size == 4 {
        match dec_int_any(s) {
            None => None,
            Some((srid, r1)) => match dec_float_bits(r1) {
                None => None,
                Some((x, r2)) => match dec_float_bits(r2) {
                    None => None,
                    Some((y, r3)) => match dec_float_bits(r3) {
                        None => None,
                        Some((z, r4)) => Some(
                            (ValueModel::Point3D(BoltPoint3D { srid, x, y, z }), r4),
                        ),
                    },
                },
            },
        }
    } else {
        None
    }
}

/// Reads `n` values in sequence.
pub open spec fn dec_items(s: Seq<u8>, n: nat) -> Option<(Seq<ValueModel>, Seq<u8>)>
    decreases s.len(), 1nat, n,
{
    if n == 0 {
        Some((Seq::empty(), s))
    } else if s.len() == 0 {
        None
    } else {
        match dec(s) {
            None => None,
            Some((head, r)) => match dec_items(step(s, r), (n - 1) as nat) {
                None => None,
                Some((tail, r2)) => Some((seq![head] + tail, r2)),
            },
        }
    }
}

/// Reads `n` key-value entries in sequence.
pub open spec fn dec_entries(s: Seq<u8>, n: nat) -> Option<(Seq<(Seq<char>, ValueModel)>, Seq<u8>)>
    decreases s.len(), 1nat, n,
{
    if n == 0 {
        Some((Seq::empty(), s))
    } else if s.len() == 0 {
        None
    } else {
        match dec_str_any(s) {
            None => None,
            Some((k, r1)) => match dec(step(s, r1)) {
                None => None,
                Some((v, r2)) => match dec_entries(step(s, r2), (n - 1) as nat) {
                    None => None,
                    Some((tail, r3)) => Some((seq![(k, v)] + tail, r3)),
                },
            },
        }
    }
}

/// Reads the three fields of a node structure.
pub open spec fn dec_node_body(s: Seq<u8>) -> Option<(NodeModel, Seq<u8>)>
    decreases s.len(), 2nat,
{
    if s.len() == 0 {
        None
    } else {
        match dec_int_any(s) {
            None => None,
            Some((id, r1)) => match dec_list_header(r1) {
                None => None,
                Some((ln, r2)) => match dec_strs(r2, ln) {
                    None => None,
                    Some((labels, r3)) => match dec_map_header(r3) {
                        None => None,
                        Some((pn, r4)) => match dec_entries(step(s, r4), pn) {
                            None => None,
                            Some((props, r5)) => Some(
                                (NodeModel { id, labels, properties: props }, r5),
                            ),
                        },
                    },
                },
            },
        }
    }
}

/// Reads the five fields of a relationship structure.
pub open spec fn dec_rel_body(s: Seq<u8>) -> Option<(RelationshipModel, Seq<u8>)>
    decreases s.len(), 2nat,
{
    if s.len() == 0 {
        None
    } else {
        match dec_int_any(s) {
            None => None,
            Some((id, r1)) => match dec_int_any(r1) {
                None => None,
                Some((start_node_id, r2)) => match dec_int_any(r2) {
                    None => None,
                    Some((end_node_id, r3)) => match dec_str_any(r3) {
                        None => None,
                        Some((typ, r4)) => match dec_map_header(r4) {
                            None => None,
                            Some((pn, r5)) => match dec_entries(step(s, r5), pn) {
                                None => None,
                                Some((props, r6)) => Some(
                                    (RelationshipModel {
                                        id,
                                        start_node_id,
                                        end_node_id,
                                        typ,
                                        properties: props,
                                    }, r6),
                                ),
                            },
                        },
                    },
                },
            },
        }
    }
}

/// Reads the three fields of an unbound relationship structure.
pub open spec fn dec_unbound_body(s: Seq<u8>) -> Option<(UnboundModel, Seq<u8>)>
    decreases s.len(), 2nat,
{
    if s.len() == 0 {
        None
    } else {
        match dec_int_any(s) {
            None => None,
            Some((id, r1)) => match dec_str_any(r1) {
                None => None,
                Some((typ, r2)) => match dec_map_header(r2) {
                    None => None,
                    Some((pn, r3)) => match dec_entries(step(s, r3), pn) {
                        None => None,
                        Some((props, r4)) => Some(
                            (UnboundModel { id, typ, properties: props }, r4),
                        ),
                    },
                },
            },
        }
    }
}

/// Reads the three fields of a path structure.
pub open spec fn dec_path_body(s: Seq<u8>) -> Option<(PathModel, Seq<u8>)>
    decreases s.len(), 2nat,
{
    if s.len() == 0 {
        None
    } else {
        match dec_list_header(s) {
            None => None,
            Some((nn, r1)) => match dec_node_structs(step(s, r1), nn) {
                None => None,
                Some((nodes, r2)) => match dec_list_header(r2) {
                    None => None,
                    Some((rn, r3)) => match dec_unbound_structs(step(s, r3), rn) {
                        None => None,
                        Some((rels, r4)) => match dec_list_header(r4) {
                            None => None,
                            Some((inn, r5)) => match dec_ints(r5, inn) {
                                None => None,
                                Some((indices, r6)) => Some(
                                    (PathModel { nodes, relationships: rels, indices }, r6),
                                ),
                            },
                        },
                    },
                },
            },
        }
    }
}

/// Reads `n` node structures in sequence.
pub open spec fn dec_node_structs(s: Seq<u8>, n: nat) -> Option<(Seq<NodeModel>, Seq<u8>)>
    decreases s.len(), 1nat, n,
{
    if n == 0 {
        Some((Seq::empty(), s))
    } else if s.len() < 2 || s[0] != (MARKER_TINY_STRUCT + 3) as u8 || s[1] != SIG_NODE {
        None
    } else {
        match dec_node_body(s.skip(2)) {
            None => None,
            Some((head, r)) => match dec_node_structs(step(s, r), (n - 1) as nat) {
                None => None,
                Some((tail, r2)) => Some((seq![head] + tail, r2)),
            },
        }
    }
}

/// Reads `n` unbound relationship structures in sequence.
pub open spec fn dec_unbound_structs(s: Seq<u8>, n: nat) -> Option<(Seq<UnboundModel>, Seq<u8>)>
    decreases s.len(), 1nat, n,
{
    if n == 0 {
        Some((Seq::empty(), s))
    } else if s.len() < 2 || s[0] != (MARKER_TINY_STRUCT + 3) as u8
        || s[1] != SIG_UNBOUND_RELATIONSHIP {
        None
    } else {
        match dec_unbound_body(s.skip(2)) {
            None => None,
            Some((head, r)) => match dec_unbound_structs(step(s, r), (n - 1) as nat) {
                None => None,
                Some((tail, r2)) => Some((seq![head] + tail, r2)),
            },
        }
    }
}

} // verus!

verus! {

// ---------------------------------------------------------------------
// Round trip: decoding inverts encoding
// ---------------------------------------------------------------------

pub proof fn lemma_enc_size_len(tiny: u8, m8: u8, m16: u8, m32: u8, len: nat)
    ensures
        1 <= enc_size(tiny, m8, m16, m32, len).len() <= 5,
        enc_size(tiny, m8, m16, m32, len).len() >= 1,
{
    lemma_be_bytes_len(len, 1);
    lemma_be_bytes_len(len, 2);
    lemma_be_bytes_len(len, 4);
}

pub proof fn lemma_rt_list_size(len: nat, rest: Seq<u8>)
    requires
        len < 0x1_0000_0000,
    ensures
        dec_list_header(enc_list_size(len) + rest) == Some((len, rest)),
        enc_list_size(len).len() >= 1,
        ({
            let hb = enc_list_size(len)[0];
            (MARKER_TINY_LIST <= hb < 0xA0) || hb == MARKER_LIST8 || hb == MARKER_LIST16
                || hb == MARKER_LIST32
        }),
{
    let h = enc_list_size(len);
    let s = h + rest;
    lemma_pow256_values();
    if len < 16 {
        assert(s.drop_first() =~= rest);
    } else if len < 0x100 {
        lemma_be_bytes_len(len, 1);
        lemma_from_be_be_bytes(len, 1);
        assert(s[1] == be_bytes(len, 1)[0]);
        assert(seq![be_bytes(len, 1)[0]] =~= be_bytes(len, 1));
        assert(from_be(seq![s[1]]) == s[1] as nat) by {
            assert(seq![s[1]].drop_last() =~= Seq::<u8>::empty());
        }
        assert(s.skip(2) =~= rest);
    } else if len < 0x1_0000 {
        lemma_be_bytes_len(len, 2);
        lemma_from_be_be_bytes(len, 2);
        assert(s.subrange(1, 3) =~= be_bytes(len, 2));
        assert(s.skip(3) =~= rest);
    } else {
        lemma_be_bytes_len(len, 4);
        lemma_from_be_be_bytes(len, 4);
        assert(s.subrange(1, 5) =~= be_bytes(len, 4));
        assert(s.skip(5) =~= rest);
    }
}

pub proof fn lemma_rt_map_size(len: nat, rest: Seq<u8>)
    requires
        len < 0x1_0000_0000,
    ensures
        dec_map_header(enc_map_size(len) + rest) == Some((len, rest)),
        enc_map_size(len).len() >= 1,
        ({
            let hb = enc_map_size(len)[0];
            (MARKER_TINY_MAP <= hb < 0xB0) || hb == MARKER_MAP8 || hb == MARKER_MAP16
                || hb == MARKER_MAP32
        }),
{
    let h = enc_map_size(len);
    let s = h + rest;
    lemma_pow256_values();
    if len < 16 {
        assert(s.drop_first() =~= rest);
    } else if len < 0x100 {
        lemma_be_bytes_len(len, 1);
        lemma_from_be_be_bytes(len, 1);
        assert(s[1] == be_bytes(len, 1)[0]);
        assert(seq![be_bytes(len, 1)[0]] =~= be_bytes(len, 1));
        assert(from_be(seq![s[1]]) == s[1] as nat) by {
            assert(seq![s[1]].drop_last() =~= Seq::<u8>::empty());
        }
        assert(s.skip(2) =~= rest);
    } else if len < 0x1_0000 {
        lemma_be_bytes_len(len, 2);
        lemma_from_be_be_bytes(len, 2);
        assert(s.subrange(1, 3) =~= be_bytes(len, 2));
        assert(s.skip(3) =~= rest);
    } else {
        lemma_be_bytes_len(len, 4);
        lemma_from_be_be_bytes(len, 4);
        assert(s.subrange(1, 5) =~= be_bytes(len, 4));
        assert(s.skip(5) =~= rest);
    }
}

pub proof fn lemma_rt_int(n: i64, rest: Seq<u8>)
    ensures
        dec_int_any(enc_int(n) + rest) == Some((n, rest)),
        1 <= enc_int(n).len() <= 9,
        ({
            let hb = enc_int(n)[0];
            hb < 0x80 || hb >= 0xF0 || hb == MARKER_INT8 || hb == MARKER_INT16
                || hb == MARKER_INT32 || hb == MARKER_INT64
        }),
{
    let e = enc_int(n);
    let s = e + rest;
    lemma_pow256_values();
    if -16 <= n <= 127 {
        assert(s.drop_first() =~= rest);
    } else if -0x80 <= n <= 0x7F {
        lemma_be_bytes_len(unsigned_of(n as int, 1), 1);
        assert(s[1] == be_bytes(unsigned_of(n as int, 1), 1)[0]);
        assert(s.skip(2) =~= rest);
        assert(signed_of(s[1] as nat, 1) == n);
    } else if -0x8000 <= n <= 0x7FFF {
        lemma_be_bytes_len(unsigned_of(n as int, 2), 2);
        lemma_from_be_be_bytes(unsigned_of(n as int, 2), 2);
        assert(s.subrange(1, 3) =~= be_bytes(unsigned_of(n as int, 2), 2));
        assert(s.skip(3) =~= rest);
    } else if -0x8000_0000 <= n <= 0x7FFF_FFFF {
        lemma_be_bytes_len(unsigned_of(n as int, 4), 4);
        lemma_from_be_be_bytes(unsigned_of(n as int, 4), 4);
        assert(s.subrange(1, 5) =~= be_bytes(unsigned_of(n as int, 4), 4));
        assert(s.skip(5) =~= rest);
    } else {
        lemma_be_bytes_len(unsigned_of(n as int, 8), 8);
        lemma_from_be_be_bytes(unsigned_of(n as int, 8), 8);
        assert(s.subrange(1, 9) =~= be_bytes(unsigned_of(n as int, 8), 8));
        assert(s.skip(9) =~= rest);
    }
}

pub proof fn lemma_rt_float(bits: u64, rest: Seq<u8>)
    ensures
        dec_float_bits(enc_float(bits) + rest) == Some((bits, rest)),
        enc_float(bits).len() == 9,
        enc_float(bits)[0] == MARKER_FLOAT,
{
    let s = enc_float(bits) + rest;
    lemma_pow256_values();
    lemma_be_bytes_len(bits as nat, 8);
    lemma_from_be_be_bytes(bits as nat, 8);
    assert(s.subrange(1, 9) =~= be_bytes(bits as nat, 8));
    assert(s.skip(9) =~= rest);
}

pub proof fn lemma_rt_str(cs: Seq<char>, rest: Seq<u8>)
    requires
        str_wf(cs),
    ensures
        dec_str_any(enc_str(cs) + rest) == Some((cs, rest)),
        enc_str(cs).len() >= 1,
        ({
            let hb = enc_str(cs)[0];
            (MARKER_TINY_STRING <= hb < 0x90) || hb == MARKER_STRING8 || hb == MARKER_STRING16
                || hb == MARKER_STRING32
        }),
{
    let bs = encode_utf8(cs);
    let bl = bs.len();
    let h = enc_size(MARKER_TINY_STRING, MARKER_STRING8, MARKER_STRING16, MARKER_STRING32, bl);
    let s = enc_str(cs) + rest;
    let tail = bs + rest;
    assert(s =~= h + tail);
    lemma_pow256_values();
    vstd::utf8::encode_utf8_valid_utf8(cs);
    vstd::utf8::encode_utf8_decode_utf8(cs);
    assert(tail.take(bl as int) =~= bs);
    assert(tail.skip(bl as int) =~= rest);
    if bl < 16 {
        assert(s.drop_first() =~= tail);
    } else if bl < 0x100 {
        lemma_be_bytes_len(bl, 1);
        assert(s[1] == be_bytes(bl, 1)[0]);
        assert(s.skip(2) =~= tail);
    } else if bl < 0x1_0000 {
        lemma_be_bytes_len(bl, 2);
        lemma_from_be_be_bytes(bl, 2);
        assert(s.subrange(1, 3) =~= be_bytes(bl, 2));
        assert(s.skip(3) =~= tail);
    } else {
        lemma_be_bytes_len(bl, 4);
        lemma_from_be_be_bytes(bl, 4);
        assert(s.subrange(1, 5) =~= be_bytes(bl, 4));
        assert(s.skip(5) =~= tail);
    }
}

pub proof fn lemma_rt_strs(ls: Seq<Seq<char>>, rest: Seq<u8>)
    requires
        forall|i: int| 0 <= i < ls.len() ==> str_wf(#[trigger] ls[i]),
    ensures
        dec_strs(enc_strs(ls) + rest, ls.len()) == Some((ls, rest)),
    decreases ls.len(),
{
    if ls.len() == 0 {
        assert(enc_strs(ls) + rest =~= rest);
    } else {
        let tail = enc_strs(ls.drop_first()) + rest;
        assert(enc_strs(ls) + rest =~= enc_str(ls[0]) + tail);
        lemma_rt_str(ls[0], tail);
        lemma_rt_strs(ls.drop_first(), rest);
        assert(seq![ls[0]] + ls.drop_first() =~= ls);
    }
}

pub proof fn lemma_rt_ints(is: Seq<i64>, rest: Seq<u8>)
    ensures
        dec_ints(enc_ints(is) + rest, is.len()) == Some((is, rest)),
    decreases is.len(),
{
    if is.len() == 0 {
        assert(enc_ints(is) + rest =~= rest);
    } else {
        let tail = enc_ints(is.drop_first()) + rest;
        assert(enc_ints(is) + rest =~= enc_int(is[0]) + tail);
        lemma_rt_int(is[0], tail);
        lemma_rt_ints(is.drop_first(), rest);
        assert(seq![is[0]] + is.drop_first() =~= is);
    }
}

/// Every encoded value occupies at least one byte.
pub proof fn lemma_enc_len_pos(v: ValueModel)
    ensures
        enc(v).len() >= 1,
{
    match v {
        ValueModel::Integer(n) => {
            lemma_rt_int(n, Seq::empty());
        },
        ValueModel::Str(s) => {
            lemma_enc_size_len(MARKER_TINY_STRING, MARKER_STRING8, MARKER_STRING16,
                MARKER_STRING32, encode_utf8(s).len());
        },
        ValueModel::List(items) => {
            lemma_enc_size_len(MARKER_TINY_LIST, MARKER_LIST8, MARKER_LIST16, MARKER_LIST32,
                items.len());
        },
        ValueModel::Dictionary(es) => {
            lemma_enc_size_len(MARKER_TINY_MAP, MARKER_MAP8, MARKER_MAP16, MARKER_MAP32,
                es.len());
        },
        _ => {},
    }
}

} // verus!

verus! {

/// Round trip: decoding an encoded representable value yields the value
/// back and consumes exactly its bytes, whatever follows them.
pub proof fn lemma_dec_enc(v: ValueModel, rest: Seq<u8>)
    requires
        v.wf(),
    ensures
        dec(enc(v) + rest) == Some((v, rest)),
    decreases v, 4nat,
{
    let s = enc(v) + rest;
    match v {
        ValueModel::Null => {
            assert(s.drop_first() =~= rest);
        },
        ValueModel::Bool(b) => {
            assert(s.drop_first() =~= rest);
        },
        ValueModel::Integer(n) => {
            lemma_rt_int(n, rest);
        },
        ValueModel::Float(bits) => {
            lemma_rt_float(bits, rest);
        },
        ValueModel::Str(cs) => {
            lemma_rt_str(cs, rest);
        },
        ValueModel::Bytes(b) => {
            lemma_case_bytes(b, rest);
        },
        ValueModel::List(items) => {
            lemma_case_list(items, rest);
        },
        ValueModel::Dictionary(es) => {
            assert(map_wf(es));
            lemma_case_dict(es, rest);
        },
        ValueModel::Node(n) => {
            lemma_case_node(n, rest);
        },
        ValueModel::Relationship(r) => {
            lemma_case_rel(r, rest);
        },
        ValueModel::UnboundRelationship(r) => {
            lemma_case_unbound(r, rest);
        },
        ValueModel::Path(p) => {
            lemma_case_path(p, rest);
        },
        ValueModel::Point2D(p) => {
            lemma_case_point2(p, rest);
        },
        ValueModel::Point3D(p) => {
            lemma_case_point3(p, rest);
        },
    }
}

#[verifier::spinoff_prover]
proof fn lemma_case_bytes(b: Seq<u8>, rest: Seq<u8>)
    requires
        b.len() < 0x1_0000_0000,
    ensures
        dec(enc(ValueModel::Bytes(b)) + rest) == Some((ValueModel::Bytes(b), rest)),
{
    let s = enc(ValueModel::Bytes(b)) + rest;
    lemma_pow256_values();
    if b.len() < 0x100 {
        lemma_be_bytes_len(b.len(), 1);
        assert(s =~= seq![MARKER_BYTES8] + be_bytes(b.len(), 1) + (b + rest));
        assert(s[1] == be_bytes(b.len(), 1)[0]);
        assert(s.skip(2) =~= b + rest);
        assert((b + rest).take(b.len() as int) =~= b);
        assert((b + rest).skip(b.len() as int) =~= rest);
    } else if b.len() < 0x1_0000 {
        lemma_be_bytes_len(b.len(), 2);
        lemma_from_be_be_bytes(b.len(), 2);
        assert(s.subrange(1, 3) =~= be_bytes(b.len(), 2));
        assert(s.skip(3) =~= b + rest);
        assert((b + rest).take(b.len() as int) =~= b);
        assert((b + rest).skip(b.len() as int) =~= rest);
    } else {
        lemma_be_bytes_len(b.len(), 4);
        lemma_from_be_be_bytes(b.len(), 4);
        assert(s.subrange(1, 5) =~= be_bytes(b.len(), 4));
        assert(s.skip(5) =~= b + rest);
        assert((b + rest).take(b.len() as int) =~= b);
        assert((b + rest).skip(b.len() as int) =~= rest);
    }
}

#[verifier::spinoff_prover]
proof fn lemma_case_list(items: Seq<ValueModel>, rest: Seq<u8>)
    requires
        items.len() < 0x1_0000_0000,
        forall|i: int| 0 <= i < items.len() ==> (#[trigger] items[i]).wf(),
    ensures
        dec(enc(ValueModel::List(items)) + rest) == Some((ValueModel::List(items), rest)),
    decreases items, 3nat,
{
    let s = enc(ValueModel::List(items)) + rest;
    let tail = enc_items(items) + rest;
    assert(s =~= enc_list_size(items.len()) + tail);
    lemma_rt_list_size(items.len(), tail);
    assert(tail.len() < s.len()) by {
        lemma_enc_size_len(MARKER_TINY_LIST, MARKER_LIST8, MARKER_LIST16, MARKER_LIST32,
            items.len());
    }
    lemma_rt_items(items, rest);
}

#[verifier::spinoff_prover]
proof fn lemma_case_dict(es: Seq<(Seq<char>, ValueModel)>, rest: Seq<u8>)
    requires
        map_wf(es),
    ensures
        dec(enc(ValueModel::Dictionary(es)) + rest) == Some((ValueModel::Dictionary(es), rest)),
    decreases es, 3nat,
{
    let s = enc(ValueModel::Dictionary(es)) + rest;
    let tail = enc_entries(es) + rest;
    assert(s =~= enc_map_size(es.len()) + tail);
    lemma_rt_map_size(es.len(), tail);
    assert(tail.len() < s.len()) by {
        lemma_enc_size_len(MARKER_TINY_MAP, MARKER_MAP8, MARKER_MAP16, MARKER_MAP32, es.len());
    }
    lemma_rt_entries(es, rest);
}

#[verifier::spinoff_prover]
proof fn lemma_case_node(n: NodeModel, rest: Seq<u8>)
    requires
        node_wf(n),
    ensures
        dec(enc(ValueModel::Node(n)) + rest) == Some((ValueModel::Node(n), rest)),
    decreases n, 3nat,
{
    let s = enc(ValueModel::Node(n)) + rest;
    assert(s =~= seq![(MARKER_TINY_STRUCT + 3) as u8, SIG_NODE] + (enc_node_body(n) + rest));
    assert(s.skip(2) =~= enc_node_body(n) + rest);
    lemma_rt_node_body(n, rest);
}

#[verifier::spinoff_prover]
proof fn lemma_case_rel(r: RelationshipModel, rest: Seq<u8>)
    requires
        str_wf(r.typ),
        map_wf(r.properties),
    ensures
        dec(enc(ValueModel::Relationship(r)) + rest) == Some((ValueModel::Relationship(r), rest)),
    decreases r, 3nat,
{
    let s = enc(ValueModel::Relationship(r)) + rest;
    assert(s =~= seq![(MARKER_TINY_STRUCT + 5) as u8, SIG_RELATIONSHIP]
        + (enc_rel_body(r) + rest));
    assert(s.skip(2) =~= enc_rel_body(r) + rest);
    lemma_rt_rel_body(r, rest);
}

#[verifier::spinoff_prover]
proof fn lemma_case_unbound(r: UnboundModel, rest: Seq<u8>)
    requires
        unbound_wf(r),
    ensures
        dec(enc(ValueModel::UnboundRelationship(r)) + rest)
            == Some((ValueModel::UnboundRelationship(r), rest)),
    decreases r, 3nat,
{
    let s = enc(ValueModel::UnboundRelationship(r)) + rest;
    assert(s =~= seq![(MARKER_TINY_STRUCT + 3) as u8, SIG_UNBOUND_RELATIONSHIP]
        + (enc_unbound_body(r) + rest));
    assert(s.skip(2) =~= enc_unbound_body(r) + rest);
    lemma_rt_unbound_body(r, rest);
}

#[verifier::spinoff_prover]
proof fn lemma_case_path(p: PathModel, rest: Seq<u8>)
    requires
        p.nodes.len() < 0x1_0000_0000,
        forall|i: int| 0 <= i < p.nodes.len() ==> node_wf(#[trigger] p.nodes[i]),
        p.relationships.len() < 0x1_0000_0000,
        forall|i: int| 0 <= i < p.relationships.len() ==> unbound_wf(#[trigger] p.relationships[i]),
        p.indices.len() < 0x1_0000_0000,
    ensures
        dec(enc(ValueModel::Path(p)) + rest) == Some((ValueModel::Path(p), rest)),
    decreases p, 3nat,
{
    let s = enc(ValueModel::Path(p)) + rest;
    assert(s =~= seq![(MARKER_TINY_STRUCT + 3) as u8, SIG_PATH] + (enc_path_body(p) + rest));
    assert(s.skip(2) =~= enc_path_body(p) + rest);
    lemma_rt_path_body(p, rest);
}

#[verifier::spinoff_prover]
proof fn lemma_case_point2(p: BoltPoint2D, rest: Seq<u8>)
    ensures
        dec(enc(ValueModel::Point2D(p)) + rest) == Some((ValueModel::Point2D(p), rest)),
{
    let s = enc(ValueModel::Point2D(p)) + rest;
    let t2 = enc_float(p.y) + rest;
    let t1 = enc_float(p.x) + t2;
    let t0 = enc_int(p.srid) + t1;
    assert(s =~= seq![(MARKER_TINY_STRUCT + 3) as u8, SIG_POINT_2D] + t0);
    assert(s.skip(2) =~= t0);
    lemma_rt_int(p.srid, t1);
    lemma_rt_float(p.x, t2);
    lemma_rt_float(p.y, rest);
    assert(BoltPoint2D { srid: p.srid, x: p.x, y: p.y } == p);
}

#[verifier::spinoff_prover]
proof fn lemma_case_point3(p: BoltPoint3D, rest: Seq<u8>)
    ensures
        dec(enc(ValueModel::Point3D(p)) + rest) == Some((ValueModel::Point3D(p), rest)),
{
    let s = enc(ValueModel::Point3D(p)) + rest;
    let t3 = enc_float(p.z) + rest;
    let t2 = enc_float(p.y) + t3;
    let t1 = enc_float(p.x) + t2;
    let t0 = enc_int(p.srid) + t1;
    assert(s =~= seq![(MARKER_TINY_STRUCT + 4) as u8, SIG_POINT_3D] + t0);
    assert(s.skip(2) =~= t0);
    lemma_rt_int(p.srid, t1);
    lemma_rt_float(p.x, t2);
    lemma_rt_float(p.y, t3);
    lemma_rt_float(p.z, rest);
    assert(BoltPoint3D { srid: p.srid, x: p.x, y: p.y, z: p.z } == p);
}

#[verifier::spinoff_prover]
pub proof fn lemma_rt_items(items: Seq<ValueModel>, rest: Seq<u8>)
    requires
        forall|i: int| 0 <= i < items.len() ==> (#[trigger] items[i]).wf(),
    ensures
        dec_items(enc_items(items) + rest, items.len()) == Some((items, rest)),
    decreases items, 2nat,
{
    if items.len() == 0 {
        assert(enc_items(items) + rest =~= rest);
    } else {
        let tail = enc_items(items.drop_first()) + rest;
        let s = enc(items[0]) + tail;
        assert(enc_items(items) + rest =~= s);
        lemma_dec_enc(items[0], tail);
        lemma_enc_len_pos(items[0]);
        assert(step(s, tail) == tail);
        assert(forall|i: int|
            0 <= i < items.drop_first().len() ==> (#[trigger] items.drop_first()[i]).wf());
        lemma_rt_items(items.drop_first(), rest);
        assert(seq![items[0]] + items.drop_first() =~= items);
    }
}

#[verifier::spinoff_prover]
pub proof fn lemma_rt_entries(es: Seq<(Seq<char>, ValueModel)>, rest: Seq<u8>)
    requires
        forall|i: int| 0 <= i < es.len() ==> str_wf(#[trigger] es[i].0),
        forall|i: int| 0 <= i < es.len() ==> (#[trigger] es[i].1).wf(),
    ensures
        dec_entries(enc_entries(es) + rest, es.len()) == Some((es, rest)),
    decreases es, 2nat,
{
    if es.len() == 0 {
        assert(enc_entries(es) + rest =~= rest);
    } else {
        let t2 = enc_entries(es.drop_first()) + rest;
        let t1 = enc(es[0].1) + t2;
        let s = enc_str(es[0].0) + t1;
        assert(enc_entries(es) + rest =~= s);
        lemma_rt_str(es[0].0, t1);
        assert(step(s, t1) == t1);
        lemma_dec_enc(es[0].1, t2);
        lemma_enc_len_pos(es[0].1);
        assert(step(s, t2) == t2);
        assert(forall|i: int|
            0 <= i < es.drop_first().len() ==> str_wf(#[trigger] es.drop_first()[i].0));
        assert(forall|i: int|
            0 <= i < es.drop_first().len() ==> (#[trigger] es.drop_first()[i].1).wf());
        lemma_rt_entries(es.drop_first(), rest);
        assert(seq![(es[0].0, es[0].1)] + es.drop_first() =~= es);
        assert((es[0].0, es[0].1) == es[0]);
    }
}

#[verifier::spinoff_prover]
#[verifier::rlimit(100)]
pub proof fn lemma_rt_node_body(n: NodeModel, rest: Seq<u8>)
    requires
        node_wf(n),
    ensures
        dec_node_body(enc_node_body(n) + rest) == Some((n, rest)),
    decreases n, 2nat,
{
    let t4 = enc_entries(n.properties) + rest;
    let t3 = enc_map_size(n.properties.len()) + t4;
    let t2 = enc_strs(n.labels) + t3;
    let t1 = enc_list_size(n.labels.len()) + t2;
    let s = enc_int(n.id) + t1;
    assert(enc_node_body(n) + rest =~= s);
    lemma_rt_int(n.id, t1);
    lemma_rt_list_size(n.labels.len(), t2);
    lemma_rt_strs(n.labels, t3);
    lemma_rt_map_size(n.properties.len(), t4);
    assert(step(s, t4) == t4);
    lemma_rt_entries(n.properties, rest);
    assert(NodeModel { id: n.id, labels: n.labels, properties: n.properties } == n);
}

#[verifier::spinoff_prover]
#[verifier::rlimit(100)]
pub proof fn lemma_rt_rel_body(r: RelationshipModel, rest: Seq<u8>)
    requires
        str_wf(r.typ),
        map_wf(r.properties),
    ensures
        dec_rel_body(enc_rel_body(r) + rest) == Some((r, rest)),
    decreases r, 2nat,
{
    let t5 = enc_entries(r.properties) + rest;
    let t4 = enc_map_size(r.properties.len()) + t5;
    let t3 = enc_str(r.typ) + t4;
    let t2 = enc_int(r.end_node_id) + t3;
    let t1 = enc_int(r.start_node_id) + t2;
    let s = enc_int(r.id) + t1;
    assert(enc_rel_body(r) + rest =~= s);
    lemma_rt_int(r.id, t1);
    lemma_rt_int(r.start_node_id, t2);
    lemma_rt_int(r.end_node_id, t3);
    lemma_rt_str(r.typ, t4);
    lemma_rt_map_size(r.properties.len(), t5);
    assert(step(s, t5) == t5);
    lemma_rt_entries(r.properties, rest);
    assert(RelationshipModel {
        id: r.id,
        start_node_id: r.start_node_id,
        end_node_id: r.end_node_id,
        typ: r.typ,
        properties: r.properties,
    } == r);
}

#[verifier::spinoff_prover]
#[verifier::rlimit(100)]
pub proof fn lemma_rt_unbound_body(r: UnboundModel, rest: Seq<u8>)
    requires
        unbound_wf(r),
    ensures
        dec_unbound_body(enc_unbound_body(r) + rest) == Some((r, rest)),
    decreases r, 2nat,
{
    let t3 = enc_entries(r.properties) + rest;
    let t2 = enc_map_size(r.properties.len()) + t3;
    let t1 = enc_str(r.typ) + t2;
    let s = enc_int(r.id) + t1;
    assert(enc_unbound_body(r) + rest =~= s);
    lemma_rt_int(r.id, t1);
    lemma_rt_str(r.typ, t2);
    lemma_rt_map_size(r.properties.len(), t3);
    assert(step(s, t3) == t3);
    lemma_rt_entries(r.properties, rest);
    assert(UnboundModel { id: r.id, typ: r.typ, properties: r.properties } == r);
}

#[verifier::spinoff_prover]
#[verifier::rlimit(100)]
pub proof fn lemma_rt_path_body(p: PathModel, rest: Seq<u8>)
    requires
        p.nodes.len() < 0x1_0000_0000,
        forall|i: int| 0 <= i < p.nodes.len() ==> node_wf(#[trigger] p.nodes[i]),
        p.relationships.len() < 0x1_0000_0000,
        forall|i: int| 0 <= i < p.relationships.len() ==> unbound_wf(#[trigger] p.relationships[i]),
        p.indices.len() < 0x1_0000_0000,
    ensures
        dec_path_body(enc_path_body(p) + rest) == Some((p, rest)),
    decreases p, 2nat,
{
    let t5 = enc_ints(p.indices) + rest;
    let t4 = enc_list_size(p.indices.len()) + t5;
    let t3 = enc_unbound_structs(p.relationships) + t4;
    let t2 = enc_list_size(p.relationships.len()) + t3;
    let t1 = enc_node_structs(p.nodes) + t2;
    let s = enc_list_size(p.nodes.len()) + t1;
    assert(enc_path_body(p) + rest =~= s);
    assert(dec_list_header(s) == Some((p.nodes.len(), t1))) by {
        lemma_rt_list_size(p.nodes.len(), t1);
    }
    assert(dec_node_structs(t1, p.nodes.len()) == Some((p.nodes, t2))) by {
        lemma_rt_node_structs(p.nodes, t2);
    }
    assert(dec_list_header(t2) == Some((p.relationships.len(), t3))) by {
        lemma_rt_list_size(p.relationships.len(), t3);
    }
    assert(dec_unbound_structs(t3, p.relationships.len()) == Some((p.relationships, t4))) by {
        lemma_rt_unbound_structs(p.relationships, t4);
    }
    assert(dec_list_header(t4) == Some((p.indices.len(), t5))) by {
        lemma_rt_list_size(p.indices.len(), t5);
    }
    assert(dec_ints(t5, p.indices.len()) == Some((p.indices, rest))) by {
        lemma_rt_ints(p.indices, rest);
    }
    assert(step(s, t1) == t1);
    assert(step(s, t3) == t3);
    assert(PathModel { nodes: p.nodes, relationships: p.relationships, indices: p.indices } == p);
}

#[verifier::spinoff_prover]
pub proof fn lemma_rt_node_structs(ns: Seq<NodeModel>, rest: Seq<u8>)
    requires
        forall|i: int| 0 <= i < ns.len() ==> node_wf(#[trigger] ns[i]),
    ensures
        dec_node_structs(enc_node_structs(ns) + rest, ns.len()) == Some((ns, rest)),
    decreases ns, 3nat,
{
    if ns.len() == 0 {
        assert(enc_node_structs(ns) + rest =~= rest);
    } else {
        let tail = enc_node_structs(ns.drop_first()) + rest;
        let s = seq![(MARKER_TINY_STRUCT + 3) as u8, SIG_NODE] + (enc_node_body(ns[0]) + tail);
        assert(enc_node_structs(ns) + rest =~= s);
        assert(s.skip(2) =~= enc_node_body(ns[0]) + tail);
        lemma_rt_node_body(ns[0], tail);
        assert(step(s, tail) == tail);
        assert(forall|i: int|
            0 <= i < ns.drop_first().len() ==> node_wf(#[trigger] ns.drop_first()[i]));
        lemma_rt_node_structs(ns.drop_first(), rest);
        assert(seq![ns[0]] + ns.drop_first() =~= ns);
    }
}

#[verifier::spinoff_prover]
#[verifier::rlimit(100)]
pub proof fn lemma_rt_unbound_structs(rs: Seq<UnboundModel>, rest: Seq<u8>)
    requires
        forall|i: int| 0 <= i < rs.len() ==> unbound_wf(#[trigger] rs[i]),
    ensures
        dec_unbound_structs(enc_unbound_structs(rs) + rest, rs.len()) == Some((rs, rest)),
    decreases rs, 3nat,
{
    if rs.len() == 0 {
        assert(enc_unbound_structs(rs) + rest =~= rest);
    } else {
        let tail = enc_unbound_structs(rs.drop_first()) + rest;
        let s = seq![(MARKER_TINY_STRUCT + 3) as u8, SIG_UNBOUND_RELATIONSHIP]
            + (enc_unbound_body(rs[0]) + tail);
        assert(enc_unbound_structs(rs) + rest =~= s);
        assert(dec_unbound_body(s.skip(2)) == Some((rs[0], tail))) by {
            assert(s.skip(2) =~= enc_unbound_body(rs[0]) + tail);
            lemma_rt_unbound_body(rs[0], tail);
        }
        assert(step(s, tail) == tail);
        assert(dec_unbound_structs(tail, (rs.len() - 1) as nat) == Some((rs.drop_first(), rest)))
            by {
            assert(forall|i: int|
                0 <= i < rs.drop_first().len() ==> unbound_wf(#[trigger] rs.drop_first()[i]));
            lemma_rt_unbound_structs(rs.drop_first(), rest);
        }
        assert(seq![rs[0]] + rs.drop_first() =~= rs);
    }
}

} // verus!

verus! {

// ---------------------------------------------------------------------
// Executable encoder
// ---------------------------------------------------------------------

/// Appends every byte of `bs`.
pub fn push_slice(out: &mut Vec<u8>, bs: &[u8])
    ensures
        final(out)@ == old(out)@ + bs@,
{
    let mut i: usize = 0;
    while i < bs.len()
        invariant
            i <= bs@.len(),
            out@ == old(out)@ + bs@.take(i as int),
        decreases bs@.len() - i,
    {
        out.push(bs[i]);
        assert(out@ =~= old(out)@ + bs@.take(i + 1));
        i = i + 1;
    }
    assert(bs@.take(bs@.len() as int) =~= bs@);
}

/// Appends a length header.
pub fn push_size(out: &mut Vec<u8>, tiny: u8, m8: u8, m16: u8, m32: u8, len: usize)
    requires
        tiny <= 0xB0,
        len < 0x1_0000_0000,
    ensures
        final(out)@ == old(out)@ + enc_size(tiny, m8, m16, m32, len as nat),
{
    proof {
        lemma_pow256_values();
    }
    if len < 16 {
        out.push(tiny + (len as u8));
        assert(out@ =~= old(out)@ + enc_size(tiny, m8, m16, m32, len as nat));
    } else if len < 0x100 {
        out.push(m8);
        push_be(out, len as u64, 1);
        assert(out@ =~= old(out)@ + enc_size(tiny, m8, m16, m32, len as nat));
    } else if len < 0x1_0000 {
        out.push(m16);
        push_be(out, len as u64, 2);
        assert(out@ =~= old(out)@ + enc_size(tiny, m8, m16, m32, len as nat));
    } else {
        out.push(m32);
        push_be(out, len as u64, 4);
        assert(out@ =~= old(out)@ + enc_size(tiny, m8, m16, m32, len as nat));
    }
}

/// Appends the narrowest integer encoding of `n`.
pub fn push_int(out: &mut Vec<u8>, n: i64)
    ensures
        final(out)@ == old(out)@ + enc_int(n),
{
    proof {
        lemma_pow256_values();
    }
    if -16 <= n && n <= 127 {
        if n >= 0 {
            out.push(n as u8);
        } else {
            out.push((n + 256) as u8);
        }
        assert(out@ =~= old(out)@ + enc_int(n));
    } else if -0x80 <= n && n <= 0x7F {
        out.push(MARKER_INT8);
        out.push((n + 256) as u8);
        proof {
            let u = unsigned_of(n as int, 1);
            reveal_with_fuel(be_bytes, 2);
            assert(be_bytes(u, 1) =~= seq![(u % 256) as u8]);
        }
        assert(out@ =~= old(out)@ + enc_int(n));
    } else if -0x8000 <= n && n <= 0x7FFF {
        out.push(MARKER_INT16);
        let u: u64 = if n >= 0 {
            n as u64
        } else {
            (n + 0x1_0000) as u64
        };
        assert(u as nat == unsigned_of(n as int, 2));
        push_be(out, u, 2);
        assert(out@ =~= old(out)@ + enc_int(n));
    } else if -0x8000_0000 <= n && n <= 0x7FFF_FFFF {
        out.push(MARKER_INT32);
        let u: u64 = if n >= 0 {
            n as u64
        } else {
            (n + 0x1_0000_0000) as u64
        };
        assert(u as nat == unsigned_of(n as int, 4));
        push_be(out, u, 4);
        assert(out@ =~= old(out)@ + enc_int(n));
    } else {
        out.push(MARKER_INT64);
        let u: u64 = if n >= 0 {
            n as u64
        } else {
            u64::MAX - ((-(n + 1)) as u64)
        };
        assert(u as nat == unsigned_of(n as int, 8));
        push_be(out, u, 8);
        assert(out@ =~= old(out)@ + enc_int(n));
    }
}

/// Appends a float field from its IEEE-754 bits.
pub fn push_float_bits(out: &mut Vec<u8>, bits: u64)
    ensures
        final(out)@ == old(out)@ + enc_float(bits),
{
    out.push(MARKER_FLOAT);
    push_be(out, bits, 8);
    assert(out@ =~= old(out)@ + enc_float(bits));
}

/// Appends a string: length header, then the UTF-8 bytes.
pub fn push_str(out: &mut Vec<u8>, s: &String)
    requires
        str_wf(s@),
    ensures
        final(out)@ == old(out)@ + enc_str(s@),
{
    let bs: &[u8] = s.as_str().as_bytes();
    push_size(out, MARKER_TINY_STRING, MARKER_STRING8, MARKER_STRING16, MARKER_STRING32,
        bs.len());
    push_slice(out, bs);
    assert(out@ =~= old(out)@ + enc_str(s@));
}

} // verus!

verus! {

/// Appends the strings of `ls` starting at `from`, without a header.
fn encode_strs(ls: &Vec<String>, from: usize, out: &mut Vec<u8>)
    requires
        from <= ls@.len(),
        forall|i: int| 0 <= i < ls@.len() ==> str_wf((#[trigger] ls@[i])@),
    ensures
        final(out)@ == old(out)@ + enc_strs(dv_strs(ls@).skip(from as int)),
    decreases ls@.len() - from,
{
    if from < ls.len() {
        let ghost t = dv_strs(ls@).skip(from as int);
        push_str(out, &ls[from]);
        encode_strs(ls, from + 1, out);
        proof {
            assert(t.drop_first() =~= dv_strs(ls@).skip(from + 1));
            assert(out@ =~= old(out)@ + enc_strs(t));
        }
    } else {
        assert(dv_strs(ls@).skip(from as int) =~= Seq::<Seq<char>>::empty());
        assert(out@ =~= old(out)@ + enc_strs(dv_strs(ls@).skip(from as int)));
    }
}

/// Appends the integers of `is` starting at `from`, without a header.
fn encode_ints(is: &Vec<i64>, from: usize, out: &mut Vec<u8>)
    requires
        from <= is@.len(),
    ensures
        final(out)@ == old(out)@ + enc_ints(is@.skip(from as int)),
    decreases is@.len() - from,
{
    if from < is.len() {
        let ghost t = is@.skip(from as int);
        push_int(out, is[from]);
        encode_ints(is, from + 1, out);
        proof {
            assert(t.drop_first() =~= is@.skip(from + 1));
            assert(out@ =~= old(out)@ + enc_ints(t));
        }
    } else {
        assert(is@.skip(from as int) =~= Seq::<i64>::empty());
        assert(out@ =~= old(out)@ + enc_ints(is@.skip(from as int)));
    }
}

/// Appends the encoding of `v`.
#[verifier::spinoff_prover]
#[verifier::rlimit(100)]
pub fn encode_value(v: &Value, out: &mut Vec<u8>)
    requires
        v.dv().wf(),
    ensures
        final(out)@ == old(out)@ + enc(v.dv()),
    decreases v, 1nat, 0nat,
{
    match v {
        Value::Null => {
            out.push(MARKER_NULL);
            assert(out@ =~= old(out)@ + enc(v.dv()));
        },
        Value::Bool(b) => {
            if *b {
                out.push(MARKER_TRUE);
            } else {
                out.push(MARKER_FALSE);
            }
            assert(out@ =~= old(out)@ + enc(v.dv()));
        },
        Value::Integer(n) => {
            push_int(out, *n);
        },
        Value::Float(bits) => {
            push_float_bits(out, *bits);
        },
        Value::Str(s) => {
            push_str(out, s);
        },
        Value::Bytes(b) => {
            proof {
                lemma_pow256_values();
            }
            if b.len() < 0x100 {
                out.push(MARKER_BYTES8);
                push_be(out, b.len() as u64, 1);
            } else if b.len() < 0x1_0000 {
                out.push(MARKER_BYTES16);
                push_be(out, b.len() as u64, 2);
            } else {
                out.push(MARKER_BYTES32);
                push_be(out, b.len() as u64, 4);
            }
            push_slice(out, b.as_slice());
            assert(out@ =~= old(out)@ + enc(v.dv()));
        },
        Value::List(items) => {
            proof {
                lemma_dv_seq(items@);
                assert forall|i: int| 0 <= i < items@.len() implies
                    (#[trigger] items@[i]).dv().wf() by {
                    assert(dv_seq(items@)[i].wf());
                }
            }
            push_size(out, MARKER_TINY_LIST, MARKER_LIST8, MARKER_LIST16, MARKER_LIST32,
                items.len());
            encode_items(items, 0, out);
            proof {
                assert(dv_seq(items@).skip(0) =~= dv_seq(items@));
                assert(out@ =~= old(out)@ + enc(v.dv()));
            }
        },
        Value::Dictionary(entries) => {
            proof {
                lemma_dv_entries(entries@);
                assert(map_wf(dv_entries(entries@)));
                assert forall|i: int| 0 <= i < entries@.len() implies
                    str_wf((#[trigger] entries@[i]).0@) by {
                    assert(str_wf(dv_entries(entries@)[i].0));
                }
                assert forall|i: int| 0 <= i < entries@.len() implies
                    (#[trigger] entries@[i]).1.dv().wf() by {
                    assert(dv_entries(entries@)[i].1.wf());
                }
            }
            push_size(out, MARKER_TINY_MAP, MARKER_MAP8, MARKER_MAP16, MARKER_MAP32,
                entries.len());
            encode_entries(entries, 0, out);
            proof {
                assert(dv_entries(entries@).skip(0) =~= dv_entries(entries@));
                assert(out@ =~= old(out)@ + enc(v.dv()));
            }
        },
        Value::Node(n) => {
            out.push(MARKER_TINY_STRUCT + 3);
            out.push(SIG_NODE);
            encode_node_body(n, out);
            assert(out@ =~= old(out)@ + enc(v.dv()));
        },
        Value::Relationship(r) => {
            out.push(MARKER_TINY_STRUCT + 5);
            out.push(SIG_RELATIONSHIP);
            encode_rel_body(r, out);
            assert(out@ =~= old(out)@ + enc(v.dv()));
        },
        Value::UnboundRelationship(r) => {
            out.push(MARKER_TINY_STRUCT + 3);
            out.push(SIG_UNBOUND_RELATIONSHIP);
            encode_unbound_body(r, out);
            assert(out@ =~= old(out)@ + enc(v.dv()));
        },
        Value::Path(p) => {
            proof {
                assert(v.dv() == ValueModel::Path(p.dv()));
            }
            out.push(MARKER_TINY_STRUCT + 3);
            out.push(SIG_PATH);
            encode_path_body(p, out);
            assert(out@ =~= old(out)@ + enc(v.dv()));
        },
        Value::Point2D(p) => {
            out.push(MARKER_TINY_STRUCT + 3);
            out.push(SIG_POINT_2D);
            push_int(out, p.srid);
            push_float_bits(out, p.x);
            push_float_bits(out, p.y);
            assert(out@ =~= old(out)@ + enc(v.dv()));
        },
        Value::Point3D(p) => {
            out.push(MARKER_TINY_STRUCT + 4);
            out.push(SIG_POINT_3D);
            push_int(out, p.srid);
            push_float_bits(out, p.x);
            push_float_bits(out, p.y);
            push_float_bits(out, p.z);
            assert(out@ =~= old(out)@ + enc(v.dv()));
        },
    }
}

/// Appends the values of `items` starting at `from`, without a header.
pub fn encode_items(items: &Vec<Value>, from: usize, out: &mut Vec<u8>)
    requires
        from <= items@.len(),
        forall|i: int| 0 <= i < items@.len() ==> (#[trigger] items@[i]).dv().wf(),
    ensures
        final(out)@ == old(out)@ + enc_items(dv_seq(items@).skip(from as int)),
    decreases items, 2nat, items@.len() - from,
{
    proof {
        lemma_dv_seq(items@);
    }
    if from < items.len() {
        let ghost t = dv_seq(items@).skip(from as int);
        encode_value(&items[from], out);
        encode_items(items, from + 1, out);
        proof {
            assert(t.drop_first() =~= dv_seq(items@).skip(from + 1));
            assert(out@ =~= old(out)@ + enc_items(t));
        }
    } else {
        assert(dv_seq(items@).skip(from as int) =~= Seq::<ValueModel>::empty());
        assert(out@ =~= old(out)@ + enc_items(dv_seq(items@).skip(from as int)));
    }
}

/// Appends the key-value entries of `entries` starting at `from`.
pub fn encode_entries(entries: &Vec<(String, Value)>, from: usize, out: &mut Vec<u8>)
    requires
        from <= entries@.len(),
        forall|i: int| 0 <= i < entries@.len() ==> str_wf((#[trigger] entries@[i]).0@),
        forall|i: int| 0 <= i < entries@.len() ==> (#[trigger] entries@[i]).1.dv().wf(),
    ensures
        final(out)@ == old(out)@ + enc_entries(dv_entries(entries@).skip(from as int)),
    decreases entries, 2nat, entries@.len() - from,
{
    proof {
        lemma_dv_entries(entries@);
    }
    if from < entries.len() {
        let ghost t = dv_entries(entries@).skip(from as int);
        push_str(out, &entries[from].0);
        encode_value(&entries[from].1, out);
        encode_entries(entries, from + 1, out);
        proof {
            assert(t.drop_first() =~= dv_entries(entries@).skip(from + 1));
            assert(out@ =~= old(out)@ + enc_entries(t));
        }
    } else {
        assert(dv_entries(entries@).skip(from as int) =~= Seq::<(Seq<char>, ValueModel)>::empty());
        assert(out@ =~= old(out)@ + enc_entries(dv_entries(entries@).skip(from as int)));
    }
}

/// Appends the three fields of a node structure.
fn encode_node_body(n: &BoltNode, out: &mut Vec<u8>)
    requires
        node_wf(n.dv()),
    ensures
        final(out)@ == old(out)@ + enc_node_body(n.dv()),
    decreases n, 2nat, 0nat,
{
    proof {
        lemma_dv_strs_len(n.labels@);
        lemma_dv_entries(n.properties@);
        assert(map_wf(dv_entries(n.properties@)));
        assert forall|i: int| 0 <= i < n.labels@.len() implies
            str_wf((#[trigger] n.labels@[i])@) by {
            assert(str_wf(n.dv().labels[i]));
        }
        assert forall|i: int| 0 <= i < n.properties@.len() implies
            str_wf((#[trigger] n.properties@[i]).0@) by {
            assert(str_wf(dv_entries(n.properties@)[i].0));
        }
        assert forall|i: int| 0 <= i < n.properties@.len() implies
            (#[trigger] n.properties@[i]).1.dv().wf() by {
            assert(dv_entries(n.properties@)[i].1.wf());
        }
    }
    push_int(out, n.id);
    push_size(out, MARKER_TINY_LIST, MARKER_LIST8, MARKER_LIST16, MARKER_LIST32, n.labels.len());
    encode_strs(&n.labels, 0, out);
    push_size(out, MARKER_TINY_MAP, MARKER_MAP8, MARKER_MAP16, MARKER_MAP32, n.properties.len());
    encode_entries(&n.properties, 0, out);
    proof {
        assert(dv_strs(n.labels@).skip(0) =~= dv_strs(n.labels@));
        assert(dv_entries(n.properties@).skip(0) =~= dv_entries(n.properties@));
        assert(out@ =~= old(out)@ + enc_node_body(n.dv()));
    }
}

/// Appends the five fields of a relationship structure.
fn encode_rel_body(r: &BoltRelationship, out: &mut Vec<u8>)
    requires
        str_wf(r.typ@),
        map_wf(dv_entries(r.properties@)),
    ensures
        final(out)@ == old(out)@ + enc_rel_body(r.dv()),
    decreases r, 2nat, 0nat,
{
    proof {
        lemma_dv_entries(r.properties@);
        assert forall|i: int| 0 <= i < r.properties@.len() implies
            str_wf((#[trigger] r.properties@[i]).0@) by {
            assert(str_wf(dv_entries(r.properties@)[i].0));
        }
        assert forall|i: int| 0 <= i < r.properties@.len() implies
            (#[trigger] r.properties@[i]).1.dv().wf() by {
            assert(dv_entries(r.properties@)[i].1.wf());
        }
    }
    push_int(out, r.id);
    push_int(out, r.start_node_id);
    push_int(out, r.end_node_id);
    push_str(out, &r.typ);
    push_size(out, MARKER_TINY_MAP, MARKER_MAP8, MARKER_MAP16, MARKER_MAP32, r.properties.len());
    encode_entries(&r.properties, 0, out);
    proof {
        assert(dv_entries(r.properties@).skip(0) =~= dv_entries(r.properties@));
        assert(out@ =~= old(out)@ + enc_rel_body(r.dv()));
    }
}

/// Appends the three fields of an unbound relationship structure.
fn encode_unbound_body(r: &BoltUnboundRelationship, out: &mut Vec<u8>)
    requires
        unbound_wf(r.dv()),
    ensures
        final(out)@ == old(out)@ + enc_unbound_body(r.dv()),
    decreases r, 2nat, 0nat,
{
    proof {
        lemma_dv_entries(r.properties@);
        assert(map_wf(dv_entries(r.properties@)));
        assert forall|i: int| 0 <= i < r.properties@.len() implies
            str_wf((#[trigger] r.properties@[i]).0@) by {
            assert(str_wf(dv_entries(r.properties@)[i].0));
        }
        assert forall|i: int| 0 <= i < r.properties@.len() implies
            (#[trigger] r.properties@[i]).1.dv().wf() by {
            assert(dv_entries(r.properties@)[i].1.wf());
        }
    }
    push_int(out, r.id);
    push_str(out, &r.typ);
    push_size(out, MARKER_TINY_MAP, MARKER_MAP8, MARKER_MAP16, MARKER_MAP32, r.properties.len());
    encode_entries(&r.properties, 0, out);
    proof {
        assert(dv_entries(r.properties@).skip(0) =~= dv_entries(r.properties@));
        assert(out@ =~= old(out)@ + enc_unbound_body(r.dv()));
    }
}

/// Appends the three fields of a path structure.
#[verifier::spinoff_prover]
#[verifier::rlimit(100)]
fn encode_path_body(p: &BoltPath, out: &mut Vec<u8>)
    requires
        p.dv().nodes.len() < 0x1_0000_0000,
        forall|i: int| 0 <= i < p.dv().nodes.len() ==> node_wf(#[trigger] p.dv().nodes[i]),
        p.dv().relationships.len() < 0x1_0000_0000,
        forall|i: int|
            0 <= i < p.dv().relationships.len() ==> unbound_wf(#[trigger] p.dv().relationships[i]),
        p.dv().indices.len() < 0x1_0000_0000,
    ensures
        final(out)@ == old(out)@ + enc_path_body(p.dv()),
    decreases p, 2nat, 0nat,
{
    proof {
        lemma_dv_nodes(p.nodes@);
        lemma_dv_unbounds(p.relationships@);
        assert forall|i: int| 0 <= i < p.nodes@.len() implies
            node_wf((#[trigger] p.nodes@[i]).dv()) by {
            assert(node_wf(p.dv().nodes[i]));
        }
        assert forall|i: int| 0 <= i < p.relationships@.len() implies
            unbound_wf((#[trigger] p.relationships@[i]).dv()) by {
            assert(unbound_wf(p.dv().relationships[i]));
        }
    }
    push_size(out, MARKER_TINY_LIST, MARKER_LIST8, MARKER_LIST16, MARKER_LIST32, p.nodes.len());
    encode_node_structs(&p.nodes, 0, out);
    push_size(out, MARKER_TINY_LIST, MARKER_LIST8, MARKER_LIST16, MARKER_LIST32,
        p.relationships.len());
    encode_unbound_structs(&p.relationships, 0, out);
    push_size(out, MARKER_TINY_LIST, MARKER_LIST8, MARKER_LIST16, MARKER_LIST32,
        p.indices.len());
    encode_ints(&p.indices, 0, out);
    proof {
        assert(dv_nodes(p.nodes@).skip(0) =~= dv_nodes(p.nodes@));
        assert(dv_unbounds(p.relationships@).skip(0) =~= dv_unbounds(p.relationships@));
        assert(p.indices@.skip(0) =~= p.indices@);
        assert(out@ =~= old(out)@ + enc_path_body(p.dv()));
    }
}

/// Appends the node structures of `ns` starting at `from`.
fn encode_node_structs(ns: &Vec<BoltNode>, from: usize, out: &mut Vec<u8>)
    requires
        from <= ns@.len(),
        forall|i: int| 0 <= i < ns@.len() ==> node_wf((#[trigger] ns@[i]).dv()),
    ensures
        final(out)@ == old(out)@ + enc_node_structs(dv_nodes(ns@).skip(from as int)),
    decreases ns, 3nat, ns@.len() - from,
{
    proof {
        lemma_dv_nodes(ns@);
    }
    if from < ns.len() {
        let ghost t = dv_nodes(ns@).skip(from as int);
        out.push(MARKER_TINY_STRUCT + 3);
        out.push(SIG_NODE);
        encode_node_body(&ns[from], out);
        encode_node_structs(ns, from + 1, out);
        proof {
            assert(t.drop_first() =~= dv_nodes(ns@).skip(from + 1));
            assert(out@ =~= old(out)@ + enc_node_structs(t));
        }
    } else {
        assert(dv_nodes(ns@).skip(from as int) =~= Seq::<NodeModel>::empty());
        assert(out@ =~= old(out)@ + enc_node_structs(dv_nodes(ns@).skip(from as int)));
    }
}

/// Appends the unbound relationship structures of `rs` starting at `from`.
fn encode_unbound_structs(rs: &Vec<BoltUnboundRelationship>, from: usize, out: &mut Vec<u8>)
    requires
        from <= rs@.len(),
        forall|i: int| 0 <= i < rs@.len() ==> unbound_wf((#[trigger] rs@[i]).dv()),
    ensures
        final(out)@ == old(out)@ + enc_unbound_structs(dv_unbounds(rs@).skip(from as int)),
    decreases rs, 3nat, rs@.len() - from,
{
    proof {
        lemma_dv_unbounds(rs@);
    }
    if from < rs.len() {
        let ghost t = dv_unbounds(rs@).skip(from as int);
        out.push(MARKER_TINY_STRUCT + 3);
        out.push(SIG_UNBOUND_RELATIONSHIP);
        encode_unbound_body(&rs[from], out);
        encode_unbound_structs(rs, from + 1, out);
        proof {
            assert(t.drop_first() =~= dv_unbounds(rs@).skip(from + 1));
            assert(out@ =~= old(out)@ + enc_unbound_structs(t));
        }
    } else {
        assert(dv_unbounds(rs@).skip(from as int) =~= Seq::<UnboundModel>::empty());
        assert(out@ =~= old(out)@ + enc_unbound_structs(dv_unbounds(rs@).skip(from as int)));
    }
}

/// Encodes a value into a fresh buffer.
pub fn encode_to_vec(v: &Value) -> (r: Vec<u8>)
    requires
        v.dv().wf(),
    ensures
        r@ == enc(v.dv()),
{
    let mut out: Vec<u8> = Vec::new();
    encode_value(v, &mut out);
    assert(out@ =~= enc(v.dv()));
    out
}

} // verus!

verus! {

// ---------------------------------------------------------------------
// Executable decoder
// ---------------------------------------------------------------------

/// Relies on core::str::from_utf8 and str::to_owned: `from_utf8` succeeds
/// exactly on valid UTF-8 and returns the string those bytes spell, the
/// same reading of UTF-8 that vstd's `valid_utf8`/`decode_utf8` formalise;
/// `to_owned` copies the characters.
#[verifier::external_body]
fn utf8_to_string(bs: &[u8]) -> (r: Option<String>)
    ensures
        match r {
            Some(s) => valid_utf8(bs@) && s@ == decode_utf8(bs@),
            None => !valid_utf8(bs@),
        },
{
    match core::str::from_utf8(bs) {
        Ok(s) => Some(s.to_owned()),
        Err(_) => None,
    }
}

/// Copies `buf[from..to]` into a fresh vector.
pub fn copy_range(buf: &Vec<u8>, from: usize, to: usize) -> (r: Vec<u8>)
    requires
        from <= to <= buf@.len(),
    ensures
        r@ == buf@.subrange(from as int, to as int),
{
    let mut out: Vec<u8> = Vec::new();
    let mut i: usize = from;
    while i < to
        invariant
            from <= i <= to <= buf@.len(),
            out@ == buf@.subrange(from as int, i as int),
        decreases to - i,
    {
        out.push(buf[i]);
        assert(out@ =~= buf@.subrange(from as int, i + 1));
        i = i + 1;
    }
    out
}

/// Reads any of the five integer encodings at `pos`.
pub fn decode_int_any(buf: &Vec<u8>, pos: usize) -> (r: Result<(i64, usize), DecodeError>)
    requires
        pos <= buf@.len(),
    ensures
        match r {
            Ok((n, end)) => pos < end <= buf@.len()
                && dec_int_any(buf@.skip(pos as int)) == Some((n, buf@.skip(end as int))),
            Err(_) => dec_int_any(buf@.skip(pos as int)) is None,
        },
{
    let ghost tail = buf@.skip(pos as int);
    proof {
        lemma_pow256_values();
    }
    if pos >= buf.len() {
        return Err(DecodeError::Truncated);
    }
    let b = buf[pos];
    assert(tail[0] == b);
    if b < 0x80 {
        assert(tail.skip(1) =~= buf@.skip(pos + 1));
        assert(tail.drop_first() == tail.skip(1));
        Ok((b as i64, pos + 1))
    } else if b >= 0xF0 {
        assert(tail.skip(1) =~= buf@.skip(pos + 1));
        assert(tail.drop_first() == tail.skip(1));
        Ok((b as i64 - 256, pos + 1))
    } else if b == MARKER_INT8 {
        if buf.len() - pos >= 2 {
            let m = buf[pos + 1];
            assert(tail[1] == m);
            let v: i64 = if m < 128 {
                m as i64
            } else {
                m as i64 - 256
            };
            assert(signed_of(m as nat, 1) == v as int);
            assert(tail.skip(2) =~= buf@.skip(pos + 2));
            Ok((v, pos + 2))
        } else {
            Err(DecodeError::Truncated)
        }
    } else if b == MARKER_INT16 {
        if buf.len() - pos >= 3 {
            let m = read_be(buf, pos + 1, 2);
            proof {
                assert(tail.subrange(1, 3) =~= buf@.subrange(pos + 1, pos + 3));
                crate::ints::lemma_from_be_bound(tail.subrange(1, 3));
            }
            let v: i64 = if m < 0x8000 {
                m as i64
            } else {
                m as i64 - 0x1_0000
            };
            assert(signed_of(m as nat, 2) == v as int);
            assert(tail.skip(3) =~= buf@.skip(pos + 3));
            Ok((v, pos + 3))
        } else {
            Err(DecodeError::Truncated)
        }
    } else if b == MARKER_INT32 {
        if buf.len() - pos >= 5 {
            let m = read_be(buf, pos + 1, 4);
            proof {
                assert(tail.subrange(1, 5) =~= buf@.subrange(pos + 1, pos + 5));
                crate::ints::lemma_from_be_bound(tail.subrange(1, 5));
            }
            let v: i64 = if m < 0x8000_0000 {
                m as i64
            } else {
                m as i64 - 0x1_0000_0000
            };
            assert(signed_of(m as nat, 4) == v as int);
            assert(tail.skip(5) =~= buf@.skip(pos + 5));
            Ok((v, pos + 5))
        } else {
            Err(DecodeError::Truncated)
        }
    } else if b == MARKER_INT64 {
        if buf.len() - pos >= 9 {
            let m = read_be(buf, pos + 1, 8);
            proof {
                assert(tail.subrange(1, 9) =~= buf@.subrange(pos + 1, pos + 9));
                crate::ints::lemma_from_be_bound(tail.subrange(1, 9));
            }
            let v: i64 = if m < 0x8000_0000_0000_0000 {
                m as i64
            } else {
                -((u64::MAX - m) as i64) - 1
            };
            assert(signed_of(m as nat, 8) == v as int);
            assert(tail.skip(9) =~= buf@.skip(pos + 9));
            Ok((v, pos + 9))
        } else {
            Err(DecodeError::Truncated)
        }
    } else {
        Err(DecodeError::UnknownMarker(b))
    }
}

/// Reads a float field at `pos`, yielding the IEEE-754 bits.
pub fn decode_float_bits(buf: &Vec<u8>, pos: usize) -> (r: Result<(u64, usize), DecodeError>)
    requires
        pos <= buf@.len(),
    ensures
        match r {
            Ok((bits, end)) => pos < end <= buf@.len()
                && dec_float_bits(buf@.skip(pos as int)) == Some((bits, buf@.skip(end as int))),
            Err(_) => dec_float_bits(buf@.skip(pos as int)) is None,
        },
{
    let ghost tail = buf@.skip(pos as int);
    if pos >= buf.len() {
        return Err(DecodeError::Truncated);
    }
    let b = buf[pos];
    assert(tail[0] == b);
    if b != MARKER_FLOAT {
        return Err(DecodeError::UnknownMarker(b));
    }
    if buf.len() - pos >= 9 {
        let m = read_be(buf, pos + 1, 8);
        proof {
            lemma_pow256_values();
            assert(tail.subrange(1, 9) =~= buf@.subrange(pos + 1, pos + 9));
            crate::ints::lemma_from_be_bound(tail.subrange(1, 9));
        }
        assert(tail.skip(9) =~= buf@.skip(pos + 9));
        Ok((m, pos + 9))
    } else {
        Err(DecodeError::Truncated)
    }
}

/// Reads a string in any of its four encodings at `pos`.
pub fn decode_str_any(buf: &Vec<u8>, pos: usize) -> (r: Result<(String, usize), DecodeError>)
    requires
        pos <= buf@.len(),
    ensures
        match r {
            Ok((s, end)) => pos < end <= buf@.len()
                && dec_str_any(buf@.skip(pos as int)) == Some((s@, buf@.skip(end as int))),
            Err(_) => dec_str_any(buf@.skip(pos as int)) is None,
        },
{
    let ghost tail = buf@.skip(pos as int);
    proof {
        lemma_pow256_values();
    }
    if pos >= buf.len() {
        return Err(DecodeError::Truncated);
    }
    let b = buf[pos];
    assert(tail[0] == b);
    let data: usize;
    let len: u64;
    if MARKER_TINY_STRING <= b && b < MARKER_TINY_STRING + 16 {
        data = pos + 1;
        len = (b - MARKER_TINY_STRING) as u64;
        assert(tail.skip(1) =~= buf@.skip(data as int));
        assert(tail.drop_first() == tail.skip(1));
    } else if b == MARKER_STRING8 {
        if buf.len() - pos < 2 {
            return Err(DecodeError::Truncated);
        }
        data = pos + 2;
        len = buf[pos + 1] as u64;
        assert(tail[1] == buf@[pos + 1]);
        assert(tail.skip(2) =~= buf@.skip(data as int));
    } else if b == MARKER_STRING16 {
        if buf.len() - pos < 3 {
            return Err(DecodeError::Truncated);
        }
        data = pos + 3;
        len = read_be(buf, pos + 1, 2);
        proof {
            assert(tail.subrange(1, 3) =~= buf@.subrange(pos + 1, pos + 3));
            crate::ints::lemma_from_be_bound(tail.subrange(1, 3));
        }
        assert(tail.skip(3) =~= buf@.skip(data as int));
    } else if b == MARKER_STRING32 {
        if buf.len() - pos < 5 {
            return Err(DecodeError::Truncated);
        }
        data = pos + 5;
        len = read_be(buf, pos + 1, 4);
        proof {
            assert(tail.subrange(1, 5) =~= buf@.subrange(pos + 1, pos + 5));
            crate::ints::lemma_from_be_bound(tail.subrange(1, 5));
        }
        assert(tail.skip(5) =~= buf@.skip(data as int));
    } else {
        return Err(DecodeError::UnknownMarker(b));
    }
    let ghost dtail = buf@.skip(data as int);
    if len > (buf.len() - data) as u64 {
        assert(dtail.len() < len);
        return Err(DecodeError::Truncated);
    }
    let dlen: usize = len as usize;
    let bytes = copy_range(buf, data, data + dlen);
    assert(bytes@ =~= dtail.take(len as int));
    match utf8_to_string(bytes.as_slice()) {
        Some(s) => {
            assert(dtail.skip(len as int) =~= buf@.skip(data + dlen));
            Ok((s, data + dlen))
        },
        None => Err(DecodeError::BadUtf8),
    }
}

/// Reads a list header at `pos`, yielding the element count.
pub fn decode_list_header(buf: &Vec<u8>, pos: usize) -> (r: Result<(u64, usize), DecodeError>)
    requires
        pos <= buf@.len(),
    ensures
        match r {
            Ok((n, end)) => pos < end <= buf@.len()
                && dec_list_header(buf@.skip(pos as int)) == Some((n as nat, buf@.skip(end as int)))
                && n < 0x1_0000_0000,
            Err(_) => dec_list_header(buf@.skip(pos as int)) is None,
        },
{
    let ghost tail = buf@.skip(pos as int);
    proof {
        lemma_pow256_values();
    }
    if pos >= buf.len() {
        return Err(DecodeError::Truncated);
    }
    let b = buf[pos];
    assert(tail[0] == b);
    if MARKER_TINY_LIST <= b && b < MARKER_TINY_LIST + 16 {
        assert(tail.skip(1) =~= buf@.skip(pos + 1));
        assert(tail.drop_first() == tail.skip(1));
        Ok(((b - MARKER_TINY_LIST) as u64, pos + 1))
    } else if b == MARKER_LIST8 {
        if buf.len() - pos < 2 {
            return Err(DecodeError::Truncated);
        }
        assert(tail[1] == buf@[pos + 1]);
        assert(tail.skip(2) =~= buf@.skip(pos + 2));
        Ok((buf[pos + 1] as u64, pos + 2))
    } else if b == MARKER_LIST16 {
        if buf.len() - pos < 3 {
            return Err(DecodeError::Truncated);
        }
        let n = read_be(buf, pos + 1, 2);
        proof {
            assert(tail.subrange(1, 3) =~= buf@.subrange(pos + 1, pos + 3));
            crate::ints::lemma_from_be_bound(tail.subrange(1, 3));
        }
        assert(tail.skip(3) =~= buf@.skip(pos + 3));
        Ok((n, pos + 3))
    } else if b == MARKER_LIST32 {
        if buf.len() - pos < 5 {
            return Err(DecodeError::Truncated);
        }
        let n = read_be(buf, pos + 1, 4);
        proof {
            assert(tail.subrange(1, 5) =~= buf@.subrange(pos + 1, pos + 5));
            crate::ints::lemma_from_be_bound(tail.subrange(1, 5));
        }
        assert(tail.skip(5) =~= buf@.skip(pos + 5));
        Ok((n, pos + 5))
    } else {
        Err(DecodeError::UnknownMarker(b))
    }
}

/// Reads a map header at `pos`, yielding the entry count.
pub fn decode_map_header(buf: &Vec<u8>, pos: usize) -> (r: Result<(u64, usize), DecodeError>)
    requires
        pos <= buf@.len(),
    ensures
        match r {
            Ok((n, end)) => pos < end <= buf@.len()
                && dec_map_header(buf@.skip(pos as int)) == Some((n as nat, buf@.skip(end as int)))
                && n < 0x1_0000_0000,
            Err(_) => dec_map_header(buf@.skip(pos as int)) is None,
        },
{
    let ghost tail = buf@.skip(pos as int);
    proof {
        lemma_pow256_values();
    }
    if pos >= buf.len() {
        return Err(DecodeError::Truncated);
    }
    let b = buf[pos];
    assert(tail[0] == b);
    if MARKER_TINY_MAP <= b && b < MARKER_TINY_MAP + 16 {
        assert(tail.skip(1) =~= buf@.skip(pos + 1));
        assert(tail.drop_first() == tail.skip(1));
        Ok(((b - MARKER_TINY_MAP) as u64, pos + 1))
    } else if b == MARKER_MAP8 {
        if buf.len() - pos < 2 {
            return Err(DecodeError::Truncated);
        }
        assert(tail[1] == buf@[pos + 1]);
        assert(tail.skip(2) =~= buf@.skip(pos + 2));
        Ok((buf[pos + 1] as u64, pos + 2))
    } else if b == MARKER_MAP16 {
        if buf.len() - pos < 3 {
            return Err(DecodeError::Truncated);
        }
        let n = read_be(buf, pos + 1, 2);
        proof {
            assert(tail.subrange(1, 3) =~= buf@.subrange(pos + 1, pos + 3));
            crate::ints::lemma_from_be_bound(tail.subrange(1, 3));
        }
        assert(tail.skip(3) =~= buf@.skip(pos + 3));
        Ok((n, pos + 3))
    } else if b == MARKER_MAP32 {
        if buf.len() - pos < 5 {
            return Err(DecodeError::Truncated);
        }
        let n = read_be(buf, pos + 1, 4);
        proof {
            assert(tail.subrange(1, 5) =~= buf@.subrange(pos + 1, pos + 5));
            crate::ints::lemma_from_be_bound(tail.subrange(1, 5));
        }
        assert(tail.skip(5) =~= buf@.skip(pos + 5));
        Ok((n, pos + 5))
    } else {
        Err(DecodeError::UnknownMarker(b))
    }
}

} // verus!

verus! {

/// Reads `n` strings in sequence starting at `pos`.
fn decode_strs_n(buf: &Vec<u8>, pos: usize, n: u64) -> (r: Result<(Vec<String>, usize),
    DecodeError>)
    requires
        pos <= buf@.len(),
    ensures
        match r {
            Ok((ls, end)) => pos <= end <= buf@.len()
                && dec_strs(buf@.skip(pos as int), n as nat)
                    == Some((dv_strs(ls@), buf@.skip(end as int))),
            Err(_) => dec_strs(buf@.skip(pos as int), n as nat) is None,
        },
    decreases n,
{
    if n == 0 {
        let ls: Vec<String> = Vec::new();
        proof {
            assert(dv_strs(ls@) =~= Seq::<Seq<char>>::empty());
        }
        return Ok((ls, pos));
    }
    match decode_str_any(buf, pos) {
        Err(e) => Err(e),
        Ok((s, p2)) => match decode_strs_n(buf, p2, n - 1) {
            Err(e) => Err(e),
            Ok((ls2, end)) => {
                let ghost prev = ls2@;
                let mut ls = ls2;
                ls.insert(0, s);
                proof {
                    assert(ls@ =~= seq![s] + prev);
                    assert(dv_strs(ls@) =~= seq![s@] + dv_strs(prev));
                }
                Ok((ls, end))
            },
        },
    }
}

/// Reads `n` integers in sequence starting at `pos`.
fn decode_ints_n(buf: &Vec<u8>, pos: usize, n: u64) -> (r: Result<(Vec<i64>, usize),
    DecodeError>)
    requires
        pos <= buf@.len(),
    ensures
        match r {
            Ok((is, end)) => pos <= end <= buf@.len()
                && dec_ints(buf@.skip(pos as int), n as nat)
                    == Some((is@, buf@.skip(end as int))),
            Err(_) => dec_ints(buf@.skip(pos as int), n as nat) is None,
        },
    decreases n,
{
    if n == 0 {
        let is: Vec<i64> = Vec::new();
        proof {
            assert(is@ =~= Seq::<i64>::empty());
        }
        return Ok((is, pos));
    }
    match decode_int_any(buf, pos) {
        Err(e) => Err(e),
        Ok((x, p2)) => match decode_ints_n(buf, p2, n - 1) {
            Err(e) => Err(e),
            Ok((is2, end)) => {
                let ghost prev = is2@;
                let mut is = is2;
                is.insert(0, x);
                proof {
                    assert(is@ =~= seq![x] + prev);
                }
                Ok((is, end))
            },
        },
    }
}

/// Reads one value at `pos`. Each way the input can be malformed at the
/// outermost marker is its own error: missing bytes are `Truncated`, a
/// byte the format does not define is `UnknownMarker`, and a structure
/// whose signature and field count name nothing is `UnknownSignature`;
/// a failure deeper inside a nested value surfaces that value's error.
#[verifier::spinoff_prover]
#[verifier::rlimit(100)]
pub fn decode_value(buf: &Vec<u8>, pos: usize) -> (r: Result<(Value, usize), DecodeError>)
    requires
        pos <= buf@.len(),
    ensures
        match r {
            Ok((v, end)) => pos < end <= buf@.len()
                && dec(buf@.skip(pos as int)) == Some((v.dv(), buf@.skip(end as int))),
            Err(_) => dec(buf@.skip(pos as int)) is None,
        },
        pos == buf@.len() ==> (r matches Err(e) && e == DecodeError::Truncated),
        pos < buf@.len() && !marker_recognized(buf@[pos as int])
            ==> (r matches Err(e) && e == DecodeError::UnknownMarker(buf@[pos as int])),
        pos < buf@.len() && MARKER_TINY_STRUCT <= buf@[pos as int] < 0xC0
            && buf@.len() - pos < 2
            ==> (r matches Err(e) && e == DecodeError::Truncated),
        pos < buf@.len() && MARKER_TINY_STRUCT <= buf@[pos as int] < 0xC0
            && buf@.len() - pos >= 2
            && !struct_known((buf@[pos as int] - MARKER_TINY_STRUCT) as nat, buf@[pos + 1])
            ==> (r matches Err(e) && e == DecodeError::UnknownSignature(buf@[pos + 1])),
    decreases buf@.len() - pos, 0nat, 0nat,
{
    let ghost tail = buf@.skip(pos as int);
    if pos >= buf.len() {
        return Err(DecodeError::Truncated);
    }
    let b = buf[pos];
    assert(tail[0] == b);
    if b < 0x80 || b >= 0xF0 || b == MARKER_INT8 || b == MARKER_INT16 || b == MARKER_INT32
        || b == MARKER_INT64 {
        match decode_int_any(buf, pos) {
            Ok((n, end)) => Ok((Value::Integer(n), end)),
            Err(e) => Err(e),
        }
    } else if b < 0x90 || b == MARKER_STRING8 || b == MARKER_STRING16 || b == MARKER_STRING32 {
        match decode_str_any(buf, pos) {
            Ok((s, end)) => Ok((Value::Str(s), end)),
            Err(e) => Err(e),
        }
    } else if b < 0xA0 || b == MARKER_LIST8 || b == MARKER_LIST16 || b == MARKER_LIST32 {
        match decode_list_header(buf, pos) {
            Err(e) => Err(e),
            Ok((n, hend)) => {
                proof {
                    assert(step(tail, buf@.skip(hend as int)) == buf@.skip(hend as int));
                }
                match decode_items(buf, hend, n) {
                    Err(e) => Err(e),
                    Ok((items, end)) => Ok((Value::List(items), end)),
                }
            },
        }
    } else if b < 0xB0 || b == MARKER_MAP8 || b == MARKER_MAP16 || b == MARKER_MAP32 {
        match decode_map_header(buf, pos) {
            Err(e) => Err(e),
            Ok((n, hend)) => {
                proof {
                    assert(step(tail, buf@.skip(hend as int)) == buf@.skip(hend as int));
                }
                match decode_entries(buf, hend, n) {
                    Err(e) => Err(e),
                    Ok((entries, end)) => Ok((Value::Dictionary(entries), end)),
                }
            },
        }
    } else if b < 0xC0 {
        if buf.len() - pos < 2 {
            return Err(DecodeError::Truncated);
        }
        let sig = buf[pos + 1];
        let size = b - MARKER_TINY_STRUCT;
        assert(tail[1] == sig);
        assert(tail.skip(2) =~= buf@.skip(pos + 2));
        decode_struct_at(buf, pos + 2, size, sig)
    } else if b == MARKER_NULL {
        assert(tail.drop_first() == tail.skip(1));
        assert(tail.skip(1) =~= buf@.skip(pos + 1));
        Ok((Value::Null, pos + 1))
    } else if b == MARKER_FALSE {
        assert(tail.drop_first() == tail.skip(1));
        assert(tail.skip(1) =~= buf@.skip(pos + 1));
        Ok((Value::Bool(false), pos + 1))
    } else if b == MARKER_TRUE {
        assert(tail.drop_first() == tail.skip(1));
        assert(tail.skip(1) =~= buf@.skip(pos + 1));
        Ok((Value::Bool(true), pos + 1))
    } else if b == MARKER_FLOAT {
        match decode_float_bits(buf, pos) {
            Err(e) => Err(e),
            Ok((bits, end)) => Ok((Value::Float(bits), end)),
        }
    } else if b == MARKER_BYTES8 || b == MARKER_BYTES16 || b == MARKER_BYTES32 {
        let data: usize;
        let len: u64;
        if b == MARKER_BYTES8 {
            if buf.len() - pos < 2 {
                return Err(DecodeError::Truncated);
            }
            data = pos + 2;
            len = buf[pos + 1] as u64;
            assert(tail[1] == buf@[pos + 1]);
            assert(tail.skip(2) =~= buf@.skip(data as int));
        } else if b == MARKER_BYTES16 {
            if buf.len() - pos < 3 {
                return Err(DecodeError::Truncated);
            }
            data = pos + 3;
            len = read_be(buf, pos + 1, 2);
            proof {
                assert(tail.subrange(1, 3) =~= buf@.subrange(pos + 1, pos + 3));
                crate::ints::lemma_from_be_bound(tail.subrange(1, 3));
                lemma_pow256_values();
            }
            assert(tail.skip(3) =~= buf@.skip(data as int));
        } else {
            if buf.len() - pos < 5 {
                return Err(DecodeError::Truncated);
            }
            data = pos + 5;
            len = read_be(buf, pos + 1, 4);
            proof {
                assert(tail.subrange(1, 5) =~= buf@.subrange(pos + 1, pos + 5));
                crate::ints::lemma_from_be_bound(tail.subrange(1, 5));
                lemma_pow256_values();
            }
            assert(tail.skip(5) =~= buf@.skip(data as int));
        }
        let ghost dtail = buf@.skip(data as int);
        if len > (buf.len() - data) as u64 {
            assert(dtail.len() < len);
            return Err(DecodeError::Truncated);
        }
        let dlen: usize = len as usize;
        let bytes = copy_range(buf, data, data + dlen);
        proof {
            assert(bytes@ =~= dtail.take(len as int));
            assert(dtail.skip(len as int) =~= buf@.skip(data + dlen));
        }
        Ok((Value::Bytes(bytes), data + dlen))
    } else {
        Err(DecodeError::UnknownMarker(b))
    }
}

/// Reads `n` values in sequence starting at `pos`.
pub fn decode_items(buf: &Vec<u8>, pos: usize, n: u64) -> (r: Result<(Vec<Value>, usize),
    DecodeError>)
    requires
        pos <= buf@.len(),
    ensures
        match r {
            Ok((vs, end)) => pos <= end <= buf@.len()
                && dec_items(buf@.skip(pos as int), n as nat)
                    == Some((dv_seq(vs@), buf@.skip(end as int))),
            Err(_) => dec_items(buf@.skip(pos as int), n as nat) is None,
        },
    decreases buf@.len() - pos, 1nat, n,
{
    let ghost tail = buf@.skip(pos as int);
    if n == 0 {
        let vs: Vec<Value> = Vec::new();
        proof {
            assert(dv_seq(vs@) =~= Seq::<ValueModel>::empty());
        }
        return Ok((vs, pos));
    }
    if pos >= buf.len() {
        return Err(DecodeError::Truncated);
    }
    match decode_value(buf, pos) {
        Err(e) => Err(e),
        Ok((v, p2)) => {
            proof {
                assert(step(tail, buf@.skip(p2 as int)) == buf@.skip(p2 as int));
            }
            match decode_items(buf, p2, n - 1) {
                Err(e) => Err(e),
                Ok((vs2, end)) => {
                    let ghost prev = vs2@;
                    let mut vs = vs2;
                    vs.insert(0, v);
                    proof {
                        assert(vs@ =~= seq![v] + prev);
                        lemma_dv_seq(vs@);
                        lemma_dv_seq(prev);
                        assert(dv_seq(vs@) =~= seq![v.dv()] + dv_seq(prev));
                    }
                    Ok((vs, end))
                },
            }
        },
    }
}

/// Reads `n` key-value entries in sequence starting at `pos`.
pub fn decode_entries(buf: &Vec<u8>, pos: usize, n: u64) -> (r: Result<(Vec<(String, Value)>, usize),
    DecodeError>)
    requires
        pos <= buf@.len(),
    ensures
        match r {
            Ok((es, end)) => pos <= end <= buf@.len()
                && dec_entries(buf@.skip(pos as int), n as nat)
                    == Some((dv_entries(es@), buf@.skip(end as int))),
            Err(_) => dec_entries(buf@.skip(pos as int), n as nat) is None,
        },
    decreases buf@.len() - pos, 1nat, n,
{
    let ghost tail = buf@.skip(pos as int);
    if n == 0 {
        let es: Vec<(String, Value)> = Vec::new();
        proof {
            assert(dv_entries(es@) =~= Seq::<(Seq<char>, ValueModel)>::empty());
        }
        return Ok((es, pos));
    }
    if pos >= buf.len() {
        return Err(DecodeError::Truncated);
    }
    match decode_str_any(buf, pos) {
        Err(e) => Err(e),
        Ok((k, p1)) => {
            proof {
                assert(step(tail, buf@.skip(p1 as int)) == buf@.skip(p1 as int));
            }
            match decode_value(buf, p1) {
                Err(e) => Err(e),
                Ok((v, p2)) => {
                    proof {
                        assert(step(tail, buf@.skip(p2 as int)) == buf@.skip(p2 as int));
                    }
                    match decode_entries(buf, p2, n - 1) {
                        Err(e) => Err(e),
                        Ok((es2, end)) => {
                            let ghost prev = es2@;
                            let mut es = es2;
                            es.insert(0, (k, v));
                            proof {
                                assert(es@ =~= seq![(k, v)] + prev);
                                lemma_dv_entries(es@);
                                lemma_dv_entries(prev);
                                assert(dv_entries(es@) =~= seq![(k@, v.dv())] + dv_entries(prev));
                            }
                            Ok((es, end))
                        },
                    }
                },
            }
        },
    }
}

/// Reads the three fields of a node structure starting at `pos`.
#[verifier::spinoff_prover]
fn decode_node_body(buf: &Vec<u8>, pos: usize) -> (r: Result<(BoltNode, usize), DecodeError>)
    requires
        pos <= buf@.len(),
    ensures
        match r {
            Ok((nd, end)) => pos < end <= buf@.len()
                && dec_node_body(buf@.skip(pos as int)) == Some((nd.dv(), buf@.skip(end as int))),
            Err(_) => dec_node_body(buf@.skip(pos as int)) is None,
        },
    decreases buf@.len() - pos, 2nat, 0nat,
{
    let ghost tail = buf@.skip(pos as int);
    if pos >= buf.len() {
        return Err(DecodeError::Truncated);
    }
    match decode_int_any(buf, pos) {
        Err(e) => Err(e),
        Ok((id, p1)) => match decode_list_header(buf, p1) {
            Err(e) => Err(e),
            Ok((ln, p2)) => match decode_strs_n(buf, p2, ln) {
                Err(e) => Err(e),
                Ok((labels, p3)) => match decode_map_header(buf, p3) {
                    Err(e) => Err(e),
                    Ok((pn, p4)) => {
                        proof {
                            assert(step(tail, buf@.skip(p4 as int)) == buf@.skip(p4 as int));
                        }
                        match decode_entries(buf, p4, pn) {
                            Err(e) => Err(e),
                            Ok((props, p5)) => {
                                let nd = BoltNode { id, labels, properties: props };
                                Ok((nd, p5))
                            },
                        }
                    },
                },
            },
        },
    }
}

/// Reads the five fields of a relationship structure starting at `pos`.
#[verifier::spinoff_prover]
fn decode_rel_body(buf: &Vec<u8>, pos: usize) -> (r: Result<(BoltRelationship, usize),
    DecodeError>)
    requires
        pos <= buf@.len(),
    ensures
        match r {
            Ok((x, end)) => pos < end <= buf@.len()
                && dec_rel_body(buf@.skip(pos as int)) == Some((x.dv(), buf@.skip(end as int))),
            Err(_) => dec_rel_body(buf@.skip(pos as int)) is None,
        },
    decreases buf@.len() - pos, 2nat, 0nat,
{
    let ghost tail = buf@.skip(pos as int);
    if pos >= buf.len() {
        return Err(DecodeError::Truncated);
    }
    match decode_int_any(buf, pos) {
        Err(e) => Err(e),
        Ok((id, p1)) => match decode_int_any(buf, p1) {
            Err(e) => Err(e),
            Ok((start_node_id, p2)) => match decode_int_any(buf, p2) {
                Err(e) => Err(e),
                Ok((end_node_id, p3)) => match decode_str_any(buf, p3) {
                    Err(e) => Err(e),
                    Ok((typ, p4)) => match decode_map_header(buf, p4) {
                        Err(e) => Err(e),
                        Ok((pn, p5)) => {
                            proof {
                                assert(step(tail, buf@.skip(p5 as int))
                                    == buf@.skip(p5 as int));
                            }
                            match decode_entries(buf, p5, pn) {
                                Err(e) => Err(e),
                                Ok((props, p6)) => {
                                    let x = BoltRelationship {
                                        id,
                                        start_node_id,
                                        end_node_id,
                                        typ,
                                        properties: props,
                                    };
                                    Ok((x, p6))
                                },
                            }
                        },
                    },
                },
            },
        },
    }
}

/// Reads the three fields of an unbound relationship structure.
#[verifier::spinoff_prover]
fn decode_unbound_body(buf: &Vec<u8>, pos: usize) -> (r: Result<(BoltUnboundRelationship, usize),
    DecodeError>)
    requires
        pos <= buf@.len(),
    ensures
        match r {
            Ok((x, end)) => pos < end <= buf@.len()
                && dec_unbound_body(buf@.skip(pos as int))
                    == Some((x.dv(), buf@.skip(end as int))),
            Err(_) => dec_unbound_body(buf@.skip(pos as int)) is None,
        },
    decreases buf@.len() - pos, 2nat, 0nat,
{
    let ghost tail = buf@.skip(pos as int);
    if pos >= buf.len() {
        return Err(DecodeError::Truncated);
    }
    match decode_int_any(buf, pos) {
        Err(e) => Err(e),
        Ok((id, p1)) => match decode_str_any(buf, p1) {
            Err(e) => Err(e),
            Ok((typ, p2)) => match decode_map_header(buf, p2) {
                Err(e) => Err(e),
                Ok((pn, p3)) => {
                    proof {
                        assert(step(tail, buf@.skip(p3 as int)) == buf@.skip(p3 as int));
                    }
                    match decode_entries(buf, p3, pn) {
                        Err(e) => Err(e),
                        Ok((props, p4)) => {
                            let x = BoltUnboundRelationship { id, typ, properties: props };
                            Ok((x, p4))
                        },
                    }
                },
            },
        },
    }
}

/// Reads the three fields of a path structure starting at `pos`.
#[verifier::spinoff_prover]
fn decode_path_body(buf: &Vec<u8>, pos: usize) -> (r: Result<(BoltPath, usize), DecodeError>)
    requires
        pos <= buf@.len(),
    ensures
        match r {
            Ok((x, end)) => pos < end <= buf@.len()
                && dec_path_body(buf@.skip(pos as int)) == Some((x.dv(), buf@.skip(end as int))),
            Err(_) => dec_path_body(buf@.skip(pos as int)) is None,
        },
    decreases buf@.len() - pos, 2nat, 0nat,
{
    let ghost tail = buf@.skip(pos as int);
    if pos >= buf.len() {
        return Err(DecodeError::Truncated);
    }
    match decode_list_header(buf, pos) {
        Err(e) => Err(e),
        Ok((nn, p1)) => {
            proof {
                assert(step(tail, buf@.skip(p1 as int)) == buf@.skip(p1 as int));
            }
            match decode_node_structs(buf, p1, nn) {
                Err(e) => Err(e),
                Ok((nodes, p2)) => match decode_list_header(buf, p2) {
                    Err(e) => Err(e),
                    Ok((rn, p3)) => {
                        proof {
                            assert(step(tail, buf@.skip(p3 as int)) == buf@.skip(p3 as int));
                        }
                        match decode_unbound_structs(buf, p3, rn) {
                            Err(e) => Err(e),
                            Ok((rels, p4)) => match decode_list_header(buf, p4) {
                                Err(e) => Err(e),
                                Ok((inn, p5)) => match decode_ints_n(buf, p5, inn) {
                                    Err(e) => Err(e),
                                    Ok((indices, p6)) => {
                                        let x = BoltPath {
                                            nodes,
                                            relationships: rels,
                                            indices,
                                        };
                                        Ok((x, p6))
                                    },
                                },
                            },
                        }
                    },
                },
            }
        },
    }
}

/// Reads `n` node structures in sequence starting at `pos`.
fn decode_node_structs(buf: &Vec<u8>, pos: usize, n: u64) -> (r: Result<(Vec<BoltNode>, usize),
    DecodeError>)
    requires
        pos <= buf@.len(),
    ensures
        match r {
            Ok((ns, end)) => pos <= end <= buf@.len()
                && dec_node_structs(buf@.skip(pos as int), n as nat)
                    == Some((dv_nodes(ns@), buf@.skip(end as int))),
            Err(_) => dec_node_structs(buf@.skip(pos as int), n as nat) is None,
        },
    decreases buf@.len() - pos, 1nat, n,
{
    let ghost tail = buf@.skip(pos as int);
    if n == 0 {
        let ns: Vec<BoltNode> = Vec::new();
        proof {
            assert(dv_nodes(ns@) =~= Seq::<NodeModel>::empty());
        }
        return Ok((ns, pos));
    }
    if buf.len() - pos < 2 {
        return Err(DecodeError::Truncated);
    }
    assert(tail[0] == buf@[pos as int]);
    assert(tail[1] == buf@[pos + 1]);
    if buf[pos] != MARKER_TINY_STRUCT + 3 {
        return Err(DecodeError::UnknownMarker(buf[pos]));
    }
    if buf[pos + 1] != SIG_NODE {
        return Err(DecodeError::UnknownSignature(buf[pos + 1]));
    }
    assert(tail.skip(2) =~= buf@.skip(pos + 2));
    match decode_node_body(buf, pos + 2) {
        Err(e) => Err(e),
        Ok((head, p2)) => {
            proof {
                assert(step(tail, buf@.skip(p2 as int)) == buf@.skip(p2 as int));
            }
            match decode_node_structs(buf, p2, n - 1) {
                Err(e) => Err(e),
                Ok((ns2, end)) => {
                    let ghost prev = ns2@;
                    let mut ns = ns2;
                    ns.insert(0, head);
                    proof {
                        assert(ns@ =~= seq![head] + prev);
                        lemma_dv_nodes(ns@);
                        lemma_dv_nodes(prev);
                        assert(dv_nodes(ns@) =~= seq![head.dv()] + dv_nodes(prev));
                    }
                    Ok((ns, end))
                },
            }
        },
    }
}

/// Reads `n` unbound relationship structures in sequence starting at `pos`.
fn decode_unbound_structs(buf: &Vec<u8>, pos: usize, n: u64) -> (r: Result<
    (Vec<BoltUnboundRelationship>, usize), DecodeError>)
    requires
        pos <= buf@.len(),
    ensures
        match r {
            Ok((rs, end)) => pos <= end <= buf@.len()
                && dec_unbound_structs(buf@.skip(pos as int), n as nat)
                    == Some((dv_unbounds(rs@), buf@.skip(end as int))),
            Err(_) => dec_unbound_structs(buf@.skip(pos as int), n as nat) is None,
        },
    decreases buf@.len() - pos, 1nat, n,
{
    let ghost tail = buf@.skip(pos as int);
    if n == 0 {
        let rs: Vec<BoltUnboundRelationship> = Vec::new();
        proof {
            assert(dv_unbounds(rs@) =~= Seq::<UnboundModel>::empty());
        }
        return Ok((rs, pos));
    }
    if buf.len() - pos < 2 {
        return Err(DecodeError::Truncated);
    }
    assert(tail[0] == buf@[pos as int]);
    assert(tail[1] == buf@[pos + 1]);
    if buf[pos] != MARKER_TINY_STRUCT + 3 {
        return Err(DecodeError::UnknownMarker(buf[pos]));
    }
    if buf[pos + 1] != SIG_UNBOUND_RELATIONSHIP {
        return Err(DecodeError::UnknownSignature(buf[pos + 1]));
    }
    assert(tail.skip(2) =~= buf@.skip(pos + 2));
    match decode_unbound_body(buf, pos + 2) {
        Err(e) => Err(e),
        Ok((head, p2)) => {
            proof {
                assert(step(tail, buf@.skip(p2 as int)) == buf@.skip(p2 as int));
            }
            match decode_unbound_structs(buf, p2, n - 1) {
                Err(e) => Err(e),
                Ok((rs2, end)) => {
                    let ghost prev = rs2@;
                    let mut rs = rs2;
                    rs.insert(0, head);
                    proof {
                        assert(rs@ =~= seq![head] + prev);
                        lemma_dv_unbounds(rs@);
                        lemma_dv_unbounds(prev);
                        assert(dv_unbounds(rs@) =~= seq![head.dv()] + dv_unbounds(prev));
                    }
                    Ok((rs, end))
                },
            }
        },
    }
}

} // verus!

verus! {

/// Dispatches a structure body on its signature and field count; `pos` is
/// the first byte after the signature.
#[verifier::spinoff_prover]
#[verifier::rlimit(100)]
fn decode_struct_at(buf: &Vec<u8>, pos: usize, size: u8, sig: u8) -> (r: Result<(Value, usize),
    DecodeError>)
    requires
        pos <= buf@.len(),
    ensures
        match r {
            Ok((v, end)) => pos <= end <= buf@.len()
                && dec_struct(size as nat, sig, buf@.skip(pos as int))
                    == Some((v.dv(), buf@.skip(end as int))),
            Err(_) => dec_struct(size as nat, sig, buf@.skip(pos as int)) is None,
        },
        !struct_known(size as nat, sig)
            ==> (r matches Err(e) && e == DecodeError::UnknownSignature(sig)),
    decreases buf@.len() - pos, 3nat, 0nat,
{
    if sig == SIG_NODE && size == 3 {
        match decode_node_body(buf, pos) {
            Err(e) => Err(e),
            Ok((n, end)) => Ok((Value::Node(n), end)),
        }
    } else if sig == SIG_RELATIONSHIP && size == 5 {
        match decode_rel_body(buf, pos) {
            Err(e) => Err(e),
            Ok((x, end)) => Ok((Value::Relationship(x), end)),
        }
    } else if sig == SIG_UNBOUND_RELATIONSHIP && size == 3 {
        match decode_unbound_body(buf, pos) {
            Err(e) => Err(e),
            Ok((x, end)) => Ok((Value::UnboundRelationship(x), end)),
        }
    } else if sig == SIG_PATH && size == 3 {
        match decode_path_body(buf, pos) {
            Err(e) => Err(e),
            Ok((x, end)) => Ok((Value::Path(x), end)),
        }
    } else if sig == SIG_POINT_2D && size == 3 {
        match decode_int_any(buf, pos) {
            Err(e) => Err(e),
            Ok((srid, p1)) => match decode_float_bits(buf, p1) {
                Err(e) => Err(e),
                Ok((x, p2)) => match decode_float_bits(buf, p2) {
                    Err(e) => Err(e),
                    Ok((y, end)) => Ok((Value::Point2D(BoltPoint2D { srid, x, y }), end)),
                },
            },
        }
    } else if sig == SIG_POINT_3D && size == 4 {
        match decode_int_any(buf, pos) {
            Err(e) => Err(e),
            Ok((srid, p1)) => match decode_float_bits(buf, p1) {
                Err(e) => Err(e),
                Ok((x, p2)) => match decode_float_bits(buf, p2) {
                    Err(e) => Err(e),
                    Ok((y, p3)) => match decode_float_bits(buf, p3) {
                        Err(e) => Err(e),
                        Ok((z, end)) => Ok((Value::Point3D(BoltPoint3D { srid, x, y, z }), end)),
                    },
                },
            },
        }
    } else {
        Err(DecodeError::UnknownSignature(sig))
    }
}

} // verus!

verus! {

/// Round trip, exactly: an encoded representable value decodes to itself
/// with nothing left over.
pub proof fn lemma_dec_enc_exact(v: ValueModel)
    requires
        v.wf(),
    ensures
        dec(enc(v)) == Some((v, Seq::<u8>::empty())),
{
    lemma_dec_enc(v, Seq::empty());
    assert(enc(v) + Seq::<u8>::empty() =~= enc(v));
}

} // verus!
