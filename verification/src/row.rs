//! Result records: named fields with typed accessors.
//!
//! Typed accessors return nothing on a shape mismatch instead of failing,
//! so callers can probe optional fields.

use vstd::prelude::*;
use crate::value::{Value, ValueModel, BoltNode};
use crate::query::lookup_entry;

verus! {

/// One result record: field names and the values under them, in order.
#[derive(Debug)]
pub struct Row {
    pub fields: Vec<String>,
    pub values: Vec<Value>,
}

impl Row {
    /// As many names as values.
    pub open spec fn wf(self) -> bool {
        self.fields@.len() == self.values@.len()
    }

    /// The record as an entry sequence.
    pub open spec fn entries(self) -> Seq<(Seq<char>, ValueModel)> {
        Seq::new(self.values@.len(), |i: int| (self.fields@[i]@, self.values@[i].dv()))
    }

    pub fn new(fields: Vec<String>, values: Vec<Value>) -> (r: Row)
        requires
            fields@.len() == values@.len(),
        ensures
            r.wf(),
            r.fields == fields,
            r.values == values,
    {
        Row { fields, values }
    }

    /// The value under `name`: the first field of that name, if any.
    pub fn get<'a>(&'a self, name: &String) -> (r: Option<&'a Value>)
        requires
            self.wf(),
        ensures
            match r {
                Some(v) => lookup_entry(self.entries(), name@) == Some(v.dv()),
                None => lookup_entry(self.entries(), name@) is None,
            },
    {
        let n = self.fields.len();
        let mut i: usize = 0;
        let mut found = false;
        while !found && i < n
            invariant
                self.wf(),
                n == self.fields@.len(),
                i <= n,
                found ==> i < n && self.fields@[i as int]@ == name@,
                forall|j: int| 0 <= j < i ==> (#[trigger] self.fields@[j])@ != name@,
            decreases n - i, (if found { 0int } else { 1int }),
        {
            if self.fields[i] == *name {
                found = true;
            } else {
                i = i + 1;
            }
        }
        if found {
            proof {
                assert(self.entries()[i as int]
                    == (self.fields@[i as int]@, self.values@[i as int].dv()));
                assert(self.entries()[i as int].0 == name@);
                assert forall|j: int| 0 <= j < i implies
                    (#[trigger] self.entries()[j]).0 != name@ by {
                    assert(self.entries()[j].0 == self.fields@[j]@);
                }
                lemma_lookup_entries_found(self.entries(), name@, i as int);
            }
            Some(&self.values[i])
        } else {
            proof {
                assert forall|j: int| 0 <= j < self.entries().len() implies
                    (#[trigger] self.entries()[j]).0 != name@ by {
                    assert(self.entries()[j].0 == self.fields@[j]@);
                }
                lemma_lookup_entries_absent(self.entries(), name@);
            }
            None
        }
    }

    /// The integer under `name`, if that field holds an integer.
    pub fn get_int(&self, name: &String) -> (r: Option<i64>)
        requires
            self.wf(),
        ensures
            r == (match lookup_entry(self.entries(), name@) {
                Some(ValueModel::Integer(n)) => Some(n),
                _ => None::<i64>,
            }),
    {
        match self.get(name) {
            Some(Value::Integer(n)) => Some(*n),
            _ => None,
        }
    }

    /// The boolean under `name`, if that field holds a boolean.
    pub fn get_bool(&self, name: &String) -> (r: Option<bool>)
        requires
            self.wf(),
        ensures
            r == (match lookup_entry(self.entries(), name@) {
                Some(ValueModel::Bool(b)) => Some(b),
                _ => None::<bool>,
            }),
    {
        match self.get(name) {
            Some(Value::Bool(b)) => Some(*b),
            _ => None,
        }
    }

    /// The IEEE-754 bits of the float under `name`, if that field holds a
    /// float.
    pub fn get_float_bits(&self, name: &String) -> (r: Option<u64>)
        requires
            self.wf(),
        ensures
            r == (match lookup_entry(self.entries(), name@) {
                Some(ValueModel::Float(bits)) => Some(bits),
                _ => None::<u64>,
            }),
    {
        match self.get(name) {
            Some(Value::Float(bits)) => Some(*bits),
            _ => None,
        }
    }

    /// The string under `name`, if that field holds a string.
    pub fn get_str<'a>(&'a self, name: &String) -> (r: Option<&'a String>)
        requires
            self.wf(),
        ensures
            match r {
                Some(s) => lookup_entry(self.entries(), name@) == Some(ValueModel::Str(s@)),
                None => !(lookup_entry(self.entries(), name@) matches Some(m) && m is Str),
            },
    {
        match self.get(name) {
            Some(Value::Str(s)) => Some(s),
            _ => None,
        }
    }

    /// The node under `name`, if that field holds a node.
    pub fn get_node<'a>(&'a self, name: &String) -> (r: Option<&'a BoltNode>)
        requires
            self.wf(),
        ensures
            match r {
                Some(n) => lookup_entry(self.entries(), name@) == Some(ValueModel::Node(n.dv())),
                None => !(lookup_entry(self.entries(), name@) matches Some(m) && m is Node),
            },
    {
        match self.get(name) {
            Some(Value::Node(n)) => Some(n),
            _ => None,
        }
    }
}

proof fn lemma_lookup_entries_found(es: Seq<(Seq<char>, ValueModel)>, k: Seq<char>, i: int)
    requires
        0 <= i < es.len(),
        es[i].0 == k,
        forall|j: int| 0 <= j < i ==> (#[trigger] es[j]).0 != k,
    ensures
        lookup_entry(es, k) == Some(es[i].1),
    decreases es.len(),
{
    if i > 0 {
        assert(forall|j: int| 0 <= j < i - 1 ==> (#[trigger] es.drop_first()[j]).0 != k);
        lemma_lookup_entries_found(es.drop_first(), k, i - 1);
    }
}

proof fn lemma_lookup_entries_absent(es: Seq<(Seq<char>, ValueModel)>, k: Seq<char>)
    requires
        forall|j: int| 0 <= j < es.len() ==> (#[trigger] es[j]).0 != k,
    ensures
        lookup_entry(es, k) is None,
    decreases es.len(),
{
    if es.len() > 0 {
        assert(forall|j: int| 0 <= j < es.drop_first().len()
            ==> (#[trigger] es.drop_first()[j]).0 != k);
        lemma_lookup_entries_absent(es.drop_first(), k);
    }
}

impl Value {
    /// The integer inside, if this is an integer.
    pub fn as_int(&self) -> (r: Option<i64>)
        ensures
            r == (match self.dv() {
                ValueModel::Integer(n) => Some(n),
                _ => None::<i64>,
            }),
    {
        match self {
            Value::Integer(n) => Some(*n),
            _ => None,
        }
    }

    /// The boolean inside, if this is a boolean.
    pub fn as_bool(&self) -> (r: Option<bool>)
        ensures
            r == (match self.dv() {
                ValueModel::Bool(b) => Some(b),
                _ => None::<bool>,
            }),
    {
        match self {
            Value::Bool(b) => Some(*b),
            _ => None,
        }
    }

    /// The string inside, if this is a string.
    pub fn as_str<'a>(&'a self) -> (r: Option<&'a String>)
        ensures
            match r {
                Some(s) => self.dv() == ValueModel::Str(s@),
                None => !(self.dv() is Str),
            },
    {
        match self {
            Value::Str(s) => Some(s),
            _ => None,
        }
    }

    /// The node inside, if this is a node.
    pub fn as_node<'a>(&'a self) -> (r: Option<&'a BoltNode>)
        ensures
            match r {
                Some(n) => self.dv() == ValueModel::Node(n.dv()),
                None => !(self.dv() is Node),
            },
    {
        match self {
            Value::Node(n) => Some(n),
            _ => None,
        }
    }
}

} // verus!
