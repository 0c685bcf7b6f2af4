//! Queries: an immutable statement plus named parameters with unique keys.

use vstd::prelude::*;
use crate::value::{Value, ValueModel, dv_entries, str_wf, map_wf, keys_unique,
    lemma_dv_entries};

verus! {

/// First-match lookup in an entry sequence.
pub open spec fn lookup_entry(es: Seq<(Seq<char>, ValueModel)>, k: Seq<char>) -> Option<ValueModel>
    decreases es.len(),
{
    if es.len() == 0 {
        None
    } else if es[0].0 == k {
        Some(es[0].1)
    } else {
        lookup_entry(es.drop_first(), k)
    }
}

/// Replaces the first entry whose key is `k`, or appends one.
pub open spec fn upsert_entry(es: Seq<(Seq<char>, ValueModel)>, k: Seq<char>, v: ValueModel)
    -> Seq<(Seq<char>, ValueModel)>
    decreases es.len(),
{
    if es.len() == 0 {
        seq![(k, v)]
    } else if es[0].0 == k {
        seq![(k, v)] + es.drop_first()
    } else {
        seq![es[0]] + upsert_entry(es.drop_first(), k, v)
    }
}

proof fn lemma_upsert_absent(es: Seq<(Seq<char>, ValueModel)>, k: Seq<char>, v: ValueModel)
    requires
        forall|i: int| 0 <= i < es.len() ==> (#[trigger] es[i]).0 != k,
    ensures
        upsert_entry(es, k, v) == es + seq![(k, v)],
    decreases es.len(),
{
    if es.len() == 0 {
        assert(upsert_entry(es, k, v) =~= es + seq![(k, v)]);
    } else {
        lemma_upsert_absent(es.drop_first(), k, v);
        assert(upsert_entry(es, k, v) =~= es + seq![(k, v)]);
    }
}

proof fn lemma_upsert_found(es: Seq<(Seq<char>, ValueModel)>, k: Seq<char>, v: ValueModel, i: int)
    requires
        0 <= i < es.len(),
        es[i].0 == k,
        forall|j: int| 0 <= j < i ==> (#[trigger] es[j]).0 != k,
    ensures
        upsert_entry(es, k, v) == es.update(i, (k, v)),
    decreases es.len(),
{
    if i == 0 {
        assert(upsert_entry(es, k, v) =~= es.update(0, (k, v)));
    } else {
        assert(forall|j: int|
            0 <= j < i - 1 ==> (#[trigger] es.drop_first()[j]).0 != k);
        lemma_upsert_found(es.drop_first(), k, v, i - 1);
        assert(upsert_entry(es, k, v) =~= es.update(i, (k, v)));
    }
}

/// An immutable request: a statement and its named parameters.
#[derive(Debug)]
pub struct Query {
    pub statement: String,
    pub parameters: Vec<(String, Value)>,
}

impl Query {
    /// Representable statement and parameters, with unique parameter keys.
    pub open spec fn wf(self) -> bool {
        &&& str_wf(self.statement@)
        &&& map_wf(dv_entries(self.parameters@))
        &&& keys_unique(dv_entries(self.parameters@))
    }

    pub open spec fn params(self) -> Seq<(Seq<char>, ValueModel)> {
        dv_entries(self.parameters@)
    }

    /// A query with no parameters.
    pub fn new(statement: String) -> (q: Query)
        requires
            str_wf(statement@),
        ensures
            q.wf(),
            q.statement@ == statement@,
            q.params() == Seq::<(Seq<char>, ValueModel)>::empty(),
    {
        let q = Query { statement, parameters: Vec::new() };
        proof {
            assert(q.params() =~= Seq::<(Seq<char>, ValueModel)>::empty());
        }
        q
    }

    /// Binds a parameter, replacing any earlier binding of the same name.
    pub fn param(self, name: String, value: Value) -> (q: Query)
        requires
            self.wf(),
            str_wf(name@),
            value.dv().wf(),
            self.parameters@.len() + 1 < 0x1_0000_0000,
        ensures
            q.wf(),
            q.statement@ == self.statement@,
            q.params() == upsert_entry(self.params(), name@, value.dv()),
            lookup_entry(q.params(), name@) == Some(value.dv()),
    {
        let ghost es0 = dv_entries(self.parameters@);
        proof {
            lemma_dv_entries(self.parameters@);
        }
        let Query { statement, mut parameters } = self;
        let n = parameters.len();
        let mut i: usize = 0;
        let mut found = false;
        while !found && i < n
            invariant
                n == parameters@.len(),
                i <= n,
                found ==> i < n && parameters@[i as int].0@ == name@,
                forall|j: int| 0 <= j < i ==> (#[trigger] parameters@[j]).0@ != name@,
            decreases n - i, (if found { 0int } else { 1int }),
        {
            if parameters[i].0 == name {
                found = true;
            } else {
                i = i + 1;
            }
        }
        if found {
            parameters.set(i, (name, value));
            let q = Query { statement, parameters };
            proof {
                lemma_dv_entries(parameters@);
                assert(dv_entries(parameters@) =~= es0.update(i as int, (name@, value.dv())));
                lemma_upsert_found(es0, name@, value.dv(), i as int);
                lemma_keys_unique_update(es0, i as int, name@, value.dv());
                lemma_lookup_found(q.params(), name@, i as int);
            }
            q
        } else {
            parameters.push((name, value));
            let q = Query { statement, parameters };
            proof {
                lemma_dv_entries(parameters@);
                assert(dv_entries(parameters@) =~= es0 + seq![(name@, value.dv())]);
                lemma_upsert_absent(es0, name@, value.dv());
                lemma_lookup_found(q.params(), name@, es0.len() as int);
            }
            q
        }
    }
}

/// If `es[i]` is the first entry keyed `k`, lookup finds it.
proof fn lemma_lookup_found(es: Seq<(Seq<char>, ValueModel)>, k: Seq<char>, i: int)
    requires
        0 <= i < es.len(),
        es[i].0 == k,
        forall|j: int| 0 <= j < i ==> (#[trigger] es[j]).0 != k,
    ensures
        lookup_entry(es, k) == Some(es[i].1),
    decreases es.len(),
{
    if i > 0 {
        assert(forall|j: int|
            0 <= j < i - 1 ==> (#[trigger] es.drop_first()[j]).0 != k);
        lemma_lookup_found(es.drop_first(), k, i - 1);
    }
}

proof fn lemma_keys_unique_update(es: Seq<(Seq<char>, ValueModel)>, i: int, k: Seq<char>,
    v: ValueModel)
    requires
        keys_unique(es),
        0 <= i < es.len(),
        es[i].0 == k,
    ensures
        keys_unique(es.update(i, (k, v))),
{
}

} // verus!
