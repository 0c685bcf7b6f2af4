//! The result stream: a lazy, forward-only sequence of rows.
//!
//! A stream owns the connection it reads from for as long as it lives, so
//! a second stream on the same connection cannot exist. Pulling the next
//! row decodes record messages until the closing success (end of stream)
//! or failure (query error) response.

use vstd::prelude::*;
use crate::conn::{Connection, ConnectionState};
use crate::transport::Transport;
use crate::message::Response;
use crate::value::{Value, ValueModel, dv_seq, dv_strs, dv_entries, lemma_dv_seq};
use crate::query::lookup_entry;
use crate::row::Row;
use crate::errors::{Error, DecodeError, ServerFailure};

verus! {

/// Where a stream stands.
#[derive(PartialEq, Eq, Structural, Clone, Copy, Debug)]
pub enum StreamPhase {
    /// Records may still arrive.
    Active,
    /// The closing success arrived; the stream is exhausted.
    Complete,
    /// The stream ended in an error and yields nothing more.
    Failed,
}

/// A lazy, non-restartable sequence of rows, backed by one connection.
pub struct RowStream<T> {
    pub conn: Connection<T>,
    /// The field names of every row, from the run response.
    pub fields: Vec<String>,
    pub phase: StreamPhase,
    /// Summary metadata from the closing success response.
    pub summary: Vec<(String, Value)>,
}

impl<T> RowStream<T> {
    /// The connection tracks the stream: streaming while records may
    /// arrive, ready again once the stream completed, failed or awaiting
    /// a reset after an error.
    pub open spec fn inv(self) -> bool {
        match self.phase {
            StreamPhase::Active => self.conn.state == ConnectionState::Streaming,
            StreamPhase::Complete => self.conn.state == ConnectionState::Ready,
            StreamPhase::Failed => self.conn.state == ConnectionState::Streaming
                || self.conn.state == ConnectionState::Failed,
        }
    }
}

/// Copies a field-name list so each row can carry one.
fn clone_strings(v: &Vec<String>) -> (r: Vec<String>)
    ensures
        r@ == v@,
{
    let mut r: Vec<String> = Vec::new();
    let mut i: usize = 0;
    while i < v.len()
        invariant
            i <= v@.len(),
            r@ == v@.take(i as int),
        decreases v@.len() - i,
    {
        r.push(v[i].clone());
        assert(r@ =~= v@.take(i + 1));
        i = i + 1;
    }
    assert(v@.take(v@.len() as int) =~= v@);
    r
}

/// The string under `key` in a metadata dictionary, copied out.
pub fn get_str_entry(md: &Vec<(String, Value)>, key: &String) -> (r: Option<String>)
    ensures
        match r {
            Some(s) => lookup_entry(dv_entries(md@), key@) == Some(ValueModel::Str(s@)),
            None => !(lookup_entry(dv_entries(md@), key@) matches Some(m) && m is Str),
        },
{
    match dict_get(md, key) {
        Some(Value::Str(s)) => Some(s.clone()),
        _ => None,
    }
}

proof fn lemma_lookup_md_found(es: Seq<(Seq<char>, ValueModel)>, k: Seq<char>, i: int)
    requires
        0 <= i < es.len(),
        es[i].0 == k,
        forall|j: int| 0 <= j < i ==> (#[trigger] es[j]).0 != k,
    ensures
        lookup_entry(es, k) == Some(es[i].1),
    decreases es.len(),
{
    if i > 0 {
        assert(forall|j: int| 0 <= j < i - 1 ==> (#[trigger] es.drop_first()[j]).0 != k);
        lemma_lookup_md_found(es.drop_first(), k, i - 1);
    }
}

proof fn lemma_lookup_md_absent(es: Seq<(Seq<char>, ValueModel)>, k: Seq<char>)
    requires
        forall|j: int| 0 <= j < es.len() ==> (#[trigger] es[j]).0 != k,
    ensures
        lookup_entry(es, k) is None,
    decreases es.len(),
{
    if es.len() > 0 {
        assert(forall|j: int| 0 <= j < es.drop_first().len()
            ==> (#[trigger] es.drop_first()[j]).0 != k);
        lemma_lookup_md_absent(es.drop_first(), k);
    }
}

/// The value under `key` in a metadata dictionary.
pub fn dict_get<'a>(md: &'a Vec<(String, Value)>, key: &String) -> (r: Option<&'a Value>)
    ensures
        match r {
            Some(v) => lookup_entry(dv_entries(md@), key@) == Some(v.dv()),
            None => lookup_entry(dv_entries(md@), key@) is None,
        },
{
    let n = md.len();
    let mut i: usize = 0;
    let mut found = false;
    while !found && i < n
        invariant
            n == md@.len(),
            i <= n,
            found ==> i < n && md@[i as int].0@ == key@,
            forall|j: int| 0 <= j < i ==> (#[trigger] md@[j]).0@ != key@,
        decreases n - i, (if found { 0int } else { 1int }),
    {
        if md[i].0 == *key {
            found = true;
        } else {
            i = i + 1;
        }
    }
    proof {
        crate::value::lemma_dv_entries(md@);
    }
    if found {
        proof {
            lemma_lookup_md_found(dv_entries(md@), key@, i as int);
        }
        Some(&md[i].1)
    } else {
        proof {
            lemma_lookup_md_absent(dv_entries(md@), key@);
        }
        None
    }
}

/// The server failure described by a failure response's metadata; fields
/// the server did not send, or sent as something other than a string,
/// are empty.
pub fn server_failure_of(md: &Vec<(String, Value)>) -> (r: ServerFailure)
    ensures
        r.code@ == (match lookup_entry(dv_entries(md@), "code"@) {
            Some(ValueModel::Str(s)) => s,
            _ => Seq::<char>::empty(),
        }),
        r.message@ == (match lookup_entry(dv_entries(md@), "message"@) {
            Some(ValueModel::Str(s)) => s,
            _ => Seq::<char>::empty(),
        }),
{
    let code_key: String = "code".to_owned();
    let message_key: String = "message".to_owned();
    let code = match get_str_entry(md, &code_key) {
        Some(s) => s,
        None => String::new(),
    };
    let message = match get_str_entry(md, &message_key) {
        Some(s) => s,
        None => String::new(),
    };
    ServerFailure { code, message }
}

/// The string items of a value list, if every item is a string.
pub open spec fn strings_of(items: Seq<ValueModel>) -> Option<Seq<Seq<char>>>
    decreases items.len(),
{
    if items.len() == 0 {
        Some(Seq::empty())
    } else {
        match items[0] {
            ValueModel::Str(s) => match strings_of(items.drop_first()) {
                None => None,
                Some(t) => Some(seq![s] + t),
            },
            _ => None,
        }
    }
}

/// Collects the strings of `items[from..]`, if every item is a string.
pub fn collect_strings_from(items: &Vec<Value>, from: usize) -> (r: Option<Vec<String>>)
    requires
        from <= items@.len(),
    ensures
        match r {
            Some(fs) => strings_of(dv_seq(items@).skip(from as int)) == Some(dv_strs(fs@)),
            None => strings_of(dv_seq(items@).skip(from as int)) is None,
        },
    decreases items@.len() - from,
{
    proof {
        lemma_dv_seq(items@);
    }
    let ghost t = dv_seq(items@).skip(from as int);
    if from == items.len() {
        let fs: Vec<String> = Vec::new();
        proof {
            assert(t =~= Seq::<ValueModel>::empty());
            assert(dv_strs(fs@) =~= Seq::<Seq<char>>::empty());
        }
        return Some(fs);
    }
    match &items[from] {
        Value::Str(s) => {
            match collect_strings_from(items, from + 1) {
                None => {
                    proof {
                        assert(t.drop_first() =~= dv_seq(items@).skip(from + 1));
                    }
                    None
                },
                Some(rest) => {
                    let ghost prev = rest@;
                    let mut fs = rest;
                    fs.insert(0, s.clone());
                    proof {
                        assert(t.drop_first() =~= dv_seq(items@).skip(from + 1));
                        assert(fs@ =~= seq![*s] + prev);
                        assert(dv_strs(fs@) =~= seq![s@] + dv_strs(prev));
                    }
                    Some(fs)
                },
            }
        },
        _ => None,
    }
}

/// The field-name list under `"fields"` in a run response's metadata:
/// exactly the strings of that list, or nothing when the entry is
/// missing or is not a list made only of strings.
pub fn fields_of_metadata(md: &Vec<(String, Value)>) -> (r: Option<Vec<String>>)
    ensures
        match r {
            Some(fs) => lookup_entry(dv_entries(md@), "fields"@) matches Some(m)
                && m matches ValueModel::List(items)
                && strings_of(items) == Some(dv_strs(fs@)),
            None => !(lookup_entry(dv_entries(md@), "fields"@) matches Some(m)
                && m matches ValueModel::List(items) && strings_of(items) is Some),
        },
{
    let fields_key: String = "fields".to_owned();
    match dict_get(md, &fields_key) {
        Some(Value::List(items)) => {
            proof {
                assert(dv_seq(items@).skip(0) =~= dv_seq(items@));
            }
            collect_strings_from(items, 0)
        },
        _ => None,
    }
}

/// The `"bookmark"` string of a summary's metadata, if the server sent
/// one.
pub fn bookmark_of_summary(md: &Vec<(String, Value)>) -> (r: Option<String>)
    ensures
        match r {
            Some(s) => lookup_entry(dv_entries(md@), "bookmark"@) == Some(ValueModel::Str(s@)),
            None => !(lookup_entry(dv_entries(md@), "bookmark"@) matches Some(m) && m is Str),
        },
{
    let key: String = "bookmark".to_owned();
    get_str_entry(md, &key)
}

impl<T: Transport> RowStream<T> {
    /// What one received response means for an active stream: the whole
    /// decision, stated exactly. A record of matching arity becomes a row
    /// carrying exactly that record's values; the closing success makes
    /// its metadata the summary and the connection ready again; a failure
    /// surfaces the server's code and message and leaves the stream
    /// failed awaiting a reset; an ignored response or a record of the
    /// wrong arity is an out-of-place message, fatal to the connection.
    pub fn feed(&mut self, resp: Response) -> (r: Result<Option<Row>, Error>)
        requires
            old(self).inv(),
            old(self).phase == StreamPhase::Active,
        ensures
            final(self).inv(),
            final(self).fields@ == old(self).fields@,
            (match resp {
                Response::Record(vs) => if vs@.len() == old(self).fields@.len() {
                    &&& r matches Ok(Some(row)) && row.wf()
                        && row.fields@ == old(self).fields@ && row.values == vs
                    &&& final(self).phase == StreamPhase::Active
                    &&& final(self).conn == old(self).conn
                    &&& final(self).summary == old(self).summary
                } else {
                    &&& r matches Err(e) && e == Error::Protocol(DecodeError::WrongShape)
                    &&& final(self).phase == StreamPhase::Failed
                    &&& final(self).conn.state == ConnectionState::Failed
                },
                Response::Success(md) => {
                    &&& r matches Ok(None)
                    &&& final(self).summary == md
                    &&& final(self).phase == StreamPhase::Complete
                    &&& final(self).conn.state == ConnectionState::Ready
                },
                Response::Failure(md) => {
                    &&& r matches Err(e) && (e matches Error::ServerFailure(sf)
                        && sf.code@ == (match lookup_entry(dv_entries(md@), "code"@) {
                            Some(ValueModel::Str(cs)) => cs,
                            _ => Seq::<char>::empty(),
                        })
                        && sf.message@ == (match lookup_entry(dv_entries(md@), "message"@) {
                            Some(ValueModel::Str(ms)) => ms,
                            _ => Seq::<char>::empty(),
                        }))
                    &&& final(self).phase == StreamPhase::Failed
                    &&& final(self).conn == old(self).conn
                },
                Response::Ignored => {
                    &&& r matches Err(e) && e == Error::Protocol(DecodeError::WrongShape)
                    &&& final(self).phase == StreamPhase::Failed
                    &&& final(self).conn.state == ConnectionState::Failed
                },
            }),
            r matches Err(e) ==> e is Protocol || e is ServerFailure,
            r matches Err(_) ==> final(self).phase == StreamPhase::Failed,
            r matches Ok(None) ==> final(self).phase == StreamPhase::Complete,
    {
        match resp {
            Response::Record(vs) => {
                if vs.len() == self.fields.len() {
                    let fs = clone_strings(&self.fields);
                    Ok(Some(Row::new(fs, vs)))
                } else {
                    self.conn.state = ConnectionState::Failed;
                    self.phase = StreamPhase::Failed;
                    Err(Error::Protocol(DecodeError::WrongShape))
                }
            },
            Response::Success(md) => {
                self.summary = md;
                self.phase = StreamPhase::Complete;
                self.conn.state = ConnectionState::Ready;
                Ok(None)
            },
            Response::Failure(md) => {
                self.phase = StreamPhase::Failed;
                Err(Error::ServerFailure(server_failure_of(&md)))
            },
            Response::Ignored => {
                self.conn.state = ConnectionState::Failed;
                self.phase = StreamPhase::Failed;
                Err(Error::Protocol(DecodeError::WrongShape))
            },
        }
    }

    /// Pulls the next row: receives one response and applies
    /// [`RowStream::feed`] to it, so what each response kind yields is
    /// fixed by `feed`'s contract. Yields nothing once the stream is
    /// exhausted; after an error the stream yields only a usage error;
    /// transport and decode failures leave the connection failed.
    pub fn next(&mut self, budget: u64) -> (r: Result<Option<Row>, Error>)
        requires
            old(self).inv(),
        ensures
            final(self).inv(),
            final(self).fields@ == old(self).fields@,
            match r {
                Ok(Some(row)) => old(self).phase == StreamPhase::Active
                    && final(self).phase == StreamPhase::Active && row.wf()
                    && row.fields@ == old(self).fields@,
                Ok(None) => final(self).phase == StreamPhase::Complete,
                Err(_) => final(self).phase == StreamPhase::Failed,
            },
            old(self).phase == StreamPhase::Complete ==> r matches Ok(None),
            old(self).phase == StreamPhase::Failed ==> (r matches Err(e) && e is UsageError),
            r matches Err(e) ==> (e is UsageError <==> old(self).phase == StreamPhase::Failed),
            r matches Err(e) ==> e is ConnectFailed || e is Protocol || e is ServerFailure
                || e is UsageError,
    {
        match self.phase {
            StreamPhase::Complete => Ok(None),
            StreamPhase::Failed => Err(Error::UsageError),
            StreamPhase::Active => {
                match self.conn.recv_response(budget) {
                    Err(e) => {
                        self.phase = StreamPhase::Failed;
                        Err(e)
                    },
                    Ok(resp) => self.feed(resp),
                }
            },
        }
    }

    /// Summary metadata from the closing success response; meaningful
    /// once the stream is complete.
    pub fn summary(&self) -> (r: &Vec<(String, Value)>)
        ensures
            r == &self.summary,
    {
        &self.summary
    }
}

} // verus!
