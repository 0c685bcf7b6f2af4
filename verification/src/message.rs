//! The protocol messages: requests the driver sends and responses it
//! receives. A message body is one structure whose signature byte names
//! the message kind; it is chunked by the framer before transmission.

use vstd::prelude::*;
use crate::value::{Value, ValueModel, dv_seq, dv_entries, str_wf, map_wf,
    lemma_dv_seq, lemma_dv_entries};

use crate::codec::{enc_str, enc_entries, enc_items, enc_map_size, enc_list_size,
    dec_map_header, dec_list_header, dec_entries, dec_items, step,
    lemma_rt_entries, lemma_rt_items, lemma_rt_map_size, lemma_rt_list_size,
    lemma_enc_size_len, encode_entries, encode_items, push_str, push_size,
    decode_map_header as decode_map_header_exec, decode_list_header as decode_list_header_exec,
    decode_entries as decode_entries_exec, decode_items as decode_items_exec,
    MARKER_TINY_STRUCT, MARKER_TINY_MAP, MARKER_MAP8, MARKER_MAP16, MARKER_MAP32,
    MARKER_TINY_LIST, MARKER_LIST8, MARKER_LIST16, MARKER_LIST32};
use crate::errors::DecodeError;

verus! {

// Message signature bytes.
pub const MSG_HELLO: u8 = 0x01;
pub const MSG_GOODBYE: u8 = 0x02;
pub const MSG_RESET: u8 = 0x0F;
pub const MSG_RUN: u8 = 0x10;
pub const MSG_BEGIN: u8 = 0x11;
pub const MSG_COMMIT: u8 = 0x12;
pub const MSG_ROLLBACK: u8 = 0x13;
pub const MSG_DISCARD: u8 = 0x2F;
pub const MSG_PULL: u8 = 0x3F;
pub const MSG_SUCCESS: u8 = 0x70;
pub const MSG_RECORD: u8 = 0x71;
pub const MSG_IGNORED: u8 = 0x7E;
pub const MSG_FAILURE: u8 = 0x7F;

/// A request message the driver sends.
#[derive(Debug)]
pub enum Request {
    Hello { extra: Vec<(String, Value)> },
    Run { statement: String, parameters: Vec<(String, Value)>, extra: Vec<(String, Value)> },
    Discard { extra: Vec<(String, Value)> },
    Pull { extra: Vec<(String, Value)> },
    Begin { extra: Vec<(String, Value)> },
    Commit,
    Rollback,
    Reset,
    Goodbye,
}

/// A dictionary body: map header, then the entries.
pub open spec fn enc_dict(es: Seq<(Seq<char>, ValueModel)>) -> Seq<u8> {
    enc_map_size(es.len()) + enc_entries(es)
}

/// The encoded form of a request.
pub open spec fn enc_request(r: Request) -> Seq<u8> {
    match r {
        Request::Hello { extra } => seq![(MARKER_TINY_STRUCT + 1) as u8, MSG_HELLO]
            + enc_dict(dv_entries(extra@)),
        Request::Run { statement, parameters, extra } => seq![(MARKER_TINY_STRUCT + 3) as u8,
            MSG_RUN] + enc_str(statement@) + enc_dict(dv_entries(parameters@))
            + enc_dict(dv_entries(extra@)),
        Request::Discard { extra } => seq![(MARKER_TINY_STRUCT + 1) as u8, MSG_DISCARD]
            + enc_dict(dv_entries(extra@)),
        Request::Pull { extra } => seq![(MARKER_TINY_STRUCT + 1) as u8, MSG_PULL]
            + enc_dict(dv_entries(extra@)),
        Request::Begin { extra } => seq![(MARKER_TINY_STRUCT + 1) as u8, MSG_BEGIN]
            + enc_dict(dv_entries(extra@)),
        Request::Commit => seq![MARKER_TINY_STRUCT, MSG_COMMIT],
        Request::Rollback => seq![MARKER_TINY_STRUCT, MSG_ROLLBACK],
        Request::Reset => seq![MARKER_TINY_STRUCT, MSG_RESET],
        Request::Goodbye => seq![MARKER_TINY_STRUCT, MSG_GOODBYE],
    }
}

/// Representable: every dictionary and string fits its length field.
pub open spec fn request_wf(r: Request) -> bool {
    match r {
        Request::Hello { extra } => map_wf(dv_entries(extra@)),
        Request::Run { statement, parameters, extra } => str_wf(statement@)
            && map_wf(dv_entries(parameters@)) && map_wf(dv_entries(extra@)),
        Request::Discard { extra } => map_wf(dv_entries(extra@)),
        Request::Pull { extra } => map_wf(dv_entries(extra@)),
        Request::Begin { extra } => map_wf(dv_entries(extra@)),
        _ => true,
    }
}

/// Appends one dictionary body.
fn push_dict(entries: &Vec<(String, Value)>, out: &mut Vec<u8>)
    requires
        map_wf(dv_entries(entries@)),
    ensures
        final(out)@ == old(out)@ + enc_dict(dv_entries(entries@)),
{
    proof {
        lemma_dv_entries(entries@);
        assert forall|i: int| 0 <= i < entries@.len() implies
            str_wf((#[trigger] entries@[i]).0@) by {
            assert(str_wf(dv_entries(entries@)[i].0));
        }
        assert forall|i: int| 0 <= i < entries@.len() implies
            (#[trigger] entries@[i]).1.dv().wf() by {
            assert(dv_entries(entries@)[i].1.wf());
        }
    }
    push_size(out, MARKER_TINY_MAP, MARKER_MAP8, MARKER_MAP16, MARKER_MAP32, entries.len());
    encode_entries(entries, 0, out);
    proof {
        assert(dv_entries(entries@).skip(0) =~= dv_entries(entries@));
        assert(out@ =~= old(out)@ + enc_dict(dv_entries(entries@)));
    }
}

/// Encodes a request message body.
pub fn encode_request(r: &Request) -> (out: Vec<u8>)
    requires
        request_wf(*r),
    ensures
        out@ == enc_request(*r),
{
    let mut out: Vec<u8> = Vec::new();
    match r {
        Request::Hello { extra } => {
            out.push(MARKER_TINY_STRUCT + 1);
            out.push(MSG_HELLO);
            push_dict(extra, &mut out);
        },
        Request::Run { statement, parameters, extra } => {
            out.push(MARKER_TINY_STRUCT + 3);
            out.push(MSG_RUN);
            push_str(&mut out, statement);
            push_dict(parameters, &mut out);
            push_dict(extra, &mut out);
        },
        Request::Discard { extra } => {
            out.push(MARKER_TINY_STRUCT + 1);
            out.push(MSG_DISCARD);
            push_dict(extra, &mut out);
        },
        Request::Pull { extra } => {
            out.push(MARKER_TINY_STRUCT + 1);
            out.push(MSG_PULL);
            push_dict(extra, &mut out);
        },
        Request::Begin { extra } => {
            out.push(MARKER_TINY_STRUCT + 1);
            out.push(MSG_BEGIN);
            push_dict(extra, &mut out);
        },
        Request::Commit => {
            out.push(MARKER_TINY_STRUCT);
            out.push(MSG_COMMIT);
        },
        Request::Rollback => {
            out.push(MARKER_TINY_STRUCT);
            out.push(MSG_ROLLBACK);
        },
        Request::Reset => {
            out.push(MARKER_TINY_STRUCT);
            out.push(MSG_RESET);
        },
        Request::Goodbye => {
            out.push(MARKER_TINY_STRUCT);
            out.push(MSG_GOODBYE);
        },
    }
    assert(out@ =~= enc_request(*r));
    out
}

/// A response message the server sends.
#[derive(Debug)]
pub enum Response {
    /// The current request completed; carries summary metadata.
    Success(Vec<(String, Value)>),
    /// One result record.
    Record(Vec<Value>),
    /// The request was skipped because the connection is in a failed state.
    Ignored,
    /// The current request failed; carries code and message metadata.
    Failure(Vec<(String, Value)>),
}

/// The mathematical image of a `Response`.
pub enum ResponseModel {
    Success(Seq<(Seq<char>, ValueModel)>),
    Record(Seq<ValueModel>),
    Ignored,
    Failure(Seq<(Seq<char>, ValueModel)>),
}

impl Response {
    pub open spec fn dv(self) -> ResponseModel {
        match self {
            Response::Success(md) => ResponseModel::Success(dv_entries(md@)),
            Response::Record(vs) => ResponseModel::Record(dv_seq(vs@)),
            Response::Ignored => ResponseModel::Ignored,
            Response::Failure(md) => ResponseModel::Failure(dv_entries(md@)),
        }
    }
}

impl ResponseModel {
    pub open spec fn wf(self) -> bool {
        match self {
            ResponseModel::Success(md) => map_wf(md),
            ResponseModel::Record(vs) => vs.len() < 0x1_0000_0000
                && forall|i: int| 0 <= i < vs.len() ==> (#[trigger] vs[i]).wf(),
            ResponseModel::Ignored => true,
            ResponseModel::Failure(md) => map_wf(md),
        }
    }
}

/// The encoded form of a response message body.
pub open spec fn enc_response(m: ResponseModel) -> Seq<u8> {
    match m {
        ResponseModel::Success(md) => seq![(MARKER_TINY_STRUCT + 1) as u8, MSG_SUCCESS]
            + enc_dict(md),
        ResponseModel::Record(vs) => seq![(MARKER_TINY_STRUCT + 1) as u8, MSG_RECORD]
            + enc_list_size(vs.len()) + enc_items(vs),
        ResponseModel::Ignored => seq![MARKER_TINY_STRUCT, MSG_IGNORED],
        ResponseModel::Failure(md) => seq![(MARKER_TINY_STRUCT + 1) as u8, MSG_FAILURE]
            + enc_dict(md),
    }
}

/// Parses a complete message body as a response. The whole body must be
/// consumed: a response with trailing bytes is malformed.
pub open spec fn dec_response(s: Seq<u8>) -> Option<ResponseModel> {
    if s.len() < 2 || !(MARKER_TINY_STRUCT <= s[0] < 0xC0) {
        None
    } else {
        let size = (s[0] - MARKER_TINY_STRUCT) as nat;
        let sig = s[1];
        let body = s.skip(2);
        if sig == MSG_SUCCESS && size == 1 {
            match dec_map_header(body) {
                None => None,
                Some((n, r)) => match dec_entries(step(body, r), n) {
                    None => None,
                    Some((es, r2)) => if r2.len() == 0 {
                        Some(ResponseModel::Success(es))
                    } else {
                        None
                    },
                },
            }
        } else if sig == MSG_RECORD && size == 1 {
            match dec_list_header(body) {
                None => None,
                Some((n, r)) => match dec_items(step(body, r), n) {
                    None => None,
                    Some((vs, r2)) => if r2.len() == 0 {
                        Some(ResponseModel::Record(vs))
                    } else {
                        None
                    },
                },
            }
        } else if sig == MSG_IGNORED && size == 0 {
            if body.len() == 0 {
                Some(ResponseModel::Ignored)
            } else {
                None
            }
        } else if sig == MSG_FAILURE && size == 1 {
            match dec_map_header(body) {
                None => None,
                Some((n, r)) => match dec_entries(step(body, r), n) {
                    None => None,
                    Some((es, r2)) => if r2.len() == 0 {
                        Some(ResponseModel::Failure(es))
                    } else {
                        None
                    },
                },
            }
        } else {
            None
        }
    }
}

/// Round trip for responses: parsing an encoded representable response
/// yields the response back.
pub proof fn lemma_dec_enc_response(m: ResponseModel)
    requires
        m.wf(),
    ensures
        dec_response(enc_response(m)) == Some(m),
{
    let s = enc_response(m);
    match m {
        ResponseModel::Success(md) => {
            let tail = enc_entries(md) + Seq::<u8>::empty();
            assert(s.skip(2) =~= enc_map_size(md.len()) + tail);
            lemma_rt_map_size(md.len(), tail);
            assert(step(s.skip(2), tail) == tail) by {
                lemma_enc_size_len(MARKER_TINY_MAP, MARKER_MAP8, MARKER_MAP16, MARKER_MAP32,
                    md.len());
            }
            lemma_rt_entries(md, Seq::empty());
        },
        ResponseModel::Record(vs) => {
            let tail = enc_items(vs) + Seq::<u8>::empty();
            assert(s.skip(2) =~= enc_list_size(vs.len()) + tail);
            lemma_rt_list_size(vs.len(), tail);
            assert(step(s.skip(2), tail) == tail) by {
                lemma_enc_size_len(MARKER_TINY_LIST, MARKER_LIST8, MARKER_LIST16, MARKER_LIST32,
                    vs.len());
            }
            lemma_rt_items(vs, Seq::empty());
        },
        ResponseModel::Ignored => {
            assert(s.skip(2) =~= Seq::<u8>::empty());
        },
        ResponseModel::Failure(md) => {
            let tail = enc_entries(md) + Seq::<u8>::empty();
            assert(s.skip(2) =~= enc_map_size(md.len()) + tail);
            lemma_rt_map_size(md.len(), tail);
            assert(step(s.skip(2), tail) == tail) by {
                lemma_enc_size_len(MARKER_TINY_MAP, MARKER_MAP8, MARKER_MAP16, MARKER_MAP32,
                    md.len());
            }
            lemma_rt_entries(md, Seq::empty());
        },
    }
}

/// Encodes a response message body.
pub fn encode_response(r: &Response) -> (out: Vec<u8>)
    requires
        r.dv().wf(),
    ensures
        out@ == enc_response(r.dv()),
{
    let mut out: Vec<u8> = Vec::new();
    match r {
        Response::Success(md) => {
            out.push(MARKER_TINY_STRUCT + 1);
            out.push(MSG_SUCCESS);
            push_dict(md, &mut out);
        },
        Response::Record(vs) => {
            proof {
                lemma_dv_seq(vs@);
                assert forall|i: int| 0 <= i < vs@.len() implies
                    (#[trigger] vs@[i]).dv().wf() by {
                    assert(dv_seq(vs@)[i].wf());
                }
            }
            out.push(MARKER_TINY_STRUCT + 1);
            out.push(MSG_RECORD);
            push_size(&mut out, MARKER_TINY_LIST, MARKER_LIST8, MARKER_LIST16, MARKER_LIST32,
                vs.len());
            encode_items(vs, 0, &mut out);
            proof {
                assert(dv_seq(vs@).skip(0) =~= dv_seq(vs@));
            }
        },
        Response::Ignored => {
            out.push(MARKER_TINY_STRUCT);
            out.push(MSG_IGNORED);
        },
        Response::Failure(md) => {
            out.push(MARKER_TINY_STRUCT + 1);
            out.push(MSG_FAILURE);
            push_dict(md, &mut out);
        },
    }
    assert(out@ =~= enc_response(r.dv()));
    out
}

/// The structure shapes that name a response message.
pub open spec fn response_known(size: nat, sig: u8) -> bool {
    ||| sig == MSG_SUCCESS && size == 1
    ||| sig == MSG_RECORD && size == 1
    ||| sig == MSG_IGNORED && size == 0
    ||| sig == MSG_FAILURE && size == 1
}

/// Parses a complete message body as a response. Each way a body can be
/// malformed is its own error: a short body is `Truncated`, a first byte
/// that is no structure marker is `UnknownMarker`, and a signature that
/// names no response is `UnknownSignature`.
#[verifier::spinoff_prover]
#[verifier::rlimit(100)]
pub fn decode_response(msg: &Vec<u8>) -> (r: Result<Response, DecodeError>)
    ensures
        match r {
            Ok(resp) => dec_response(msg@) == Some(resp.dv()),
            Err(_) => dec_response(msg@) is None,
        },
        msg@.len() < 2 ==> (r matches Err(e) && e == DecodeError::Truncated),
        msg@.len() >= 2 && !(MARKER_TINY_STRUCT <= msg@[0] < 0xC0)
            ==> (r matches Err(e) && e == DecodeError::UnknownMarker(msg@[0])),
        msg@.len() >= 2 && MARKER_TINY_STRUCT <= msg@[0] < 0xC0
            && !response_known((msg@[0] - MARKER_TINY_STRUCT) as nat, msg@[1])
            ==> (r matches Err(e) && e == DecodeError::UnknownSignature(msg@[1])),
{
    let ghost s = msg@;
    if msg.len() < 2 {
        return Err(DecodeError::Truncated);
    }
    let b = msg[0];
    if !(MARKER_TINY_STRUCT <= b && b < 0xC0) {
        return Err(DecodeError::UnknownMarker(b));
    }
    let size = b - MARKER_TINY_STRUCT;
    let sig = msg[1];
    let ghost body = s.skip(2);
    assert(body =~= msg@.skip(2));
    if sig == MSG_SUCCESS && size == 1 {
        match decode_map_header_exec(msg, 2) {
            Err(e) => Err(e),
            Ok((n, hend)) => {
                proof {
                    assert(dec_map_header(body) == Some((n as nat, msg@.skip(hend as int))));
                    assert(step(body, msg@.skip(hend as int)) == msg@.skip(hend as int));
                }
                match decode_entries_exec(msg, hend, n) {
                    Err(e) => Err(e),
                    Ok((es, end)) => {
                        if end == msg.len() {
                            assert(msg@.skip(end as int).len() == 0);
                            Ok(Response::Success(es))
                        } else {
                            assert(msg@.skip(end as int).len() != 0);
                            Err(DecodeError::Truncated)
                        }
                    },
                }
            },
        }
    } else if sig == MSG_RECORD && size == 1 {
        match decode_list_header_exec(msg, 2) {
            Err(e) => Err(e),
            Ok((n, hend)) => {
                proof {
                    assert(dec_list_header(body) == Some((n as nat, msg@.skip(hend as int))));
                    assert(step(body, msg@.skip(hend as int)) == msg@.skip(hend as int));
                }
                match decode_items_exec(msg, hend, n) {
                    Err(e) => Err(e),
                    Ok((vs, end)) => {
                        if end == msg.len() {
                            assert(msg@.skip(end as int).len() == 0);
                            Ok(Response::Record(vs))
                        } else {
                            assert(msg@.skip(end as int).len() != 0);
                            Err(DecodeError::Truncated)
                        }
                    },
                }
            },
        }
    } else if sig == MSG_IGNORED && size == 0 {
        if msg.len() == 2 {
            Ok(Response::Ignored)
        } else {
            Err(DecodeError::Truncated)
        }
    } else if sig == MSG_FAILURE && size == 1 {
        match decode_map_header_exec(msg, 2) {
            Err(e) => Err(e),
            Ok((n, hend)) => {
                proof {
                    assert(dec_map_header(body) == Some((n as nat, msg@.skip(hend as int))));
                    assert(step(body, msg@.skip(hend as int)) == msg@.skip(hend as int));
                }
                match decode_entries_exec(msg, hend, n) {
                    Err(e) => Err(e),
                    Ok((es, end)) => {
                        if end == msg.len() {
                            assert(msg@.skip(end as int).len() == 0);
                            Ok(Response::Failure(es))
                        } else {
                            assert(msg@.skip(end as int).len() != 0);
                            Err(DecodeError::Truncated)
                        }
                    },
                }
            },
        }
    } else {
        Err(DecodeError::UnknownSignature(sig))
    }
}

} // verus!

verus! {

/// Appends a string-keyed integer entry to request metadata; succeeds
/// exactly when the key fits a length field, and changes nothing
/// otherwise.
pub fn push_entry_int(es: &mut Vec<(String, Value)>, key: &str, n: i64) -> (ok: bool)
    requires
        map_wf(dv_entries(old(es)@)),
        old(es)@.len() + 1 < 0x1_0000_0000,
    ensures
        ok <==> str_wf(key@),
        ok ==> map_wf(dv_entries(final(es)@)) && final(es)@.len() == old(es)@.len() + 1
            && dv_entries(final(es)@)
                == dv_entries(old(es)@) + seq![(key@, ValueModel::Integer(n))],
        !ok ==> final(es)@ == old(es)@,
{
    let k: String = key.to_owned();
    if (k.as_str().as_bytes().len() as u64) >= 0x1_0000_0000u64 {
        return false;
    }
    let ghost es0 = dv_entries(es@);
    proof {
        lemma_dv_entries(es@);
    }
    es.push((k, Value::Integer(n)));
    proof {
        lemma_dv_entries(es@);
        assert(dv_entries(es@) =~= es0 + seq![(key@, ValueModel::Integer(n))]);
        assert forall|i: int| 0 <= i < dv_entries(es@).len() implies
            str_wf((#[trigger] dv_entries(es@)[i]).0) && dv_entries(es@)[i].1.wf() by {
            if i < es0.len() {
                assert(dv_entries(es@)[i] == es0[i]);
            }
        }
    }
    true
}

/// Appends a string-keyed string entry to request metadata; succeeds
/// exactly when the key and the value fit their length fields, and
/// changes nothing otherwise.
pub fn push_entry_str(es: &mut Vec<(String, Value)>, key: &str, val: String) -> (ok: bool)
    requires
        map_wf(dv_entries(old(es)@)),
        old(es)@.len() + 1 < 0x1_0000_0000,
    ensures
        ok <==> str_wf(key@) && str_wf(val@),
        ok ==> map_wf(dv_entries(final(es)@)) && final(es)@.len() == old(es)@.len() + 1
            && dv_entries(final(es)@)
                == dv_entries(old(es)@) + seq![(key@, ValueModel::Str(val@))],
        !ok ==> final(es)@ == old(es)@,
{
    let k: String = key.to_owned();
    if (k.as_str().as_bytes().len() as u64) >= 0x1_0000_0000u64 {
        return false;
    }
    if (val.as_str().as_bytes().len() as u64) >= 0x1_0000_0000u64 {
        return false;
    }
    let ghost es0 = dv_entries(es@);
    proof {
        lemma_dv_entries(es@);
    }
    es.push((k, Value::Str(val)));
    proof {
        lemma_dv_entries(es@);
        assert(dv_entries(es@) =~= es0 + seq![(key@, ValueModel::Str(val@))]);
        assert forall|i: int| 0 <= i < dv_entries(es@).len() implies
            str_wf((#[trigger] dv_entries(es@)[i]).0) && dv_entries(es@)[i].1.wf() by {
            if i < es0.len() {
                assert(dv_entries(es@)[i] == es0[i]);
            }
        }
    }
    true
}

} // verus!

verus! {

/// The pull metadata asking for every record: fetching all records in
/// one batch is this driver's batching policy.
pub fn pull_all_entries() -> (r: Vec<(String, Value)>)
    ensures
        map_wf(dv_entries(r@)),
        dv_entries(r@) == seq![("n"@, ValueModel::Integer(-1i64))],
{
    let mut es: Vec<(String, Value)> = Vec::new();
    proof {
        assert(dv_entries(es@) =~= Seq::<(Seq<char>, ValueModel)>::empty());
        assert(str_wf("n"@)) by {
            reveal_strlit("n");
            crate::value::lemma_ascii_str_wf("n"@);
        }
    }
    if !push_entry_int(&mut es, "n", -1) {
        proof {
            assert(false);
        }
    }
    proof {
        assert(dv_entries(es@) =~= seq![("n"@, ValueModel::Integer(-1i64))]);
    }
    es
}

/// Appends the bookmarks entry carrying one bookmark; succeeds exactly
/// when the bookmark fits a length field, and changes nothing otherwise.
pub fn push_entry_bookmarks(es: &mut Vec<(String, Value)>, b: &String) -> (ok: bool)
    requires
        map_wf(dv_entries(old(es)@)),
        old(es)@.len() + 1 < 0x1_0000_0000,
    ensures
        ok <==> str_wf(b@),
        ok ==> map_wf(dv_entries(final(es)@)) && final(es)@.len() == old(es)@.len() + 1
            && dv_entries(final(es)@) == dv_entries(old(es)@)
                + seq![("bookmarks"@, ValueModel::List(seq![ValueModel::Str(b@)]))],
        !ok ==> final(es)@ == old(es)@,
{
    proof {
        assert(str_wf("bookmarks"@)) by {
            reveal_strlit("bookmarks");
            crate::value::lemma_ascii_str_wf("bookmarks"@);
        }
    }
    if (b.as_str().as_bytes().len() as u64) >= 0x1_0000_0000u64 {
        return false;
    }
    let mut items: Vec<Value> = Vec::new();
    items.push(Value::Str(b.clone()));
    proof {
        lemma_dv_seq(items@);
        assert(dv_seq(items@) =~= seq![ValueModel::Str(b@)]);
    }
    let ghost es0 = dv_entries(es@);
    proof {
        lemma_dv_entries(es@);
    }
    es.push(("bookmarks".to_owned(), Value::List(items)));
    proof {
        lemma_dv_entries(es@);
        assert(dv_entries(es@) =~= es0
            + seq![("bookmarks"@, ValueModel::List(seq![ValueModel::Str(b@)]))]);
        assert forall|i: int| 0 <= i < dv_entries(es@).len() implies
            str_wf((#[trigger] dv_entries(es@)[i]).0) && dv_entries(es@)[i].1.wf() by {
            if i < es0.len() {
                assert(dv_entries(es@)[i] == es0[i]);
            } else {
                assert(dv_entries(es@)[i].1
                    == ValueModel::List(seq![ValueModel::Str(b@)]));
                assert(ValueModel::Str(b@).wf());
                assert forall|j: int| 0 <= j < seq![ValueModel::Str(b@)].len() implies
                    (#[trigger] seq![ValueModel::Str(b@)][j]).wf() by {
                    assert(seq![ValueModel::Str(b@)][j] == ValueModel::Str(b@));
                }
                assert(ValueModel::List(seq![ValueModel::Str(b@)]).wf());
            }
        }
    }
    true
}

} // verus!
