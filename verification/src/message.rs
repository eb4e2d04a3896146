//! The wire format of a job request: one JSON object with the fields
//! `repository`, `branch` and `commit`, in that order, each a string.

use crate::json::{esc, field_at, field_exec};
use crate::types::{BenchError, BenchMessage};
use vstd::prelude::*;

verus! {

pub open spec fn msg_lit_repository() -> Seq<char> {
    "{\"repository\":\""@
}

pub open spec fn msg_lit_branch() -> Seq<char> {
    ",\"branch\":\""@
}

pub open spec fn msg_lit_commit() -> Seq<char> {
    ",\"commit\":\""@
}

/// The one serialized form of a job request.
pub open spec fn message_json(m: BenchMessage) -> Seq<char> {
    msg_lit_repository() + esc(m.repository@) + seq!['"'] + msg_lit_branch() + esc(m.branch@)
        + seq!['"'] + msg_lit_commit() + esc(m.commit@) + seq!['"', '}']
}

/// The three field values of a serialized job request, if `t` is one.
pub open spec fn msg_fields(t: Seq<char>) -> Option<(Seq<char>, Seq<char>, Seq<char>)> {
    match field_at(t, 0, msg_lit_repository()) {
        None => None,
        Some((repository, j1)) => match field_at(t, j1, msg_lit_branch()) {
            None => None,
            Some((branch, j2)) => match field_at(t, j2, msg_lit_commit()) {
                None => None,
                Some((commit, j3)) => {
                    if j3 + 1 == t.len() && t[j3] == '}' {
                        Some((repository, branch, commit))
                    } else {
                        None
                    }
                },
            },
        },
    }
}

/// Serializes a job request.
pub fn encode_message(m: &BenchMessage) -> (r: String)
    ensures
        r@ == message_json(*m),
{
    let mut out: Vec<char> = Vec::new();
    crate::text::push_str_chars(&mut out, "{\"repository\":\"");
    crate::json::escape_into(&mut out, m.repository.as_str());
    out.push('"');
    crate::text::push_str_chars(&mut out, ",\"branch\":\"");
    crate::json::escape_into(&mut out, m.branch.as_str());
    out.push('"');
    crate::text::push_str_chars(&mut out, ",\"commit\":\"");
    crate::json::escape_into(&mut out, m.commit.as_str());
    out.push('"');
    out.push('}');
    proof {
        assert(out@ =~= message_json(*m));
    }
    crate::text::chars_to_string(&out)
}

/// Deserializes a job request, or reports exactly why the body is refused.
pub fn decode_message(s: &str) -> (r: Result<BenchMessage, BenchError>)
    ensures
        match r {
            Ok(m) => msg_fields(s@) == Some((m.repository@, m.branch@, m.commit@)),
            Err(e) => msg_fields(s@) is None && e == BenchError::Decode,
        },
{
    let v = crate::text::to_chars(s);
    let f1 = field_exec(&v, 0, "{\"repository\":\"");
    match f1 {
        None => Err(BenchError::Decode),
        Some((repository, j1)) => {
            let f2 = field_exec(&v, j1, ",\"branch\":\"");
            match f2 {
                None => Err(BenchError::Decode),
                Some((branch, j2)) => {
                    let f3 = field_exec(&v, j2, ",\"commit\":\"");
                    match f3 {
                        None => Err(BenchError::Decode),
                        Some((commit, j3)) => {
                            if j3 == v.len() - 1 && v[j3] == '}' {
                                Ok(BenchMessage { repository, branch, commit })
                            } else {
                                Err(BenchError::Decode)
                            }
                        },
                    }
                },
            }
        },
    }
}

/// Law: decoding inverts encoding — the reader applied to the serialized
/// form of any job request yields exactly its three field values.
pub proof fn lemma_message_round_trip(m: BenchMessage)
    ensures
        msg_fields(message_json(m)) == Some((m.repository@, m.branch@, m.commit@)),
{
    let t = message_json(m);
    let l1 = msg_lit_repository().len() as int;
    let e1 = esc(m.repository@).len() as int;
    let j1 = l1 + e1 + 1;
    let l2 = msg_lit_branch().len() as int;
    let e2 = esc(m.branch@).len() as int;
    let j2 = j1 + l2 + e2 + 1;
    let l3 = msg_lit_commit().len() as int;
    let e3 = esc(m.commit@).len() as int;
    let j3 = j2 + l3 + e3 + 1;
    assert(t.len() == j3 + 1);
    assert(t.subrange(0, j1) =~= msg_lit_repository() + esc(m.repository@) + seq!['"']);
    crate::json::lemma_field_at(t, 0, msg_lit_repository(), m.repository@);
    assert(t.subrange(j1, j2) =~= msg_lit_branch() + esc(m.branch@) + seq!['"']);
    crate::json::lemma_field_at(t, j1, msg_lit_branch(), m.branch@);
    assert(t.subrange(j2, j3) =~= msg_lit_commit() + esc(m.commit@) + seq!['"']);
    crate::json::lemma_field_at(t, j2, msg_lit_commit(), m.commit@);
    assert(t[j3] == '}');
}

} // verus!
