//! The on-disk configuration format: one JSON object with the fields
//! `mongodb_bencher_uri`, `mongodb_server_uri`, `rabbitmq_uri` and
//! `mongodb_db`, in that order, each a string.

use crate::json::{esc, field_at, field_exec};
use crate::types::{BenchConfig, BenchError};
use vstd::prelude::*;

verus! {

pub open spec fn cfg_lit_bencher_uri() -> Seq<char> {
    "{\"mongodb_bencher_uri\":\""@
}

pub open spec fn cfg_lit_server_uri() -> Seq<char> {
    ",\"mongodb_server_uri\":\""@
}

pub open spec fn cfg_lit_rabbitmq_uri() -> Seq<char> {
    ",\"rabbitmq_uri\":\""@
}

pub open spec fn cfg_lit_db() -> Seq<char> {
    ",\"mongodb_db\":\""@
}

/// The one serialized form of a configuration.
pub open spec fn config_json(c: BenchConfig) -> Seq<char> {
    cfg_lit_bencher_uri() + esc(c.mongodb_bencher_uri@) + seq!['"'] + cfg_lit_server_uri() + esc(
        c.mongodb_server_uri@,
    ) + seq!['"'] + cfg_lit_rabbitmq_uri() + esc(c.rabbitmq_uri@) + seq!['"'] + cfg_lit_db() + esc(
        c.mongodb_db@,
    ) + seq!['"', '}']
}

/// The four field values of a serialized configuration, if `t` is one.
pub open spec fn config_fields(t: Seq<char>) -> Option<
    (Seq<char>, Seq<char>, Seq<char>, Seq<char>),
> {
    match field_at(t, 0, cfg_lit_bencher_uri()) {
        None => None,
        Some((bencher, j1)) => match field_at(t, j1, cfg_lit_server_uri()) {
            None => None,
            Some((server, j2)) => match field_at(t, j2, cfg_lit_rabbitmq_uri()) {
                None => None,
                Some((rabbit, j3)) => match field_at(t, j3, cfg_lit_db()) {
                    None => None,
                    Some((db, j4)) => {
                        if j4 + 1 == t.len() && t[j4] == '}' {
                            Some((bencher, server, rabbit, db))
                        } else {
                            None
                        }
                    },
                },
            },
        },
    }
}

/// Serializes a configuration.
pub fn encode_config(c: &BenchConfig) -> (r: String)
    ensures
        r@ == config_json(*c),
{
    let mut out: Vec<char> = Vec::new();
    crate::text::push_str_chars(&mut out, "{\"mongodb_bencher_uri\":\"");
    crate::json::escape_into(&mut out, c.mongodb_bencher_uri.as_str());
    out.push('"');
    crate::text::push_str_chars(&mut out, ",\"mongodb_server_uri\":\"");
    crate::json::escape_into(&mut out, c.mongodb_server_uri.as_str());
    out.push('"');
    crate::text::push_str_chars(&mut out, ",\"rabbitmq_uri\":\"");
    crate::json::escape_into(&mut out, c.rabbitmq_uri.as_str());
    out.push('"');
    crate::text::push_str_chars(&mut out, ",\"mongodb_db\":\"");
    crate::json::escape_into(&mut out, c.mongodb_db.as_str());
    out.push('"');
    out.push('}');
    proof {
        assert(out@ =~= config_json(*c));
    }
    crate::text::chars_to_string(&out)
}

/// Deserializes a configuration, or reports that the text is refused.
pub fn decode_config(s: &str) -> (r: Result<BenchConfig, BenchError>)
    ensures
        match r {
            Ok(c) => config_fields(s@) == Some(
                (c.mongodb_bencher_uri@, c.mongodb_server_uri@, c.rabbitmq_uri@, c.mongodb_db@),
            ),
            Err(e) => config_fields(s@) is None && e == BenchError::Config,
        },
{
    let v = crate::text::to_chars(s);
    let f1 = field_exec(&v, 0, "{\"mongodb_bencher_uri\":\"");
    match f1 {
        None => Err(BenchError::Config),
        Some((mongodb_bencher_uri, j1)) => {
            let f2 = field_exec(&v, j1, ",\"mongodb_server_uri\":\"");
            match f2 {
                None => Err(BenchError::Config),
                Some((mongodb_server_uri, j2)) => {
                    let f3 = field_exec(&v, j2, ",\"rabbitmq_uri\":\"");
                    match f3 {
                        None => Err(BenchError::Config),
                        Some((rabbitmq_uri, j3)) => {
                            let f4 = field_exec(&v, j3, ",\"mongodb_db\":\"");
                            match f4 {
                                None => Err(BenchError::Config),
                                Some((mongodb_db, j4)) => {
                                    if j4 == v.len() - 1 && v[j4] == '}' {
                                        Ok(
                                            BenchConfig {
                                                mongodb_bencher_uri,
                                                mongodb_server_uri,
                                                rabbitmq_uri,
                                                mongodb_db,
                                            },
                                        )
                                    } else {
                                        Err(BenchError::Config)
                                    }
                                },
                            }
                        },
                    }
                },
            }
        },
    }
}

/// Law: configuration values round-trip through serialization unchanged —
/// the reader applied to the serialized form of any configuration yields
/// exactly its four field values.
pub proof fn lemma_config_round_trip(c: BenchConfig)
    ensures
        config_fields(config_json(c)) == Some(
            (c.mongodb_bencher_uri@, c.mongodb_server_uri@, c.rabbitmq_uri@, c.mongodb_db@),
        ),
{
    let t = config_json(c);
    let l1 = cfg_lit_bencher_uri().len() as int;
    let e1 = esc(c.mongodb_bencher_uri@).len() as int;
    let j1 = l1 + e1 + 1;
    let l2 = cfg_lit_server_uri().len() as int;
    let e2 = esc(c.mongodb_server_uri@).len() as int;
    let j2 = j1 + l2 + e2 + 1;
    let l3 = cfg_lit_rabbitmq_uri().len() as int;
    let e3 = esc(c.rabbitmq_uri@).len() as int;
    let j3 = j2 + l3 + e3 + 1;
    let l4 = cfg_lit_db().len() as int;
    let e4 = esc(c.mongodb_db@).len() as int;
    let j4 = j3 + l4 + e4 + 1;
    assert(t.len() == j4 + 1);
    assert(t.subrange(0, j1) =~= cfg_lit_bencher_uri() + esc(c.mongodb_bencher_uri@) + seq!['"']);
    crate::json::lemma_field_at(t, 0, cfg_lit_bencher_uri(), c.mongodb_bencher_uri@);
    assert(t.subrange(j1, j2) =~= cfg_lit_server_uri() + esc(c.mongodb_server_uri@) + seq!['"']);
    crate::json::lemma_field_at(t, j1, cfg_lit_server_uri(), c.mongodb_server_uri@);
    assert(t.subrange(j2, j3) =~= cfg_lit_rabbitmq_uri() + esc(c.rabbitmq_uri@) + seq!['"']);
    crate::json::lemma_field_at(t, j2, cfg_lit_rabbitmq_uri(), c.rabbitmq_uri@);
    assert(t.subrange(j3, j4) =~= cfg_lit_db() + esc(c.mongodb_db@) + seq!['"']);
    crate::json::lemma_field_at(t, j3, cfg_lit_db(), c.mongodb_db@);
    assert(t[j4] == '}');
}

} // verus!
