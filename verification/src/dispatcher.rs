//! Request dispatch: decodes a request message, routes it by its action,
//! and assembles the response envelope. The caller owns the surrounding
//! session loop; a shape error is reported to it, never hidden.

use vstd::prelude::*;
use crate::json::{Json, spec_get, spec_obj_lookup, obj_find, obj_take, str_eq};
use crate::feature::{Record, RecordV};

verus! {

/// A decoded request.
#[derive(Debug, PartialEq, Eq)]
pub enum Request {
    GetVersion { sequence: Json },
    ParseText { sequence: Json, text: String },
}

/// A request whose shape the protocol does not allow. The session treats
/// either as fatal, as the protocol contract demands.
#[derive(Debug, Clone, Copy, PartialEq, Eq)]
pub enum RequestError {
    UnknownAction,
    MissingText,
}

/// Whether the message's `action` member is the given string.
pub open spec fn spec_action_is(msg: Json, name: Seq<char>) -> bool {
    match spec_get(msg, "action"@) {
        Some(a) => match a {
            Json::Str(s) => s@ == name,
            _ => false,
        },
        _ => false,
    }
}

/// The message's `sequence` member, `Null` when absent; it is echoed into
/// the response unchanged and never interpreted.
pub open spec fn spec_sequence_of(msg: Json) -> Json {
    match spec_get(msg, "sequence"@) {
        Some(j) => j,
        None => Json::Null,
    }
}

/// The message's `params.text` member, if any.
pub open spec fn spec_text_param(msg: Json) -> Option<Json> {
    match spec_get(msg, "params"@) {
        Some(p) => spec_get(p, "text"@),
        None => None,
    }
}

/// Decodes a request message: `get_version` and `parse_text` are the two
/// actions; `parse_text` requires a string `params.text`. Exactly which
/// request or error comes back is fixed by the message alone.
pub fn decode_request(msg: Json) -> (r: Result<Request, RequestError>)
    ensures
        spec_action_is(msg, "get_version"@) ==> (r matches Ok(q) && q == (Request::GetVersion {
            sequence: spec_sequence_of(msg),
        })),
        spec_action_is(msg, "parse_text"@) ==> (match spec_text_param(msg) {
            Some(t) => match t {
                Json::Str(s) => r matches Ok(q) && (q matches Request::ParseText {
                    sequence,
                    text,
                } && sequence == spec_sequence_of(msg) && text@ == s@),
                _ => r == Result::<Request, RequestError>::Err(RequestError::MissingText),
            },
            None => r == Result::<Request, RequestError>::Err(RequestError::MissingText),
        }),
        !spec_action_is(msg, "get_version"@) && !spec_action_is(msg, "parse_text"@) ==> r
            == Result::<Request, RequestError>::Err(RequestError::UnknownAction),
{
    proof {
        reveal_strlit("get_version");
        reveal_strlit("parse_text");
    }
    match msg {
        Json::Obj(mut pairs) => {
            let ghost pairs0 = pairs@;
            proof {
                assert(spec_get(msg, "action"@) == spec_obj_lookup(pairs0, "action"@));
                assert(spec_get(msg, "sequence"@) == spec_obj_lookup(pairs0, "sequence"@));
                assert(spec_get(msg, "params"@) == spec_obj_lookup(pairs0, "params"@));
            }
            let mut is_ver = false;
            let mut is_parse = false;
            match obj_find(&pairs, "action") {
                Some(a) => match a {
                    Json::Str(s) => {
                        if str_eq(s.as_str(), "get_version") {
                            is_ver = true;
                        } else if str_eq(s.as_str(), "parse_text") {
                            is_parse = true;
                        }
                    },
                    _ => {},
                },
                None => {},
            }
            proof {
                assert("get_version"@.len() == 11 && "parse_text"@.len() == 10);
                assert(is_ver == spec_action_is(msg, "get_version"@));
                assert(is_parse == spec_action_is(msg, "parse_text"@));
            }
            if is_ver {
                let seqv = match obj_take(&mut pairs, "sequence") {
                    Some(j) => j,
                    None => Json::Null,
                };
                Ok(Request::GetVersion { sequence: seqv })
            } else if is_parse {
                let mut text_opt: Option<String> = None;
                match obj_find(&pairs, "params") {
                    Some(p) => match p {
                        Json::Obj(pp) => match obj_find(pp, "text") {
                            Some(t) => match t {
                                Json::Str(ts) => { text_opt = Some(ts.clone()); },
                                _ => {},
                            },
                            None => {},
                        },
                        _ => {},
                    },
                    None => {},
                }
                match text_opt {
                    Some(t) => {
                        let seqv = match obj_take(&mut pairs, "sequence") {
                            Some(j) => j,
                            None => Json::Null,
                        };
                        Ok(Request::ParseText { sequence: seqv, text: t })
                    },
                    None => Err(RequestError::MissingText),
                }
            } else {
                Err(RequestError::UnknownAction)
            }
        },
        _ => Err(RequestError::UnknownAction),
    }
}

/// The `(sequence, data)` members of a two-member response envelope.
pub open spec fn spec_envelope_data(j: Json) -> Option<(Json, Json)> {
    match j {
        Json::Obj(p) => if p@.len() == 2 && p@[0].0@ == "sequence"@ && p@[1].0@ == "data"@ {
            Some((p@[0].1, p@[1].1))
        } else {
            None
        },
        _ => None,
    }
}

/// Whether `j` is the fixed version payload, an object with the single
/// member `version` holding the number one.
pub open spec fn spec_version_payload(j: Json) -> bool {
    match j {
        Json::Obj(d) => d@.len() == 1 && d@[0].0@ == "version"@ && (d@[0].1 matches Json::Num(n)
            && n@ == "1"@),
        _ => false,
    }
}

/// Builds the reply to `get_version`: the echoed sequence value and the
/// fixed version payload.
pub fn build_version_response(sequence: Json) -> (r: Json)
    ensures
        spec_envelope_data(r) matches Some(sd) && sd.0 == sequence && spec_version_payload(sd.1),
{
    let mut data_pairs: Vec<(String, Json)> = Vec::new();
    data_pairs.push((String::from_str("version"), Json::Num(String::from_str("1"))));
    let data = Json::Obj(data_pairs);
    let mut pairs: Vec<(String, Json)> = Vec::new();
    pairs.push((String::from_str("sequence"), sequence));
    pairs.push((String::from_str("data"), data));
    Json::Obj(pairs)
}

/// How one record renders as a JSON object. A word record holds its source
/// and then its named fields in order, a `*` field as `null`; a dummy record
/// holds its source and the fixed provider names, all `null`.
pub open spec fn spec_record_json(rv: RecordV, j: Json) -> bool {
    match rv {
        RecordV::Dummy { source } => match j {
            Json::Obj(p) => p@.len() == 4 && p@[0].0@ == "source"@ && (p@[0].1 matches Json::Str(s)
                && s@ == source) && p@[1].0@ == "ipadic"@ && p@[1].1 == Json::Null && p@[2].0@
                == "ipadic-neologd"@ && p@[2].1 == Json::Null && p@[3].0@
                == "unidic-mecab-translate"@ && p@[3].1 == Json::Null,
            _ => false,
        },
        RecordV::Word { source, fields } => match j {
            Json::Obj(p) => p@.len() == 1 + fields.len() && p@[0].0@ == "source"@ && (p@[0].1
                matches Json::Str(s) && s@ == source) && (forall|i: int|
                0 <= i < fields.len() ==> {
                    &&& (#[trigger] p@[i + 1]).0@ == fields[i].0
                    &&& (match fields[i].1 {
                        Some(v) => p@[i + 1].1 matches Json::Str(sv) && sv@ == v,
                        None => p@[i + 1].1 == Json::Null,
                    })
                }),
            _ => false,
        },
    }
}

/// Renders one record as a JSON object.
pub fn record_to_json(rec: &Record) -> (r: Json)
    ensures
        spec_record_json(rec@, r),
{
    match rec {
        Record::Dummy { source } => {
            let mut p: Vec<(String, Json)> = Vec::new();
            p.push((String::from_str("source"), Json::Str(source.clone())));
            p.push((String::from_str("ipadic"), Json::Null));
            p.push((String::from_str("ipadic-neologd"), Json::Null));
            p.push((String::from_str("unidic-mecab-translate"), Json::Null));
            Json::Obj(p)
        },
        Record::Word { source, fields } => {
            let mut p: Vec<(String, Json)> = Vec::new();
            p.push((String::from_str("source"), Json::Str(source.clone())));
            let mut i: usize = 0;
            while i < fields.len()
                invariant
                    i <= fields@.len(),
                    p@.len() == 1 + i,
                    p@[0].0@ == "source"@,
                    p@[0].1 matches Json::Str(s) && s@ == source@,
                    forall|k: int|
                        0 <= k < i ==> {
                            &&& (#[trigger] p@[k + 1]).0@ == fields.deep_view()[k].0
                            &&& (match fields.deep_view()[k].1 {
                                Some(v) => p@[k + 1].1 matches Json::Str(sv) && sv@ == v,
                                None => p@[k + 1].1 == Json::Null,
                            })
                        },
                decreases fields@.len() - i,
            {
                let name = fields[i].0.clone();
                let value = match &fields[i].1 {
                    Some(v) => Json::Str(v.clone()),
                    None => Json::Null,
                };
                p.push((name, value));
                i += 1;
            }
            Json::Obj(p)
        },
    }
}

/// Builds the reply to `parse_text`: the echoed sequence value and the
/// rendered record array, in order.
pub fn build_parse_response(sequence: Json, records: &Vec<Record>) -> (r: Json)
    ensures
        spec_envelope_data(r) matches Some(sd) && sd.0 == sequence && (sd.1 matches Json::Arr(
            items,
        ) && items@.len() == records@.len() && (forall|i: int|
            0 <= i < records@.len() ==> spec_record_json(records@[i]@, #[trigger] items@[i]))),
{
    let mut items: Vec<Json> = Vec::new();
    let mut i: usize = 0;
    while i < records.len()
        invariant
            i <= records@.len(),
            items@.len() == i,
            forall|k: int| 0 <= k < i ==> spec_record_json(records@[k]@, #[trigger] items@[k]),
        decreases records@.len() - i,
    {
        items.push(record_to_json(&records[i]));
        i += 1;
    }
    let mut pairs: Vec<(String, Json)> = Vec::new();
    pairs.push((String::from_str("sequence"), sequence));
    pairs.push((String::from_str("data"), Json::Arr(items)));
    Json::Obj(pairs)
}

} // verus!
