//! Prefixes from a model's `config_sentence_transformers.json`.

use crate::error::{self, Error};
use crate::json::{self, Json};
use crate::prefixes::Prefixes;
use crate::text;
use crate::text_map;
use vstd::prelude::*;

verus! {

/// Whether every value of an object is a text.
pub open spec fn all_texts(m: Map<Seq<char>, Json>) -> bool {
    forall|k: Seq<char>| #[trigger] m.dom().contains(k) ==> m[k] is Text
}

/// What a `prompts` member holds: nothing, a map of texts, or something else (`None`).
pub open spec fn prompts_in(value: Option<Json>) -> Option<Option<Json>> {
    match value {
        None => Some(None),
        Some(Json::Null) => Some(None),
        Some(Json::Object(m)) => if all_texts(m) {
            Some(Some(Json::Object(m)))
        } else {
            None
        },
        _ => None,
    }
}

/// The prompts of a configuration: an object with a `prompts` member, or the list of its one
/// member.
pub open spec fn prompts_of(config: Json) -> Option<Option<Json>> {
    match config {
        Json::Object(_) => prompts_in(json::member(config, "prompts"@)),
        Json::Array(list) => if list.len() == 0 {
            prompts_in(None)
        } else if list.len() == 1 {
            prompts_in(Some(list[0]))
        } else {
            None
        },
        _ => None,
    }
}

/// The prompt under `key`.
pub open spec fn prompt(prompts: Json, key: Seq<char>) -> Result<Seq<char>, Seq<char>> {
    match json::member(prompts, key) {
        Some(Json::Text(s)) => Ok(s),
        _ => Err("prompts has no key `"@ + key + "`"@),
    }
}

/// The prompts under two keys in the text of a configuration.
pub open spec fn prompts_at(
    config: Seq<u8>,
    query_key: Seq<char>,
    document_key: Seq<char>,
) -> Result<(Seq<char>, Seq<char>), Seq<char>> {
    match json::parsed(config) {
        Err(cause) => Err("parse config_sentence_transformers.json: "@ + cause),
        Ok(config) => match prompts_of(config) {
            None => Err(
                "parse config_sentence_transformers.json: expected a `prompts` map of texts"@,
            ),
            Some(None) => Err("config_sentence_transformers.json has no `prompts` map"@),
            Some(Some(prompts)) => match prompt(prompts, query_key) {
                Err(m) => Err(m),
                Ok(query) => match prompt(prompts, document_key) {
                    Err(m) => Err(m),
                    Ok(document) => Ok((query, document)),
                },
            },
        },
    }
}

/// What optional prompts hold.
pub open spec fn found(r: Option<Option<&serde_json::Value>>) -> Option<Option<Json>> {
    match r {
        None => None,
        Some(None) => Some(None),
        Some(Some(value)) => Some(Some(json::json(*value))),
    }
}

fn read_prompts<'a>(value: Option<&'a serde_json::Value>) -> (r: Option<
    Option<&'a serde_json::Value>,
>)
    ensures
        found(r) == prompts_in(
            match value {
                Some(value) => Some(json::json(*value)),
                None => None,
            },
        ),
{
    let given = match value {
        Some(given) => given,
        None => return Some(None),
    };
    if given.is_null() {
        return Some(None);
    }
    let list = match json::object_members(given) {
        Some(list) => list,
        None => return None,
    };
    let ghost entries = json::members(list@);
    proof {
        text_map::lemma_to_map(entries);
    }
    let mut i: usize = 0;
    while i < list.len()
        invariant
            entries == json::members(list@),
            value == Some(given),
            json::json(*given) == Json::Object(text_map::to_map(entries)),
            forall|k: int|
                0 <= k < entries.len() ==> {
                    &&& text_map::to_map(entries).dom().contains((#[trigger] entries[k]).0)
                    &&& text_map::to_map(entries)[entries[k].0] == entries[k].1
                },
            0 <= i <= list@.len(),
            forall|k: int| 0 <= k < i ==> (#[trigger] entries[k]).1 is Text,
        decreases list@.len() - i,
    {
        assert(entries[i as int] == (list@[i as int].0@, json::json(*list@[i as int].1)));
        if list[i].1.as_str().is_none() {
            assert(!all_texts(text_map::to_map(entries)));
            return None;
        }
        i += 1;
    }
    assert forall|k: Seq<char>| #[trigger] text_map::to_map(entries).dom().contains(k) implies
        text_map::to_map(entries)[k] is Text by {
        text_map::lemma_to_map(entries);
        let j = choose|j: int| 0 <= j < entries.len() && (#[trigger] entries[j]).0 == k;
        assert(entries[j].1 is Text);
    }
    Some(Some(given))
}

fn find_prompts<'a>(config: &'a serde_json::Value) -> (r: Option<Option<&'a serde_json::Value>>)
    ensures
        found(r) == prompts_of(json::json(*config)),
{
    match config.as_array() {
        Some(list) => {
            if list.len() == 0 {
                read_prompts(None)
            } else if list.len() == 1 {
                read_prompts(Some(&list[0]))
            } else {
                None
            }
        },
        None => {
            if json::object_members(config).is_none() {
                return None;
            }
            read_prompts(json::get(config, "prompts"))
        },
    }
}

fn read_prompt(prompts: &serde_json::Value, key: &str) -> (r: Result<String, Error>)
    ensures
        error::outcome(r) == prompt(json::json(*prompts), key@),
{
    let found = match json::get(prompts, key) {
        Some(value) => value.as_str(),
        None => None,
    };
    match found {
        Some(text) => Ok(text.to_owned()),
        None => Err(
            Error::new("prompts has no key `".to_owned().concat(key).concat("`")),
        ),
    }
}

/// Read two named prompt strings out of a `config_sentence_transformers.json`.
///
/// The prompts are looked up in the file's JSON value: a deserializer of the prompts themselves
/// would be generated code, which has no contract. So of members with the same name the last counts,
/// members beside `prompts` must be readable too, and the text of the cause is that of reading the
/// value.
pub fn extract_prefixes(config: &str, query_key: &str, document_key: &str) -> (r: Result<
    Prefixes,
    Error,
>)
    ensures
        match (r, prompts_at(vstd::utf8::encode_utf8(config@), query_key@, document_key@)) {
            (Ok(prefixes), Ok((query, document))) => prefixes.query@ == query
                && prefixes.document@ == document,
            (Err(e), Err(m)) => e@ == m,
            _ => false,
        },
{
    let value = match json::parse(config.as_bytes()) {
        Ok(value) => value,
        Err(cause) => return Err(
            Error::new(
                "parse config_sentence_transformers.json: ".to_owned().concat(cause.as_str()),
            ),
        ),
    };
    let prompts = match find_prompts(&value) {
        Some(Some(prompts)) => prompts,
        Some(None) => return Err(
            Error::new("config_sentence_transformers.json has no `prompts` map".to_owned()),
        ),
        None => return Err(
            Error::new(
                "parse config_sentence_transformers.json: expected a `prompts` map of texts".to_owned(),
            ),
        ),
    };
    let query = match read_prompt(prompts, query_key) {
        Ok(query) => query,
        Err(e) => return Err(e),
    };
    match read_prompt(prompts, document_key) {
        Ok(document) => Ok(Prefixes { query, document }),
        Err(e) => Err(e),
    }
}

} // verus!
