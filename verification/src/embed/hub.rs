//! The load path's files: fetch an artifact at a pinned revision, verify its bytes against the
//! hub's own sha256, read the metadata the load-time guards need.
//!
//! The hub itself is behind [`HubClient`].

use crate::embed::spec::{ModelSpec, PoolingMeta, Spec};
use crate::error::{self, Error};
use crate::json::{self, Json};
use crate::text;
use crate::text_map::TextMap;
use sha2::Digest;
use vstd::prelude::*;

verus! {

broadcast use vstd::seq::group_seq_axioms;

/// `1_Pooling/config.json`, present in sentence-transformers-format repositories only.
pub const POOLING_FILE: &'static str = "1_Pooling/config.json";

// ---- sha256 --------------------------------------------------------------------------------

/// The SHA-256 digest of `bytes`.
pub uninterp spec fn sha256(bytes: Seq<u8>) -> Seq<u8>;

/// `sha2::Sha256::digest`: the digest of `bytes`, named [`sha256`], of thirty-two bytes.
#[verifier::external_body]
pub(crate) fn digest(bytes: &[u8]) -> (r: Vec<u8>)
    ensures
        r@ == sha256(bytes@),
        r@.len() == 32,
{
    sha2::Sha256::digest(bytes).to_vec()
}

/// `bytes` in lower-case hexadecimal, two digits each.
pub open spec fn hex_text(bytes: Seq<u8>) -> Seq<char>
    decreases bytes.len(),
{
    if bytes.len() == 0 {
        Seq::empty()
    } else {
        hex_text(bytes.drop_last()) + seq![
            text::digit((bytes.last() / 16) as nat),
            text::digit((bytes.last() % 16) as nat),
        ]
    }
}

/// `bytes` in lower-case hexadecimal, two digits each.
pub fn hex(bytes: &[u8]) -> (r: String)
    ensures
        r@ == hex_text(bytes@),
{
    let mut out = String::new();
    let mut i: usize = 0;
    assert(bytes@.take(0) =~= Seq::empty());
    while i < bytes.len()
        invariant
            0 <= i <= bytes@.len(),
            out@ == hex_text(bytes@.take(i as int)),
        decreases bytes@.len() - i,
    {
        let b: u8 = bytes[i];
        let ghost before = out@;
        out = out.concat(text::digit_text(b / 16)).concat(text::digit_text(b % 16));
        proof {
            assert(bytes@.take(i + 1).drop_last() =~= bytes@.take(i as int));
            assert(out@ =~= before + seq![
                text::digit((b / 16) as nat),
                text::digit((b % 16) as nat),
            ]);
        }
        i += 1;
    }
    assert(bytes@.take(i as int) =~= bytes@);
    out
}

/// Whether the bytes of `file` are those the hub reports the sha256 of. A file without a
/// reported sha256 has nothing to compare with.
pub open spec fn checked(file: Seq<char>, bytes: Seq<u8>, expected: Option<Seq<char>>) -> Result<
    (),
    Seq<char>,
> {
    match expected {
        None => Ok(()),
        Some(expected) => if hex_text(sha256(bytes)) == expected {
            Ok(())
        } else {
            Err(
                "sha256 mismatch for `"@ + file + "`: got "@ + hex_text(sha256(bytes))
                    + ", hub reports "@ + expected,
            )
        },
    }
}

/// What an optional text holds.
pub open spec fn text_view(t: Option<&str>) -> Option<Seq<char>> {
    match t {
        Some(t) => Some(t@),
        None => None,
    }
}

/// Always-on artifact verification: bytes must hash to the sha256 the hub reports for that path.
/// Files the hub reports no sha256 of are covered by the pinned revision alone.
pub fn verify(file: &str, bytes: &[u8], expected: Option<&str>) -> (r: Result<(), Error>)
    ensures
        error::verdict(r) == checked(file@, bytes@, text_view(expected)),
{
    match expected {
        None => Ok(()),
        Some(expected) => {
            let actual = hex(digest(bytes).as_slice());
            if text::same(actual.as_str(), expected) {
                Ok(())
            } else {
                Err(
                    Error::new(
                        "sha256 mismatch for `".to_owned().concat(file).concat("`: got ").concat(
                            actual.as_str(),
                        ).concat(", hub reports ").concat(expected),
                    ),
                )
            }
        },
    }
}

// ---- metadata ------------------------------------------------------------------------------

/// The token window that a `tokenizer_config.json` declares.
pub open spec fn max_length(tokenizer_config: Seq<u8>) -> Result<usize, Seq<char>> {
    match json::parsed(tokenizer_config) {
        Err(cause) => Err("parse tokenizer_config.json: "@ + cause),
        Ok(config) => match json::member(config, "model_max_length"@) {
            Some(Json::Unsigned(n)) => if n <= usize::MAX {
                Ok(n as usize)
            } else {
                Err(
                    "model_max_length "@ + text::digits(n as nat)
                        + " is out of range: out of range integral type conversion attempted"@,
                )
            },
            _ => Err("tokenizer_config.json has no numeric `model_max_length`"@),
        },
    }
}

/// The token window comes from the artifact's `tokenizer_config.json`.
pub fn parse_max_length(tokenizer_config: &[u8]) -> (r: Result<usize, Error>)
    ensures
        error::verdict(r) == max_length(tokenizer_config@),
{
    let config = match json::parse(tokenizer_config) {
        Ok(config) => config,
        Err(cause) => return Err(
            Error::new("parse tokenizer_config.json: ".to_owned().concat(cause.as_str())),
        ),
    };
    let value = match json::get(&config, "model_max_length") {
        Some(value) => value.as_u64(),
        None => None,
    };
    match value {
        Some(n) => {
            if n <= usize::MAX as u64 {
                Ok(n as usize)
            } else {
                Err(
                    Error::new(
                        "model_max_length ".to_owned().concat(text::decimal(n).as_str()).concat(
                            " is out of range: out of range integral type conversion attempted",
                        ),
                    ),
                )
            }
        },
        None => Err(
            Error::new("tokenizer_config.json has no numeric `model_max_length`".to_owned()),
        ),
    }
}

/// The unsigned integers of a list, in order.
pub open spec fn widths(list: Seq<Json>) -> Seq<usize>
    decreases list.len(),
{
    if list.len() == 0 {
        Seq::empty()
    } else {
        match list.last() {
            Json::Unsigned(n) => if n <= usize::MAX {
                widths(list.drop_last()).push(n as usize)
            } else {
                widths(list.drop_last())
            },
            _ => widths(list.drop_last()),
        }
    }
}

/// The MRL widths that a `config.json` declares, if it declares any.
pub open spec fn matryoshka(config: Seq<u8>) -> Result<Option<Seq<usize>>, Seq<char>> {
    match json::parsed(config) {
        Err(cause) => Err("parse config.json: "@ + cause),
        Ok(config) => match json::member(config, "matryoshka_dimensions"@) {
            Some(Json::Array(list)) => Ok(Some(widths(list))),
            _ => Ok(None),
        },
    }
}

/// What an optional list of widths holds.
pub open spec fn widths_outcome(r: Result<Option<Vec<usize>>, Error>) -> Result<
    Option<Seq<usize>>,
    Seq<char>,
> {
    match r {
        Ok(Some(list)) => Ok(Some(list@)),
        Ok(None) => Ok(None),
        Err(e) => Err(e@),
    }
}

/// MRL widths declared by the model, if any (`config.json`'s `matryoshka_dimensions`).
pub fn parse_matryoshka(config: &[u8]) -> (r: Result<Option<Vec<usize>>, Error>)
    ensures
        widths_outcome(r) == matryoshka(config@),
{
    let value = match json::parse(config) {
        Ok(value) => value,
        Err(cause) => return Err(
            Error::new("parse config.json: ".to_owned().concat(cause.as_str())),
        ),
    };
    let dims = match json::get(&value, "matryoshka_dimensions") {
        Some(dims) => dims.as_array(),
        None => None,
    };
    let list = match dims {
        Some(list) => list,
        None => return Ok(None),
    };
    let mut out: Vec<usize> = Vec::new();
    let mut i: usize = 0;
    let ghost all = json::jsons(list@);
    assert(all.take(0) =~= Seq::empty());
    while i < list.len()
        invariant
            all == json::jsons(list@),
            0 <= i <= list@.len(),
            out@ == widths(all.take(i as int)),
        decreases list@.len() - i,
    {
        proof {
            assert(all.take(i + 1).drop_last() =~= all.take(i as int));
            assert(all.take(i + 1).last() == json::json(list@[i as int]));
        }
        if let Some(n) = list[i].as_u64() {
            if n <= usize::MAX as u64 {
                out.push(n as usize);
            }
        }
        i += 1;
    }
    assert(all.take(i as int) =~= all);
    Ok(Some(out))
}

/// A pooling flag: absent for `false`, and otherwise a boolean.
pub open spec fn flag(value: Option<Json>) -> Option<bool> {
    match value {
        None => Some(false),
        Some(Json::Bool(b)) => Some(b),
        _ => None,
    }
}

/// The prompt flag: absent, null, or a boolean.
pub open spec fn prompt_flag(value: Option<Json>) -> Option<Option<bool>> {
    match value {
        None => Some(None),
        Some(Json::Null) => Some(None),
        Some(Json::Bool(b)) => Some(Some(b)),
        _ => None,
    }
}

/// The flags in the order in which a list gives them.
pub open spec fn pooling_flags(flags: Seq<Option<bool>>, prompt: Option<Option<bool>>) -> Option<
    PoolingMeta,
> {
    if flags[0] is Some && flags[1] is Some && flags[2] is Some && flags[3] is Some
        && flags[4] is Some && flags[5] is Some && prompt is Some {
        Some(
            PoolingMeta {
                cls: flags[0]->0,
                mean: flags[1]->0,
                max: flags[2]->0,
                weightedmean: flags[3]->0,
                mean_sqrt_len: flags[4]->0,
                lasttoken: flags[5]->0,
                include_prompt: prompt->0,
            },
        )
    } else {
        None
    }
}

/// The pooling flags of a configuration: an object with the flags as members, or the list of all
/// seven.
pub open spec fn pooling_config(config: Json) -> Option<PoolingMeta> {
    match config {
        Json::Object(_) => pooling_flags(
            seq![
                flag(json::member(config, "pooling_mode_cls_token"@)),
                flag(json::member(config, "pooling_mode_mean_tokens"@)),
                flag(json::member(config, "pooling_mode_max_tokens"@)),
                flag(json::member(config, "pooling_mode_weightedmean_tokens"@)),
                flag(json::member(config, "pooling_mode_mean_sqrt_len_tokens"@)),
                flag(json::member(config, "pooling_mode_lasttoken"@)),
            ],
            prompt_flag(json::member(config, "include_prompt"@)),
        ),
        Json::Array(list) => if list.len() == 7 {
            pooling_flags(
                Seq::new(6, |i: int| flag(Some(list[i]))),
                prompt_flag(Some(list[6])),
            )
        } else {
            None
        },
        _ => None,
    }
}

/// The pooling flags that a `1_Pooling/config.json` holds.
pub open spec fn pooling_meta(bytes: Seq<u8>) -> Result<PoolingMeta, Seq<char>> {
    match json::parsed(bytes) {
        Err(cause) => Err("parse 1_Pooling/config.json: "@ + cause),
        Ok(config) => match pooling_config(config) {
            Some(meta) => Ok(meta),
            None => Err("parse 1_Pooling/config.json: expected boolean pooling flags"@),
        },
    }
}

/// What an optional value holds.
pub open spec fn optional(value: Option<&serde_json::Value>) -> Option<Json> {
    match value {
        Some(value) => Some(json::json(*value)),
        None => None,
    }
}

fn read_flag(value: Option<&serde_json::Value>) -> (r: Option<bool>)
    ensures
        r == flag(optional(value)),
{
    match value {
        None => Some(false),
        Some(value) => value.as_bool(),
    }
}

fn read_prompt_flag(value: Option<&serde_json::Value>) -> (r: Option<Option<bool>>)
    ensures
        r == prompt_flag(optional(value)),
{
    match value {
        None => Some(None),
        Some(value) => if value.is_null() {
            Some(None)
        } else {
            match value.as_bool() {
                Some(b) => Some(Some(b)),
                None => None,
            }
        },
    }
}

fn read_pooling_config(config: &serde_json::Value) -> (r: Option<PoolingMeta>)
    ensures
        r == pooling_config(json::json(*config)),
{
    let list = config.as_array();
    let (cls, mean, max, weightedmean, mean_sqrt_len, lasttoken, prompt) = match list {
        Some(list) => {
            if list.len() != 7 {
                return None;
            }
            (
                read_flag(Some(&list[0])),
                read_flag(Some(&list[1])),
                read_flag(Some(&list[2])),
                read_flag(Some(&list[3])),
                read_flag(Some(&list[4])),
                read_flag(Some(&list[5])),
                read_prompt_flag(Some(&list[6])),
            )
        },
        None => {
            if json::object_members(config).is_none() {
                return None;
            }
            (
                read_flag(json::get(config, "pooling_mode_cls_token")),
                read_flag(json::get(config, "pooling_mode_mean_tokens")),
                read_flag(json::get(config, "pooling_mode_max_tokens")),
                read_flag(json::get(config, "pooling_mode_weightedmean_tokens")),
                read_flag(json::get(config, "pooling_mode_mean_sqrt_len_tokens")),
                read_flag(json::get(config, "pooling_mode_lasttoken")),
                read_prompt_flag(json::get(config, "include_prompt")),
            )
        },
    };
    match (cls, mean, max, weightedmean, mean_sqrt_len, lasttoken, prompt) {
        (
            Some(cls),
            Some(mean),
            Some(max),
            Some(weightedmean),
            Some(mean_sqrt_len),
            Some(lasttoken),
            Some(include_prompt),
        ) => Some(
            PoolingMeta { cls, mean, max, weightedmean, mean_sqrt_len, lasttoken, include_prompt },
        ),
        _ => None,
    }
}

/// Read the pooling flags of a `1_Pooling/config.json`.
///
/// The flags are looked up in the file's JSON value: a deserializer of the flags themselves would be
/// generated code, which has no contract. So of members with the same name the last counts, members
/// that are no flag must be readable too, and the text of the cause is that of reading the value.
pub fn parse_pooling_meta(bytes: &[u8]) -> (r: Result<PoolingMeta, Error>)
    ensures
        error::verdict(r) == pooling_meta(bytes@),
{
    let config = match json::parse(bytes) {
        Ok(config) => config,
        Err(cause) => return Err(
            Error::new("parse 1_Pooling/config.json: ".to_owned().concat(cause.as_str())),
        ),
    };
    match read_pooling_config(&config) {
        Some(meta) => Ok(meta),
        None => Err(
            Error::new("parse 1_Pooling/config.json: expected boolean pooling flags".to_owned()),
        ),
    }
}

// ---- the hub -------------------------------------------------------------------------------

/// The files of a repository at a revision, each with its sha256 where the hub reports one.
pub type Listing = TextMap<Option<String>>;

/// The hub, injectable so that fetching runs without network.
pub trait HubClient {
    /// `path -> sha256` for large files (`None` for small ones), at that revision.
    fn tree(&self, repo: &str, revision: &str) -> (r: Result<Listing, Error>);

    /// File contents; an error when the file is absent at that revision.
    fn bytes(&self, repo: &str, revision: &str, file: &str) -> (r: Result<Vec<u8>, Error>);
}

/// The sha256 that a listing reports of `file`, if any.
pub open spec fn reported(tree: Map<Seq<char>, Option<String>>, file: Seq<char>) -> Option<
    Seq<char>,
> {
    if tree.dom().contains(file) {
        match tree[file] {
            Some(hash) => Some(hash@),
            None => None,
        }
    } else {
        None
    }
}

/// Whether `client` may answer a request for a listing with `reply`.
pub open spec fn listed_by<C: HubClient>(
    client: &C,
    repo: Seq<char>,
    revision: Seq<char>,
    reply: Result<Map<Seq<char>, Option<String>>, Seq<char>>,
) -> bool {
    exists|a: &str, b: &str, x: Result<Listing, Error>|
        a@ == repo && b@ == revision && reply == error::outcome(x) && #[trigger] call_ensures(
            C::tree,
            (client, a, b),
            x,
        )
}

/// Whether `client` may answer a request for a file with `reply`.
pub open spec fn served_by<C: HubClient>(
    client: &C,
    repo: Seq<char>,
    revision: Seq<char>,
    file: Seq<char>,
    reply: Result<Seq<u8>, Seq<char>>,
) -> bool {
    exists|a: &str, b: &str, c: &str, x: Result<Vec<u8>, Error>|
        a@ == repo && b@ == revision && c@ == file && reply == error::outcome(x)
            && #[trigger] call_ensures(C::bytes, (client, a, b, c), x)
}

/// The bytes of `file`, once the hub answered with `reply`: checked against the listing.
pub open spec fn accepted(
    tree: Map<Seq<char>, Option<String>>,
    file: Seq<char>,
    reply: Result<Seq<u8>, Seq<char>>,
) -> Result<Seq<u8>, Seq<char>> {
    match reply {
        Err(m) => Err(m),
        Ok(bytes) => match checked(file, bytes, reported(tree, file)) {
            Ok(_) => Ok(bytes),
            Err(m) => Err(m),
        },
    }
}

/// Check what the hub answered for `file` against its listing.
pub fn accept(tree: &Listing, file: &str, reply: Result<Vec<u8>, Error>) -> (r: Result<
    Vec<u8>,
    Error,
>)
    ensures
        error::outcome(r) == accepted(tree@, file@, error::outcome(reply)),
{
    let bytes = match reply {
        Ok(bytes) => bytes,
        Err(e) => return Err(e),
    };
    let expected = match tree.get(file) {
        Some(Some(hash)) => Some(hash.as_str()),
        _ => None,
    };
    match verify(file, bytes.as_slice(), expected) {
        Ok(_) => Ok(bytes),
        Err(e) => Err(e),
    }
}

/// `r` is a reading of `file` from `client`: refused where the listing lacks it, and otherwise
/// what the client answers, checked against the listing.
pub open spec fn read_from<C: HubClient>(
    client: &C,
    spec: Spec,
    tree: Map<Seq<char>, Option<String>>,
    file: Seq<char>,
    r: Result<Seq<u8>, Seq<char>>,
) -> bool {
    if tree.dom().contains(file) {
        exists|reply: Result<Seq<u8>, Seq<char>>| #[trigger]
            served_by(client, spec.repo, spec.revision, file, reply) && r == accepted(
                tree,
                file,
                reply,
            )
    } else {
        r == Err::<Seq<u8>, Seq<char>>(
            spec.repo + "@"@ + spec.revision + ": `"@ + file + "` is not in the repo"@,
        )
    }
}

/// Whether `reads` are readings of `files` from `client`, one after the other up to the first
/// that fails.
pub open spec fn read_in_turn<C: HubClient>(
    client: &C,
    spec: Spec,
    tree: Map<Seq<char>, Option<String>>,
    files: Seq<Seq<char>>,
    reads: Seq<Result<Seq<u8>, Seq<char>>>,
) -> bool {
    &&& reads.len() <= files.len()
    &&& forall|i: int|
        0 <= i < reads.len() ==> read_from(client, spec, tree, files[i], #[trigger] reads[i])
    &&& forall|i: int| 0 <= i < reads.len() - 1 ==> (#[trigger] reads[i]) is Ok
    &&& reads.len() < files.len() ==> reads.len() > 0 && reads.last() is Err
}

/// The bodies that were read, or the failure that ended the reading.
pub open spec fn collected(reads: Seq<Result<Seq<u8>, Seq<char>>>) -> Result<
    Seq<Seq<u8>>,
    Seq<char>,
> {
    if reads.len() > 0 && reads.last() is Err {
        Err(reads.last()->Err_0)
    } else {
        Ok(reads.map_values(|r: Result<Seq<u8>, Seq<char>>| r->Ok_0))
    }
}

/// `r` is a reading of `files` from `client`, one after the other up to the first that fails.
pub open spec fn read_all_from<C: HubClient>(
    client: &C,
    spec: Spec,
    tree: Map<Seq<char>, Option<String>>,
    files: Seq<Seq<char>>,
    r: Result<Seq<Seq<u8>>, Seq<char>>,
) -> bool {
    exists|reads: Seq<Result<Seq<u8>, Seq<char>>>| #[trigger]
        read_in_turn(client, spec, tree, files, reads) && r == collected(reads)
}

fn read<C: HubClient>(client: &C, spec: &ModelSpec, tree: &Listing, file: &str) -> (r: Result<
    Vec<u8>,
    Error,
>)
    ensures
        read_from(client, spec@, tree@, file@, error::outcome(r)),
{
    if !tree.contains_key(file) {
        return Err(
            Error::new(
                spec.repo().to_owned().concat("@").concat(spec.revision()).concat(": `").concat(
                    file,
                ).concat("` is not in the repo"),
            ),
        );
    }
    let reply = client.bytes(spec.repo(), spec.revision(), file);
    assert(served_by(client, spec@.repo, spec@.revision, file@, error::outcome(reply)));
    accept(tree, file, reply)
}

/// What a list of bodies holds.
pub open spec fn bodies(list: Seq<Vec<u8>>) -> Seq<Seq<u8>> {
    list.map_values(|b: Vec<u8>| b@)
}

fn read_all<C: HubClient>(
    client: &C,
    spec: &ModelSpec,
    tree: &Listing,
    files: &Vec<String>,
) -> (r: Result<Vec<Vec<u8>>, Error>)
    ensures
        read_all_from(
            client,
            spec@,
            tree@,
            text::texts(files@),
            match r {
                Ok(list) => Ok(bodies(list@)),
                Err(e) => Err(e@),
            },
        ),
        r matches Ok(list) ==> list@.len() == files@.len(),
{
    let ghost names = text::texts(files@);
    let ghost mut reads: Seq<Result<Seq<u8>, Seq<char>>> = Seq::empty();
    let mut out: Vec<Vec<u8>> = Vec::new();
    let mut i: usize = 0;
    while i < files.len()
        invariant
            names == text::texts(files@),
            0 <= i <= files@.len(),
            out@.len() == i,
            reads.len() == i,
            forall|k: int|
                0 <= k < i ==> {
                    &&& read_from(client, spec@, tree@, names[k], #[trigger] reads[k])
                    &&& reads[k] == Ok::<Seq<u8>, Seq<char>>(out@[k]@)
                },
        decreases files@.len() - i,
    {
        let ghost before = reads;
        let body = read(client, spec, tree, files[i].as_str());
        proof {
            reads = reads.push(error::outcome(body));
            assert(names[i as int] == files@[i as int]@);
        }
        match body {
            Ok(bytes) => {
                out.push(bytes);
            },
            Err(e) => {
                assert(read_in_turn(client, spec@, tree@, names, reads));
                return Err(e);
            },
        }
        i += 1;
    }
    proof {
        assert(read_in_turn(client, spec@, tree@, names, reads));
        assert(reads.map_values(|r: Result<Seq<u8>, Seq<char>>| r->Ok_0) =~= bodies(out@));
    }
    Ok(out)
}

// ---- pooling metadata ----------------------------------------------------------------------

/// The pooling flags in an accepted reply.
pub open spec fn pooling_in(body: Result<Seq<u8>, Seq<char>>) -> Result<
    Option<PoolingMeta>,
    Seq<char>,
> {
    match body {
        Err(m) => Err(m),
        Ok(bytes) => match pooling_meta(bytes) {
            Ok(meta) => Ok(Some(meta)),
            Err(m) => Err(m),
        },
    }
}

/// `r` is a reading of the pooling flags that `repo`, listed as `tree`, has.
pub open spec fn pooling_from<C: HubClient>(
    client: &C,
    repo: Seq<char>,
    revision: Seq<char>,
    tree: Map<Seq<char>, Option<String>>,
    r: Result<Option<PoolingMeta>, Seq<char>>,
) -> bool {
    exists|reply: Result<Seq<u8>, Seq<char>>| #[trigger]
        served_by(client, repo, revision, POOLING_FILE@, reply) && r == pooling_in(
            accepted(tree, POOLING_FILE@, reply),
        )
}

/// `r` is a reading of the pooling flags of a repository that is not listed yet; none where it
/// has none.
pub open spec fn pooling_elsewhere<C: HubClient>(
    client: &C,
    repo: Seq<char>,
    revision: Seq<char>,
    r: Result<Option<PoolingMeta>, Seq<char>>,
) -> bool {
    exists|listing: Result<Map<Seq<char>, Option<String>>, Seq<char>>| #[trigger]
        listed_by(client, repo, revision, listing) && match listing {
            Err(m) => r == Err::<Option<PoolingMeta>, Seq<char>>(m),
            Ok(tree) => if tree.dom().contains(POOLING_FILE@) {
                pooling_from(client, repo, revision, tree, r)
            } else {
                r == Ok::<Option<PoolingMeta>, Seq<char>>(None)
            },
        }
}

/// `r` is a reading of the pooling flags for `spec`: from the artifact's repository, else from
/// the declared metadata repository, else none.
pub open spec fn pooling_for<C: HubClient>(
    client: &C,
    spec: Spec,
    tree: Map<Seq<char>, Option<String>>,
    r: Result<Option<PoolingMeta>, Seq<char>>,
) -> bool {
    if tree.dom().contains(POOLING_FILE@) {
        pooling_from(client, spec.repo, spec.revision, tree, r)
    } else {
        match spec.pooling_metadata_from {
            None => r == Ok::<Option<PoolingMeta>, Seq<char>>(None),
            Some(source) => pooling_elsewhere(client, source.0, source.1, r),
        }
    }
}

fn read_pooling<C: HubClient>(client: &C, repo: &str, revision: &str, tree: &Listing) -> (r: Result<
    Option<PoolingMeta>,
    Error,
>)
    ensures
        pooling_from(client, repo@, revision@, tree@, error::verdict(r)),
{
    let reply = client.bytes(repo, revision, POOLING_FILE);
    assert(served_by(client, repo@, revision@, POOLING_FILE@, error::outcome(reply)));
    let bytes = match accept(tree, POOLING_FILE, reply) {
        Ok(bytes) => bytes,
        Err(e) => return Err(e),
    };
    match parse_pooling_meta(bytes.as_slice()) {
        Ok(meta) => Ok(Some(meta)),
        Err(e) => Err(e),
    }
}

/// `1_Pooling/config.json` from the artifact repository, else from a declared metadata
/// repository, else `None`.
pub fn read_pooling_meta<C: HubClient>(client: &C, spec: &ModelSpec, tree: &Listing) -> (r: Result<
    Option<PoolingMeta>,
    Error,
>)
    ensures
        pooling_for(client, spec@, tree@, error::verdict(r)),
{
    if tree.contains_key(POOLING_FILE) {
        return read_pooling(client, spec.repo(), spec.revision(), tree);
    }
    match spec.pooling_metadata_from() {
        Some(source) => read_pooling_elsewhere(
            client,
            source.repo.as_str(),
            source.revision.as_str(),
        ),
        None => Ok(None),
    }
}

fn read_pooling_elsewhere<C: HubClient>(client: &C, repo: &str, revision: &str) -> (r: Result<
    Option<PoolingMeta>,
    Error,
>)
    ensures
        pooling_elsewhere(client, repo@, revision@, error::verdict(r)),
{
    let listing = client.tree(repo, revision);
    assert(listed_by(client, repo@, revision@, error::outcome(listing)));
    let tree = match listing {
        Ok(tree) => tree,
        Err(e) => return Err(e),
    };
    if !tree.contains_key(POOLING_FILE) {
        return Ok(None);
    }
    read_pooling(client, repo, revision, &tree)
}

// ---- the artifact --------------------------------------------------------------------------

/// The four files that make up a tokenizer.
#[derive(Debug)]
pub struct TokenizerFiles {
    pub tokenizer_file: Vec<u8>,
    pub config_file: Vec<u8>,
    pub special_tokens_map_file: Vec<u8>,
    pub tokenizer_config_file: Vec<u8>,
}

/// Everything that loading a model and the load-time guards need.
#[derive(Debug)]
pub struct Artifact {
    pub onnx: Vec<u8>,
    /// Name and bytes of each external initializer.
    pub external: Vec<(String, Vec<u8>)>,
    pub tokenizer_files: TokenizerFiles,
    pub pooling_meta: Option<PoolingMeta>,
    pub matryoshka_dims: Option<Vec<usize>>,
    /// Tokenizer window, from `tokenizer_config.json`'s `model_max_length`.
    pub max_length: usize,
}

/// What an [`Artifact`] holds.
#[verifier::ext_equal]
pub struct Parts {
    pub onnx: Seq<u8>,
    pub external: Seq<(Seq<char>, Seq<u8>)>,
    pub tokenizer_file: Seq<u8>,
    pub config_file: Seq<u8>,
    pub special_tokens_map_file: Seq<u8>,
    pub tokenizer_config_file: Seq<u8>,
    pub pooling_meta: Option<PoolingMeta>,
    pub matryoshka_dims: Option<Seq<usize>>,
    pub max_length: usize,
}

impl View for Artifact {
    type V = Parts;

    open spec fn view(&self) -> Parts {
        Parts {
            onnx: self.onnx@,
            external: self.external@.map_values(|e: (String, Vec<u8>)| (e.0@, e.1@)),
            tokenizer_file: self.tokenizer_files.tokenizer_file@,
            config_file: self.tokenizer_files.config_file@,
            special_tokens_map_file: self.tokenizer_files.special_tokens_map_file@,
            tokenizer_config_file: self.tokenizer_files.tokenizer_config_file@,
            pooling_meta: self.pooling_meta,
            matryoshka_dims: match self.matryoshka_dims {
                Some(dims) => Some(dims@),
                None => None,
            },
            max_length: self.max_length,
        }
    }
}

/// The files that `spec` needs, in the order in which they are read: the artifact, its external
/// initializers, and the tokenizer's four.
pub open spec fn required(spec: Spec) -> Seq<Seq<char>> {
    seq![spec.file] + spec.additional + seq![
        "tokenizer.json"@,
        "config.json"@,
        "special_tokens_map.json"@,
        "tokenizer_config.json"@,
    ]
}

/// The artifact in the files that `spec` needs, once `pooling` has been read.
pub open spec fn assembled(
    spec: Spec,
    files: Seq<Seq<u8>>,
    pooling: Result<Option<PoolingMeta>, Seq<char>>,
) -> Result<Parts, Seq<char>> {
    let n = spec.additional.len() as int;
    match max_length(files[n + 4]) {
        Err(m) => Err(m),
        Ok(max_length) => match matryoshka(files[n + 2]) {
            Err(m) => Err(m),
            Ok(matryoshka_dims) => match pooling {
                Err(m) => Err(m),
                Ok(pooling_meta) => Ok(
                    Parts {
                        onnx: files[0],
                        external: Seq::new(
                            n as nat,
                            |i: int| (spec.additional[i], files[i + 1]),
                        ),
                        tokenizer_file: files[n + 1],
                        config_file: files[n + 2],
                        special_tokens_map_file: files[n + 3],
                        tokenizer_config_file: files[n + 4],
                        pooling_meta,
                        matryoshka_dims,
                        max_length,
                    },
                ),
            },
        },
    }
}

/// `r` is a fetch of what `spec` needs from `client`.
///
/// The listing must be there and not empty; every required file must be listed, served and, where
/// a sha256 is reported, hash to it; the metadata must parse. The first failure is the result.
pub open spec fn fetched<C: HubClient>(
    client: &C,
    spec: Spec,
    r: Result<Parts, Seq<char>>,
) -> bool {
    exists|listing: Result<Map<Seq<char>, Option<String>>, Seq<char>>| #[trigger]
        listed_by(client, spec.repo, spec.revision, listing) && match listing {
            Err(m) => r == Err::<Parts, Seq<char>>(m),
            Ok(tree) => if tree == Map::<Seq<char>, Option<String>>::empty() {
                r == Err::<Parts, Seq<char>>(
                    spec.repo + "@"@ + spec.revision + ": empty file listing"@,
                )
            } else {
                fetched_listed(client, spec, tree, r)
            },
        }
}

/// [`fetched`], for the listing `tree`.
pub open spec fn fetched_listed<C: HubClient>(
    client: &C,
    spec: Spec,
    tree: Map<Seq<char>, Option<String>>,
    r: Result<Parts, Seq<char>>,
) -> bool {
    exists|files: Result<Seq<Seq<u8>>, Seq<char>>| #[trigger]
        read_all_from(client, spec, tree, required(spec), files) && match files {
            Err(m) => r == Err::<Parts, Seq<char>>(m),
            Ok(files) => if max_length(files[spec.additional.len() as int + 4]) is Err || matryoshka(
                files[spec.additional.len() as int + 2],
            ) is Err {
                r == assembled(spec, files, Ok(None))
            } else {
                exists|pooling: Result<Option<PoolingMeta>, Seq<char>>| #[trigger]
                    pooling_for(client, spec, tree, pooling) && r == assembled(spec, files, pooling)
            },
        }
}

fn required_files(spec: &ModelSpec) -> (r: Vec<String>)
    ensures
        text::texts(r@) == required(spec@),
{
    let mut out: Vec<String> = Vec::new();
    out.push(spec.file().to_owned());
    let additional = spec.additional();
    let mut i: usize = 0;
    assert(text::texts(out@) =~= seq![spec@.file] + spec@.additional.take(0));
    while i < additional.len()
        invariant
            text::texts(additional@) == spec@.additional,
            0 <= i <= additional@.len(),
            text::texts(out@) == seq![spec@.file] + spec@.additional.take(i as int),
        decreases additional@.len() - i,
    {
        let ghost before = out@;
        out.push(additional[i].clone());
        proof {
            assert(spec@.additional[i as int] == additional@[i as int]@);
            assert(text::texts(out@) =~= text::texts(before).push(additional@[i as int]@));
            assert(spec@.additional.take(i + 1) =~= spec@.additional.take(i as int).push(
                spec@.additional[i as int],
            ));
            assert(text::texts(out@) =~= seq![spec@.file] + spec@.additional.take(i + 1));
        }
        i += 1;
    }
    assert(spec@.additional.take(i as int) =~= spec@.additional);
    let ghost before = out@;
    out.push("tokenizer.json".to_owned());
    out.push("config.json".to_owned());
    out.push("special_tokens_map.json".to_owned());
    out.push("tokenizer_config.json".to_owned());
    assert(text::texts(out@) =~= text::texts(before) + seq![
        "tokenizer.json"@,
        "config.json"@,
        "special_tokens_map.json"@,
        "tokenizer_config.json"@,
    ]);
    assert(text::texts(out@) =~= required(spec@));
    out
}

/// Fetch and verify everything the load path needs for `spec`.
///
/// A missing required file, a sha256 mismatch against the hub's own listing and unparseable
/// metadata are errors. Never falls back to another model: rows are keyed by the identity of
/// what was actually loaded.
pub fn fetch<C: HubClient>(client: &C, spec: &ModelSpec) -> (r: Result<Artifact, Error>)
    ensures
        fetched(client, spec@, error::outcome(r)),
{
    let listing = client.tree(spec.repo(), spec.revision());
    assert(listed_by(client, spec@.repo, spec@.revision, error::outcome(listing)));
    let tree = match listing {
        Ok(tree) => tree,
        Err(e) => return Err(e),
    };
    if tree.is_empty() {
        return Err(
            Error::new(
                spec.repo().to_owned().concat("@").concat(spec.revision()).concat(
                    ": empty file listing",
                ),
            ),
        );
    }
    let names = required_files(spec);
    let mut files = match read_all(client, spec, &tree, &names) {
        Ok(files) => files,
        Err(e) => {
            assert(fetched_listed(client, spec@, tree@, Err(e@)));
            return Err(e);
        },
    };
    let ghost all = bodies(files@);
    let ghost n = spec@.additional.len() as int;
    proof {
        assert(text::texts(names@).len() == n + 5);
        assert(read_all_from(client, spec@, tree@, required(spec@), Ok(all)));
    }
    let tokenizer_config_file = take_last(&mut files);
    let special_tokens_map_file = take_last(&mut files);
    let config_file = take_last(&mut files);
    let tokenizer_file = take_last(&mut files);
    let max_length = match parse_max_length(tokenizer_config_file.as_slice()) {
        Ok(max_length) => max_length,
        Err(e) => {
            assert(fetched_listed(client, spec@, tree@, Err(e@)));
            return Err(e);
        },
    };
    let matryoshka_dims = match parse_matryoshka(config_file.as_slice()) {
        Ok(matryoshka_dims) => matryoshka_dims,
        Err(e) => {
            assert(fetched_listed(client, spec@, tree@, Err(e@)));
            return Err(e);
        },
    };
    let pooling_meta = match read_pooling_meta(client, spec, &tree) {
        Ok(pooling_meta) => pooling_meta,
        Err(e) => {
            assert(fetched_listed(client, spec@, tree@, Err(e@)));
            return Err(e);
        },
    };
    let external = pair_external(spec, &mut files);
    let onnx = take_last(&mut files);
    let artifact = Artifact {
        onnx,
        external,
        tokenizer_files: TokenizerFiles {
            tokenizer_file,
            config_file,
            special_tokens_map_file,
            tokenizer_config_file,
        },
        pooling_meta,
        matryoshka_dims,
        max_length,
    };
    proof {
        assert(artifact@.external =~= Seq::new(
            n as nat,
            |i: int| (spec@.additional[i], all[i + 1]),
        ));
        assert(pooling_for(client, spec@, tree@, Ok(pooling_meta)));
        assert(Ok::<Parts, Seq<char>>(artifact@) == assembled(spec@, all, Ok(pooling_meta)));
        assert(fetched_listed(client, spec@, tree@, Ok(artifact@)));
    }
    Ok(artifact)
}

fn take_last(files: &mut Vec<Vec<u8>>) -> (r: Vec<u8>)
    requires
        old(files)@.len() > 0,
    ensures
        final(files)@.len() == old(files)@.len() - 1,
        r@ == bodies(old(files)@).last(),
        bodies(final(files)@) == bodies(old(files)@).drop_last(),
{
    let ghost before = bodies(files@);
    let last: usize = files.len() - 1;
    let r = files.remove(last);
    assert(bodies(files@) =~= before.drop_last());
    r
}

fn pair_external(spec: &ModelSpec, files: &mut Vec<Vec<u8>>) -> (r: Vec<(String, Vec<u8>)>)
    requires
        old(files)@.len() == spec@.additional.len() + 1,
    ensures
        r@.len() == spec@.additional.len(),
        forall|i: int|
            0 <= i < r@.len() ==> {
                &&& (#[trigger] r@[i]).0@ == spec@.additional[i]
                &&& r@[i].1@ == bodies(old(files)@)[i + 1]
            },
        bodies(final(files)@) == bodies(old(files)@).take(1),
        final(files)@.len() == 1,
{
    let ghost all = bodies(files@);
    let additional = spec.additional();
    let mut out: Vec<(String, Vec<u8>)> = Vec::new();
    let mut i: usize = 0;
    assert(all =~= all.take(1) + all.skip(1));
    while i < additional.len()
        invariant
            text::texts(additional@) == spec@.additional,
            0 <= i <= additional@.len(),
            all.len() == additional@.len() + 1,
            files@.len() == all.len() - i,
            bodies(files@) == all.take(1) + all.skip(i + 1),
            out@.len() == i,
            forall|k: int|
                0 <= k < i ==> {
                    &&& (#[trigger] out@[k]).0@ == spec@.additional[k]
                    &&& out@[k].1@ == all[k + 1]
                },
        decreases additional@.len() - i,
    {
        let ghost before = files@;
        let bytes = files.remove(1);
        proof {
            assert(bodies(before)[1] == all.skip(i + 1)[0]);
            assert(bytes@ == bodies(before)[1]);
            assert(spec@.additional[i as int] == additional@[i as int]@);
            assert(bodies(files@) =~= bodies(before).remove(1));
            assert(bodies(files@) =~= all.take(1) + all.skip(i + 2));
        }
        out.push((additional[i].clone(), bytes));
        i += 1;
    }
    assert(bodies(files@) =~= all.take(1));
    out
}

} // verus!
