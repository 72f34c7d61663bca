//! The parts of a tokenizer, as JSON: with which of them every text can be encoded.
//!
//! Most parts work on any text. A few do not when they are set up in a certain way, and a tokenizer
//! with one of those is found out here, by its settings, before it is used.

use crate::json::{self, Json};
use crate::text;
use crate::text_map;
use crate::tokens::{charsmap, pattern};
use vstd::prelude::*;

verus! {

broadcast use vstd::seq::group_seq_axioms;

/// How deep chains may be nested.
pub const MAX_NESTING: usize = 128;

/// Most tokens that a text may be padded to, or to a multiple of.
pub const MAX_PADDING: u64 = 0x100_0000;

/// Most characters of a text in which a pattern is searched for that goes back in proportion to it.
pub const MAX_TEXT: usize = 1_000_000;

/// How often a search may have to go back from one place for each character of a text.
pub const MAX_LOAD: u32 = 9;

/// How many times longer a text may become before it is beyond measure.
pub const MAX_GROWTH: u32 = 100;

/// What kind of step `j` is.
pub open spec fn kind(j: Json) -> Option<Seq<char>> {
    match json::member(j, "type"@) {
        Some(Json::Text(t)) => Some(t),
        _ => None,
    }
}

/// The steps of a chain, with the steps of the chains in it, in order; `None` where chains are
/// nested too deep. A chain lists its steps under `key`.
pub open spec fn steps(j: Json, key: Seq<char>, fuel: nat) -> Option<Seq<Json>>
    decreases fuel, 0nat, 1nat,
{
    if j is Null {
        Some(Seq::empty())
    } else if kind(j) == Some("Sequence"@) {
        match json::member(j, key) {
            Some(Json::Array(list)) => if fuel == 0 {
                None
            } else {
                steps_of(list, key, (fuel - 1) as nat)
            },
            _ => None,
        }
    } else {
        Some(seq![j])
    }
}

/// The steps of the chains of `list`, one after the other.
pub open spec fn steps_of(list: Seq<Json>, key: Seq<char>, fuel: nat) -> Option<Seq<Json>>
    decreases fuel, 1nat, list.len(),
{
    if list.len() == 0 {
        Some(Seq::empty())
    } else {
        match (steps_of(list.drop_last(), key, fuel), steps(list.last(), key, fuel)) {
            (Some(a), Some(b)) => Some(a + b),
            _ => None,
        }
    }
}

// ---- the rules -----------------------------------------------------------------------------

/// How many times longer a text may become by two steps that make it `a` and `b` times longer.
pub open spec fn compounded(a: nat, b: nat) -> nat {
    if a * b > MAX_GROWTH {
        MAX_GROWTH as nat
    } else {
        a * b
    }
}

/// How many times longer a normalizer may make a text, in characters.
pub open spec fn lengthening(j: Json) -> nat {
    if kind(j) == Some("NFC"@) || kind(j) == Some("Lowercase"@) {
        3
    } else if kind(j) == Some("NFD"@) || kind(j) == Some("ByteLevel"@) {
        4
    } else if kind(j) == Some("NFKC"@) || kind(j) == Some("NFKD"@) {
        18
    } else if kind(j) == Some("Strip"@) || kind(j) == Some("StripAccents"@) || kind(j) == Some(
        "Nmt"@,
    ) {
        1
    } else if kind(j) == Some("Prepend"@) {
        match json::member(j, "prepend"@) {
            Some(Json::Text(t)) => if t.len() <= MAX_TEXT {
                2
            } else {
                MAX_GROWTH as nat
            },
            _ => MAX_GROWTH as nat,
        }
    } else if kind(j) == Some("Replace"@) {
        match json::member(j, "content"@) {
            Some(Json::Text(t)) => if t.len() <= 1 {
                1
            } else if t.len() <= MAX_GROWTH {
                t.len()
            } else {
                MAX_GROWTH as nat
            },
            _ => MAX_GROWTH as nat,
        }
    } else {
        MAX_GROWTH as nat
    }
}

/// How many times longer the first `n` normalizers may make a text.
pub open spec fn growth(list: Seq<Json>, n: int) -> nat
    decreases n,
{
    if n <= 0 {
        1
    } else {
        compounded(growth(list, n - 1), lengthening(list[n - 1]))
    }
}

/// How many times longer a pre-tokenizer may make a text. Most only cut it.
pub open spec fn widening(j: Json) -> nat {
    if kind(j) == Some("ByteLevel"@) {
        5
    } else if kind(j) == Some("Metaspace"@) {
        2
    } else {
        1
    }
}

/// How many times longer the first `n` pre-tokenizers may make a text that is already `start` times
/// longer.
pub open spec fn spread(list: Seq<Json>, start: nat, n: int) -> nat
    decreases n,
{
    if n <= 0 {
        start
    } else {
        compounded(spread(list, start, n - 1), widening(list[n - 1]))
    }
}

/// The pattern given as `{"Regex": ..}`, where it is not given as `{"String": ..}`.
pub open spec fn regex_of(j: Json) -> Option<Seq<char>> {
    match json::member(j, "String"@) {
        Some(Json::Text(_)) => None,
        _ => match json::member(j, "Regex"@) {
            Some(Json::Text(t)) => Some(t),
            _ => None,
        },
    }
}

/// Whether the pattern of a step given as `{"String": ..}` or `{"Regex": ..}` can be searched for in
/// a text that has become `g` times longer, and is never found to be empty where `taking`.
pub open spec fn searchable(j: Json, taking: bool, g: nat) -> bool {
    match json::member(j, "pattern"@) {
        Some(p) => match regex_of(p) {
            Some(t) => {
                &&& pattern::settles(t)
                &&& taking ==> pattern::takes(t)
                &&& pattern::load(t) * g <= MAX_LOAD
            },
            None => json::member(p, "String"@) matches Some(Json::Text(t)) && (!taking || t.len()
                > 0),
        },
        None => false,
    }
}

/// Whether a normalizer works on any text that has become `g` times longer before. One that puts
/// something in front of nothing, as an empty prefix or an empty match does, loses track of where
/// its text came from, and one that searches a table must not be led out of it.
pub open spec fn normalizes(j: Json, g: nat) -> bool {
    if kind(j) == Some("Prepend"@) {
        json::member(j, "prepend"@) matches Some(Json::Text(t)) && t.len() > 0
    } else if kind(j) == Some("Replace"@) {
        searchable(j, true, g)
    } else if kind(j) == Some("Precompiled"@) {
        json::member(j, "precompiled_charsmap"@) matches Some(Json::Text(t)) && charsmap::sound(t)
    } else {
        true
    }
}

/// Whether a pre-tokenizer works on any text that has become `g` times longer before. Pieces of no
/// length cannot be cut.
pub open spec fn splits(j: Json, g: nat) -> bool {
    if kind(j) == Some("FixedLength"@) {
        json::member(j, "length"@) matches Some(Json::Unsigned(n)) && n >= 1
    } else if kind(j) == Some("Split"@) {
        searchable(j, false, g)
    } else {
        true
    }
}

/// Whether a step searches for a pattern that goes back in proportion to the text.
pub open spec fn watched(j: Json) -> bool {
    (kind(j) == Some("Replace"@) || kind(j) == Some("Split"@)) && (match json::member(
        j,
        "pattern"@,
    ) {
        Some(p) => regex_of(p) matches Some(t) && pattern::load(t) > 0,
        None => false,
    })
}

/// Whether any of the steps does.
pub open spec fn any_watched(list: Seq<Json>) -> bool {
    exists|k: int| 0 <= k < list.len() && watched(#[trigger] list[k])
}

/// Whether a chain of steps, listed under `key`, has one that does.
pub open spec fn chain_watched(j: Json, key: Seq<char>) -> bool {
    steps(j, key, MAX_NESTING as nat) matches Some(list) && any_watched(list)
}

/// Whether a tokenizer searches for a pattern that goes back in proportion to the text, so that the
/// text must not be longer than [`MAX_TEXT`].
pub open spec fn limited(parts: Json) -> bool {
    match parts {
        Json::Array(p) => p.len() == 6 && (chain_watched(p[1], "normalizers"@) || chain_watched(
            p[2],
            "pretokenizers"@,
        )),
        _ => false,
    }
}

/// Whether `j` is a template.
pub open spec fn is_template(j: Json) -> bool {
    kind(j) == Some("TemplateProcessing"@)
}

/// Whether a piece of a template does not stand for a second text.
pub open spec fn names_first(piece: Json) -> bool {
    json::member(piece, "Sequence"@) matches Some(text) ==> json::member(text, "id"@) == Some(
        Json::Text("A"@),
    )
}

/// Whether a post-processor works on a single text: a template names no second one.
pub open spec fn processes(j: Json) -> bool {
    is_template(j) ==> match json::member(j, "single"@) {
        Some(Json::Array(pieces)) => all_first(pieces),
        _ => false,
    }
}

/// Whether no piece stands for a second text.
pub open spec fn all_first(pieces: Seq<Json>) -> bool {
    forall|k: int| 0 <= k < pieces.len() ==> names_first(#[trigger] pieces[k])
}

/// Whether all of the normalizers work on any text.
pub open spec fn all_normalize(list: Seq<Json>) -> bool {
    forall|k: int| 0 <= k < list.len() ==> normalizes(#[trigger] list[k], growth(list, k))
}

/// Whether all of the pre-tokenizers work on any text that has become `start` times longer.
pub open spec fn all_split(list: Seq<Json>, start: nat) -> bool {
    forall|k: int| 0 <= k < list.len() ==> splits(#[trigger] list[k], spread(list, start, k))
}

/// How many times longer a text may become by a chain of normalizers.
pub open spec fn total_growth(j: Json) -> nat {
    match steps(j, "normalizers"@, MAX_NESTING as nat) {
        Some(list) => growth(list, list.len() as int),
        None => 1,
    }
}

/// Whether the post-processors work on a single text, one after the other.
pub open spec fn all_process(list: Seq<Json>) -> bool {
    one_template(list) && forall|k: int|
        0 <= k < list.len() ==> processes(#[trigger] list[k])
}

/// Whether `list` has at most one template: what one makes of a text is not one text any more, as the
/// next would need it.
pub open spec fn one_template(list: Seq<Json>) -> bool {
    forall|i: int, k: int|
        0 <= i < k < list.len() ==> !(is_template(#[trigger] list[i]) && is_template(
            #[trigger] list[k],
        ))
}

/// Whether a member of an object is `true`.
pub open spec fn flag(j: Json, key: Seq<char>) -> bool {
    json::member(j, key) == Some(Json::Bool(true))
}

/// Whether the text under `content` may come to nothing but white space.
pub open spec fn may_be_blank(token: Json) -> bool {
    flag(token, "normalized"@) || !(json::member(token, "content"@) matches Some(Json::Text(t))
        && text::trim(t).len() > 0)
}

/// Whether added tokens can be found in any text. One that takes the white space behind it, and one
/// that takes the white space before it and is itself blank, would both take the same.
pub open spec fn found(tokens: Json) -> bool {
    match tokens {
        Json::Object(m) => !(some_strip_right(m) && some_blank_strip_left(m)),
        _ => false,
    }
}

/// Whether some token takes the white space behind it.
pub open spec fn some_strip_right(m: Map<Seq<char>, Json>) -> bool {
    exists|k: Seq<char>| #[trigger] m.dom().contains(k) && flag(m[k], "rstrip"@)
}

/// Whether some token takes the white space before it and may be blank.
pub open spec fn some_blank_strip_left(m: Map<Seq<char>, Json>) -> bool {
    exists|k: Seq<char>| #[trigger]
        m.dom().contains(k) && flag(m[k], "lstrip"@) && may_be_blank(m[k])
}

/// Whether `j` is absent, or a number up to [`MAX_PADDING`].
pub open spec fn reasonable(j: Option<Json>) -> bool {
    match j {
        None => true,
        Some(Json::Null) => true,
        Some(Json::Unsigned(n)) => n <= MAX_PADDING,
        _ => false,
    }
}

/// Whether a text is padded, if at all, to a length that a machine can count on having.
pub open spec fn pads(j: Json) -> bool {
    j is Null || (reasonable(json::member(j, "pad_to_multiple_of"@)) && (match json::member(
        j,
        "strategy"@,
    ) {
        Some(Json::Text(_)) => true,
        Some(s) => json::member(s, "Fixed"@) is Some && reasonable(json::member(s, "Fixed"@)),
        None => false,
    }))
}

/// Whether a model picks the most probable tokens, and does not draw them at random by weights that
/// may add up to nothing.
pub open spec fn draws_nothing(j: Json) -> bool {
    j is Null || j == Json::Unsigned(0)
}

/// Which part of a tokenizer, if any, may not work on every text. The parts are its added tokens,
/// its normalizer, pre-tokenizer, post-processor and padding, and by how much it draws at random.
pub open spec fn flaw(parts: Json) -> Option<Seq<char>> {
    match parts {
        Json::Array(p) => if p.len() != 6 {
            Some("parts"@)
        } else if !found(p[0]) {
            Some("added tokens"@)
        } else if !(steps(p[1], "normalizers"@, MAX_NESTING as nat) matches Some(list)
            && all_normalize(list)) {
            Some("normalizer"@)
        } else if !(steps(p[2], "pretokenizers"@, MAX_NESTING as nat) matches Some(list)
            && all_split(list, total_growth(p[1]))) {
            Some("pre-tokenizer"@)
        } else if !(steps(p[3], "processors"@, MAX_NESTING as nat) matches Some(list)
            && all_process(list)) {
            Some("post-processor"@)
        } else if !pads(p[4]) {
            Some("padding"@)
        } else if !draws_nothing(p[5]) {
            Some("model"@)
        } else {
            None
        },
        _ => Some("parts"@),
    }
}

// ---- reading -------------------------------------------------------------------------------

/// What references to values hold.
pub open spec fn views(list: Seq<&serde_json::Value>) -> Seq<Json> {
    list.map_values(|v: &serde_json::Value| json::json(*v))
}

fn text_under<'a>(v: &'a serde_json::Value, key: &str) -> (r: Option<&'a str>)
    ensures
        match r {
            Some(t) => json::member(json::json(*v), key@) == Some(Json::Text(t@)),
            None => !(json::member(json::json(*v), key@) matches Some(Json::Text(_))),
        },
{
    match json::get(v, key) {
        Some(found) => found.as_str(),
        None => None,
    }
}

fn array_under<'a>(v: &'a serde_json::Value, key: &str) -> (r: Option<&'a Vec<serde_json::Value>>)
    ensures
        match r {
            Some(list) => json::member(json::json(*v), key@) == Some(
                Json::Array(json::jsons(list@)),
            ),
            None => !(json::member(json::json(*v), key@) matches Some(Json::Array(_))),
        },
{
    match json::get(v, key) {
        Some(found) => found.as_array(),
        None => None,
    }
}

fn is_kind(v: &serde_json::Value, name: &str) -> (r: bool)
    ensures
        r == (kind(json::json(*v)) == Some(name@)),
{
    match text_under(v, "type") {
        Some(t) => text::same(t, name),
        None => false,
    }
}

fn has_flag(v: &serde_json::Value, key: &str) -> (r: bool)
    ensures
        r == flag(json::json(*v), key@),
{
    match json::get(v, key) {
        Some(found) => match found.as_bool() {
            Some(b) => b,
            None => false,
        },
        None => false,
    }
}

fn add_steps<'a>(
    v: &'a serde_json::Value,
    key: &str,
    fuel: usize,
    out: &mut Vec<&'a serde_json::Value>,
) -> (r: bool)
    ensures
        match steps(json::json(*v), key@, fuel as nat) {
            Some(list) => r && views(final(out)@) == views(old(out)@) + list,
            None => !r,
        },
    decreases fuel,
{
    if v.is_null() {
        assert(views(out@) =~= views(out@) + Seq::empty());
        return true;
    }
    if !is_kind(v, "Sequence") {
        let ghost before = out@;
        out.push(v);
        assert(views(out@) =~= views(before) + seq![json::json(*v)]);
        return true;
    }
    let list = match array_under(v, key) {
        Some(list) => list,
        None => return false,
    };
    if fuel == 0 {
        return false;
    }
    let ghost all = json::jsons(list@);
    let ghost start = views(out@);
    let mut i: usize = 0;
    assert(start =~= start + Seq::empty());
    assert(all.take(0) =~= Seq::empty());
    while i < list.len()
        invariant
            fuel > 0,
            all == json::jsons(list@),
            steps(json::json(*v), key@, fuel as nat) == steps_of(all, key@, (fuel - 1) as nat),
            0 <= i <= list@.len(),
            steps_of(all.take(i as int), key@, (fuel - 1) as nat) matches Some(done)
                && views(out@) == start + done,
        decreases list@.len() - i,
    {
        let ghost done = steps_of(all.take(i as int), key@, (fuel - 1) as nat)->0;
        assert(all.take(i + 1).drop_last() =~= all.take(i as int));
        assert(all.take(i + 1).last() == json::json(list@[i as int]));
        if !add_steps(&list[i], key, fuel - 1, out) {
            proof {
                lemma_fails(all, key@, (fuel - 1) as nat, i + 1);
            }
            return false;
        }
        proof {
            let more = steps(json::json(list@[i as int]), key@, (fuel - 1) as nat)->0;
            assert(views(out@) =~= start + (done + more));
        }
        i += 1;
    }
    assert(all.take(i as int) =~= all);
    true
}

/// A list of chains has no steps where its first ones have none.
proof fn lemma_fails(list: Seq<Json>, key: Seq<char>, fuel: nat, n: int)
    requires
        0 <= n <= list.len(),
        steps_of(list.take(n), key, fuel) is None,
    ensures
        steps_of(list, key, fuel) is None,
    decreases list.len(),
{
    if n == list.len() {
        assert(list.take(n) =~= list);
    } else {
        assert(list.drop_last().take(n) =~= list.take(n));
        lemma_fails(list.drop_last(), key, fuel, n);
    }
}

fn regex_text<'a>(v: &'a serde_json::Value) -> (r: Option<&'a str>)
    ensures
        match r {
            Some(t) => regex_of(json::json(*v)) == Some(t@),
            None => regex_of(json::json(*v)) is None,
        },
{
    match text_under(v, "String") {
        Some(_) => None,
        None => text_under(v, "Regex"),
    }
}

fn can_search(v: &serde_json::Value, taking: bool, g: u32) -> (r: bool)
    requires
        g <= MAX_GROWTH,
    ensures
        r == searchable(json::json(*v), taking, g as nat),
{
    let p = match json::get(v, "pattern") {
        Some(p) => p,
        None => return false,
    };
    match regex_text(p) {
        Some(t) => {
            let load: u32 = pattern::measure(t);
            assert(0 <= load * g <= 0xffff_ffff * 100) by (nonlinear_arith)
                requires
                    load <= 0xffff_ffff,
                    g <= 100,
            ;
            let total: u64 = load as u64 * g as u64;
            pattern::is_settling(t) && (!taking || pattern::is_taking(t)) && total
                <= MAX_LOAD as u64
        },
        None => match text_under(p, "String") {
            Some(t) => !taking || text::byte_count(t) > 0,
            None => false,
        },
    }
}

fn compound(a: u32, b: u32) -> (r: u32)
    requires
        a <= MAX_GROWTH,
        b <= MAX_GROWTH,
    ensures
        r == compounded(a as nat, b as nat),
        r <= MAX_GROWTH,
{
    assert(0 <= a * b <= 100 * 100) by (nonlinear_arith)
        requires
            a <= 100,
            b <= 100,
    ;
    if a * b > MAX_GROWTH {
        MAX_GROWTH
    } else {
        a * b
    }
}

fn measure_lengthening(v: &serde_json::Value) -> (r: u32)
    ensures
        r == lengthening(json::json(*v)),
        r <= MAX_GROWTH,
{
    if is_kind(v, "NFC") || is_kind(v, "Lowercase") {
        3
    } else if is_kind(v, "NFD") || is_kind(v, "ByteLevel") {
        4
    } else if is_kind(v, "NFKC") || is_kind(v, "NFKD") {
        18
    } else if is_kind(v, "Strip") || is_kind(v, "StripAccents") || is_kind(v, "Nmt") {
        1
    } else if is_kind(v, "Prepend") {
        match text_under(v, "prepend") {
            Some(t) => if t.unicode_len() <= MAX_TEXT {
                2
            } else {
                MAX_GROWTH
            },
            None => MAX_GROWTH,
        }
    } else if is_kind(v, "Replace") {
        match text_under(v, "content") {
            Some(t) => {
                let n: usize = t.unicode_len();
                if n <= 1 {
                    1
                } else if n <= MAX_GROWTH as usize {
                    n as u32
                } else {
                    MAX_GROWTH
                }
            },
            None => MAX_GROWTH,
        }
    } else {
        MAX_GROWTH
    }
}

fn measure_widening(v: &serde_json::Value) -> (r: u32)
    ensures
        r == widening(json::json(*v)),
        r <= MAX_GROWTH,
{
    if is_kind(v, "ByteLevel") {
        5
    } else if is_kind(v, "Metaspace") {
        2
    } else {
        1
    }
}

fn can_normalize(v: &serde_json::Value, g: u32) -> (r: bool)
    requires
        g <= MAX_GROWTH,
    ensures
        r == normalizes(json::json(*v), g as nat),
{
    if is_kind(v, "Prepend") {
        match text_under(v, "prepend") {
            Some(t) => text::byte_count(t) > 0,
            None => false,
        }
    } else if is_kind(v, "Replace") {
        can_search(v, true, g)
    } else if is_kind(v, "Precompiled") {
        match text_under(v, "precompiled_charsmap") {
            Some(t) => charsmap::is_sound(t),
            None => false,
        }
    } else {
        true
    }
}

fn can_split(v: &serde_json::Value, g: u32) -> (r: bool)
    requires
        g <= MAX_GROWTH,
    ensures
        r == splits(json::json(*v), g as nat),
{
    if is_kind(v, "FixedLength") {
        match json::get(v, "length") {
            Some(n) => match n.as_u64() {
                Some(n) => n >= 1,
                None => false,
            },
            None => false,
        }
    } else if is_kind(v, "Split") {
        can_search(v, false, g)
    } else {
        true
    }
}

fn is_watched(v: &serde_json::Value) -> (r: bool)
    ensures
        r == watched(json::json(*v)),
{
    if !is_kind(v, "Replace") && !is_kind(v, "Split") {
        return false;
    }
    match json::get(v, "pattern") {
        Some(p) => match regex_text(p) {
            Some(t) => pattern::measure(t) > 0,
            None => false,
        },
        None => false,
    }
}

fn all_name_first(pieces: &Vec<serde_json::Value>) -> (r: bool)
    ensures
        r == all_first(json::jsons(pieces@)),
{
    let ghost all = json::jsons(pieces@);
    let mut i: usize = 0;
    while i < pieces.len()
        invariant
            all == json::jsons(pieces@),
            0 <= i <= pieces@.len(),
            forall|k: int| 0 <= k < i ==> names_first(#[trigger] all[k]),
        decreases pieces@.len() - i,
    {
        assert(all[i as int] == json::json(pieces@[i as int]));
        if let Some(sequence) = json::get(&pieces[i], "Sequence") {
            let first = match text_under(sequence, "id") {
                Some(id) => text::same(id, "A"),
                None => false,
            };
            if !first {
                assert(!names_first(all[i as int]));
                return false;
            }
        }
        i += 1;
    }
    true
}

fn can_process(v: &serde_json::Value) -> (r: bool)
    ensures
        r == processes(json::json(*v)),
{
    if !is_kind(v, "TemplateProcessing") {
        return true;
    }
    match array_under(v, "single") {
        Some(pieces) => all_name_first(pieces),
        None => false,
    }
}

fn read_steps<'a>(v: &'a serde_json::Value, key: &str) -> (r: Option<Vec<&'a serde_json::Value>>)
    ensures
        match r {
            Some(list) => steps(json::json(*v), key@, MAX_NESTING as nat) == Some(views(list@)),
            None => steps(json::json(*v), key@, MAX_NESTING as nat) is None,
        },
{
    let mut list: Vec<&serde_json::Value> = Vec::new();
    assert(views(list@) =~= Seq::empty());
    if add_steps(v, key, MAX_NESTING, &mut list) {
        assert(views(list@) =~= steps(json::json(*v), key@, MAX_NESTING as nat)->0);
        Some(list)
    } else {
        None
    }
}

fn can_all_normalize(list: &Vec<&serde_json::Value>) -> (r: Option<u32>)
    ensures
        match r {
            Some(g) => all_normalize(views(list@)) && g == growth(
                views(list@),
                list@.len() as int,
            ) && g <= MAX_GROWTH,
            None => !all_normalize(views(list@)),
        },
{
    let mut g: u32 = 1;
    let mut i: usize = 0;
    while i < list.len()
        invariant
            0 <= i <= list@.len(),
            g == growth(views(list@), i as int),
            g <= MAX_GROWTH,
            forall|k: int|
                0 <= k < i ==> normalizes(#[trigger] views(list@)[k], growth(views(list@), k)),
        decreases list@.len() - i,
    {
        assert(views(list@)[i as int] == json::json(*list@[i as int]));
        if !can_normalize(list[i], g) {
            return None;
        }
        g = compound(g, measure_lengthening(list[i]));
        i += 1;
    }
    Some(g)
}

fn can_all_split(list: &Vec<&serde_json::Value>, start: u32) -> (r: bool)
    requires
        start <= MAX_GROWTH,
    ensures
        r == all_split(views(list@), start as nat),
{
    let mut g: u32 = start;
    let mut i: usize = 0;
    while i < list.len()
        invariant
            0 <= i <= list@.len(),
            g == spread(views(list@), start as nat, i as int),
            g <= MAX_GROWTH,
            forall|k: int|
                0 <= k < i ==> splits(
                    #[trigger] views(list@)[k],
                    spread(views(list@), start as nat, k),
                ),
        decreases list@.len() - i,
    {
        assert(views(list@)[i as int] == json::json(*list@[i as int]));
        if !can_split(list[i], g) {
            return false;
        }
        g = compound(g, measure_widening(list[i]));
        i += 1;
    }
    true
}

fn is_any_watched(list: &Vec<&serde_json::Value>) -> (r: bool)
    ensures
        r == any_watched(views(list@)),
{
    let mut i: usize = 0;
    while i < list.len()
        invariant
            0 <= i <= list@.len(),
            forall|k: int| 0 <= k < i ==> !watched(#[trigger] views(list@)[k]),
        decreases list@.len() - i,
    {
        assert(views(list@)[i as int] == json::json(*list@[i as int]));
        if is_watched(list[i]) {
            return true;
        }
        i += 1;
    }
    false
}

fn is_chain_watched(v: &serde_json::Value, key: &str) -> (r: bool)
    ensures
        r == chain_watched(json::json(*v), key@),
{
    match read_steps(v, key) {
        Some(list) => is_any_watched(&list),
        None => false,
    }
}

/// Whether a tokenizer searches for a pattern that goes back in proportion to the text; by its
/// parts.
pub fn is_limited(parts: &serde_json::Value) -> (r: bool)
    ensures
        r == limited(json::json(*parts)),
{
    match parts.as_array() {
        Some(p) => p.len() == 6 && (is_chain_watched(&p[1], "normalizers") || is_chain_watched(
            &p[2],
            "pretokenizers",
        )),
        None => false,
    }
}

fn can_all_process(list: &Vec<&serde_json::Value>) -> (r: bool)
    ensures
        r == all_process(views(list@)),
{
    let ghost all = views(list@);
    let mut seen = false;
    let ghost mut at: int = 0;
    let mut i: usize = 0;
    while i < list.len()
        invariant
            all == views(list@),
            0 <= i <= list@.len(),
            forall|k: int| 0 <= k < i ==> processes(#[trigger] all[k]),
            seen ==> 0 <= at < i && is_template(all[at]),
            forall|k: int| 0 <= k < i && !(seen && k == at) ==> !is_template(#[trigger] all[k]),
        decreases list@.len() - i,
    {
        assert(all[i as int] == json::json(*list@[i as int]));
        if !can_process(list[i]) {
            return false;
        }
        if is_kind(list[i], "TemplateProcessing") {
            if seen {
                assert(is_template(all[at]) && is_template(all[i as int]));
                return false;
            }
            seen = true;
            proof {
                at = i as int;
            }
        }
        i += 1;
    }
    true
}

fn could_be_blank(token: &serde_json::Value) -> (r: bool)
    ensures
        r == may_be_blank(json::json(*token)),
{
    if has_flag(token, "normalized") {
        return true;
    }
    match text_under(token, "content") {
        Some(t) => {
            let trimmed = text::trimmed(t);
            text::byte_count(trimmed) == 0
        },
        None => true,
    }
}

fn tokens_are_found(v: &serde_json::Value) -> (r: bool)
    ensures
        r == found(json::json(*v)),
{
    let list = match json::object_members(v) {
        Some(list) => list,
        None => return false,
    };
    let ghost all = json::members(list@);
    let ghost m = text_map::to_map(all);
    proof {
        text_map::lemma_to_map(all);
    }
    let mut right = false;
    let mut left = false;
    let mut i: usize = 0;
    while i < list.len()
        invariant
            all == json::members(list@),
            0 <= i <= list@.len(),
            right == exists|k: int|
                0 <= k < i && flag((#[trigger] all[k]).1, "rstrip"@),
            left == exists|k: int|
                0 <= k < i && flag((#[trigger] all[k]).1, "lstrip"@) && may_be_blank(all[k].1),
        decreases list@.len() - i,
    {
        let (_, token) = list[i];
        assert(all[i as int].1 == json::json(*token));
        if has_flag(token, "rstrip") {
            right = true;
        }
        if has_flag(token, "lstrip") && could_be_blank(token) {
            left = true;
        }
        i += 1;
    }
    proof {
        assert(right == some_strip_right(m)) by {
            if right {
                let k = choose|k: int|
                    0 <= k < all.len() && flag((#[trigger] all[k]).1, "rstrip"@);
                assert(m.dom().contains(all[k].0));
            }
        }
        assert(left == some_blank_strip_left(m)) by {
            if left {
                let k = choose|k: int|
                    0 <= k < all.len() && flag((#[trigger] all[k]).1, "lstrip"@) && may_be_blank(
                        all[k].1,
                    );
                assert(m.dom().contains(all[k].0));
            }
        }
    }
    !(right && left)
}

fn is_reasonable(v: Option<&serde_json::Value>) -> (r: bool)
    ensures
        r == reasonable(
            match v {
                Some(v) => Some(json::json(*v)),
                None => None,
            },
        ),
{
    match v {
        None => true,
        Some(v) => v.is_null() || match v.as_u64() {
            Some(n) => n <= MAX_PADDING,
            None => false,
        },
    }
}

fn padding_works(v: &serde_json::Value) -> (r: bool)
    ensures
        r == pads(json::json(*v)),
{
    if v.is_null() {
        return true;
    }
    if !is_reasonable(json::get(v, "pad_to_multiple_of")) {
        return false;
    }
    match json::get(v, "strategy") {
        Some(s) => if s.as_str().is_some() {
            true
        } else {
            let fixed = json::get(s, "Fixed");
            fixed.is_some() && is_reasonable(fixed)
        },
        None => false,
    }
}

/// Which part of a tokenizer, if any, may not work on every text; by its parts.
pub fn find_flaw(parts: &serde_json::Value) -> (r: Option<&'static str>)
    ensures
        match r {
            Some(part) => flaw(json::json(*parts)) == Some(part@),
            None => flaw(json::json(*parts)) is None,
        },
{
    let p = match parts.as_array() {
        Some(p) => p,
        None => return Some("parts"),
    };
    if p.len() != 6 {
        return Some("parts");
    }
    if !tokens_are_found(&p[0]) {
        return Some("added tokens");
    }
    let g: u32 = match read_steps(&p[1], "normalizers") {
        Some(list) => match can_all_normalize(&list) {
            Some(g) => g,
            None => return Some("normalizer"),
        },
        None => return Some("normalizer"),
    };
    match read_steps(&p[2], "pretokenizers") {
        Some(list) => if !can_all_split(&list, g) {
            return Some("pre-tokenizer");
        },
        None => return Some("pre-tokenizer"),
    }
    match read_steps(&p[3], "processors") {
        Some(list) => if !can_all_process(&list) {
            return Some("post-processor");
        },
        None => return Some("post-processor"),
    }
    if !padding_works(&p[4]) {
        return Some("padding");
    }
    let steady = p[5].is_null() || match p[5].as_u64() {
        Some(n) => n == 0,
        None => false,
    };
    if steady {
        None
    } else {
        Some("model")
    }
}

} // verus!
