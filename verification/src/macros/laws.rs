//! What holds of every derived struct.

use crate::macros::attributes::{self, ChoiceOpt, ContainerKeys, Declared, Trouble};
use crate::macros::codegen;
use crate::macros::extractable;
use crate::macros::questions;
use crate::macros::systemone;
use crate::macros::{
    self, Args, Attribute, ContainerAttribute, DeriveInput, Diagnostic, Field, Literal, Meta,
    MetaValue, Place, Shape, Token,
};
use crate::text;
use vstd::prelude::*;

verus! {

broadcast use vstd::seq::group_seq_axioms;

/// Every field of a struct that is derived for has its map entry, in the order of the fields.
pub proof fn every_field_has_its_entry(fields: Seq<Field>, from: int)
    requires
        0 <= from <= fields.len(),
        systemone::entries_from(fields, from) is Ok,
    ensures
        ({
            let entries = systemone::entries_from(fields, from)->Ok_0;
            &&& entries.len() == fields.len() - from
            &&& forall|i: int|
                0 <= i < entries.len() ==> questions::entry_of(fields[from + i]) == Ok::<
                    Seq<char>,
                    macros::Fault,
                >(#[trigger] entries[i])
        }),
    decreases fields.len() - from,
{
    if from < fields.len() {
        every_field_has_its_entry(fields, from + 1);
        let rest = systemone::entries_from(fields, from + 1)->Ok_0;
        let entries = systemone::entries_from(fields, from)->Ok_0;
        assert forall|i: int| 0 <= i < entries.len() implies questions::entry_of(fields[from + i])
            == Ok::<Seq<char>, macros::Fault>(#[trigger] entries[i]) by {
            if i > 0 {
                assert(entries[i] == rest[i - 1]);
            }
        }
    }
}

/// A struct that is derived for is not generic, and has named fields, each of which declares one
/// question of the kind its type answers.
pub proof fn only_question_structs_are_derived(input: DeriveInput, i: int)
    requires
        systemone::expansion(input) is Ok,
        input.shape matches Shape::Named(fields) && 0 <= i < fields@.len(),
    ensures
        !input.generic,
        input.shape is Named,
        ({
            let field = (input.shape->Named_0)@[i];
            &&& field.name is Some
            &&& questions::question_of(field) is Ok
            &&& field.ty matches Some(ty) ==> ty@ == attributes::answer_type(
                questions::question_of(field)->Ok_0,
            )
            &&& questions::askable(questions::question_of(field)->Ok_0) is Ok
        }),
{
    let fields = (input.shape->Named_0)@;
    every_field_has_its_entry(fields, 0);
    let entries = systemone::entries_from(fields, 0)->Ok_0;
    assert(questions::entry_of(fields[0 + i]) == Ok::<Seq<char>, macros::Fault>(entries[i]));
}

/// A choice that is asked has at least two options, all called differently.
pub proof fn options_are_told_apart(instructions: macros::Literal, options: Seq<ChoiceOpt>)
    requires
        questions::askable(Declared::Choice(instructions, options)) is Ok,
    ensures
        options.len() >= 2,
        forall|i: int, j: int|
            0 <= i < j < options.len() ==> (#[trigger] options[i]).name@ != (
            #[trigger] options[j]).name@,
{
    assert forall|i: int, j: int| 0 <= i < j < options.len() implies (
    #[trigger] options[i]).name@ != (#[trigger] options[j]).name@ by {
        lemma_no_repeat(options, 0, j);
    }
}

proof fn lemma_no_repeat(options: Seq<ChoiceOpt>, from: int, k: int)
    requires
        0 <= from <= k < options.len(),
        questions::repeated_from(options, from) is None,
    ensures
        !questions::repeats(options, k),
    decreases k - from,
{
    if from < k {
        lemma_no_repeat(options, from + 1, k);
    }
}

// ---- container attributes ------------------------------------------------------------------

/// Whether an argument is `key = literal`.
pub open spec fn assigns(meta: Meta, key: Seq<char>, literal: Literal) -> bool {
    meta matches Meta::Pair { key: Some(k), value: MetaValue::Text(l) } && k@ == key && l == literal
}

/// Whether an argument is `template = ".."` or `healthcheck = ".."`.
pub open spec fn known(meta: Meta) -> bool {
    meta matches Meta::Pair { key: Some(k), value: MetaValue::Text(_) } && (k@ == "template"@ || k@
        == "healthcheck"@)
}

/// The key of an argument.
pub open spec fn key_of(meta: Meta) -> Seq<char> {
    match meta {
        Meta::Pair { key: Some(k), .. } => k@,
        _ => Seq::empty(),
    }
}

/// Whether `literal` is what `metas` assign to `key`.
pub open spec fn assigned(metas: Seq<Meta>, key: Seq<char>, literal: Literal) -> bool {
    exists|i: int| 0 <= i < metas.len() && assigns(#[trigger] metas[i], key, literal)
}

/// Whether `metas` assign nothing to `key`.
pub open spec fn unassigned(metas: Seq<Meta>, key: Seq<char>) -> bool {
    forall|i: int| 0 <= i < metas.len() ==> key_of(#[trigger] metas[i]) != key
}

/// Whether all of `metas` assign a text to `template` or `healthcheck`, and none to what another
/// does.
pub open spec fn well_keyed(metas: Seq<Meta>) -> bool {
    &&& forall|i: int| 0 <= i < metas.len() ==> known(#[trigger] metas[i])
    &&& forall|i: int, j: int|
        0 <= i < j < metas.len() ==> key_of(#[trigger] metas[i]) != key_of(#[trigger] metas[j])
}

proof fn lemma_two_keys()
    ensures
        "template"@ != "healthcheck"@,
        "template"@.len() > 0,
        "healthcheck"@.len() > 0,
        "extract"@ != "systemone"@,
{
    reveal_strlit("template");
    reveal_strlit("healthcheck");
    reveal_strlit("extract");
    reveal_strlit("systemone");
    assert("template"@.len() == 8);
    assert("healthcheck"@.len() == 11);
    assert("extract"@.len() == 7);
    assert("systemone"@.len() == 9);
}

/// What has been found so far among the first `i` arguments, for one key.
spec fn found_so_far(metas: Seq<Meta>, i: int, key: Seq<char>, found: Option<Literal>) -> bool {
    match found {
        Some(literal) => assigned(metas.take(i), key, literal),
        None => unassigned(metas.take(i), key),
    }
}

proof fn lemma_keys_from(
    metas: Seq<Meta>,
    i: int,
    template: Option<Literal>,
    healthcheck: Option<Literal>,
)
    requires
        0 <= i <= metas.len(),
        well_keyed(metas.take(i)),
        found_so_far(metas, i, "template"@, template),
        found_so_far(metas, i, "healthcheck"@, healthcheck),
    ensures
        match attributes::keys_from(metas, i, template, healthcheck) {
            Ok((t, h)) => {
                &&& well_keyed(metas)
                &&& found_so_far(metas, metas.len() as int, "template"@, t)
                &&& found_so_far(metas, metas.len() as int, "healthcheck"@, h)
            },
            Err(_) => !well_keyed(metas),
        },
    decreases metas.len() - i,
{
    lemma_two_keys();
    if i == metas.len() {
        assert(metas.take(i) =~= metas);
    } else {
        let seen = metas.take(i);
        let more = metas.take(i + 1);
        let meta = metas[i];
        assert(more =~= seen.push(meta));
        assert(forall|k: int| 0 <= k < i ==> #[trigger] seen[k] == metas[k]);
        if known(meta) {
            let key = key_of(meta);
            let literal = match meta {
                Meta::Pair { value: MetaValue::Text(l), .. } => l,
                _ => arbitrary(),
            };
            assert(assigns(meta, key, literal));
            assert(more[i] == meta);
            assert(assigned(more, key, literal));
            let t = if key == "template"@ {
                template
            } else {
                healthcheck
            };
            if t is Some {
                let k = choose|k: int| 0 <= k < seen.len() && assigns(#[trigger] seen[k], key, t->0);
                assert(key_of(metas[k]) == key && key_of(metas[i]) == key);
            } else {
                assert forall|a: int, b: int| 0 <= a < b < more.len() implies key_of(
                    #[trigger] more[a],
                ) != key_of(#[trigger] more[b]) by {
                    assert(more[a] == seen[a]);
                    if b < i {
                        assert(more[b] == seen[b]);
                    }
                }
                assert forall|a: int| 0 <= a < more.len() implies known(#[trigger] more[a]) by {
                    if a < i {
                        assert(more[a] == seen[a]);
                    }
                }
                let other = if key == "template"@ {
                    "healthcheck"@
                } else {
                    "template"@
                };
                let kept = if key == "template"@ {
                    healthcheck
                } else {
                    template
                };
                assert(found_so_far(metas, i + 1, other, kept)) by {
                    match kept {
                        Some(l) => {
                            let k = choose|k: int|
                                0 <= k < seen.len() && assigns(#[trigger] seen[k], other, l);
                            assert(assigns(more[k], other, l));
                        },
                        None => {
                            assert forall|a: int| 0 <= a < more.len() implies key_of(
                                #[trigger] more[a],
                            ) != other by {
                                if a < i {
                                    assert(more[a] == seen[a]);
                                }
                            }
                        },
                    }
                }
                if key == "template"@ {
                    lemma_keys_from(metas, i + 1, Some(literal), healthcheck);
                } else {
                    lemma_keys_from(metas, i + 1, template, Some(literal));
                }
            }
        } else {
            assert(!known(metas[i]));
        }
    }
}

/// A container attribute is read where each of its arguments gives a text to `template` or
/// `healthcheck`, none of them twice, and `template` has one; then its template is the text given to
/// `template`, and its healthcheck the one given to `healthcheck`, if any. Nothing else is read.
pub proof fn containers_are_read_by_their_keys(metas: Vec<Meta>)
    ensures
        match attributes::container_keys(Ok(metas)) {
            Ok(keys) => {
                &&& well_keyed(metas@)
                &&& assigned(metas@, "template"@, keys.template)
                &&& match keys.healthcheck {
                    Some(healthcheck) => assigned(metas@, "healthcheck"@, healthcheck),
                    None => unassigned(metas@, "healthcheck"@),
                }
            },
            Err(_) => !well_keyed(metas@) || unassigned(metas@, "template"@),
        },
{
    assert(metas@.take(0) =~= Seq::empty());
    lemma_keys_from(metas@, 0, None, None);
    assert(metas@.take(metas@.len() as int) =~= metas@);
}

proof fn lemma_assigned_once(metas: Seq<Meta>, key: Seq<char>, a: Literal, b: Literal)
    requires
        well_keyed(metas),
        assigned(metas, key, a),
        assigned(metas, key, b),
    ensures
        a == b,
{
    let i = choose|i: int| 0 <= i < metas.len() && assigns(#[trigger] metas[i], key, a);
    let j = choose|j: int| 0 <= j < metas.len() && assigns(#[trigger] metas[j], key, b);
    assert(key_of(metas[i]) == key_of(metas[j]));
    if i < j {
        assert(key_of(metas[i]) != key_of(metas[j]));
    } else if j < i {
        assert(key_of(metas[j]) != key_of(metas[i]));
    }
}

/// Whether attribute `i` is the first called `name`.
pub open spec fn first_called(
    attributes: Seq<ContainerAttribute>,
    name: Seq<char>,
    i: int,
) -> bool {
    &&& 0 <= i < attributes.len()
    &&& attributes[i].name matches Some(n) && n@ == name
    &&& forall|k: int|
        0 <= k < i ==> ((#[trigger] attributes[k]).name matches Some(n) ==> n@ != name)
}

proof fn lemma_attribute_from(attributes: Seq<ContainerAttribute>, name: Seq<char>, from: int, i: int)
    requires
        0 <= from <= i,
        first_called(attributes, name, i),
    ensures
        attributes::attribute_from(attributes, name, from) == Some(attributes[i]),
    decreases i - from,
{
    if from < i {
        assert(attributes[from].name matches Some(n) ==> n@ != name);
        lemma_attribute_from(attributes, name, from + 1, i);
    }
}

/// Whether the first attribute of `input` called `name` gives the text `template` as its template,
/// and `healthcheck` as its healthcheck, if any.
pub open spec fn annotated(
    input: DeriveInput,
    name: Seq<char>,
    template: Literal,
    healthcheck: Option<Literal>,
) -> bool {
    exists|i: int| #[trigger]
        first_called(input.attributes@, name, i) && (input.attributes@[i].metas matches Ok(metas)
            && well_keyed(metas@) && assigned(metas@, "template"@, template) && (
        match healthcheck {
            Some(h) => assigned(metas@, "healthcheck"@, h),
            None => unassigned(metas@, "healthcheck"@),
        }))
}

proof fn lemma_annotated(
    input: DeriveInput,
    name: Seq<char>,
    template: Literal,
    healthcheck: Option<Literal>,
)
    requires
        annotated(input, name, template, healthcheck),
    ensures
        ({
            let a = attributes::attribute_from(input.attributes@, name, 0);
            &&& a is Some
            &&& attributes::container_keys(a->0.metas) == Ok::<ContainerKeys, macros::Fault>(
                ContainerKeys { template, healthcheck },
            )
        }),
{
    let i = choose|i: int| #[trigger]
        first_called(input.attributes@, name, i) && (input.attributes@[i].metas matches Ok(metas)
            && well_keyed(metas@) && assigned(metas@, "template"@, template) && (
        match healthcheck {
            Some(h) => assigned(metas@, "healthcheck"@, h),
            None => unassigned(metas@, "healthcheck"@),
        }));
    lemma_attribute_from(input.attributes@, name, 0, i);
    let metas = input.attributes@[i].metas->Ok_0;
    containers_are_read_by_their_keys(metas);
    let t = choose|k: int| 0 <= k < metas@.len() && assigns(#[trigger] metas@[k], "template"@, template);
    assert(key_of(metas@[t]) == "template"@);
    let keys = attributes::container_keys(Ok(metas))->Ok_0;
    lemma_assigned_once(metas@, "template"@, template, keys.template);
    match (healthcheck, keys.healthcheck) {
        (Some(a), Some(b)) => {
            lemma_assigned_once(metas@, "healthcheck"@, a, b);
        },
        (Some(a), None) => {
            let k = choose|k: int|
                0 <= k < metas@.len() && assigns(#[trigger] metas@[k], "healthcheck"@, a);
            assert(key_of(metas@[k]) == "healthcheck"@);
        },
        (None, Some(b)) => {
            let k = choose|k: int|
                0 <= k < metas@.len() && assigns(#[trigger] metas@[k], "healthcheck"@, b);
            assert(key_of(metas@[k]) == "healthcheck"@);
        },
        (None, None) => {},
    }
}

// ---- what is generated ---------------------------------------------------------------------

/// The healthcheck of `path`: the path itself, a function that renders it, and one that verifies.
pub open spec fn checks_health(path: Seq<char>) -> Seq<char> {
    "const HEALTHCHECK_TEXT : & 'static str = "@ + path
        + " ; fn healthcheck_text () -> :: anyhow :: Result < :: std :: string :: String > { # [derive (:: patterns :: askama :: Template)] # [template (path = "@
        + path
        + " , ext = \"md\" , askama = :: patterns :: askama)] struct Healthcheck ; use :: patterns :: askama :: Template as _ ; Healthcheck . render () . map_err (:: core :: convert :: Into :: into) } fn verify (& self) -> :: anyhow :: Result < () > { Self :: verify (self) }"@
}

/// The end of a function's head and the start of its body, which renders a template: what stands
/// before the template's path.
pub open spec fn before_path() -> Seq<char> {
    ") -> :: anyhow :: Result < String > { # [derive (:: patterns :: askama :: Template)] # [template (path = "@
}

/// What stands behind the template's path, before the fields of the template's input.
pub open spec fn behind_path() -> Seq<char> {
    " , ext = \"md\" , askama = :: patterns :: askama)] struct Input < 'a > { "@
}

/// The function `render_prompt` of a schema, a text and a context, which renders the template `path`
/// with all three of them.
pub open spec fn renders_prompt(path: Seq<char>) -> Seq<char> {
    "fn "@ + "render_prompt"@ + " ("@ + "schema"@ + " : & str"@ + " , "@ + "text"@ + " : & str"@
        + " , "@ + "prompt_context"@ + " : & str"@ + before_path() + path + behind_path()
        + "schema"@ + " : & 'a str ,"@ + " "@ + "text"@ + " : & 'a str ,"@ + " "@
        + "prompt_context"@ + " : & 'a str ,"@
        + " } use :: patterns :: askama :: Template as _ ; Input { "@ + "schema"@ + " , "@ + "text"@
        + " , "@ + "prompt_context"@
        + " } . render () . map_err (:: core :: convert :: Into :: into) }"@
}

/// The function `render_state` of a text and a context, which renders the template `path` with both
/// of them.
pub open spec fn renders_state(path: Seq<char>) -> Seq<char> {
    "fn "@ + "render_state"@ + " ("@ + "text"@ + " : & str"@ + " , "@ + "prompt_context"@
        + " : & str"@ + before_path() + path + behind_path() + "text"@ + " : & 'a str ,"@ + " "@
        + "prompt_context"@ + " : & 'a str ,"@
        + " } use :: patterns :: askama :: Template as _ ; Input { "@ + "text"@ + " , "@
        + "prompt_context"@ + " } . render () . map_err (:: core :: convert :: Into :: into) }"@
}

proof fn lemma_joined_two(a: Seq<char>, b: Seq<char>, sep: Seq<char>)
    ensures
        text::joined(seq![a, b], sep) == a + sep + b,
{
    assert(seq![a, b].drop_last() =~= seq![a]);
    assert(text::joined(seq![a], sep) == a);
}

proof fn lemma_joined_three(a: Seq<char>, b: Seq<char>, c: Seq<char>, sep: Seq<char>)
    ensures
        text::joined(seq![a, b, c], sep) == a + sep + b + sep + c,
{
    lemma_joined_two(a, b, sep);
    assert(seq![a, b, c].drop_last() =~= seq![a, b]);
}

proof fn lemma_renders_prompt(path: Seq<char>)
    ensures
        codegen::render_source("render_prompt"@, path, extractable::prompt_params())
            == renders_prompt(path),
{
    let (a, b, c) = ("schema"@, "text"@, "prompt_context"@);
    let params = extractable::prompt_params();
    let s = " : & str"@;
    let f = " : & 'a str ,"@;
    assert(codegen::suffixed(params, s) =~= seq![a + s, b + s, c + s]);
    assert(codegen::suffixed(params, f) =~= seq![a + f, b + f, c + f]);
    lemma_joined_three(a + s, b + s, c + s, " , "@);
    lemma_joined_three(a + f, b + f, c + f, " "@);
    lemma_joined_three(a, b, c, " , "@);
    let head = "fn "@ + "render_prompt"@ + " ("@;
    let x = text::joined(codegen::suffixed(params, s), " , "@);
    assert(head + x =~= head + a + s + " , "@ + b + s + " , "@ + c + s);
    let next = head + x + before_path() + path + behind_path();
    let y = text::joined(codegen::suffixed(params, f), " "@);
    assert(next + y =~= next + a + f + " "@ + b + f + " "@ + c + f);
    let more = next + y + " } use :: patterns :: askama :: Template as _ ; Input { "@;
    let z = text::joined(params, " , "@);
    assert(more + z =~= more + a + " , "@ + b + " , "@ + c);
}

proof fn lemma_renders_state(path: Seq<char>)
    ensures
        codegen::render_source("render_state"@, path, systemone::state_params()) == renders_state(
            path,
        ),
{
    let (b, c) = ("text"@, "prompt_context"@);
    let params = systemone::state_params();
    let s = " : & str"@;
    let f = " : & 'a str ,"@;
    assert(codegen::suffixed(params, s) =~= seq![b + s, c + s]);
    assert(codegen::suffixed(params, f) =~= seq![b + f, c + f]);
    lemma_joined_two(b + s, c + s, " , "@);
    lemma_joined_two(b + f, c + f, " "@);
    lemma_joined_two(b, c, " , "@);
    let head = "fn "@ + "render_state"@ + " ("@;
    let x = text::joined(codegen::suffixed(params, s), " , "@);
    assert(head + x =~= head + b + s + " , "@ + c + s);
    let next = head + x + before_path() + path + behind_path();
    let y = text::joined(codegen::suffixed(params, f), " "@);
    assert(next + y =~= next + b + f + " "@ + c + f);
    let more = next + y + " } use :: patterns :: askama :: Template as _ ; Input { "@;
    let z = text::joined(params, " , "@);
    assert(more + z =~= more + b + " , "@ + c);
}

/// What is derived for a struct that is annotated with a template and a healthcheck: the
/// implementation of `Extractable` for the struct, with the healthcheck of the one, and with the
/// function that renders the prompt from the other.
pub proof fn prompts_are_rendered_from_the_template(
    input: DeriveInput,
    template: Literal,
    healthcheck: Literal,
)
    requires
        !input.generic,
        !(input.shape is Other),
        annotated(input, "extract"@, template, Some(healthcheck)),
    ensures
        extractable::expansion(input) == Ok::<Seq<char>, macros::Fault>(
            "impl :: patterns :: llm_cli :: Extractable for "@ + input.name@ + " { "@
                + checks_health(healthcheck.source@) + " "@ + renders_prompt(template.source@)
                + " }"@,
        ),
{
    lemma_annotated(input, "extract"@, template, Some(healthcheck));
    lemma_renders_prompt(template.source@);
}

/// Only a struct that is not generic and is annotated with a template and a healthcheck is derived
/// `Extractable` for.
pub proof fn only_annotated_structs_are_extracted(input: DeriveInput) -> (r: (Literal, Literal))
    requires
        extractable::expansion(input) is Ok,
    ensures
        !input.generic,
        !(input.shape is Other),
        annotated(input, "extract"@, r.0, Some(r.1)),
{
    let i = lemma_attribute_found(input.attributes@, "extract"@, 0);
    let metas = input.attributes@[i].metas;
    let keys = attributes::container_keys(metas)->Ok_0;
    containers_are_read_by_their_keys(metas->Ok_0);
    (keys.template, keys.healthcheck->0)
}

proof fn lemma_attribute_found(
    attributes: Seq<ContainerAttribute>,
    name: Seq<char>,
    from: int,
) -> (i: int)
    requires
        0 <= from,
        attributes::attribute_from(attributes, name, from) is Some,
        forall|k: int|
            0 <= k < from && k < attributes.len() ==> ((#[trigger] attributes[k]).name matches Some(
                n,
            ) ==> n@ != name),
    ensures
        first_called(attributes, name, i),
        attributes::attribute_from(attributes, name, from) == Some(attributes[i]),
    decreases attributes.len() - from,
{
    if attributes[from].name is Some && attributes[from].name->0@ == name {
        from
    } else {
        lemma_attribute_found(attributes, name, from + 1)
    }
}

/// Sequences are the same however they are put together.
proof fn lemma_regroup(a: Seq<char>, b: Seq<char>, c: Seq<char>)
    ensures
        a + b + c == a + (b + c),
{
    assert(a + b + c =~= a + (b + c));
}

/// What stands before the path in the function that renders a prompt.
spec fn prompt_start() -> Seq<char> {
    "fn "@ + "render_prompt"@ + " ("@ + "schema"@ + " : & str"@ + " , "@ + "text"@ + " : & str"@
        + " , "@ + "prompt_context"@ + " : & str"@ + before_path()
}

/// The path stands in the function that renders a prompt, between texts that do not depend on it.
proof fn lemma_prompt_around(path: Seq<char>) -> (end: Seq<char>)
    ensures
        renders_prompt(path) == prompt_start() + path + end,
        end == prompt_end(),
{
    let front = prompt_start() + path;
    let e0 = behind_path();
    let e1 = e0 + "schema"@;
    lemma_regroup(front, e0, "schema"@);
    let e2 = e1 + " : & 'a str ,"@;
    lemma_regroup(front, e1, " : & 'a str ,"@);
    let e3 = e2 + " "@;
    lemma_regroup(front, e2, " "@);
    let e4 = e3 + "text"@;
    lemma_regroup(front, e3, "text"@);
    let e5 = e4 + " : & 'a str ,"@;
    lemma_regroup(front, e4, " : & 'a str ,"@);
    let e6 = e5 + " "@;
    lemma_regroup(front, e5, " "@);
    let e7 = e6 + "prompt_context"@;
    lemma_regroup(front, e6, "prompt_context"@);
    let e8 = e7 + " : & 'a str ,"@;
    lemma_regroup(front, e7, " : & 'a str ,"@);
    let e9 = e8 + " } use :: patterns :: askama :: Template as _ ; Input { "@;
    lemma_regroup(front, e8, " } use :: patterns :: askama :: Template as _ ; Input { "@);
    let e10 = e9 + "schema"@;
    lemma_regroup(front, e9, "schema"@);
    let e11 = e10 + " , "@;
    lemma_regroup(front, e10, " , "@);
    let e12 = e11 + "text"@;
    lemma_regroup(front, e11, "text"@);
    let e13 = e12 + " , "@;
    lemma_regroup(front, e12, " , "@);
    let e14 = e13 + "prompt_context"@;
    lemma_regroup(front, e13, "prompt_context"@);
    let e15 = e14 + " } . render () . map_err (:: core :: convert :: Into :: into) }"@;
    lemma_regroup(front, e14, " } . render () . map_err (:: core :: convert :: Into :: into) }"@);
    e15
}

/// What stands behind the path in the function that renders a prompt.
spec fn prompt_end() -> Seq<char> {
    behind_path() + "schema"@ + " : & 'a str ,"@ + " "@ + "text"@ + " : & 'a str ,"@ + " "@
        + "prompt_context"@ + " : & 'a str ,"@
        + " } use :: patterns :: askama :: Template as _ ; Input { "@ + "schema"@ + " , "@ + "text"@
        + " , "@ + "prompt_context"@
        + " } . render () . map_err (:: core :: convert :: Into :: into) }"@
}

proof fn lemma_middle(a: Seq<char>, b: Seq<char>, c: Seq<char>, d: Seq<char>, s: Seq<char>, t: Seq<char>)
    requires
        a + (b + s + c) + d == a + (b + t + c) + d,
    ensures
        s == t,
{
    let x = a + (b + s + c) + d;
    let y = a + (b + t + c) + d;
    let n = (a.len() + b.len()) as int;
    assert(x.len() == n + s.len() + c.len() + d.len());
    assert(y.len() == n + t.len() + c.len() + d.len());
    assert(s =~= x.subrange(n, n + s.len()));
    assert(t =~= y.subrange(n, n + t.len()));
}

/// Structs that differ in their template are derived differently: nothing but the template says
/// what prompts are rendered from.
pub proof fn templates_tell_derives_apart(
    a: DeriveInput,
    b: DeriveInput,
    s: Literal,
    t: Literal,
    healthcheck: Literal,
)
    requires
        a.name@ == b.name@,
        !a.generic && !b.generic,
        !(a.shape is Other) && !(b.shape is Other),
        annotated(a, "extract"@, s, Some(healthcheck)),
        annotated(b, "extract"@, t, Some(healthcheck)),
        extractable::expansion(a) == extractable::expansion(b),
    ensures
        s.source@ == t.source@,
{
    prompts_are_rendered_from_the_template(a, s, healthcheck);
    prompts_are_rendered_from_the_template(b, t, healthcheck);
    let head = "impl :: patterns :: llm_cli :: Extractable for "@ + a.name@ + " { "@
        + checks_health(healthcheck.source@) + " "@;
    let end = lemma_prompt_around(s.source@);
    let same = lemma_prompt_around(t.source@);
    lemma_middle(head, prompt_start(), end, " }"@, s.source@, t.source@);
}

/// What is derived for a question struct: the questions of its fields, in their order, with the
/// function that renders the state from the template; and where there is a healthcheck, that too.
pub proof fn states_are_rendered_from_the_template(
    input: DeriveInput,
    template: Literal,
    healthcheck: Option<Literal>,
    fields: Vec<Field>,
    entries: Seq<Seq<char>>,
)
    requires
        !input.generic,
        annotated(input, "systemone"@, template, healthcheck),
        input.shape == Shape::Named(fields),
        fields@.len() > 0,
        entries.len() == fields@.len(),
        forall|i: int|
            0 <= i < entries.len() ==> questions::entry_of(fields@[i]) == Ok::<
                Seq<char>,
                macros::Fault,
            >(#[trigger] entries[i]),
    ensures
        ({
            let questions = "impl :: patterns :: systemone :: Questions for "@ + input.name@
                + " { type Answers = Self ; fn questions () -> :: patterns :: systemone :: QuestionMap { :: patterns :: systemone :: QuestionMap :: from (["@
                + text::joined(entries, " , "@) + "]) } "@ + renders_state(template.source@)
                + " }"@;
            systemone::expansion(input) == Ok::<Seq<char>, macros::Fault>(
                match healthcheck {
                    None => questions,
                    Some(fixture) => questions
                        + " impl :: patterns :: systemone :: Evaluatable for "@ + input.name@
                        + " { "@ + checks_health(fixture.source@) + " }"@,
                },
            )
        }),
{
    lemma_annotated(input, "systemone"@, template, healthcheck);
    lemma_renders_state(template.source@);
    lemma_entries(fields@, entries, 0);
    assert(entries.skip(0) =~= entries);
}

proof fn lemma_entries(fields: Seq<Field>, entries: Seq<Seq<char>>, from: int)
    requires
        0 <= from <= fields.len(),
        entries.len() == fields.len(),
        forall|i: int|
            0 <= i < entries.len() ==> questions::entry_of(fields[i]) == Ok::<
                Seq<char>,
                macros::Fault,
            >(#[trigger] entries[i]),
    ensures
        systemone::entries_from(fields, from) == Ok::<Seq<Seq<char>>, macros::Fault>(
            entries.skip(from),
        ),
    decreases fields.len() - from,
{
    if from < fields.len() {
        lemma_entries(fields, entries, from + 1);
        assert(questions::entry_of(fields[from]) == Ok::<Seq<char>, macros::Fault>(entries[from]));
        assert(entries.skip(from) =~= seq![entries[from]] + entries.skip(from + 1));
    } else {
        assert(entries.skip(from) =~= Seq::empty());
    }
}

// ---- questions -----------------------------------------------------------------------------

/// Whether nothing, or a comma, stands behind the arguments.
pub open spec fn ends_arguments(tail: Seq<Token>) -> bool {
    tail == Seq::<Token>::empty() || tail == seq![Token::Comma]
}

/// The tokens of levels, each behind a comma.
pub open spec fn levels_tokens(levels: Seq<Literal>) -> Seq<Token>
    decreases levels.len(),
{
    if levels.len() == 0 {
        Seq::empty()
    } else {
        seq![Token::Comma, Token::Text(levels[0])] + levels_tokens(levels.drop_first())
    }
}

proof fn lemma_levels_read(tokens: Seq<Token>, levels: Seq<Literal>, i: int, tail: Seq<Token>)
    requires
        0 <= i <= tokens.len(),
        tokens.skip(i) == levels_tokens(levels) + tail,
        ends_arguments(tail),
    ensures
        attributes::levels_from(tokens, i) == Ok::<(Seq<Literal>, int), Trouble>(
            (levels, tokens.len() as int),
        ),
    decreases levels.len(),
{
    let left = tokens.skip(i);
    if levels.len() == 0 {
        assert(left =~= tail);
        assert(levels =~= Seq::empty());
        if tail.len() > 0 {
            assert(tokens[i] == left[0]);
        }
    } else {
        let rest = levels.drop_first();
        let own = seq![Token::Comma, Token::Text(levels[0])];
        let more = levels_tokens(rest) + tail;
        assert(left =~= own + more);
        assert(tokens[i] == left[0] && left[0] == own[0]);
        assert(tokens[i + 1] == left[1] && left[1] == own[1]);
        lemma_behind(tokens, i, own, more);
        lemma_levels_read(tokens, rest, i + 2, tail);
        assert(seq![levels[0]] + rest =~= levels);
    }
}

proof fn lemma_behind(tokens: Seq<Token>, i: int, own: Seq<Token>, more: Seq<Token>)
    requires
        0 <= i <= tokens.len(),
        tokens.skip(i) == own + more,
    ensures
        i + own.len() <= tokens.len(),
        tokens.skip((i + own.len()) as int) == more,
{
    let next = (i + own.len()) as int;
    assert(tokens.skip(i).len() == own.len() + more.len());
    assert forall|k: int| 0 <= k < more.len() implies tokens.skip(next)[k] == more[k] by {
        let there = own.len() + k;
        assert((own + more)[there] == more[k]);
        assert(tokens.skip(i)[there] == tokens[i + there]);
    }
    assert(tokens.skip(next) =~= more);
}

proof fn lemma_levels_shape(tokens: Seq<Token>, i: int) -> (tail: Seq<Token>)
    requires
        0 <= i <= tokens.len(),
        attributes::levels_from(tokens, i) matches Ok((_, end)) && end >= tokens.len(),
    ensures
        ends_arguments(tail),
        tokens.skip(i) == levels_tokens((attributes::levels_from(tokens, i)->Ok_0).0) + tail,
    decreases tokens.len() - i,
{
    let levels = (attributes::levels_from(tokens, i)->Ok_0).0;
    if i < tokens.len() && i + 1 < tokens.len() {
        let tail = lemma_levels_shape(tokens, i + 2);
        let rest = (attributes::levels_from(tokens, i + 2)->Ok_0).0;
        assert(levels.drop_first() =~= rest);
        let own = seq![Token::Comma, Token::Text(levels[0])];
        assert(tokens.skip(i) =~= own + tokens.skip(i + 2));
        assert(tokens.skip(i) =~= own + levels_tokens(rest) + tail);
        tail
    } else {
        let tail = tokens.skip(i);
        if i < tokens.len() {
            assert(tail =~= seq![Token::Comma]);
        } else {
            assert(tail =~= Seq::empty());
        }
        assert(levels_tokens(levels) + tail =~= tail);
        tail
    }
}

/// A score is read from its instructions and levels, in their order, each level behind a comma; a
/// comma may stand at the end.
pub proof fn scores_are_read_in_order(
    instructions: Literal,
    levels: Seq<Literal>,
    tail: Seq<Token>,
)
    requires
        ends_arguments(tail),
    ensures
        attributes::score_args(seq![Token::Text(instructions)] + levels_tokens(levels) + tail)
            == Ok::<(Literal, Seq<Literal>), Trouble>((instructions, levels)),
{
    let tokens = seq![Token::Text(instructions)] + levels_tokens(levels) + tail;
    assert(tokens.skip(1) =~= levels_tokens(levels) + tail);
    lemma_levels_read(tokens, levels, 1, tail);
}

/// A score is read from nothing but instructions and levels with commas before them.
pub proof fn scores_are_read_from_nothing_else(tokens: Seq<Token>) -> (tail: Seq<Token>)
    requires
        attributes::score_args(tokens) is Ok,
    ensures
        ends_arguments(tail),
        ({
            let (instructions, levels) = attributes::score_args(tokens)->Ok_0;
            tokens == seq![Token::Text(instructions)] + levels_tokens(levels) + tail
        }),
{
    let (instructions, levels) = attributes::score_args(tokens)->Ok_0;
    let tail = lemma_levels_shape(tokens, 1);
    assert(tokens =~= seq![Token::Text(instructions)] + tokens.skip(1));
    assert(tokens =~= seq![Token::Text(instructions)] + levels_tokens(levels) + tail);
    tail
}

/// The tokens of an option: its name, and its description behind an equals sign, if it has one.
pub open spec fn option_tokens(option: ChoiceOpt) -> Seq<Token> {
    match option.description {
        None => seq![Token::Name(option.name)],
        Some(description) => seq![
            Token::Name(option.name),
            Token::Equals,
            Token::Text(description),
        ],
    }
}

/// The tokens of options, each behind a comma.
pub open spec fn options_tokens(options: Seq<ChoiceOpt>) -> Seq<Token>
    decreases options.len(),
{
    if options.len() == 0 {
        Seq::empty()
    } else {
        seq![Token::Comma] + option_tokens(options[0]) + options_tokens(options.drop_first())
    }
}

proof fn lemma_options_read(tokens: Seq<Token>, options: Seq<ChoiceOpt>, i: int, tail: Seq<Token>)
    requires
        0 <= i <= tokens.len(),
        tokens.skip(i) == options_tokens(options) + tail,
        ends_arguments(tail),
    ensures
        attributes::options_from(tokens, i) == Ok::<(Seq<ChoiceOpt>, int), Trouble>(
            (options, tokens.len() as int),
        ),
    decreases options.len(),
{
    let left = tokens.skip(i);
    if options.len() == 0 {
        assert(left =~= tail);
        assert(options =~= Seq::empty());
        if tail.len() > 0 {
            assert(tokens[i] == left[0]);
        }
    } else {
        let option = options[0];
        let rest = options.drop_first();
        let own = option_tokens(option);
        let more = options_tokens(rest) + tail;
        assert(left =~= seq![Token::Comma] + own + more);
        assert(tokens[i] == left[0]);
        assert(tokens[i + 1] == left[1] && left[1] == own[0]);
        let next = i + 1 + own.len();
        if option.description is Some {
            assert(tokens[i + 2] == left[2] && left[2] == own[1]);
            assert(tokens[i + 3] == left[3] && left[3] == own[2]);
        } else if i + 2 < tokens.len() {
            assert(tokens[i + 2] == left[2] && left[2] == more[0]);
            if rest.len() > 0 {
                assert(options_tokens(rest)[0] == Token::Comma);
            } else {
                assert(more =~= tail);
            }
        }
        assert(attributes::option_at(tokens, i + 1) == Ok::<(ChoiceOpt, int), Trouble>(
            (option, next),
        ));
        lemma_behind(tokens, i, seq![Token::Comma] + own, more);
        lemma_options_read(tokens, rest, next, tail);
        assert(seq![option] + rest =~= options);
    }
}

/// A choice is read from its instructions and options, in their order, each behind a comma, with its
/// description if it has one; a comma may stand at the end.
pub proof fn choices_are_read_in_order(
    instructions: Literal,
    options: Seq<ChoiceOpt>,
    tail: Seq<Token>,
)
    requires
        ends_arguments(tail),
    ensures
        attributes::choice_args(seq![Token::Text(instructions)] + options_tokens(options) + tail)
            == Ok::<(Literal, Seq<ChoiceOpt>), Trouble>((instructions, options)),
{
    let tokens = seq![Token::Text(instructions)] + options_tokens(options) + tail;
    assert(tokens.skip(1) =~= options_tokens(options) + tail);
    lemma_options_read(tokens, options, 1, tail);
}

/// Whether an attribute declares a question.
pub open spec fn asks(attribute: Attribute) -> bool {
    attribute.name matches Some(name) && (name@ == "noul"@ || name@ == "score"@ || name@
        == "choice"@)
}

proof fn lemma_kinds()
    ensures
        "noul"@ != "score"@,
        "noul"@ != "choice"@,
        "score"@ != "choice"@,
{
    reveal_strlit("noul");
    reveal_strlit("score");
    reveal_strlit("choice");
    assert("noul"@.len() == 4 && "score"@.len() == 5 && "choice"@.len() == 6);
}

/// An attribute declares a question if it is called `noul`, `score` or `choice`, and none if it is
/// called otherwise.
pub proof fn questions_go_by_the_attribute_name(attribute: Attribute, i: usize)
    ensures
        attributes::attribute_question(attribute, i) is Some <==> asks(attribute),
{
    lemma_kinds();
}

/// An attribute declares the question it is called after, from its arguments: `noul` from one text,
/// `score` from instructions and levels, `choice` from instructions and options.
pub proof fn attributes_declare_their_questions(
    attribute: Attribute,
    i: usize,
    tokens: Seq<Token>,
    instructions: Literal,
    levels: Seq<Literal>,
    options: Seq<ChoiceOpt>,
)
    requires
        attribute.args matches Args::List(listed) && listed@ == tokens,
        attribute.name is Some,
    ensures
        attribute.name->0@ == "noul"@ && tokens == seq![Token::Text(instructions)]
            ==> attributes::attribute_question(attribute, i) == Some(
            Ok::<Declared, macros::Fault>(Declared::Noul(instructions)),
        ),
        attribute.name->0@ == "score"@ && tokens == seq![Token::Text(instructions)]
            + levels_tokens(levels) ==> attributes::attribute_question(attribute, i) == Some(
            Ok::<Declared, macros::Fault>(Declared::Score(instructions, levels)),
        ),
        attribute.name->0@ == "choice"@ && tokens == seq![Token::Text(instructions)]
            + options_tokens(options) ==> attributes::attribute_question(attribute, i) == Some(
            Ok::<Declared, macros::Fault>(Declared::Choice(instructions, options)),
        ),
{
    lemma_kinds();
    let none = Seq::<Token>::empty();
    scores_are_read_in_order(instructions, levels, none);
    let scored = seq![Token::Text(instructions)] + levels_tokens(levels);
    assert(scored + none =~= scored);
    choices_are_read_in_order(instructions, options, none);
    let listed = seq![Token::Text(instructions)] + options_tokens(options);
    assert(listed + none =~= listed);
}

proof fn lemma_question_from(
    attributes: Seq<Attribute>,
    from: int,
    i: int,
    found: Option<Declared>,
    q: Declared,
)
    requires
        0 <= from,
        from <= i ==> found is None && i < attributes.len()
            && attributes::attribute_question(attributes[i], i as usize) == Some(
            Ok::<Declared, macros::Fault>(q),
        ),
        from > i ==> found == Some(q),
        attributes.len() <= usize::MAX,
        forall|k: int|
            from <= k < attributes.len() && k != i ==> !asks(#[trigger] attributes[k]),
    ensures
        questions::question_from(attributes, from, found) == Ok::<Option<Declared>, macros::Fault>(
            Some(q),
        ),
    decreases attributes.len() - from,
{
    if from < attributes.len() {
        questions_go_by_the_attribute_name(attributes[from], from as usize);
        if from == i {
            lemma_question_from(attributes, from + 1, i, Some(q), q);
        } else {
            lemma_question_from(attributes, from + 1, i, found, q);
        }
    }
}

/// A field that declares one question asks that one, if its type is that of the answer; other
/// attributes do not matter.
pub proof fn fields_ask_their_one_question(field: Field, i: int, q: Declared)
    requires
        0 <= i < field.attributes@.len() <= usize::MAX,
        attributes::attribute_question(field.attributes@[i], i as usize) == Some(
            Ok::<Declared, macros::Fault>(q),
        ),
        forall|k: int|
            0 <= k < field.attributes@.len() && k != i ==> !asks(#[trigger] field.attributes@[k]),
        field.ty matches Some(ty) ==> ty@ == (match q {
            Declared::Noul(_) => "Noul"@,
            Declared::Score(_, _) => "Score"@,
            Declared::Choice(_, _) => "Choice"@,
        }),
    ensures
        questions::question_of(field) == Ok::<Declared, macros::Fault>(q),
{
    lemma_question_from(field.attributes@, 0, i, None, q);
}

/// A field that declares two questions is refused, and so is one that declares none.
pub proof fn fields_ask_one_question_only(field: Field, i: int, j: int)
    requires
        field.attributes@.len() <= usize::MAX,
        (0 <= i < j < field.attributes@.len() && asks(field.attributes@[i]) && asks(
            field.attributes@[j],
        )) || (forall|k: int|
            0 <= k < field.attributes@.len() ==> !asks(#[trigger] field.attributes@[k])),
    ensures
        questions::question_of(field) is Err,
{
    let attributes = field.attributes@;
    if 0 <= i < j < attributes.len() && asks(attributes[i]) && asks(attributes[j]) {
        lemma_two_questions(attributes, 0, None, i, j);
    } else {
        lemma_no_question(attributes, 0);
    }
}

proof fn lemma_no_question(attributes: Seq<Attribute>, from: int)
    requires
        0 <= from,
        attributes.len() <= usize::MAX,
        forall|k: int| 0 <= k < attributes.len() ==> !asks(#[trigger] attributes[k]),
    ensures
        questions::question_from(attributes, from, None) == Ok::<Option<Declared>, macros::Fault>(
            None,
        ),
    decreases attributes.len() - from,
{
    if from < attributes.len() {
        questions_go_by_the_attribute_name(attributes[from], from as usize);
        lemma_no_question(attributes, from + 1);
    }
}

proof fn lemma_two_questions(
    attributes: Seq<Attribute>,
    from: int,
    found: Option<Declared>,
    i: int,
    j: int,
)
    requires
        0 <= from,
        i < j < attributes.len() <= usize::MAX,
        from <= j,
        from <= i || found is Some,
        0 <= i,
        asks(attributes[i]),
        asks(attributes[j]),
    ensures
        questions::question_from(attributes, from, found) is Err,
    decreases attributes.len() - from,
{
    questions_go_by_the_attribute_name(attributes[from], from as usize);
    if let Some(Ok(q)) = attributes::attribute_question(attributes[from], from as usize) {
        if found is None {
            lemma_two_questions(attributes, from + 1, Some(q), i, j);
        }
    } else if attributes::attribute_question(attributes[from], from as usize) is None {
        lemma_two_questions(attributes, from + 1, found, i, j);
    }
}

/// A field that is asked stands in the question map under its name, with what it asks: the
/// instructions, and the levels of a score or the options of a choice, in their order.
pub proof fn entries_ask_what_is_declared(field: Field, q: Declared)
    requires
        field.name is Some,
        questions::question_of(field) == Ok::<Declared, macros::Fault>(q),
        match q {
            Declared::Noul(_) => true,
            Declared::Score(_, levels) => levels.len() >= 2,
            Declared::Choice(_, options) => options.len() >= 2 && forall|i: int, j: int|
                0 <= i < j < options.len() ==> (#[trigger] options[i]).name@ != (
                #[trigger] options[j]).name@,
        },
    ensures
        questions::entry_of(field) == Ok::<Seq<char>, macros::Fault>(
            "(:: std :: string :: String :: from (:: std :: stringify ! ("@ + field.name->0@ + ")) , "@
                + (match q {
                Declared::Noul(instructions) => ":: patterns :: systemone :: noul ("@
                    + instructions.source@ + ")"@,
                Declared::Score(instructions, levels) => ":: patterns :: systemone :: score ("@
                    + instructions.source@ + " , ["@ + text::joined(
                    Seq::new(levels.len(), |i: int| levels[i].source@),
                    " , "@,
                ) + "])"@,
                Declared::Choice(instructions, options) => ":: patterns :: systemone :: choice ("@
                    + instructions.source@ + " , ["@ + text::joined(
                    Seq::new(options.len(), |i: int| option_pair(options[i])),
                    " , "@,
                ) + "])"@,
            }) + " ,)"@,
        ),
{
    match q {
        Declared::Noul(_) => {},
        Declared::Score(_, levels) => {
            assert(questions::sources(levels) =~= Seq::new(
                levels.len(),
                |i: int| levels[i].source@,
            ));
        },
        Declared::Choice(_, options) => {
            assert(questions::option_sources(options) =~= Seq::new(
                options.len(),
                |i: int| option_pair(options[i]),
            ));
            lemma_none_repeated(options, 0);
        },
    }
}

/// An option in the question map: its name, with its description if it has one.
pub open spec fn option_pair(option: ChoiceOpt) -> Seq<char> {
    "(:: std :: string :: String :: from (:: std :: stringify ! ("@ + option.name@ + ")) , "@ + (
    match option.description {
        None => ":: core :: option :: Option :: None"@,
        Some(description) => ":: core :: option :: Option :: Some ("@ + description.source@ + ")"@,
    }) + ")"@
}

proof fn lemma_none_repeated(options: Seq<ChoiceOpt>, from: int)
    requires
        0 <= from,
        forall|i: int, j: int|
            0 <= i < j < options.len() ==> (#[trigger] options[i]).name@ != (
            #[trigger] options[j]).name@,
    ensures
        questions::repeated_from(options, from) is None,
    decreases options.len() - from,
{
    if from < options.len() {
        lemma_none_repeated(options, from + 1);
    }
}

/// A choice is read from nothing but instructions and options with commas before them.
pub proof fn choices_are_read_from_nothing_else(tokens: Seq<Token>) -> (tail: Seq<Token>)
    requires
        attributes::choice_args(tokens) is Ok,
    ensures
        ends_arguments(tail),
        ({
            let (instructions, options) = attributes::choice_args(tokens)->Ok_0;
            tokens == seq![Token::Text(instructions)] + options_tokens(options) + tail
        }),
{
    let (instructions, options) = attributes::choice_args(tokens)->Ok_0;
    let tail = lemma_options_shape(tokens, 1);
    assert(tokens =~= seq![Token::Text(instructions)] + tokens.skip(1));
    assert(tokens =~= seq![Token::Text(instructions)] + options_tokens(options) + tail);
    tail
}

proof fn lemma_options_shape(tokens: Seq<Token>, i: int) -> (tail: Seq<Token>)
    requires
        0 <= i <= tokens.len(),
        attributes::options_from(tokens, i) matches Ok((_, end)) && end >= tokens.len(),
    ensures
        ends_arguments(tail),
        tokens.skip(i) == options_tokens((attributes::options_from(tokens, i)->Ok_0).0) + tail,
    decreases tokens.len() - i,
{
    let options = (attributes::options_from(tokens, i)->Ok_0).0;
    if i < tokens.len() && i + 1 < tokens.len() {
        let (option, next) = attributes::option_at(tokens, i + 1)->Ok_0;
        let tail = lemma_options_shape(tokens, next);
        let rest = (attributes::options_from(tokens, next)->Ok_0).0;
        assert(options.drop_first() =~= rest);
        assert(options[0] == option);
        let own = seq![Token::Comma] + option_tokens(option);
        assert(next == i + own.len());
        assert(tokens.subrange(i, next) =~= own);
        assert(tokens.skip(i) =~= tokens.subrange(i, next) + tokens.skip(next));
        assert(tokens.skip(i) =~= own + options_tokens(rest) + tail);
        tail
    } else {
        let tail = tokens.skip(i);
        if i < tokens.len() {
            assert(tail =~= seq![Token::Comma]);
        } else {
            assert(tail =~= Seq::empty());
        }
        assert(options_tokens(options) + tail =~= tail);
        tail
    }
}

/// A yes/no question is read from one text and from nothing else.
pub proof fn nouls_are_one_text(tokens: Seq<Token>, instructions: Literal)
    ensures
        attributes::only_text(tokens) == Ok::<Literal, Trouble>(instructions) <==> tokens
            == seq![Token::Text(instructions)],
{
    if attributes::only_text(tokens) == Ok::<Literal, Trouble>(instructions) {
        assert(tokens =~= seq![Token::Text(instructions)]);
    }
}

/// An attribute that declares a question but gives no arguments in parentheses is refused, with where
/// it stands.
pub proof fn questions_need_parentheses(attribute: Attribute, i: usize)
    requires
        asks(attribute),
        !(attribute.args is List),
    ensures
        ({
            let q = attributes::attribute_question(attribute, i);
            &&& q is Some
            &&& q->0 is Err
            &&& q->0->Err_0.at == Place::Attribute(i)
        }),
{
    lemma_kinds();
}

// ---- what is refused -----------------------------------------------------------------------

/// A field that cannot be asked is told, and the first of them: where it stands, and why.
pub proof fn the_first_refused_field_is_told(
    input: DeriveInput,
    template: Literal,
    healthcheck: Option<Literal>,
    fields: Vec<Field>,
    i: int,
)
    requires
        !input.generic,
        annotated(input, "systemone"@, template, healthcheck),
        input.shape == Shape::Named(fields),
        0 <= i < fields@.len() <= usize::MAX,
        forall|k: int| 0 <= k < i ==> questions::entry_of(#[trigger] fields@[k]) is Ok,
        questions::entry_of(fields@[i]) is Err,
    ensures
        ({
            let r = systemone::expansion(input);
            let why = questions::entry_of(fields@[i])->Err_0;
            &&& r is Err
            &&& r->Err_0.field == Some(i as usize)
            &&& r->Err_0.message == why.message
            &&& r->Err_0.at == why.at
        }),
{
    lemma_annotated(input, "systemone"@, template, healthcheck);
    lemma_first_refused(fields@, 0, i);
}

proof fn lemma_first_refused(fields: Seq<Field>, from: int, i: int)
    requires
        0 <= from <= i < fields.len(),
        forall|k: int| 0 <= k < i ==> questions::entry_of(#[trigger] fields[k]) is Ok,
        questions::entry_of(fields[i]) is Err,
    ensures
        systemone::entries_from(fields, from) == Err::<Seq<Seq<char>>, macros::Fault>(
            macros::Fault { field: Some(i as usize), ..questions::entry_of(fields[i])->Err_0 },
        ),
    decreases i - from,
{
    if from < i {
        assert(questions::entry_of(fields[from]) is Ok);
        lemma_first_refused(fields, from + 1, i);
    }
}

/// Why a field is refused: it has no name, its type is not that of the answer, its score has fewer than
/// two levels, its choice fewer than two options, or one of these is called like an earlier one, which
/// is told.
pub proof fn refused_fields_tell_why(field: Field, q: Declared, k: int)
    ensures
        field.name is None ==> questions::entry_of(field) is Err && questions::entry_of(
            field,
        )->Err_0.message == "field needs a name"@,
        field.name is Some && questions::question_of(field) == Ok::<Declared, macros::Fault>(q) ==> {
            let r = questions::entry_of(field);
            &&& q matches Declared::Score(_, levels) ==> (levels.len() < 2 ==> r is Err
                && r->Err_0.message == "#[score(..)] needs at least two levels"@)
            &&& q matches Declared::Choice(_, options) ==> (options.len() < 2 ==> r is Err
                && r->Err_0.message == "#[choice(..)] needs at least two options"@)
            &&& q matches Declared::Choice(_, options) ==> (options.len() >= 2 && repeats_first(
                options,
                k,
            ) ==> r is Err && r->Err_0.message == "duplicate option `"@ + options[k].name@ + "`"@
                && r->Err_0.at == Place::ChoiceOption(k as usize))
        },
{
    if let Declared::Choice(_, options) = q {
        if repeats_first(options, k) {
            lemma_first_repeated(options, 0, k);
        }
    }
}

/// Whether option `k` is the first that is called like an earlier one.
pub open spec fn repeats_first(options: Seq<ChoiceOpt>, k: int) -> bool {
    &&& 0 <= k < options.len()
    &&& exists|j: int| 0 <= j < k && (#[trigger] options[j]).name@ == options[k].name@
    &&& forall|i: int, j: int|
        0 <= i < j < k ==> (#[trigger] options[i]).name@ != (#[trigger] options[j]).name@
}

proof fn lemma_first_repeated(options: Seq<ChoiceOpt>, from: int, k: int)
    requires
        0 <= from <= k,
        repeats_first(options, k),
    ensures
        questions::repeated_from(options, from) == Some(k),
    decreases k - from,
{
    if from < k {
        assert(!questions::repeats(options, from));
        lemma_first_repeated(options, from + 1, k);
    } else {
        assert(questions::repeats(options, k));
    }
}

/// A field whose type is not that of the answer to its question is refused, with both.
pub proof fn answers_must_have_their_type(field: Field, i: int, q: Declared, expected: Seq<char>)
    requires
        0 <= i < field.attributes@.len() <= usize::MAX,
        attributes::attribute_question(field.attributes@[i], i as usize) == Some(
            Ok::<Declared, macros::Fault>(q),
        ),
        forall|k: int|
            0 <= k < field.attributes@.len() && k != i ==> !asks(#[trigger] field.attributes@[k]),
        expected == (match q {
            Declared::Noul(_) => "Noul"@,
            Declared::Score(_, _) => "Score"@,
            Declared::Choice(_, _) => "Choice"@,
        }),
        field.ty matches Some(ty) && ty@ != expected,
    ensures
        questions::question_of(field) is Err,
        questions::question_of(field)->Err_0.message == "question kind needs field type `"@
            + expected + "`, found `"@ + field.ty->0@ + "`"@,
        questions::question_of(field)->Err_0.at == Place::FieldType,
{
    lemma_question_from(field.attributes@, 0, i, None, q);
}

/// Whether no attribute is called `name`.
pub open spec fn not_annotated(input: DeriveInput, name: Seq<char>) -> bool {
    forall|k: int|
        0 <= k < input.attributes@.len() ==> ((#[trigger] input.attributes@[k]).name matches Some(n)
            ==> n@ != name)
}

proof fn lemma_not_annotated(attributes: Seq<ContainerAttribute>, name: Seq<char>, from: int)
    requires
        0 <= from,
        forall|k: int|
            0 <= k < attributes.len() ==> ((#[trigger] attributes[k]).name matches Some(n) ==> n@
                != name),
    ensures
        attributes::attribute_from(attributes, name, from) is None,
    decreases attributes.len() - from,
{
    if from < attributes.len() {
        assert(attributes[from].name matches Some(n) ==> n@ != name);
        lemma_not_annotated(attributes, name, from + 1);
    }
}

/// What cannot be derived `Extractable` for: what is generic, what is no struct, what is not annotated,
/// and what has no healthcheck. Each is told.
pub proof fn refused_extractions_tell_why(input: DeriveInput, template: Literal)
    ensures
        ({
            let r = extractable::expansion(input);
            &&& input.generic ==> r is Err && r->Err_0.message
                == "#[derive(Extractable)] does not support generics"@
            &&& !input.generic && input.shape is Other ==> r is Err && r->Err_0.message
                == "#[derive(Extractable)] needs a struct"@
            &&& !input.generic && !(input.shape is Other) && not_annotated(input, "extract"@) ==> r
                is Err && r->Err_0.message
                == "missing #[extract(template = \"...\", healthcheck = \"...\")] container attribute"@
            &&& !input.generic && !(input.shape is Other) && annotated(
                input,
                "extract"@,
                template,
                None,
            ) ==> r is Err && r->Err_0.message
                == "missing `healthcheck = \"...\"` (Extractable::HEALTHCHECK_TEXT has no default)"@
        }),
{
    if not_annotated(input, "extract"@) {
        lemma_not_annotated(input.attributes@, "extract"@, 0);
    }
    if annotated(input, "extract"@, template, None) {
        lemma_annotated(input, "extract"@, template, None);
    }
}

/// What cannot be derived questions for: what is generic, what is not annotated, what is no struct, and
/// what has no named fields. Each is told.
pub proof fn refused_questions_tell_why(
    input: DeriveInput,
    template: Literal,
    healthcheck: Option<Literal>,
)
    ensures
        ({
            let r = systemone::expansion(input);
            let annotated = annotated(input, "systemone"@, template, healthcheck);
            &&& input.generic ==> r is Err && r->Err_0.message
                == "#[derive(SystemOne)] does not support generics"@
            &&& !input.generic && not_annotated(input, "systemone"@) ==> r is Err
                && r->Err_0.message
                == "missing #[systemone(template = \"...\")] container attribute"@
            &&& !input.generic && annotated && input.shape is Other ==> r is Err
                && r->Err_0.message == "#[derive(SystemOne)] needs a struct"@
            &&& !input.generic && annotated && input.shape is Unnamed ==> r is Err
                && r->Err_0.message == "#[derive(SystemOne)] needs named fields"@
            &&& !input.generic && annotated && (input.shape matches Shape::Named(fields)
                && fields@.len() == 0) ==> r is Err && r->Err_0.message
                == "#[derive(SystemOne)] needs fields"@
        }),
{
    if not_annotated(input, "systemone"@) {
        lemma_not_annotated(input.attributes@, "systemone"@, 0);
    }
    if annotated(input, "systemone"@, template, healthcheck) {
        lemma_annotated(input, "systemone"@, template, healthcheck);
    }
}

/// A container attribute that needs both keys is read where both are given, each as it is.
pub proof fn containers_need_both_keys(metas: Vec<Meta>)
    ensures
        match attributes::container(Ok(metas)) {
            Ok(container) => {
                &&& well_keyed(metas@)
                &&& assigned(metas@, "template"@, container.template)
                &&& assigned(metas@, "healthcheck"@, container.healthcheck)
            },
            Err(_) => !well_keyed(metas@) || unassigned(metas@, "template"@) || unassigned(
                metas@,
                "healthcheck"@,
            ),
        },
{
    containers_are_read_by_their_keys(metas);
}

/// What is derived by a call: for a struct that is annotated with a template and a healthcheck, the
/// prompt is rendered from the one and the healthcheck from the other.
pub proof fn derived_prompts_are_rendered_from_the_template(
    input: &DeriveInput,
    template: Literal,
    healthcheck: Literal,
    r: Result<String, Diagnostic>,
)
    requires
        call_ensures(extractable::expand_extractable, (input,), r),
        !input.generic,
        !(input.shape is Other),
        annotated(*input, "extract"@, template, Some(healthcheck)),
    ensures
        r is Ok,
        r->Ok_0@ == "impl :: patterns :: llm_cli :: Extractable for "@ + input.name@ + " { "@
            + checks_health(healthcheck.source@) + " "@ + renders_prompt(template.source@) + " }"@,
{
    prompts_are_rendered_from_the_template(*input, template, healthcheck);
}

/// A function that renders a template takes every parameter as a text, gives the template's input a
/// field for each, and fills in all of them, in their order.
pub proof fn templates_are_given_every_parameter(
    name: Seq<char>,
    path: Seq<char>,
    params: Seq<Seq<char>>,
)
    ensures
        codegen::render_source(name, path, params) == "fn "@ + name + " ("@ + text::joined(
            Seq::new(params.len(), |i: int| params[i] + " : & str"@),
            " , "@,
        ) + before_path() + path + behind_path() + text::joined(
            Seq::new(params.len(), |i: int| params[i] + " : & 'a str ,"@),
            " "@,
        ) + " } use :: patterns :: askama :: Template as _ ; Input { "@ + text::joined(
            params,
            " , "@,
        ) + " } . render () . map_err (:: core :: convert :: Into :: into) }"@,
{
    assert(codegen::suffixed(params, " : & str"@) =~= Seq::new(
        params.len(),
        |i: int| params[i] + " : & str"@,
    ));
    assert(codegen::suffixed(params, " : & 'a str ,"@) =~= Seq::new(
        params.len(),
        |i: int| params[i] + " : & 'a str ,"@,
    ));
}

} // verus!
