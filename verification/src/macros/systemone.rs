//! What is derived for an annotated question struct.

use crate::macros::attributes;
use crate::macros::codegen;
use crate::macros::questions;
use crate::macros::{self, DeriveInput, Diagnostic, Fault, Field, Place, Shape};
use crate::text;
use vstd::prelude::*;

verus! {

broadcast use vstd::seq::group_seq_axioms;

/// The map entries of the fields from the `i`-th on, or the first field's fault.
pub open spec fn entries_from(fields: Seq<Field>, i: int) -> Result<Seq<Seq<char>>, Fault>
    decreases fields.len() - i,
{
    if 0 <= i < fields.len() {
        match questions::entry_of(fields[i]) {
            Err(f) => Err(Fault { field: Some(i as usize), ..f }),
            Ok(entry) => match entries_from(fields, i + 1) {
                Err(f) => Err(f),
                Ok(rest) => Ok(seq![entry] + rest),
            },
        }
    } else {
        Ok(Seq::empty())
    }
}

/// The parameters of a state template.
pub open spec fn state_params() -> Seq<Seq<char>> {
    seq!["text"@, "prompt_context"@]
}

/// The impls for a struct called `name`: the questions with their state template, and the
/// healthcheck where there is a fixture.
pub open spec fn impl_source(
    name: Seq<char>,
    template: Seq<char>,
    healthcheck: Option<Seq<char>>,
    entries: Seq<Seq<char>>,
) -> Seq<char> {
    let questions = "impl :: patterns :: systemone :: Questions for "@ + name
        + " { type Answers = Self ; fn questions () -> :: patterns :: systemone :: QuestionMap { :: patterns :: systemone :: QuestionMap :: from (["@
        + text::joined(entries, " , "@) + "]) } "@ + codegen::render_source(
        "render_state"@,
        template,
        state_params(),
    ) + " }"@;
    match healthcheck {
        None => questions,
        Some(fixture) => questions + " impl :: patterns :: systemone :: Evaluatable for "@ + name
            + " { "@ + codegen::healthcheck_source(fixture) + " }"@,
    }
}

/// What is derived for an item, or what is wrong with it: it must not be generic, must have the
/// container attribute, must be a struct with named fields, at least one, and each of them must
/// declare a question.
pub open spec fn expansion(input: DeriveInput) -> Result<Seq<char>, Fault> {
    if input.generic {
        Err(macros::fault("#[derive(SystemOne)] does not support generics"@, Place::Generics))
    } else {
        match attributes::attribute_from(input.attributes@, "systemone"@, 0) {
            None => Err(
                macros::fault(
                    "missing #[systemone(template = \"...\")] container attribute"@,
                    Place::CallSite,
                ),
            ),
            Some(attribute) => match attributes::container_keys(attribute.metas) {
                Err(f) => Err(f),
                Ok(keys) => match input.shape {
                    Shape::Other => Err(
                        macros::fault("#[derive(SystemOne)] needs a struct"@, Place::Item),
                    ),
                    Shape::Unnamed => Err(
                        macros::fault("#[derive(SystemOne)] needs named fields"@, Place::Item),
                    ),
                    Shape::Named(fields) => if fields@.len() == 0 {
                        Err(macros::fault("#[derive(SystemOne)] needs fields"@, Place::Item))
                    } else {
                        match entries_from(fields@, 0) {
                            Err(f) => Err(f),
                            Ok(entries) => Ok(
                                impl_source(
                                    input.name@,
                                    keys.template.source@,
                                    match keys.healthcheck {
                                        Some(fixture) => Some(fixture.source@),
                                        None => None,
                                    },
                                    entries,
                                ),
                            ),
                        }
                    },
                },
            },
        }
    }
}

fn build_entries(fields: &Vec<Field>) -> (r: Result<Vec<String>, Diagnostic>)
    ensures
        match (r, entries_from(fields@, 0)) {
            (Ok(list), Ok(entries)) => text::texts(list@) == entries,
            (Err(d), Err(f)) => d@ == f,
            _ => false,
        },
{
    let ghost whole = entries_from(fields@, 0);
    let mut out: Vec<String> = Vec::new();
    let mut i: usize = 0;
    proof {
        if let Ok(rest) = whole {
            assert(text::texts(out@) + rest =~= rest);
        }
    }
    while i < fields.len()
        invariant
            whole == entries_from(fields@, 0),
            0 <= i <= fields@.len(),
            whole == (match entries_from(fields@, i as int) {
                Ok(rest) => Ok(text::texts(out@) + rest),
                Err(f) => Err(f),
            }),
        decreases fields@.len() - i,
    {
        let ghost before = out@;
        match questions::build_entry(&fields[i]) {
            Ok(entry) => {
                out.push(entry);
                proof {
                    assert(text::texts(out@) =~= text::texts(before).push(entry@));
                    if let Ok(rest) = entries_from(fields@, i + 1) {
                        assert(text::texts(out@) + rest =~= text::texts(before) + (seq![entry@]
                            + rest));
                    }
                }
            },
            Err(d) => return Err(
                Diagnostic { message: d.message, at: d.at, field: Some(i) },
            ),
        }
        i += 1;
    }
    assert(text::texts(out@) + Seq::<Seq<char>>::empty() =~= text::texts(out@));
    Ok(out)
}

/// Derive `Questions`, and `Evaluatable` where there is a healthcheck, for an annotated struct.
pub fn expand(input: &DeriveInput) -> (r: Result<String, Diagnostic>)
    ensures
        macros::text_verdict(r) == expansion(*input),
{
    if input.generic {
        return Err(
            Diagnostic::new(
                "#[derive(SystemOne)] does not support generics".to_owned(),
                Place::Generics,
            ),
        );
    }
    let attribute = match attributes::find_attribute(&input.attributes, "systemone") {
        Some(attribute) => attribute,
        None => return Err(
            Diagnostic::new(
                "missing #[systemone(template = \"...\")] container attribute".to_owned(),
                Place::CallSite,
            ),
        ),
    };
    let keys = match attributes::parse_container_keys(attribute) {
        Ok(keys) => keys,
        Err(d) => return Err(d),
    };
    let fields = match &input.shape {
        Shape::Named(fields) => fields,
        Shape::Unnamed => return Err(
            Diagnostic::new("#[derive(SystemOne)] needs named fields".to_owned(), Place::Item),
        ),
        Shape::Other => return Err(
            Diagnostic::new("#[derive(SystemOne)] needs a struct".to_owned(), Place::Item),
        ),
    };
    if fields.len() == 0 {
        return Err(Diagnostic::new("#[derive(SystemOne)] needs fields".to_owned(), Place::Item));
    }
    let entries = match build_entries(fields) {
        Ok(entries) => entries,
        Err(d) => return Err(d),
    };
    let params = ["text", "prompt_context"];
    let render = codegen::render_fn("render_state", &keys.template, &params);
    assert(text::slices(params@) =~= state_params());
    let questions = "impl :: patterns :: systemone :: Questions for ".to_owned().concat(
        input.name.as_str(),
    ).concat(
        " { type Answers = Self ; fn questions () -> :: patterns :: systemone :: QuestionMap { :: patterns :: systemone :: QuestionMap :: from ([",
    ).concat(text::join(&entries, " , ").as_str()).concat("]) } ").concat(render.as_str()).concat(
        " }",
    );
    Ok(
        match &keys.healthcheck {
            None => questions,
            Some(fixture) => questions.concat(
                " impl :: patterns :: systemone :: Evaluatable for ",
            ).concat(input.name.as_str()).concat(" { ").concat(
                codegen::healthcheck_methods(fixture).as_str(),
            ).concat(" }"),
        },
    )
}

} // verus!
