//! What is derived for an annotated extraction struct.

use crate::macros::attributes;
use crate::macros::codegen;
use crate::macros::{self, DeriveInput, Diagnostic, Fault, Place, Shape};
use crate::text;
use vstd::prelude::*;

verus! {

broadcast use vstd::seq::group_seq_axioms;

/// The parameters of a prompt template.
pub open spec fn prompt_params() -> Seq<Seq<char>> {
    seq!["schema"@, "text"@, "prompt_context"@]
}

/// What is derived for an item, or what is wrong with it: it must not be generic, must be a
/// struct, and must have the container attribute with a template and a healthcheck.
pub open spec fn expansion(input: DeriveInput) -> Result<Seq<char>, Fault> {
    if input.generic {
        Err(macros::fault("#[derive(Extractable)] does not support generics"@, Place::Generics))
    } else if input.shape is Other {
        Err(macros::fault("#[derive(Extractable)] needs a struct"@, Place::Item))
    } else {
        match attributes::attribute_from(input.attributes@, "extract"@, 0) {
            None => Err(
                macros::fault(
                    "missing #[extract(template = \"...\", healthcheck = \"...\")] container attribute"@,
                    Place::CallSite,
                ),
            ),
            Some(attribute) => match attributes::container_keys(attribute.metas) {
                Err(f) => Err(f),
                Ok(keys) => match keys.healthcheck {
                    None => Err(
                        macros::fault(
                            "missing `healthcheck = \"...\"` (Extractable::HEALTHCHECK_TEXT has no default)"@,
                            Place::Container,
                        ),
                    ),
                    Some(healthcheck) => Ok(
                        "impl :: patterns :: llm_cli :: Extractable for "@ + input.name@ + " { "@
                            + codegen::healthcheck_source(healthcheck.source@) + " "@
                            + codegen::render_source(
                            "render_prompt"@,
                            keys.template.source@,
                            prompt_params(),
                        ) + " }"@,
                    ),
                },
            },
        }
    }
}

/// Derive `Extractable` for an annotated struct.
pub fn expand_extractable(input: &DeriveInput) -> (r: Result<String, Diagnostic>)
    ensures
        macros::text_verdict(r) == expansion(*input),
{
    if input.generic {
        return Err(
            Diagnostic::new(
                "#[derive(Extractable)] does not support generics".to_owned(),
                Place::Generics,
            ),
        );
    }
    if let Shape::Other = &input.shape {
        return Err(
            Diagnostic::new("#[derive(Extractable)] needs a struct".to_owned(), Place::Item),
        );
    }
    let attribute = match attributes::find_attribute(&input.attributes, "extract") {
        Some(attribute) => attribute,
        None => return Err(
            Diagnostic::new(
                "missing #[extract(template = \"...\", healthcheck = \"...\")] container attribute".to_owned(),
                Place::CallSite,
            ),
        ),
    };
    let keys = match attributes::parse_container_keys(attribute) {
        Ok(keys) => keys,
        Err(d) => return Err(d),
    };
    let healthcheck = match &keys.healthcheck {
        Some(healthcheck) => healthcheck,
        None => return Err(
            Diagnostic::new(
                "missing `healthcheck = \"...\"` (Extractable::HEALTHCHECK_TEXT has no default)".to_owned(),
                Place::Container,
            ),
        ),
    };
    let params = ["schema", "text", "prompt_context"];
    let render = codegen::render_fn("render_prompt", &keys.template, &params);
    assert(text::slices(params@) =~= prompt_params());
    Ok(
        "impl :: patterns :: llm_cli :: Extractable for ".to_owned().concat(
            input.name.as_str(),
        ).concat(" { ").concat(codegen::healthcheck_methods(healthcheck).as_str()).concat(
            " ",
        ).concat(render.as_str()).concat(" }"),
    )
}

} // verus!
