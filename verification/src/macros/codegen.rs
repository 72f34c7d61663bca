//! Source text shared by the derives.

use crate::macros::Literal;
use crate::text;
use vstd::prelude::*;

verus! {

broadcast use vstd::seq::group_seq_axioms;

/// Each name with `suffix` behind it.
pub open spec fn suffixed(names: Seq<Seq<char>>, suffix: Seq<char>) -> Seq<Seq<char>> {
    names.map_values(|name: Seq<char>| name + suffix)
}

fn with_suffix(names: &[&str], suffix: &str) -> (r: Vec<String>)
    ensures
        text::texts(r@) == suffixed(text::slices(names@), suffix@),
{
    let ghost all = suffixed(text::slices(names@), suffix@);
    let mut out: Vec<String> = Vec::new();
    let mut i: usize = 0;
    while i < names.len()
        invariant
            all == suffixed(text::slices(names@), suffix@),
            0 <= i <= names@.len(),
            text::texts(out@) == all.take(i as int),
        decreases names@.len() - i,
    {
        let ghost before = out@;
        let name = names[i].to_owned().concat(suffix);
        out.push(name);
        proof {
            assert(text::texts(out@) =~= text::texts(before).push(name@));
            assert(all.take(i + 1) =~= all.take(i as int).push(all[i as int]));
        }
        i += 1;
    }
    assert(all.take(i as int) =~= all);
    out
}

/// A function `name` of the texts `params` that renders a template with them. The template's
/// input is declared inside the function, so that it cannot collide with anything.
pub open spec fn render_source(
    name: Seq<char>,
    template: Seq<char>,
    params: Seq<Seq<char>>,
) -> Seq<char> {
    "fn "@ + name + " ("@ + text::joined(suffixed(params, " : & str"@), " , "@)
        + ") -> :: anyhow :: Result < String > { # [derive (:: patterns :: askama :: Template)] # [template (path = "@
        + template
        + " , ext = \"md\" , askama = :: patterns :: askama)] struct Input < 'a > { "@
        + text::joined(suffixed(params, " : & 'a str ,"@), " "@)
        + " } use :: patterns :: askama :: Template as _ ; Input { "@ + text::joined(params, " , "@)
        + " } . render () . map_err (:: core :: convert :: Into :: into) }"@
}

/// Emit a `fn <name>(<params>..) -> Result<String>` that renders `template` with its parameters.
pub fn render_fn(name: &str, template: &Literal, params: &[&str]) -> (r: String)
    ensures
        r@ == render_source(name@, template.source@, text::slices(params@)),
{
    let declared = with_suffix(params, " : & str");
    let fields = with_suffix(params, " : & 'a str ,");
    let names = with_suffix(params, "");
    proof {
        reveal_strlit("");
        let list = text::slices(params@);
        assert forall|i: int| 0 <= i < list.len() implies suffixed(list, ""@)[i] == list[i] by {
            assert(list[i] + ""@ =~= list[i]);
        }
        assert(suffixed(list, ""@) =~= list);
    }
    "fn ".to_owned().concat(name).concat(" (").concat(text::join(&declared, " , ").as_str()).concat(
        ") -> :: anyhow :: Result < String > { # [derive (:: patterns :: askama :: Template)] # [template (path = ",
    ).concat(template.source.as_str()).concat(
        " , ext = \"md\" , askama = :: patterns :: askama)] struct Input < 'a > { ",
    ).concat(text::join(&fields, " ").as_str()).concat(
        " } use :: patterns :: askama :: Template as _ ; Input { ",
    ).concat(text::join(&names, " , ").as_str()).concat(
        " } . render () . map_err (:: core :: convert :: Into :: into) }",
    )
}

/// A `healthcheck_text` that renders the fixture through askama, and a `verify` that forwards to
/// the type's own.
pub open spec fn healthcheck_source(healthcheck: Seq<char>) -> Seq<char> {
    "const HEALTHCHECK_TEXT : & 'static str = "@ + healthcheck
        + " ; fn healthcheck_text () -> :: anyhow :: Result < :: std :: string :: String > { # [derive (:: patterns :: askama :: Template)] # [template (path = "@
        + healthcheck
        + " , ext = \"md\" , askama = :: patterns :: askama)] struct Healthcheck ; use :: patterns :: askama :: Template as _ ; Healthcheck . render () . map_err (:: core :: convert :: Into :: into) } fn verify (& self) -> :: anyhow :: Result < () > { Self :: verify (self) }"@
}

/// Emit the healthcheck's fixture, `healthcheck_text` rendering it (so that its path resolves
/// from the same directories as the template), and `verify` forwarding.
pub fn healthcheck_methods(healthcheck: &Literal) -> (r: String)
    ensures
        r@ == healthcheck_source(healthcheck.source@),
{
    "const HEALTHCHECK_TEXT : & 'static str = ".to_owned().concat(
        healthcheck.source.as_str(),
    ).concat(
        " ; fn healthcheck_text () -> :: anyhow :: Result < :: std :: string :: String > { # [derive (:: patterns :: askama :: Template)] # [template (path = ",
    ).concat(healthcheck.source.as_str()).concat(
        " , ext = \"md\" , askama = :: patterns :: askama)] struct Healthcheck ; use :: patterns :: askama :: Template as _ ; Healthcheck . render () . map_err (:: core :: convert :: Into :: into) } fn verify (& self) -> :: anyhow :: Result < () > { Self :: verify (self) }",
    )
}

} // verus!
