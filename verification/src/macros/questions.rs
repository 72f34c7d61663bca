//! The question a field declares, and the map entry generated for it.

use crate::macros::attributes::{self, ChoiceOpt, Declared, FieldQuestion};
use crate::macros::{self, Attribute, Diagnostic, Fault, Field, Literal, Place};
use crate::text;
use vstd::prelude::*;

verus! {

broadcast use vstd::seq::group_seq_axioms;

// ---- the question --------------------------------------------------------------------------

/// The question that the attributes from the `i`-th on declare, besides the one already found.
pub open spec fn question_from(
    attributes: Seq<Attribute>,
    i: int,
    found: Option<Declared>,
) -> Result<Option<Declared>, Fault>
    decreases attributes.len() - i,
{
    if 0 <= i < attributes.len() {
        match attributes::attribute_question(attributes[i], i as usize) {
            None => question_from(attributes, i + 1, found),
            Some(Err(f)) => Err(f),
            Some(Ok(q)) => if found is Some {
                Err(
                    macros::fault(
                        "field has more than one question attribute"@,
                        Place::Attribute(i as usize),
                    ),
                )
            } else {
                question_from(attributes, i + 1, Some(q))
            },
        }
    } else {
        Ok(found)
    }
}

/// The question that a field declares: exactly one, of the kind that its type answers. A type
/// that is no path is not looked at.
pub open spec fn question_of(field: Field) -> Result<Declared, Fault> {
    match question_from(field.attributes@, 0, None) {
        Err(f) => Err(f),
        Ok(None) => Err(
            macros::fault(
                "field needs exactly one of #[noul(..)], #[choice(..)], #[score(..)]"@,
                Place::Field,
            ),
        ),
        Ok(Some(q)) => if field.ty is Some && field.ty->0@ != attributes::answer_type(q) {
            Err(
                macros::fault(
                    "question kind needs field type `"@ + attributes::answer_type(q)
                        + "`, found `"@ + field.ty->0@ + "`"@,
                    Place::FieldType,
                ),
            )
        } else {
            Ok(q)
        },
    }
}

/// What an optional question declares.
pub open spec fn declared(question: Option<FieldQuestion>) -> Option<Declared> {
    match question {
        Some(q) => Some(q@),
        None => None,
    }
}

/// Extract the question attribute from a field; error on none, duplicates, or mismatched field
/// type. Foreign attributes are ignored.
pub fn field_question(field: &Field) -> (r: Result<FieldQuestion, Diagnostic>)
    ensures
        attributes::question_outcome(r) == question_of(*field),
{
    let mut question: Option<FieldQuestion> = None;
    let mut i: usize = 0;
    while i < field.attributes.len()
        invariant
            0 <= i <= field.attributes@.len(),
            question_from(field.attributes@, 0, None) == question_from(
                field.attributes@,
                i as int,
                declared(question),
            ),
        decreases field.attributes@.len() - i,
    {
        match attributes::read_question(&field.attributes[i], i) {
            None => {},
            Some(Err(d)) => return Err(d),
            Some(Ok(q)) => {
                if question.is_some() {
                    return Err(
                        Diagnostic::new(
                            "field has more than one question attribute".to_owned(),
                            Place::Attribute(i),
                        ),
                    );
                }
                question = Some(q);
            },
        }
        i += 1;
    }
    let question = match question {
        Some(question) => question,
        None => return Err(
            Diagnostic::new(
                "field needs exactly one of #[noul(..)], #[choice(..)], #[score(..)]".to_owned(),
                Place::Field,
            ),
        ),
    };
    if let Some(actual) = &field.ty {
        let expected = question.expected_type();
        if !text::same(actual.as_str(), expected) {
            return Err(
                Diagnostic::new(
                    "question kind needs field type `".to_owned().concat(expected).concat(
                        "`, found `",
                    ).concat(actual.as_str()).concat("`"),
                    Place::FieldType,
                ),
            );
        }
    }
    Ok(question)
}

// ---- the map entry -------------------------------------------------------------------------

/// How the literals are written.
pub open spec fn sources(list: Seq<Literal>) -> Seq<Seq<char>> {
    list.map_values(|l: Literal| l.source@)
}

/// A choice's option, as a pair of its name and its description, if it has one.
pub open spec fn option_source(option: ChoiceOpt) -> Seq<char> {
    "(:: std :: string :: String :: from (:: std :: stringify ! ("@ + option.name@ + ")) , "@
        + match option.description {
        None => ":: core :: option :: Option :: None"@,
        Some(description) => ":: core :: option :: Option :: Some ("@ + description.source@ + ")"@,
    } + ")"@
}

/// A choice's options.
pub open spec fn option_sources(options: Seq<ChoiceOpt>) -> Seq<Seq<char>> {
    options.map_values(|o: ChoiceOpt| option_source(o))
}

/// The expression that builds a declared question.
pub open spec fn question_source(q: Declared) -> Seq<char> {
    match q {
        Declared::Noul(instructions) => ":: patterns :: systemone :: noul ("@ + instructions.source@
            + ")"@,
        Declared::Score(instructions, levels) => ":: patterns :: systemone :: score ("@
            + instructions.source@ + " , ["@ + text::joined(sources(levels), " , "@) + "])"@,
        Declared::Choice(instructions, options) => ":: patterns :: systemone :: choice ("@
            + instructions.source@ + " , ["@ + text::joined(option_sources(options), " , "@)
            + "])"@,
    }
}

/// The map entry of a question under its id.
pub open spec fn entry_source(id: Seq<char>, q: Declared) -> Seq<char> {
    "(:: std :: string :: String :: from (:: std :: stringify ! ("@ + id + ")) , "@
        + question_source(q) + " ,)"@
}

/// Whether option `k` is called like an earlier one.
pub open spec fn repeats(options: Seq<ChoiceOpt>, k: int) -> bool {
    exists|j: int| 0 <= j < k && (#[trigger] options[j]).name@ == options[k].name@
}

/// The first option from the `k`-th on that is called like an earlier one.
pub open spec fn repeated_from(options: Seq<ChoiceOpt>, k: int) -> Option<int>
    decreases options.len() - k,
{
    if 0 <= k < options.len() {
        if repeats(options, k) {
            Some(k)
        } else {
            repeated_from(options, k + 1)
        }
    } else {
        None
    }
}

/// Why a declared question cannot be asked, if it cannot: a score needs two levels, a choice two
/// options, all called differently.
pub open spec fn askable(q: Declared) -> Result<(), Fault> {
    match q {
        Declared::Noul(_) => Ok(()),
        Declared::Score(_, levels) => if levels.len() < 2 {
            Err(macros::fault("#[score(..)] needs at least two levels"@, Place::Field))
        } else {
            Ok(())
        },
        Declared::Choice(_, options) => if options.len() < 2 {
            Err(macros::fault("#[choice(..)] needs at least two options"@, Place::Field))
        } else {
            match repeated_from(options, 0) {
                Some(k) => Err(
                    macros::fault(
                        "duplicate option `"@ + options[k].name@ + "`"@,
                        Place::ChoiceOption(k as usize),
                    ),
                ),
                None => Ok(()),
            }
        },
    }
}

/// The map entry of a field, or what is wrong with the field.
pub open spec fn entry_of(field: Field) -> Result<Seq<char>, Fault> {
    match field.name {
        None => Err(macros::fault("field needs a name"@, Place::Field)),
        Some(id) => match question_of(field) {
            Err(f) => Err(f),
            Ok(q) => match askable(q) {
                Err(f) => Err(f),
                Ok(_) => Ok(entry_source(id@, q)),
            },
        },
    }
}

fn join_sources(list: &Vec<Literal>) -> (r: String)
    ensures
        r@ == text::joined(sources(list@), " , "@),
{
    let ghost all = sources(list@);
    let mut out: Vec<String> = Vec::new();
    let mut i: usize = 0;
    while i < list.len()
        invariant
            all == sources(list@),
            0 <= i <= list@.len(),
            text::texts(out@) == all.take(i as int),
        decreases list@.len() - i,
    {
        let ghost before = out@;
        out.push(list[i].source.clone());
        proof {
            assert(text::texts(out@) =~= text::texts(before).push(list@[i as int].source@));
            assert(all.take(i + 1) =~= all.take(i as int).push(all[i as int]));
        }
        i += 1;
    }
    assert(all.take(i as int) =~= all);
    text::join(&out, " , ")
}

fn write_option(option: &ChoiceOpt) -> (r: String)
    ensures
        r@ == option_source(*option),
{
    let head = "(:: std :: string :: String :: from (:: std :: stringify ! (".to_owned().concat(
        option.name.as_str(),
    ).concat(")) , ");
    let value = match &option.description {
        None => ":: core :: option :: Option :: None".to_owned(),
        Some(description) => ":: core :: option :: Option :: Some (".to_owned().concat(
            description.source.as_str(),
        ).concat(")"),
    };
    head.concat(value.as_str()).concat(")")
}

fn join_options(options: &Vec<ChoiceOpt>) -> (r: String)
    ensures
        r@ == text::joined(option_sources(options@), " , "@),
{
    let ghost all = option_sources(options@);
    let mut out: Vec<String> = Vec::new();
    let mut i: usize = 0;
    while i < options.len()
        invariant
            all == option_sources(options@),
            0 <= i <= options@.len(),
            text::texts(out@) == all.take(i as int),
        decreases options@.len() - i,
    {
        let ghost before = out@;
        let option = write_option(&options[i]);
        out.push(option);
        proof {
            assert(text::texts(out@) =~= text::texts(before).push(option@));
            assert(all.take(i + 1) =~= all.take(i as int).push(all[i as int]));
        }
        i += 1;
    }
    assert(all.take(i as int) =~= all);
    text::join(&out, " , ")
}

fn find_repeated(options: &Vec<ChoiceOpt>) -> (r: Option<usize>)
    ensures
        match repeated_from(options@, 0) {
            Some(k) => 0 <= k < options@.len() && r == Some(k as usize),
            None => r is None,
        },
{
    let mut k: usize = 0;
    while k < options.len()
        invariant
            0 <= k <= options@.len(),
            repeated_from(options@, 0) == repeated_from(options@, k as int),
        decreases options@.len() - k,
    {
        let mut j: usize = 0;
        while j < k
            invariant
                0 <= j <= k < options@.len(),
                repeated_from(options@, 0) == repeated_from(options@, k as int),
                forall|l: int| 0 <= l < j ==> (#[trigger] options@[l]).name@ != options@[k as int].name@,
            decreases k - j,
        {
            if text::same(options[j].name.as_str(), options[k].name.as_str()) {
                assert(options@[j as int].name@ == options@[k as int].name@);
                assert(repeats(options@, k as int));
                return Some(k);
            }
            j += 1;
        }
        assert(!repeats(options@, k as int));
        k += 1;
    }
    None
}

fn check_askable(question: &FieldQuestion) -> (r: Result<(), Diagnostic>)
    ensures
        macros::verdict(r) == askable(question@),
{
    match question {
        FieldQuestion::Noul(_) => Ok(()),
        FieldQuestion::Score(args) => {
            if args.levels.len() < 2 {
                Err(
                    Diagnostic::new(
                        "#[score(..)] needs at least two levels".to_owned(),
                        Place::Field,
                    ),
                )
            } else {
                Ok(())
            }
        },
        FieldQuestion::Choice(args) => {
            if args.options.len() < 2 {
                return Err(
                    Diagnostic::new(
                        "#[choice(..)] needs at least two options".to_owned(),
                        Place::Field,
                    ),
                );
            }
            match find_repeated(&args.options) {
                Some(k) => Err(
                    Diagnostic::new(
                        "duplicate option `".to_owned().concat(
                            args.options[k].name.as_str(),
                        ).concat("`"),
                        Place::ChoiceOption(k),
                    ),
                ),
                None => Ok(()),
            }
        },
    }
}

fn write_question(question: &FieldQuestion) -> (r: String)
    ensures
        r@ == question_source(question@),
{
    match question {
        FieldQuestion::Noul(instructions) => ":: patterns :: systemone :: noul (".to_owned().concat(
            instructions.source.as_str(),
        ).concat(")"),
        FieldQuestion::Score(args) => ":: patterns :: systemone :: score (".to_owned().concat(
            args.instructions.source.as_str(),
        ).concat(" , [").concat(join_sources(&args.levels).as_str()).concat("])"),
        FieldQuestion::Choice(args) => ":: patterns :: systemone :: choice (".to_owned().concat(
            args.instructions.source.as_str(),
        ).concat(" , [").concat(join_options(&args.options).as_str()).concat("])"),
    }
}

/// Build the `(id, question)` map entry for one field, validating kind-specific rules (score
/// levels, choice options, duplicates).
pub fn build_entry(field: &Field) -> (r: Result<String, Diagnostic>)
    ensures
        macros::text_verdict(r) == entry_of(*field),
{
    let id = match &field.name {
        Some(id) => id,
        None => return Err(Diagnostic::new("field needs a name".to_owned(), Place::Field)),
    };
    let question = match field_question(field) {
        Ok(question) => question,
        Err(d) => return Err(d),
    };
    if let Err(d) = check_askable(&question) {
        return Err(d);
    }
    Ok(
        "(:: std :: string :: String :: from (:: std :: stringify ! (".to_owned().concat(
            id.as_str(),
        ).concat(")) , ").concat(write_question(&question).as_str()).concat(" ,)"),
    )
}

} // verus!
