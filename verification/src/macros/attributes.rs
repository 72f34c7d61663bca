//! Reading attributes: `#[noul(..)]`, `#[score(..)]` and `#[choice(..)]` of fields, and the
//! `template` and `healthcheck` of containers.

use crate::macros::{
    self, Args, Attribute, ContainerAttribute, Diagnostic, Fault, Literal, Meta, MetaValue, Place,
    Token,
};
use crate::text;
use vstd::prelude::*;

verus! {

broadcast use vstd::seq::group_seq_axioms;

/// `#[score("instructions", "level0", "level1", ...)]`.
#[derive(Debug)]
pub struct ScoreArgs {
    pub instructions: Literal,
    pub levels: Vec<Literal>,
}

/// One `#[choice]` option: bare `name` (undescribed) or `name = "rubric"`.
#[derive(Debug)]
pub struct ChoiceOpt {
    pub name: String,
    pub description: Option<Literal>,
}

/// `#[choice("instructions", name, name = "rubric", ...)]`.
#[derive(Debug)]
pub struct ChoiceArgs {
    pub instructions: Literal,
    pub options: Vec<ChoiceOpt>,
}

/// The question one field declares.
#[derive(Debug)]
pub enum FieldQuestion {
    Noul(Literal),
    Score(ScoreArgs),
    Choice(ChoiceArgs),
}

/// What a [`FieldQuestion`] declares.
pub enum Declared {
    Noul(Literal),
    Score(Literal, Seq<Literal>),
    Choice(Literal, Seq<ChoiceOpt>),
}

impl View for FieldQuestion {
    type V = Declared;

    open spec fn view(&self) -> Declared {
        match *self {
            FieldQuestion::Noul(instructions) => Declared::Noul(instructions),
            FieldQuestion::Score(args) => Declared::Score(args.instructions, args.levels@),
            FieldQuestion::Choice(args) => Declared::Choice(args.instructions, args.options@),
        }
    }
}

/// The answer type that a declared question requires on its field.
pub open spec fn answer_type(q: Declared) -> Seq<char> {
    match q {
        Declared::Noul(_) => "Noul"@,
        Declared::Score(_, _) => "Score"@,
        Declared::Choice(_, _) => "Choice"@,
    }
}

impl FieldQuestion {
    /// The answer type this question requires on the field.
    pub fn expected_type(&self) -> (r: &'static str)
        ensures
            r@ == answer_type(self@),
    {
        match self {
            FieldQuestion::Noul(_) => "Noul",
            FieldQuestion::Score(_) => "Score",
            FieldQuestion::Choice(_) => "Choice",
        }
    }
}

// ---- arguments -----------------------------------------------------------------------------

/// What is wrong in a list of tokens, and at which of them.
pub struct Trouble {
    pub message: Seq<char>,
    pub at: int,
}

/// [`Trouble`], as found.
#[derive(Debug)]
pub struct TokenError {
    pub message: String,
    pub at: usize,
}

impl View for TokenError {
    type V = Trouble;

    open spec fn view(&self) -> Trouble {
        Trouble { message: self.message@, at: self.at as int }
    }
}

/// The string literal at position `i`.
pub open spec fn text_at(tokens: Seq<Token>, i: int) -> Result<Literal, Trouble> {
    if i >= tokens.len() {
        Err(Trouble { message: "unexpected end of input, expected string literal"@, at: i })
    } else {
        match tokens[i] {
            Token::Text(literal) => Ok(literal),
            _ => Err(Trouble { message: "expected string literal"@, at: i }),
        }
    }
}

/// The identifier at position `i`.
pub open spec fn name_at(tokens: Seq<Token>, i: int) -> Result<String, Trouble> {
    if i >= tokens.len() {
        Err(Trouble { message: "unexpected end of input, expected identifier"@, at: i })
    } else {
        match tokens[i] {
            Token::Name(name) => Ok(name),
            _ => Err(Trouble { message: "expected identifier"@, at: i }),
        }
    }
}

/// What a token operation comes to.
pub open spec fn found<T>(r: Result<T, TokenError>) -> Result<T, Trouble> {
    match r {
        Ok(v) => Ok(v),
        Err(e) => Err(e@),
    }
}

fn read_text(tokens: &Vec<Token>, i: usize) -> (r: Result<Literal, TokenError>)
    ensures
        found(r) == text_at(tokens@, i as int),
{
    if i >= tokens.len() {
        return Err(
            TokenError {
                message: "unexpected end of input, expected string literal".to_owned(),
                at: i,
            },
        );
    }
    match &tokens[i] {
        Token::Text(literal) => Ok(literal.clone()),
        _ => Err(TokenError { message: "expected string literal".to_owned(), at: i }),
    }
}

fn read_name(tokens: &Vec<Token>, i: usize) -> (r: Result<String, TokenError>)
    ensures
        found(r) == name_at(tokens@, i as int),
{
    if i >= tokens.len() {
        return Err(
            TokenError {
                message: "unexpected end of input, expected identifier".to_owned(),
                at: i,
            },
        );
    }
    match &tokens[i] {
        Token::Name(name) => Ok(name.clone()),
        _ => Err(TokenError { message: "expected identifier".to_owned(), at: i }),
    }
}

fn is_comma(token: &Token) -> (r: bool)
    ensures
        r == (*token is Comma),
{
    match token {
        Token::Comma => true,
        _ => false,
    }
}

fn is_equals(token: &Token) -> (r: bool)
    ensures
        r == (*token is Equals),
{
    match token {
        Token::Equals => true,
        _ => false,
    }
}

/// The string literals from position `i` on, each behind a comma, with where they end. A comma
/// at the very end is allowed.
pub open spec fn levels_from(tokens: Seq<Token>, i: int) -> Result<(Seq<Literal>, int), Trouble>
    decreases tokens.len() - i,
{
    if i < tokens.len() && tokens[i] is Comma {
        if i + 1 >= tokens.len() {
            Ok((Seq::empty(), i + 1))
        } else {
            match text_at(tokens, i + 1) {
                Err(t) => Err(t),
                Ok(level) => match levels_from(tokens, i + 2) {
                    Err(t) => Err(t),
                    Ok((rest, end)) => Ok((seq![level] + rest, end)),
                },
            }
        }
    } else {
        Ok((Seq::empty(), i))
    }
}

/// The score that a list of tokens declares: instructions, then levels, then nothing.
pub open spec fn score_args(tokens: Seq<Token>) -> Result<(Literal, Seq<Literal>), Trouble> {
    match text_at(tokens, 0) {
        Err(t) => Err(t),
        Ok(instructions) => match levels_from(tokens, 1) {
            Err(t) => Err(t),
            Ok((levels, end)) => if end < tokens.len() {
                Err(Trouble { message: "unexpected token"@, at: end })
            } else {
                Ok((instructions, levels))
            },
        },
    }
}

impl ScoreArgs {
    /// Read the arguments of `#[score(..)]`.
    pub fn parse(tokens: &Vec<Token>) -> (r: Result<ScoreArgs, TokenError>)
        ensures
            match (r, score_args(tokens@)) {
                (Ok(args), Ok((instructions, levels))) => args.instructions == instructions
                    && args.levels@ == levels,
                (Err(e), Err(t)) => e@ == t,
                _ => false,
            },
    {
        let instructions = match read_text(tokens, 0) {
            Ok(instructions) => instructions,
            Err(e) => return Err(e),
        };
        let mut levels: Vec<Literal> = Vec::new();
        let mut i: usize = 1;
        let ghost whole = levels_from(tokens@, 1);
        while i < tokens.len() && is_comma(&tokens[i])
            invariant
                1 <= i <= tokens@.len(),
                text_at(tokens@, 0) == Ok::<Literal, Trouble>(instructions),
                whole == levels_from(tokens@, 1),
                whole == (match levels_from(tokens@, i as int) {
                    Ok((rest, end)) => Ok((levels@ + rest, end)),
                    Err(t) => Err(t),
                }),
            decreases tokens@.len() - i,
        {
            if i + 1 >= tokens.len() {
                i += 1;
                proof {
                    assert(levels_from(tokens@, i as int) == Ok::<(Seq<Literal>, int), Trouble>(
                        (Seq::empty(), i as int),
                    ));
                    assert(levels@ + Seq::<Literal>::empty() =~= levels@);
                }
            } else {
                let ghost before = levels@;
                match read_text(tokens, i + 1) {
                    Ok(level) => levels.push(level),
                    Err(e) => return Err(e),
                }
                proof {
                    if let Ok((rest, end)) = levels_from(tokens@, i + 2) {
                        assert(levels@ + rest =~= before + (seq![levels@.last()] + rest));
                    }
                }
                i += 2;
            }
        }
        assert(levels@ + Seq::<Literal>::empty() =~= levels@);
        if i < tokens.len() {
            return Err(TokenError { message: "unexpected token".to_owned(), at: i });
        }
        Ok(ScoreArgs { instructions, levels })
    }
}

/// The option at position `i`, with where it ends.
pub open spec fn option_at(tokens: Seq<Token>, i: int) -> Result<(ChoiceOpt, int), Trouble> {
    match name_at(tokens, i) {
        Err(t) => Err(t),
        Ok(name) => if i + 1 < tokens.len() && tokens[i + 1] is Equals {
            match text_at(tokens, i + 2) {
                Err(t) => Err(t),
                Ok(description) => Ok(
                    (ChoiceOpt { name, description: Some(description) }, i + 3),
                ),
            }
        } else {
            Ok((ChoiceOpt { name, description: None }, i + 1))
        },
    }
}

/// The options from position `i` on, each behind a comma, with where they end. A comma at the
/// very end is allowed.
pub open spec fn options_from(tokens: Seq<Token>, i: int) -> Result<(Seq<ChoiceOpt>, int), Trouble>
    decreases tokens.len() - i,
{
    if i < tokens.len() && tokens[i] is Comma {
        if i + 1 >= tokens.len() {
            Ok((Seq::empty(), i + 1))
        } else {
            match option_at(tokens, i + 1) {
                Err(t) => Err(t),
                Ok((option, next)) => match options_from(tokens, next) {
                    Err(t) => Err(t),
                    Ok((rest, end)) => Ok((seq![option] + rest, end)),
                },
            }
        }
    } else {
        Ok((Seq::empty(), i))
    }
}

/// The choice that a list of tokens declares: instructions, then options, then nothing.
pub open spec fn choice_args(tokens: Seq<Token>) -> Result<(Literal, Seq<ChoiceOpt>), Trouble> {
    match text_at(tokens, 0) {
        Err(t) => Err(t),
        Ok(instructions) => match options_from(tokens, 1) {
            Err(t) => Err(t),
            Ok((options, end)) => if end < tokens.len() {
                Err(Trouble { message: "unexpected token"@, at: end })
            } else {
                Ok((instructions, options))
            },
        },
    }
}

impl ChoiceOpt {
    /// Read one option, and where it ends.
    pub fn parse(tokens: &Vec<Token>, i: usize) -> (r: Result<(ChoiceOpt, usize), TokenError>)
        ensures
            match (r, option_at(tokens@, i as int)) {
                (Ok((option, next)), Ok((o, n))) => option == o && next == n && i < next
                    && next <= tokens@.len(),
                (Err(e), Err(t)) => e@ == t,
                _ => false,
            },
    {
        let name = match read_name(tokens, i) {
            Ok(name) => name,
            Err(e) => return Err(e),
        };
        if tokens.len() - i > 1 && is_equals(&tokens[i + 1]) {
            match read_text(tokens, i + 2) {
                Ok(description) => Ok(
                    (ChoiceOpt { name, description: Some(description) }, i + 3),
                ),
                Err(e) => Err(e),
            }
        } else {
            Ok((ChoiceOpt { name, description: None }, i + 1))
        }
    }
}

impl ChoiceArgs {
    /// Read the arguments of `#[choice(..)]`.
    pub fn parse(tokens: &Vec<Token>) -> (r: Result<ChoiceArgs, TokenError>)
        ensures
            match (r, choice_args(tokens@)) {
                (Ok(args), Ok((instructions, options))) => args.instructions == instructions
                    && args.options@ == options,
                (Err(e), Err(t)) => e@ == t,
                _ => false,
            },
    {
        let instructions = match read_text(tokens, 0) {
            Ok(instructions) => instructions,
            Err(e) => return Err(e),
        };
        let mut options: Vec<ChoiceOpt> = Vec::new();
        let mut i: usize = 1;
        let ghost whole = options_from(tokens@, 1);
        while i < tokens.len() && is_comma(&tokens[i])
            invariant
                1 <= i <= tokens@.len(),
                text_at(tokens@, 0) == Ok::<Literal, Trouble>(instructions),
                whole == options_from(tokens@, 1),
                whole == (match options_from(tokens@, i as int) {
                    Ok((rest, end)) => Ok((options@ + rest, end)),
                    Err(t) => Err(t),
                }),
            decreases tokens@.len() - i,
        {
            if i + 1 >= tokens.len() {
                i += 1;
                proof {
                    assert(options_from(tokens@, i as int) == Ok::<
                        (Seq<ChoiceOpt>, int),
                        Trouble,
                    >((Seq::empty(), i as int)));
                    assert(options@ + Seq::<ChoiceOpt>::empty() =~= options@);
                }
            } else {
                let ghost before = options@;
                match ChoiceOpt::parse(tokens, i + 1) {
                    Ok((option, next)) => {
                        options.push(option);
                        proof {
                            if let Ok((rest, end)) = options_from(tokens@, next as int) {
                                assert(options@ + rest =~= before + (seq![option] + rest));
                            }
                        }
                        i = next;
                    },
                    Err(e) => return Err(e),
                }
            }
        }
        assert(options@ + Seq::<ChoiceOpt>::empty() =~= options@);
        if i < tokens.len() {
            return Err(TokenError { message: "unexpected token".to_owned(), at: i });
        }
        Ok(ChoiceArgs { instructions, options })
    }
}

/// The one string literal that a list of tokens holds.
pub open spec fn only_text(tokens: Seq<Token>) -> Result<Literal, Trouble> {
    match text_at(tokens, 0) {
        Err(t) => Err(t),
        Ok(literal) => if tokens.len() > 1 {
            Err(Trouble { message: "unexpected token"@, at: 1 })
        } else {
            Ok(literal)
        },
    }
}

fn read_only_text(tokens: &Vec<Token>) -> (r: Result<Literal, TokenError>)
    ensures
        found(r) == only_text(tokens@),
{
    match read_text(tokens, 0) {
        Err(e) => Err(e),
        Ok(literal) => if tokens.len() > 1 {
            Err(TokenError { message: "unexpected token".to_owned(), at: 1 })
        } else {
            Ok(literal)
        },
    }
}

// ---- container attributes ------------------------------------------------------------------

/// Container args: `template = "..."` and, optionally, `healthcheck = "..."`.
#[derive(Debug)]
pub struct ContainerKeys {
    pub template: Literal,
    pub healthcheck: Option<Literal>,
}

/// Container args: `template = "..."` and `healthcheck = "..."`.
#[derive(Debug)]
pub struct Container {
    pub template: Literal,
    pub healthcheck: Literal,
}

/// The keys that the arguments from the `i`-th on add to those already given.
pub open spec fn keys_from(
    metas: Seq<Meta>,
    i: int,
    template: Option<Literal>,
    healthcheck: Option<Literal>,
) -> Result<(Option<Literal>, Option<Literal>), Fault>
    decreases metas.len() - i,
{
    if 0 <= i < metas.len() {
        match metas[i] {
            Meta::Other => Err(
                macros::fault(
                    "expected `template = \"...\"` or `healthcheck = \"...\"`"@,
                    Place::Meta(i as usize),
                ),
            ),
            Meta::Pair { key, value } => match value {
                MetaValue::Text(literal) => if key is Some && key->0@ == "template"@ {
                    if template is Some {
                        Err(macros::fault("duplicate `template`"@, Place::MetaKey(i as usize)))
                    } else {
                        keys_from(metas, i + 1, Some(literal), healthcheck)
                    }
                } else if key is Some && key->0@ == "healthcheck"@ {
                    if healthcheck is Some {
                        Err(macros::fault("duplicate `healthcheck`"@, Place::MetaKey(i as usize)))
                    } else {
                        keys_from(metas, i + 1, template, Some(literal))
                    }
                } else {
                    Err(
                        macros::fault(
                            "unknown key; expected `template` or `healthcheck`"@,
                            Place::MetaKey(i as usize),
                        ),
                    )
                },
                _ => Err(
                    macros::fault("expected a string literal"@, Place::MetaValue(i as usize)),
                ),
            },
        }
    } else {
        Ok((template, healthcheck))
    }
}

/// The keys of a container attribute, of which `template` must be there.
pub open spec fn container_keys(metas: Result<Vec<Meta>, String>) -> Result<ContainerKeys, Fault> {
    match metas {
        Err(message) => Err(macros::fault(message@, Place::Container)),
        Ok(metas) => match keys_from(metas@, 0, None, None) {
            Err(f) => Err(f),
            Ok((None, _)) => Err(macros::fault("missing `template = \"...\"`"@, Place::Container)),
            Ok((Some(template), healthcheck)) => Ok(ContainerKeys { template, healthcheck }),
        },
    }
}

/// The arguments of a container attribute, of which both must be there.
pub open spec fn container(metas: Result<Vec<Meta>, String>) -> Result<Container, Fault> {
    match container_keys(metas) {
        Err(f) => Err(f),
        Ok(keys) => match keys.healthcheck {
            None => Err(
                macros::fault("missing `healthcheck = \"...\"`"@, Place::Container),
            ),
            Some(healthcheck) => Ok(Container { template: keys.template, healthcheck }),
        },
    }
}

fn is_key(key: &Option<String>, name: &str) -> (r: bool)
    ensures
        r == (*key is Some && (*key)->0@ == name@),
{
    match key {
        Some(key) => text::same(key.as_str(), name),
        None => false,
    }
}

/// Read the arguments of a container attribute; `healthcheck` may be missing.
pub fn parse_container_keys(attribute: &ContainerAttribute) -> (r: Result<
    ContainerKeys,
    Diagnostic,
>)
    ensures
        macros::verdict(r) == container_keys(attribute.metas),
{
    let metas = match &attribute.metas {
        Ok(metas) => metas,
        Err(message) => return Err(Diagnostic::new(message.clone(), Place::Container)),
    };
    let mut template: Option<Literal> = None;
    let mut healthcheck: Option<Literal> = None;
    let mut i: usize = 0;
    while i < metas.len()
        invariant
            attribute.metas == Ok::<Vec<Meta>, String>(*metas),
            0 <= i <= metas@.len(),
            keys_from(metas@, 0, None, None) == keys_from(
                metas@,
                i as int,
                template,
                healthcheck,
            ),
        decreases metas@.len() - i,
    {
        match &metas[i] {
            Meta::Other => return Err(
                Diagnostic::new(
                    "expected `template = \"...\"` or `healthcheck = \"...\"`".to_owned(),
                    Place::Meta(i),
                ),
            ),
            Meta::Pair { key, value } => match value {
                MetaValue::Text(literal) => {
                    if is_key(key, "template") {
                        if template.is_some() {
                            return Err(
                                Diagnostic::new(
                                    "duplicate `template`".to_owned(),
                                    Place::MetaKey(i),
                                ),
                            );
                        }
                        template = Some(literal.clone());
                    } else if is_key(key, "healthcheck") {
                        if healthcheck.is_some() {
                            return Err(
                                Diagnostic::new(
                                    "duplicate `healthcheck`".to_owned(),
                                    Place::MetaKey(i),
                                ),
                            );
                        }
                        healthcheck = Some(literal.clone());
                    } else {
                        return Err(
                            Diagnostic::new(
                                "unknown key; expected `template` or `healthcheck`".to_owned(),
                                Place::MetaKey(i),
                            ),
                        );
                    }
                },
                _ => return Err(
                    Diagnostic::new("expected a string literal".to_owned(), Place::MetaValue(i)),
                ),
            },
        }
        i += 1;
    }
    match template {
        Some(template) => Ok(ContainerKeys { template, healthcheck }),
        None => Err(
            Diagnostic::new("missing `template = \"...\"`".to_owned(), Place::Container),
        ),
    }
}

/// Read the arguments of a container attribute; both must be there.
pub fn parse_container(attribute: &ContainerAttribute) -> (r: Result<Container, Diagnostic>)
    ensures
        macros::verdict(r) == container(attribute.metas),
{
    match parse_container_keys(attribute) {
        Err(d) => Err(d),
        Ok(keys) => match keys.healthcheck {
            Some(healthcheck) => Ok(Container { template: keys.template, healthcheck }),
            None => Err(
                Diagnostic::new("missing `healthcheck = \"...\"`".to_owned(), Place::Container),
            ),
        },
    }
}

/// The first attribute from the `i`-th on that is called `name`.
pub open spec fn attribute_from(
    attributes: Seq<ContainerAttribute>,
    name: Seq<char>,
    i: int,
) -> Option<ContainerAttribute>
    decreases attributes.len() - i,
{
    if 0 <= i < attributes.len() {
        if attributes[i].name is Some && attributes[i].name->0@ == name {
            Some(attributes[i])
        } else {
            attribute_from(attributes, name, i + 1)
        }
    } else {
        None
    }
}

/// The first attribute that is called `name`.
pub fn find_attribute<'a>(attributes: &'a Vec<ContainerAttribute>, name: &str) -> (r: Option<
    &'a ContainerAttribute,
>)
    ensures
        match attribute_from(attributes@, name@, 0) {
            Some(a) => r matches Some(x) && *x == a,
            None => r is None,
        },
{
    let mut i: usize = 0;
    while i < attributes.len()
        invariant
            0 <= i <= attributes@.len(),
            attribute_from(attributes@, name@, 0) == attribute_from(
                attributes@,
                name@,
                i as int,
            ),
        decreases attributes@.len() - i,
    {
        if is_key(&attributes[i].name, name) {
            return Some(&attributes[i]);
        }
        i += 1;
    }
    None
}

// ---- field attributes ----------------------------------------------------------------------

/// Whether `attribute` is called `name`.
pub open spec fn called(attribute: Attribute, name: Seq<char>) -> bool {
    attribute.name is Some && attribute.name->0@ == name
}

/// The question that attribute number `i` of a field declares; `None` where it is not ours.
pub open spec fn attribute_question(attribute: Attribute, i: usize) -> Option<
    Result<Declared, Fault>,
> {
    if called(attribute, "noul"@) {
        Some(
            match attribute.args {
                Args::Absent => Err(
                    macros::fault(
                        "expected #[noul(\"instructions\")]: "@
                            + "expected attribute arguments in parentheses: #[noul(...)]"@,
                        Place::Attribute(i),
                    ),
                ),
                Args::Value => Err(
                    macros::fault(
                        "expected #[noul(\"instructions\")]: "@
                            + "expected parentheses: #[noul(...)]"@,
                        Place::Attribute(i),
                    ),
                ),
                Args::List(tokens) => match only_text(tokens@) {
                    Ok(instructions) => Ok(Declared::Noul(instructions)),
                    Err(t) => Err(
                        macros::fault(
                            "expected #[noul(\"instructions\")]: "@ + t.message,
                            Place::Attribute(i),
                        ),
                    ),
                },
            },
        )
    } else if called(attribute, "score"@) {
        Some(
            match attribute.args {
                Args::Absent => Err(
                    macros::fault(
                        "expected attribute arguments in parentheses: #[score(...)]"@,
                        Place::Attribute(i),
                    ),
                ),
                Args::Value => Err(
                    macros::fault("expected parentheses: #[score(...)]"@, Place::Attribute(i)),
                ),
                Args::List(tokens) => match score_args(tokens@) {
                    Ok((instructions, levels)) => Ok(Declared::Score(instructions, levels)),
                    Err(t) => Err(macros::fault(t.message, Place::Argument(i, t.at as usize))),
                },
            },
        )
    } else if called(attribute, "choice"@) {
        Some(
            match attribute.args {
                Args::Absent => Err(
                    macros::fault(
                        "expected attribute arguments in parentheses: #[choice(...)]"@,
                        Place::Attribute(i),
                    ),
                ),
                Args::Value => Err(
                    macros::fault("expected parentheses: #[choice(...)]"@, Place::Attribute(i)),
                ),
                Args::List(tokens) => match choice_args(tokens@) {
                    Ok((instructions, options)) => Ok(Declared::Choice(instructions, options)),
                    Err(t) => Err(macros::fault(t.message, Place::Argument(i, t.at as usize))),
                },
            },
        )
    } else {
        None
    }
}

/// What reading a question comes to.
pub open spec fn question_outcome(r: Result<FieldQuestion, Diagnostic>) -> Result<
    Declared,
    Fault,
> {
    match r {
        Ok(q) => Ok(q@),
        Err(d) => Err(d@),
    }
}

/// Read the question that attribute number `i` of a field declares, if it is one of ours.
pub fn read_question(attribute: &Attribute, i: usize) -> (r: Option<
    Result<FieldQuestion, Diagnostic>,
>)
    ensures
        match attribute_question(*attribute, i) {
            Some(q) => r matches Some(x) && question_outcome(x) == q,
            None => r is None,
        },
{
    if is_key(&attribute.name, "noul") {
        let message = match &attribute.args {
            Args::Absent => "expected attribute arguments in parentheses: #[noul(...)]".to_owned(),
            Args::Value => "expected parentheses: #[noul(...)]".to_owned(),
            Args::List(tokens) => match read_only_text(tokens) {
                Ok(instructions) => return Some(Ok(FieldQuestion::Noul(instructions))),
                Err(e) => e.message,
            },
        };
        Some(
            Err(
                Diagnostic::new(
                    "expected #[noul(\"instructions\")]: ".to_owned().concat(message.as_str()),
                    Place::Attribute(i),
                ),
            ),
        )
    } else if is_key(&attribute.name, "score") {
        Some(
            match &attribute.args {
                Args::Absent => Err(
                    Diagnostic::new(
                        "expected attribute arguments in parentheses: #[score(...)]".to_owned(),
                        Place::Attribute(i),
                    ),
                ),
                Args::Value => Err(
                    Diagnostic::new(
                        "expected parentheses: #[score(...)]".to_owned(),
                        Place::Attribute(i),
                    ),
                ),
                Args::List(tokens) => match ScoreArgs::parse(tokens) {
                    Ok(args) => Ok(FieldQuestion::Score(args)),
                    Err(e) => Err(Diagnostic::new(e.message, Place::Argument(i, e.at))),
                },
            },
        )
    } else if is_key(&attribute.name, "choice") {
        Some(
            match &attribute.args {
                Args::Absent => Err(
                    Diagnostic::new(
                        "expected attribute arguments in parentheses: #[choice(...)]".to_owned(),
                        Place::Attribute(i),
                    ),
                ),
                Args::Value => Err(
                    Diagnostic::new(
                        "expected parentheses: #[choice(...)]".to_owned(),
                        Place::Attribute(i),
                    ),
                ),
                Args::List(tokens) => match ChoiceArgs::parse(tokens) {
                    Ok(args) => Ok(FieldQuestion::Choice(args)),
                    Err(e) => Err(Diagnostic::new(e.message, Place::Argument(i, e.at))),
                },
            },
        )
    } else {
        None
    }
}

} // verus!
