//! What the derives accept, and what they generate.

use patterns::macros::attributes::{
    find_attribute, parse_container, parse_container_keys, ChoiceArgs, ChoiceOpt, FieldQuestion,
    ScoreArgs,
};
use patterns::macros::codegen::{healthcheck_methods, render_fn};
use patterns::macros::extractable::expand_extractable;
use patterns::macros::questions::{build_entry, field_question};
use patterns::macros::systemone::expand;
use patterns::macros::{
    Args, Attribute, ContainerAttribute, DeriveInput, Field, Literal, Meta, MetaValue, Place,
    Shape, Token,
};

fn literal(value: &str) -> Literal {
    Literal {
        value: value.to_owned(),
        source: format!("{value:?}"),
    }
}

fn lit(value: &str) -> Token {
    Token::Text(literal(value))
}

fn name(value: &str) -> Token {
    Token::Name(value.to_owned())
}

fn pair(key: &str, value: &str) -> Meta {
    Meta::Pair {
        key: Some(key.to_owned()),
        value: MetaValue::Text(literal(value)),
    }
}

fn container(name: &str, metas: Vec<Meta>) -> ContainerAttribute {
    ContainerAttribute {
        name: Some(name.to_owned()),
        metas: Ok(metas),
    }
}

/// `#[name(args)]`, the arguments with commas between them.
fn question(name: &str, args: Vec<Token>) -> Attribute {
    Attribute {
        name: Some(name.to_owned()),
        args: Args::List(args),
    }
}

fn field(attributes: Vec<Attribute>, ty: &str) -> Field {
    Field {
        name: Some("a".to_owned()),
        ty: Some(ty.to_owned()),
        attributes,
    }
}

fn noul_field() -> Field {
    field(vec![question("noul", vec![lit("q")])], "Noul")
}

fn input(attributes: Vec<ContainerAttribute>, shape: Shape) -> DeriveInput {
    DeriveInput {
        name: "Probe".to_owned(),
        generic: false,
        attributes,
        shape,
    }
}

fn template() -> ContainerAttribute {
    container("systemone", vec![pair("template", "t.md")])
}

// ---- containers ----------------------------------------------------------------------------

#[test]
fn parses_template_and_healthcheck() {
    let attr = container(
        "systemone",
        vec![pair("template", "t.md"), pair("healthcheck", "hc.md")],
    );
    let container = parse_container(&attr).expect("valid");
    assert_eq!(container.template.value, "t.md");
    assert_eq!(container.healthcheck.value, "hc.md");
}

#[test]
fn rejects_missing_healthcheck() {
    let err = parse_container(&template()).expect_err("must fail");
    assert!(err.message().contains("missing `healthcheck"), "{err:?}");
    assert_eq!(err.at, Place::Container);
    let keys = parse_container_keys(&template()).expect("optional here");
    assert!(keys.healthcheck.is_none());
}

#[test]
fn rejects_missing_template() {
    let attr = container("systemone", vec![pair("healthcheck", "hc.md")]);
    let err = parse_container(&attr).expect_err("must fail");
    assert!(err.message().contains("missing `template"), "{err:?}");
}

#[test]
fn rejects_unknown_key() {
    let attr = container("systemone", vec![pair("template", "t.md"), pair("boom", "x")]);
    let err = parse_container(&attr).expect_err("must fail");
    assert!(err.message().contains("unknown key"), "{err:?}");
    assert_eq!(err.at, Place::MetaKey(1));
}

#[test]
fn rejects_duplicate_key() {
    let attr = container("systemone", vec![pair("template", "a"), pair("template", "b")]);
    let err = parse_container(&attr).expect_err("must fail");
    assert!(err.message().contains("duplicate `template`"), "{err:?}");
    let attr = container(
        "systemone",
        vec![pair("healthcheck", "a"), pair("healthcheck", "b")],
    );
    let err = parse_container(&attr).expect_err("must fail");
    assert_eq!(err.message(), "duplicate `healthcheck`");
}

#[test]
fn rejects_non_string_value() {
    for value in [MetaValue::OtherLiteral, MetaValue::Expression] {
        let meta = Meta::Pair {
            key: Some("template".to_owned()),
            value,
        };
        let attr = container("systemone", vec![meta]);
        let err = parse_container(&attr).expect_err("must fail");
        assert!(err.message().contains("string literal"), "{err:?}");
        assert_eq!(err.at, Place::MetaValue(0));
    }
}

#[test]
fn rejects_arguments_that_are_no_pairs() {
    let attr = container("systemone", vec![Meta::Other]);
    let err = parse_container(&attr).expect_err("must fail");
    assert_eq!(
        err.message(),
        "expected `template = \"...\"` or `healthcheck = \"...\"`"
    );
    let attr = ContainerAttribute {
        name: Some("systemone".to_owned()),
        metas: Err("expected `,`".to_owned()),
    };
    let err = parse_container(&attr).expect_err("must fail");
    assert_eq!(err.message(), "expected `,`");
}

#[test]
fn the_first_attribute_of_a_name_counts() {
    let attributes = vec![
        container("serde", vec![]),
        container("systemone", vec![pair("template", "first")]),
        container("systemone", vec![pair("template", "second")]),
    ];
    let found = find_attribute(&attributes, "systemone").expect("there is one");
    let keys = parse_container_keys(found).expect("valid");
    assert_eq!(keys.template.value, "first");
    assert!(find_attribute(&attributes, "extract").is_none());
}

// ---- generated functions -------------------------------------------------------------------

#[test]
fn healthcheck_methods_emit_render_and_verify() {
    let tokens = healthcheck_methods(&literal("hc.md"));
    assert!(tokens.contains("healthcheck_text"));
    assert!(tokens.contains("askama"));
    assert!(tokens.contains("fn verify"));
}

#[test]
fn render_fn_emits_local_template_struct() {
    let tokens = render_fn("render_state", &literal("t.md"), &["text", "prompt_context"]);
    assert!(tokens.contains("struct Input"), "{tokens}");
    assert!(tokens.contains("text"), "{tokens}");
    assert!(tokens.contains("prompt_context"), "{tokens}");
    assert!(tokens.contains("askama :: Template"), "{tokens}");
}

/// Drop the spaces that only part tokens.
fn squeezed(source: &str) -> String {
    source.split_whitespace().collect::<Vec<_>>().concat()
}

#[test]
fn render_fn_emits_rust() {
    let tokens = render_fn("render", &literal("t.md"), &["text", "ctx"]);
    let expected = r#"
        fn render(text: &str, ctx: &str) -> ::anyhow::Result<String> {
            #[derive(::patterns::askama::Template)]
            #[template(path = "t.md", ext = "md", askama = ::patterns::askama)]
            struct Input<'a> { text: &'a str, ctx: &'a str, }
            use ::patterns::askama::Template as _;
            Input { text, ctx }.render().map_err(::core::convert::Into::into)
        }
    "#;
    assert_eq!(squeezed(&tokens), squeezed(expected));
    assert!(syn::parse_str::<syn::ItemFn>(&tokens).is_ok(), "{tokens}");
}

// ---- fields --------------------------------------------------------------------------------

#[test]
fn field_question_requires_attr() {
    let err = field_question(&field(vec![], "Noul")).expect_err("must fail");
    assert!(err.message().contains("exactly one of"), "{err:?}");
    assert_eq!(err.at, Place::Field);
}

#[test]
fn field_question_rejects_type_mismatch() {
    let field = field(vec![question("noul", vec![lit("q")])], "Score");
    let err = field_question(&field).expect_err("must fail");
    assert!(
        err.message().contains("needs field type `Noul`"),
        "{err:?}"
    );
    assert_eq!(
        err.message(),
        "question kind needs field type `Noul`, found `Score`"
    );
}

#[test]
fn field_question_rejects_duplicate_attrs() {
    let field = field(
        vec![
            question("noul", vec![lit("a")]),
            question("noul", vec![lit("b")]),
        ],
        "Noul",
    );
    let err = field_question(&field).expect_err("must fail");
    assert!(err.message().contains("more than one"), "{err:?}");
    assert_eq!(err.at, Place::Attribute(1));
}

#[test]
fn foreign_attributes_and_types_are_ignored() {
    let foreign = Attribute {
        name: None,
        args: Args::Absent,
    };
    let serde = question("serde", vec![Token::Other]);
    let field = Field {
        name: Some("a".to_owned()),
        ty: None,
        attributes: vec![foreign, serde, question("noul", vec![lit("q")])],
    };
    match field_question(&field).expect("one question") {
        FieldQuestion::Noul(instructions) => assert_eq!(instructions.value, "q"),
        other => panic!("{other:?}"),
    }
}

#[test]
fn malformed_arguments_are_rejected() {
    let message = |attribute: Attribute| {
        field_question(&field(vec![attribute], "Noul"))
            .expect_err("must fail")
            .message
    };
    let bare = |name: &str, args| Attribute {
        name: Some(name.to_owned()),
        args,
    };
    assert_eq!(
        message(bare("noul", Args::Absent)),
        "expected #[noul(\"instructions\")]: expected attribute arguments in parentheses: #[noul(...)]"
    );
    assert_eq!(
        message(bare("score", Args::Value)),
        "expected parentheses: #[score(...)]"
    );
    assert_eq!(
        message(question("noul", vec![])),
        "expected #[noul(\"instructions\")]: unexpected end of input, expected string literal"
    );
    assert_eq!(
        message(question("noul", vec![lit("a"), Token::Comma])),
        "expected #[noul(\"instructions\")]: unexpected token"
    );
    assert_eq!(
        message(question("score", vec![lit("a"), Token::Comma, name("b")])),
        "expected string literal"
    );
    assert_eq!(
        message(question("choice", vec![lit("a"), Token::Comma, lit("b")])),
        "expected identifier"
    );
    assert_eq!(
        message(question(
            "choice",
            vec![lit("a"), Token::Comma, name("b"), Token::Equals]
        )),
        "unexpected end of input, expected string literal"
    );
}

#[test]
fn score_arguments_may_end_in_a_comma() {
    let tokens = vec![
        lit("s"),
        Token::Comma,
        lit("low"),
        Token::Comma,
        lit("high"),
        Token::Comma,
    ];
    let args = ScoreArgs::parse(&tokens).expect("valid");
    assert_eq!(args.instructions.value, "s");
    let levels: Vec<&str> = args.levels.iter().map(|l| l.value.as_str()).collect();
    assert_eq!(levels, vec!["low", "high"]);

    let tokens = vec![lit("s"), lit("low")];
    let error = ScoreArgs::parse(&tokens).expect_err("no comma");
    assert_eq!((error.message.as_str(), error.at), ("unexpected token", 1));
}

#[test]
fn choice_arguments_keep_descriptions() {
    let tokens = vec![
        lit("c"),
        Token::Comma,
        name("a"),
        Token::Comma,
        name("b"),
        Token::Equals,
        lit("desc"),
    ];
    let args = ChoiceArgs::parse(&tokens).expect("valid");
    assert_eq!(args.options.len(), 2);
    assert_eq!(args.options[0].name, "a");
    assert!(args.options[0].description.is_none());
    assert_eq!(args.options[1].name, "b");
    assert_eq!(
        args.options[1].description.as_ref().map(|d| d.value.as_str()),
        Some("desc")
    );
}

// ---- entries -------------------------------------------------------------------------------

#[test]
fn build_entry_rejects_short_score() {
    let field = field(
        vec![question("score", vec![lit("s"), Token::Comma, lit("only")])],
        "Score",
    );
    let err = build_entry(&field).expect_err("must fail");
    assert!(err.message().contains("at least two levels"), "{err:?}");
}

#[test]
fn build_entry_rejects_short_choice() {
    let field = field(
        vec![question("choice", vec![lit("c"), Token::Comma, name("only")])],
        "Choice",
    );
    let err = build_entry(&field).expect_err("must fail");
    assert!(err.message().contains("at least two options"), "{err:?}");
}

#[test]
fn options_are_read_one_at_a_time() {
    let tokens = vec![name("a"), Token::Equals, lit("first"), Token::Comma, name("b")];
    let (option, next) = ChoiceOpt::parse(&tokens, 0).expect("an option");
    assert_eq!(option.name, "a");
    assert_eq!(option.description.expect("described").value, "first");
    assert_eq!(next, 3);
    let (option, next) = ChoiceOpt::parse(&tokens, 4).expect("an option");
    assert_eq!(option.name, "b");
    assert!(option.description.is_none());
    assert_eq!(next, 5);
    for at in [5, 9, usize::MAX] {
        let error = ChoiceOpt::parse(&tokens, at).expect_err("nothing is left");
        assert_eq!(
            error.message,
            "unexpected end of input, expected identifier"
        );
        assert_eq!(error.at, at);
    }
}

#[test]
fn build_entry_rejects_duplicate_option() {
    let field = field(
        vec![question(
            "choice",
            vec![lit("c"), Token::Comma, name("a"), Token::Comma, name("a")],
        )],
        "Choice",
    );
    let err = build_entry(&field).expect_err("must fail");
    assert!(err.message().contains("duplicate option"), "{err:?}");
    assert_eq!(err.at, Place::ChoiceOption(1));
}

fn valid_choice() -> Field {
    field(
        vec![question(
            "choice",
            vec![
                lit("c"),
                Token::Comma,
                name("a"),
                Token::Comma,
                name("b"),
                Token::Equals,
                lit("desc"),
            ],
        )],
        "Choice",
    )
}

#[test]
fn build_entry_accepts_valid_choice() {
    assert!(build_entry(&valid_choice()).is_ok());
}

#[test]
fn build_entry_emits_rust() {
    let entry = build_entry(&valid_choice()).expect("valid");
    let expected = r#"(
        ::std::string::String::from(::std::stringify!(a)),
        ::patterns::systemone::choice("c", [
            (::std::string::String::from(::std::stringify!(a)), ::core::option::Option::None),
            (::std::string::String::from(::std::stringify!(b)), ::core::option::Option::Some("desc"))
        ]),
    )"#;
    assert_eq!(squeezed(&entry), squeezed(expected));
    assert!(syn::parse_str::<syn::Expr>(&entry).is_ok(), "{entry}");

    let score = field(
        vec![question(
            "score",
            vec![lit("s"), Token::Comma, lit("x"), Token::Comma, lit("y")],
        )],
        "Score",
    );
    let entry = build_entry(&score).expect("valid");
    let expected = r#"(
        ::std::string::String::from(::std::stringify!(a)),
        ::patterns::systemone::score("s", ["x", "y"]),
    )"#;
    assert_eq!(squeezed(&entry), squeezed(expected));
}

#[test]
fn fields_need_a_name() {
    let mut field = noul_field();
    field.name = None;
    let err = build_entry(&field).expect_err("must fail");
    assert_eq!(err.message(), "field needs a name");
}

// ---- whole structs -------------------------------------------------------------------------

#[test]
fn systemone_rejects_generics() {
    let mut input = input(vec![template()], Shape::Named(vec![noul_field()]));
    input.generic = true;
    let err = expand(&input).expect_err("must fail");
    assert!(
        err.message().contains("does not support generics"),
        "{err:?}"
    );
}

#[test]
fn systemone_rejects_tuple_struct() {
    let err = expand(&input(vec![template()], Shape::Unnamed)).expect_err("must fail");
    assert!(err.message().contains("named fields"), "{err:?}");
}

#[test]
fn systemone_rejects_enum() {
    let err = expand(&input(vec![template()], Shape::Other)).expect_err("must fail");
    assert_eq!(err.message(), "#[derive(SystemOne)] needs a struct");
}

#[test]
fn systemone_rejects_empty_struct() {
    let err = expand(&input(vec![template()], Shape::Named(vec![]))).expect_err("must fail");
    assert!(err.message().contains("needs fields"), "{err:?}");
}

#[test]
fn systemone_requires_container_attr() {
    let err =
        expand(&input(vec![], Shape::Named(vec![noul_field()]))).expect_err("must fail");
    assert!(err.message().contains("missing #[systemone"), "{err:?}");
}

#[test]
fn systemone_says_which_field_is_wrong() {
    let fields = vec![noul_field(), field(vec![], "Noul")];
    let err = expand(&input(vec![template()], Shape::Named(fields))).expect_err("must fail");
    assert_eq!(err.field, Some(1));
    assert_eq!(err.at, Place::Field);
}

#[test]
fn systemone_expands_valid() {
    let attr = container(
        "systemone",
        vec![pair("template", "t.md"), pair("healthcheck", "hc")],
    );
    let tokens = expand(&input(vec![attr], Shape::Named(vec![noul_field()]))).expect("expand");
    assert!(tokens.contains("Questions"));
    assert!(tokens.contains("Evaluatable"));
    let file = syn::parse_str::<syn::File>(&tokens).expect("Rust");
    assert_eq!(file.items.len(), 2);
}

#[test]
fn systemone_expands_without_healthcheck() {
    let tokens =
        expand(&input(vec![template()], Shape::Named(vec![noul_field()]))).expect("expand");
    assert!(!tokens.contains("Evaluatable"));
    let expected = r#"
        impl ::patterns::systemone::Questions for Probe {
            type Answers = Self;
            fn questions() -> ::patterns::systemone::QuestionMap {
                ::patterns::systemone::QuestionMap::from([(
                    ::std::string::String::from(::std::stringify!(a)),
                    ::patterns::systemone::noul("q"),
                )])
            }
    "#;
    assert!(
        squeezed(&tokens).starts_with(&squeezed(expected)),
        "{tokens}"
    );
}

#[test]
fn extractable_requires_healthcheck() {
    let attr = container("extract", vec![pair("template", "t.md")]);
    let err = expand_extractable(&input(vec![attr], Shape::Unnamed)).expect_err("must fail");
    assert!(err.message().contains("missing `healthcheck"), "{err:?}");
}

fn extract() -> ContainerAttribute {
    container(
        "extract",
        vec![pair("template", "t.md"), pair("healthcheck", "hc")],
    )
}

#[test]
fn extractable_rejects_enum() {
    let err = expand_extractable(&input(vec![extract()], Shape::Other)).expect_err("must fail");
    assert!(err.message().contains("needs a struct"), "{err:?}");
}

#[test]
fn extractable_rejects_generics_and_needs_its_attribute() {
    let mut generic = input(vec![extract()], Shape::Unnamed);
    generic.generic = true;
    let err = expand_extractable(&generic).expect_err("must fail");
    assert_eq!(
        err.message(),
        "#[derive(Extractable)] does not support generics"
    );
    let err = expand_extractable(&input(vec![], Shape::Unnamed)).expect_err("must fail");
    assert!(err.message().starts_with("missing #[extract("), "{err:?}");
}

#[test]
fn extractable_expands_valid() {
    let tokens =
        expand_extractable(&input(vec![extract()], Shape::Named(vec![]))).expect("expand");
    assert!(tokens.contains("Extractable"));
    assert!(tokens.contains("HEALTHCHECK_TEXT"));
    let file = syn::parse_str::<syn::File>(&tokens).expect("Rust");
    assert_eq!(file.items.len(), 1);
}
