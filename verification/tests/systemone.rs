//! Questions, requests and replies.

use patterns::error::Error;
use patterns::float::F32;
use patterns::limits::ConcurrencyLimits;
use patterns::retry::RetryPolicy;
use patterns::systemone::answers::{Choice, Levels, Noul, Score};
use patterns::systemone::{
    check_status, choice, noul, plain_state, questions_to_json, read_reply, reject_answers, score,
    Evaluatable, Question, QuestionMap, Questions, Reply, SharedSystemOne, HEALTHCHECK_CONTEXT,
};
use patterns::text_map::TextMap;
use serde_json::Value;
use std::time::Duration;

fn json(text: &str) -> Value {
    serde_json::from_str(text).expect("JSON")
}

fn text(value: &str) -> Value {
    Value::from(value)
}

fn client() -> SharedSystemOne {
    SharedSystemOne::new(
        "https://example.test".to_owned(),
        "secret".to_owned(),
        "jev-test".to_owned(),
        ConcurrencyLimits::default(),
    )
}

fn f32_of(value: &Value) -> Option<F32> {
    value
        .as_f64()
        .map(|number| F32::from_bits((number as f32).to_bits()))
}

#[derive(Debug)]
struct NoulOut {
    urgency: Noul,
}

impl NoulOut {
    /// Read the answers, as a deserializer does.
    fn from_answers(answers: &Value) -> Result<NoulOut, Error> {
        match f32_of(&answers["urgency"]["noul"]) {
            Some(number) => Ok(NoulOut {
                urgency: Noul { noul: number },
            }),
            None => Err(reject_answers(answers, "expected a number")),
        }
    }
}

impl Questions for NoulOut {
    type Answers = NoulOut;

    fn questions() -> QuestionMap {
        let mut questions = QuestionMap::new();
        questions.insert("urgency".to_owned(), noul(text("Is it urgent?")));
        questions
    }
}

impl Evaluatable for NoulOut {
    const HEALTHCHECK_TEXT: &'static str = "Healthcheck text.";

    fn verify(&self) -> Result<(), Error> {
        let number = f32::from_bits(self.urgency.noul.to_bits());
        if (0.0..=1.0).contains(&number) {
            Ok(())
        } else {
            Err(Error::new(format!("noul out of range: {number}")))
        }
    }
}

const NOUL_RESPONSE: &str = r#"{"answers":{"urgency":{"type":"noul","noul":0.7}},"model":"jev-test","usage":{"input_tokens":3,"output_tokens":1}}"#;

#[test]
fn noul_serializes_without_criteria() {
    let question = noul(text("Is it urgent?"));
    assert_eq!(
        json(&question.to_json()),
        json(r#"{"type": "noul", "instructions": "Is it urgent?"}"#)
    );
    assert_eq!(
        question.to_json(),
        r#"{"type":"noul","instructions":"Is it urgent?"}"#
    );
}

#[test]
fn noul_serializes_criteria_when_spelled_out() {
    let question = Question::Noul {
        instructions: json(r#"["a", 1]"#),
        criteria: Some(json(r#"{"yes": "now", "no": null}"#)),
    };
    assert_eq!(
        json(&question.to_json()),
        json(
            r#"{"type": "noul", "instructions": ["a", 1], "criteria": {"yes": "now", "no": null}}"#
        )
    );
}

#[test]
fn choice_serializes_null_for_undescribed_options() {
    let question = choice(
        text("Which team?"),
        vec![
            ("billing".to_owned(), Some(text("Payments"))),
            ("sales".to_owned(), None),
        ],
    );
    assert_eq!(
        json(&question.to_json()),
        json(
            r#"{
                "type": "choice",
                "instructions": "Which team?",
                "criteria": {"billing": "Payments", "sales": null}
            }"#
        )
    );
}

#[test]
fn choices_are_written_in_order_and_repeats_override() {
    let question = choice(
        text("Pick"),
        vec![
            ("é".to_owned(), None),
            ("b".to_owned(), Some(text("first"))),
            ("a\"".to_owned(), None),
            ("b".to_owned(), Some(text("second"))),
        ],
    );
    assert_eq!(
        question.to_json(),
        r#"{"type":"choice","instructions":"Pick","criteria":{"a\"":null,"b":"second","é":null}}"#
    );
}

#[test]
fn score_serializes_levels_in_order() {
    let question = score(
        text("Rate frustration"),
        vec![text("Calm"), text("Frustrated"), text("Very angry")],
    );
    assert_eq!(
        json(&question.to_json()),
        json(
            r#"{
                "type": "score",
                "instructions": "Rate frustration",
                "criteria": ["Calm", "Frustrated", "Very angry"]
            }"#
        )
    );
}

#[test]
fn structured_criteria_are_accepted() {
    let choice_question = choice(
        text("Pick"),
        vec![
            ("a".to_owned(), Some(json(r#"{"when": "x"}"#))),
            ("b".to_owned(), None),
        ],
    );
    assert_eq!(
        json(&choice_question.to_json()),
        json(
            r#"{
                "type": "choice",
                "instructions": "Pick",
                "criteria": {"a": {"when": "x"}, "b": null}
            }"#
        )
    );
    let score_question = score(
        text("Rate"),
        vec![json(r#"{"level": "low"}"#), json(r#"["mid"]"#)],
    );
    assert_eq!(
        json(&score_question.to_json()),
        json(
            r#"{
                "type": "score",
                "instructions": "Rate",
                "criteria": [{"level": "low"}, ["mid"]]
            }"#
        )
    );
}

#[test]
fn question_maps_are_written_under_their_ids() {
    let mut questions = QuestionMap::new();
    questions.insert(
        "team".to_owned(),
        choice(
            text("Team?"),
            vec![
                ("billing".to_owned(), None),
                ("other".to_owned(), Some(text("none of these"))),
            ],
        ),
    );
    questions.insert("is_urgent".to_owned(), noul(text("Urgent?")));
    questions.insert(
        "severity".to_owned(),
        score(text("Severity?"), vec![text("low"), text("high")]),
    );
    assert_eq!(
        json(&questions_to_json(&questions)),
        json(
            r#"{
                "is_urgent": {"type": "noul", "instructions": "Urgent?"},
                "severity": {"type": "score", "instructions": "Severity?", "criteria": ["low", "high"]},
                "team": {"type": "choice", "instructions": "Team?",
                         "criteria": {"billing": null, "other": "none of these"}}
            }"#
        )
    );
    assert_eq!(questions_to_json(&QuestionMap::new()), "{}");
}

// ---- answers -------------------------------------------------------------------------------

fn levels(entries: &[(u8, f32)]) -> Score {
    let mut probabilities = Levels::new();
    for (level, p) in entries {
        probabilities.insert(*level, F32::from_bits(p.to_bits()));
    }
    Score {
        confidence: F32::from_bits(0.5_f32.to_bits()),
        probabilities,
    }
}

#[test]
fn argmax_level_is_the_most_probable() {
    assert_eq!(levels(&[(0, 0.2), (1, 0.8)]).argmax_level(), Some(1));
    assert_eq!(levels(&[(4, 0.9), (1, 0.05)]).argmax_level(), Some(4));
    assert_eq!(levels(&[]).argmax_level(), None);
}

#[test]
fn argmax_level_breaks_ties_upwards() {
    assert_eq!(
        levels(&[(3, 0.5), (7, 0.5), (5, 0.5)]).argmax_level(),
        Some(7)
    );
    // the total order: -0 is below 0, and what is not a number is above all
    assert_eq!(levels(&[(9, -0.0), (2, 0.0)]).argmax_level(), Some(2));
    assert_eq!(levels(&[(0, f32::NAN), (1, 1.0)]).argmax_level(), Some(0));
    assert_eq!(levels(&[(0, -1.0), (1, -2.0)]).argmax_level(), Some(0));
}

#[test]
fn levels_keep_the_last_probability() {
    let score = levels(&[(1, 0.1), (2, 0.2), (1, 0.9)]);
    assert_eq!(
        score.probabilities.get(1),
        Some(F32::from_bits(0.9_f32.to_bits()))
    );
    assert_eq!(score.probabilities.get(3), None);
    assert_eq!(score.probabilities.entries().len(), 2);
    assert_eq!(score.argmax_level(), Some(1));
}

#[test]
fn ranks_agree_with_the_total_order() {
    let numbers = [
        f32::NEG_INFINITY,
        -1.5,
        -f32::MIN_POSITIVE,
        -0.0,
        0.0,
        f32::MIN_POSITIVE,
        0.25,
        f32::INFINITY,
        f32::NAN,
        -f32::NAN,
    ];
    for a in numbers {
        for b in numbers {
            let (x, y) = (F32::from_bits(a.to_bits()), F32::from_bits(b.to_bits()));
            assert_eq!(a.total_cmp(&b), x.order().cmp(&y.order()), "{a} and {b}");
        }
    }
}

#[test]
fn choices_hold_their_probabilities() {
    let mut probabilities = TextMap::new();
    probabilities.insert("technical".to_owned(), F32::from_bits(0.85_f32.to_bits()));
    probabilities.insert("billing".to_owned(), F32::from_bits(0.08_f32.to_bits()));
    let answer = Choice {
        choice: "technical".to_owned(),
        confidence: F32::from_bits(0.82_f32.to_bits()),
        probabilities,
    };
    let technical = answer
        .probabilities
        .get(&answer.choice)
        .expect("technical present");
    assert!((f32::from_bits(technical.to_bits()) - 0.85).abs() < 1e-6);
    assert_eq!(answer.probabilities.len(), 2);
    assert_eq!(answer.probabilities.key_at(0), "billing");
    assert!(answer.probabilities.get("other").is_none());
}

// ---- requests ------------------------------------------------------------------------------

#[test]
fn evaluate_sends_expected_request_and_parses() {
    let handle = client();
    let body = handle.request_body(&json(r#"{"message": "hello"}"#), &NoulOut::questions());
    assert_eq!(handle.url(), "https://example.test/v1/systemone");
    assert_eq!(handle.api_key(), "secret");
    assert_eq!(
        json(&body),
        json(
            r#"{
                "model": "jev-test",
                "state": {"message": "hello"},
                "questions": {"urgency": {"type": "noul", "instructions": "Is it urgent?"}}
            }"#
        )
    );

    let answers = read_reply(Reply::Body(NOUL_RESPONSE.to_owned())).expect("evaluate");
    let out = NoulOut::from_answers(&answers).expect("answers");
    assert!((f32::from_bits(out.urgency.noul.to_bits()) - 0.7).abs() < 1e-6);
}

#[test]
fn evaluate_error_includes_raw_answers() {
    let body = r#"{"answers":{"urgency":{"type":"noul","noul":"not-a-number"}}}"#;
    let answers = read_reply(Reply::Body(body.to_owned())).expect("envelope");
    let error = NoulOut::from_answers(&answers).expect_err("parse must fail");
    let message = error.message();
    assert!(
        message.contains("parse systemone answers"),
        "message: {message}"
    );
    assert!(message.contains("not-a-number"), "message: {message}");
    assert!(message.ends_with(": expected a number"), "message: {message}");
}

#[test]
fn evaluate_propagates_transport_error() {
    let error =
        read_reply(Reply::Failed("connection reset".to_owned())).expect_err("transport must fail");
    assert!(error.message().contains("connection reset"), "{error:?}");
    assert_eq!(
        error.message(),
        "systemone transport failed: connection reset"
    );
}

#[test]
fn evaluate_applies_per_call_timeout() {
    let error =
        read_reply(Reply::TimedOut("deadline has elapsed".to_owned())).expect_err("must time out");
    assert!(error.message().contains("timed out"), "{error:?}");
    // the bound of a call is the one in the limits
    let limits = ConcurrencyLimits {
        max_concurrent_calls: 1,
        call_timeout: Duration::from_millis(10),
    };
    let client = SharedSystemOne::new(
        "https://example.test".to_owned(),
        "test-key".to_owned(),
        "systemone-mini".to_owned(),
        limits,
    );
    assert_eq!(client.limits().call_timeout, Duration::from_millis(10));
    assert_eq!(client.retry_after(1, None), None, "a timeout is final");
}

#[test]
fn requests_are_sent_once_unless_a_policy_retries() {
    let once = client();
    for status in [None, Some(200), Some(400), Some(429), Some(503)] {
        assert_eq!(once.retry_after(1, status), None);
    }
    let patient = client().with_retry_policy(RetryPolicy::default());
    let base = Some(Duration::from_millis(250));
    assert_eq!(patient.retry_after(1, None), base);
    assert_eq!(patient.retry_after(1, Some(429)), base);
    assert_eq!(
        patient.retry_after(2, Some(503)),
        Some(Duration::from_millis(500))
    );
    assert_eq!(patient.retry_after(3, Some(503)), None);
    assert_eq!(patient.retry_after(1, Some(400)), None);
    assert_eq!(patient.retry_after(1, Some(200)), None);
    assert_eq!(patient.url(), client().url());
    assert_eq!(patient.clone().retry_after(1, None), base);
}

#[test]
fn envelopes_without_answers_are_rejected() {
    for (body, cause) in [
        ("{}", "missing field `answers`"),
        ("3", "missing field `answers`"),
        ("[1,2]", "missing field `answers`"),
        ("{", "EOF while parsing an object at line 1 column 1"),
    ] {
        let error = read_reply(Reply::Body(body.to_owned())).expect_err("must fail");
        assert_eq!(
            error.message(),
            format!("parse systemone response envelope: {body}: {cause}")
        );
    }
    let listed = read_reply(Reply::Body("[{\"a\":1}]".to_owned())).expect("one member");
    assert_eq!(listed, json(r#"{"a":1}"#));
}

#[test]
fn other_statuses_fail() {
    let body = check_status(true, "200 OK", "fine".to_owned()).expect("success");
    assert_eq!(body, "fine");
    let error = check_status(false, "401 Unauthorized", "no".to_owned()).expect_err("failure");
    assert_eq!(
        error.message(),
        "systemone returned HTTP 401 Unauthorized: no"
    );
}

#[test]
fn verify_round_trips_a_noul() {
    let answers = read_reply(Reply::Body(NOUL_RESPONSE.to_owned())).expect("envelope");
    NoulOut::from_answers(&answers)
        .expect("answers")
        .verify()
        .expect("verify");
    // exactly one round trip: the answer is not asked for again
    assert_eq!(client().retry_after(1, Some(200)), None);
}

#[test]
fn verify_rejects_missing_answer() {
    let answers = read_reply(Reply::Body(r#"{"answers":{}}"#.to_owned())).expect("envelope");
    assert!(NoulOut::from_answers(&answers).is_err());
}

#[test]
fn evaluate_text_renders_state_and_parses() {
    let state = NoulOut::render_state("hello", "ctx").expect("state");
    assert_eq!(state, "hello\n\nctx");
    assert_eq!(state, plain_state("hello", "ctx"));
    let body = json(&client().text_request_body(&state, &NoulOut::questions()));
    let state = body.get("state").expect("state field present");
    let state = state.as_str().expect("state is a string");
    assert!(state.contains("hello"), "state: {state}");
    let answers = read_reply(Reply::Body(NOUL_RESPONSE.to_owned())).expect("evaluate");
    let out = NoulOut::from_answers(&answers).expect("answers");
    assert!((f32::from_bits(out.urgency.noul.to_bits()) - 0.7).abs() < 1e-6);
}

#[test]
fn verify_sends_string_state_from_template() {
    let text = NoulOut::healthcheck_text().expect("fixture");
    assert_eq!(text, "Healthcheck text.");
    let state = NoulOut::render_state(&text, HEALTHCHECK_CONTEXT).expect("state");
    let body = json(&client().text_request_body(&state, &NoulOut::questions()));
    let state = body.get("state").expect("state field present");
    assert!(
        state.is_string(),
        "state must be a JSON string, got: {state}"
    );
    assert_eq!(state.as_str(), Some("Healthcheck text.\n\nhealthcheck"));
}

#[test]
fn systemone_debug_redacts_api_key() {
    let rendered = format!("{:?}", client().clone().redacted());
    assert!(rendered.contains("<redacted>"), "debug: {rendered}");
    assert!(!rendered.contains("secret"), "debug: {rendered}");
    assert_eq!(client().limits().max_concurrent_calls, 2);
}
