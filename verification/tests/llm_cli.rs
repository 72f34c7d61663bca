//! Extraction via a CLI, without running one.

use patterns::error::Error;
use patterns::llm_cli::{
    build_repair_prompt, default_timeout, judge, read_output, read_text, reject,
    strip_json_fences, truncate, Extractable, LlmExtractor, RepairLoop, RunOutcome, SharedLimits,
    SharedLlm, DEFAULT_MAX_TEXT_LEN, HEALTHCHECK_CONTEXT,
};
use std::time::Duration;

#[derive(Debug)]
struct Dummy {
    value: String,
}

impl Extractable for Dummy {
    const HEALTHCHECK_TEXT: &'static str = "hello";

    fn render_prompt(_schema: &str, _text: &str, _ctx: &str) -> Result<String, Error> {
        Ok("prompt".to_string())
    }

    fn verify(&self) -> Result<(), Error> {
        if self.value.is_empty() {
            return Err(Error::new("empty value".to_owned()));
        }
        Ok(())
    }
}

/// Extractor whose prompt embeds everything it is given.
#[derive(Debug)]
struct Echo;

impl Extractable for Echo {
    const HEALTHCHECK_TEXT: &'static str = "hi";

    fn render_prompt(schema: &str, text: &str, ctx: &str) -> Result<String, Error> {
        Ok(format!("{schema}|{text}|{ctx}"))
    }

    fn verify(&self) -> Result<(), Error> {
        Ok(())
    }
}

#[test]
fn test_truncate_respects_char_boundaries() {
    let s = "αβγδ".repeat(1000);
    let t = truncate(&s, DEFAULT_MAX_TEXT_LEN);
    assert!(t.len() <= DEFAULT_MAX_TEXT_LEN);
    assert!(t.is_char_boundary(t.len()));
}

#[test]
fn test_truncate_leaves_short_text() {
    let s = "short";
    assert_eq!(truncate(s, DEFAULT_MAX_TEXT_LEN), s);
}

#[test]
fn test_truncate_respects_custom_limit() {
    let s = "abcdef";
    assert_eq!(truncate(s, 3), "abc");
    assert_eq!(truncate(s, 100), s);
}

#[test]
fn truncation_cuts_before_a_character_that_does_not_fit() {
    assert_eq!(truncate("aéb", 2), "a");
    assert_eq!(truncate("aéb", 3), "aé");
    assert_eq!(truncate("é", 1), "");
    assert_eq!(truncate("", 0), "");
}

#[test]
fn test_build_repair_prompt_contains_context() {
    let err = "expected value at line 1 column 2";
    let prompt = build_repair_prompt(
        "ORIGINAL PROMPT",
        "not json at all",
        err,
        DEFAULT_MAX_TEXT_LEN,
    );
    assert!(prompt.contains("ORIGINAL PROMPT"));
    assert!(prompt.contains("not json at all"));
    assert!(prompt.contains("expected value at line 1 column 2"));
    assert!(prompt.contains("Return only the corrected JSON"));
}

#[test]
fn test_build_repair_prompt_truncates_long_output() {
    let long = "x".repeat(DEFAULT_MAX_TEXT_LEN * 2);
    let prompt = build_repair_prompt("p", &long, "boom", 100);
    assert_eq!(prompt.matches('x').count(), 100);
}

#[test]
fn repair_prompts_replace_placeholders_in_turn() {
    let prompt = build_repair_prompt("<{previous_output}>", "[{error}]", "E", 100);
    assert!(prompt.contains("<[E]>"), "{prompt}");
    assert!(!prompt.contains('{'), "{prompt}");
}

#[test]
fn test_strip_json_fences_removes_fences() {
    let raw = "```json\n{\"is_job_ad\": true}\n```";
    assert_eq!(strip_json_fences(raw), "{\"is_job_ad\": true}");
}

#[test]
fn test_strip_json_fences_leaves_plain_json() {
    let raw = "{\"is_job_ad\": true}";
    assert_eq!(strip_json_fences(raw), "{\"is_job_ad\": true}");
}

#[test]
fn fences_are_stripped_from_any_body() {
    for body in ["", "{}", "\n{\"a\": \"```json\"}\n", " x ", "```"] {
        assert_eq!(
            strip_json_fences(&format!("```json{body}```")),
            body.trim()
        );
    }
}

#[test]
fn half_fences_are_left_alone() {
    assert_eq!(strip_json_fences(" ```json {}  "), "```json {}");
    assert_eq!(strip_json_fences("```\n{}\n```"), "```\n{}\n```");
    assert_eq!(strip_json_fences("```json```"), "");
    assert_eq!(strip_json_fences("```json``"), "```json``");
    assert_eq!(strip_json_fences("\u{a0}{}\u{2003}"), "{}");
}

#[test]
fn test_from_bin_parses_command_string() {
    let e = LlmExtractor::<Dummy>::from_bin("llm -m sonnet --flag 'quoted arg'");
    assert_eq!(e.bin, "llm");
    assert_eq!(e.args, vec!["-m", "sonnet", "--flag", "quoted arg"]);
}

#[test]
fn test_from_bin_empty_string() {
    let e = LlmExtractor::<Dummy>::from_bin("");
    assert_eq!(e.bin, "");
    assert!(e.args.is_empty(), "args: {:?}", e.args);
}

#[test]
fn unmatched_quotes_give_no_command() {
    let e = LlmExtractor::<Dummy>::from_bin("llm 'open");
    assert_eq!(e.bin, "");
    assert!(e.args.is_empty(), "args: {:?}", e.args);
}

#[test]
fn test_builder_defaults_and_overrides() {
    let e = LlmExtractor::<Dummy>::from_bin("llm");
    assert_eq!(e.max_text_len, DEFAULT_MAX_TEXT_LEN);
    assert_eq!(e.timeout, default_timeout());
    assert_eq!(e.timeout, Duration::from_secs(30));
    let e = e
        .with_max_text_len(50_000)
        .with_timeout(Duration::from_secs(90));
    assert_eq!(e.max_text_len, 50_000);
    assert_eq!(e.timeout, Duration::from_secs(90));
}

// ---- an extraction -------------------------------------------------------------------------

/// Run an extraction against answers of a CLI; gives the value and the number of calls.
fn extract(
    extractor: &LlmExtractor<Dummy>,
    mut cli: impl FnMut(usize, &str) -> RunOutcome,
) -> (Result<Dummy, String>, usize) {
    let prompt = extractor.prompt("{}", "text").expect("renders");
    let mut repair = RepairLoop::new(prompt, extractor.max_text_len);
    let mut calls = 0;
    loop {
        calls += 1;
        let failure = match judge(cli(calls, &repair.next_prompt())) {
            Ok(answer) => {
                let parsed: Result<serde_json::Value, _> = serde_json::from_str(&answer.json);
                match parsed {
                    Ok(value) => {
                        let value = value["value"].as_str().expect("text").to_owned();
                        return (Ok(Dummy { value }), calls);
                    }
                    Err(cause) => reject(answer, &cause.to_string()),
                }
            }
            Err(failure) => failure,
        };
        if let Some(error) = repair.fail(failure) {
            return (Err(error.message().to_owned()), calls);
        }
    }
}

fn printed(stdout: &str) -> RunOutcome {
    RunOutcome::Finished {
        success: true,
        stdout: stdout.as_bytes().to_vec(),
        stderr: Vec::new(),
    }
}

fn dummy() -> LlmExtractor<Dummy> {
    LlmExtractor::from_bin("llm")
}

#[test]
fn test_default_max_text_len_applied() {
    let long = "x".repeat(DEFAULT_MAX_TEXT_LEN * 2);
    let prompt = LlmExtractor::<Echo>::from_bin("llm")
        .prompt("S", &long)
        .expect("renders");
    assert_eq!(
        prompt,
        format!("S|{}|", "x".repeat(DEFAULT_MAX_TEXT_LEN)),
        "schema, truncated text, no context"
    );
}

#[test]
fn test_max_text_len_override_applied() {
    let long = "x".repeat(250);
    let prompt = LlmExtractor::<Echo>::from_bin("llm")
        .with_max_text_len(100)
        .with_prompt_context("C".to_owned())
        .prompt("S", &long)
        .expect("renders");
    assert_eq!(prompt, format!("S|{}|C", "x".repeat(100)));
}

#[test]
fn test_timeout_override_applied() {
    let e = dummy().with_timeout(Duration::from_millis(100));
    assert_eq!(e.timeout, Duration::from_millis(100));
    let (result, _) = extract(&e, |_, _| {
        RunOutcome::TimedOut("deadline has elapsed".to_owned())
    });
    let err = result.expect_err("must time out");
    assert!(err.contains("timed out"), "err: {err}");
    assert_eq!(
        err,
        "llm parse failed after one retry; first error: llm extractor timed out; first output: : llm extractor timed out: deadline has elapsed"
    );
}

#[test]
fn test_extract_success() {
    let (result, calls) = extract(&dummy(), |_, _| printed("{\"value\":\"ok\"}\n"));
    assert_eq!(result.expect("extract").value, "ok");
    assert_eq!(calls, 1);
}

#[test]
fn test_extract_strips_fences() {
    let (result, _) = extract(&dummy(), |_, _| {
        printed("```json\n{\"value\":\"fenced\"}\n```\n")
    });
    assert_eq!(result.expect("extract").value, "fenced");
}

#[test]
fn test_extract_repairs_once_and_succeeds() {
    let mut prompts: Vec<String> = Vec::new();
    let (result, calls) = extract(&dummy(), |call, prompt| {
        prompts.push(prompt.to_owned());
        if call == 1 {
            printed("not json\n")
        } else {
            printed("{\"value\":\"fixed\"}\n")
        }
    });
    assert_eq!(result.expect("extract after repair").value, "fixed");
    assert_eq!(calls, 2, "exactly one retry");
    assert_eq!(prompts[0], "prompt");
    assert!(prompts[1].contains("not json"), "{}", prompts[1]);
    assert!(
        prompts[1].contains("failed to parse LLM JSON: not json: expected"),
        "{}",
        prompts[1]
    );
}

#[test]
fn test_extract_fails_after_one_retry() {
    let (result, calls) = extract(&dummy(), |_, _| printed("not json\n"));
    let msg = result.expect_err("must fail");
    assert!(msg.contains("after one retry"), "msg: {msg}");
    assert!(msg.contains("not json"), "msg: {msg}");
    assert_eq!(calls, 2);
}

#[test]
fn test_extract_none_response_bails() {
    for answer in ["NONE\n", "none", " None ", "", "\n"] {
        let (result, _) = extract(&dummy(), |_, _| printed(answer));
        let err = result.expect_err("must fail");
        assert!(err.contains("empty or NONE"), "err: {err}");
    }
}

#[test]
fn test_extract_cli_failure_bails() {
    let (result, _) = extract(&dummy(), |_, _| RunOutcome::Finished {
        success: false,
        stdout: b"{\"value\":\"ignored\"}".to_vec(),
        stderr: b"boom\n".to_vec(),
    });
    let err = result.expect_err("must fail");
    assert!(err.contains("boom"), "err: {err}");
}

#[test]
fn a_cli_that_cannot_be_run_says_so() {
    let failure = judge(RunOutcome::NotRun("no such file".to_owned())).expect_err("not run");
    assert_eq!(failure.summary, "failed to run llm extractor");
    assert_eq!(failure.detail, "failed to run llm extractor: no such file");
    assert_eq!(failure.output, "");
}

#[test]
fn output_that_is_no_text_is_replaced() {
    let answer = read_output(true, b"  a\xffb\n", b"").expect("succeeded");
    assert_eq!(answer.as_deref(), Some("a\u{fffd}b"));
    let error = read_output(false, b"", b"\xc3\xa9").expect_err("failed");
    assert_eq!(error.message(), "llm extractor failed: é");
    assert_eq!(
        read_text(true, " answer ", "").expect("succeeded"),
        Some("answer".to_owned())
    );
    assert_eq!(read_text(true, " nOnE ", "").expect("succeeded"), None);
}

#[test]
fn test_shared_llm_extract_success() {
    let limits = SharedLimits {
        max_text_len: 7,
        call_timeout: Duration::from_secs(5),
        ..SharedLimits::default()
    };
    let llm = SharedLlm::new("sh fake.sh".to_owned(), limits);
    let e = llm.clone().extractor::<Dummy>("ctx".to_owned());
    assert_eq!(e.bin, "sh");
    assert_eq!(e.args, vec!["fake.sh"]);
    assert_eq!(e.prompt_context, "ctx");
    assert_eq!(e.max_text_len, 7);
    assert_eq!(e.timeout, Duration::from_secs(5));
    let (result, _) = extract(&e, |_, _| printed("{\"value\":\"ok\"}"));
    assert_eq!(result.expect("extract").value, "ok");
}

#[test]
fn shared_llms_take_arguments_one_by_one() {
    let llm = SharedLlm::new("pi --print".to_owned(), SharedLimits::default())
        .with_args(vec!["--mode".to_owned(), "plain text".to_owned()])
        .with_max_text_len(9);
    let e = llm.clone().extractor::<Dummy>("ctx".to_owned());
    assert_eq!(e.bin, "pi");
    assert_eq!(e.args, vec!["--print", "--mode", "plain text"]);
    assert_eq!(e.max_text_len, 9);
    assert_eq!(e.timeout, Duration::from_secs(30));
    assert_eq!(llm.limits.max_concurrent_calls, 2);
}

#[test]
fn test_shared_llm_verify_healthcheck() {
    let llm = SharedLlm::new("sh fake.sh".to_owned(), SharedLimits::default());
    assert_eq!(Dummy::healthcheck_text().expect("fixture"), "hello");
    let e = llm.extractor::<Dummy>(HEALTHCHECK_CONTEXT.to_owned());
    assert_eq!(e.prompt_context, "healthcheck");
    let (result, _) = extract(&e, |_, _| printed("{\"value\":\"ok\"}"));
    result.expect("extract").verify().expect("verify");
    let (result, _) = extract(&e, |_, _| printed("{\"value\":\"\"}"));
    assert!(result.expect("extract").verify().is_err());
    assert!(Echo.verify().is_ok());
}

#[test]
fn shared_limits_default() {
    let limits = SharedLimits::default();
    assert_eq!(limits.max_concurrent_calls, 2);
    assert_eq!(limits.max_text_len, 4000);
    assert_eq!(limits.call_timeout, Duration::from_secs(30));
}
