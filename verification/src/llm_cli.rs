//! Structured extraction from text via a local CLI.
//!
//! The CLI receives the fully rendered prompt as its last argument and must print JSON to
//! stdout. Extraction targets implement [`Extractable`]; prompt templating stays with them.
//!
//! Exactly one repair retry per extraction; the timeout applies per call; empty or `"NONE"`
//! responses fail. Running the CLI and deserializing its output is the caller's: a
//! [`RepairLoop`] says what to send, and [`read_output`] and [`judge`] what came back.

pub mod laws;

use crate::duration;
use crate::error::{self, Error};
use crate::text;
use std::marker::PhantomData;
use std::time::Duration;
use vstd::prelude::*;

verus! {

broadcast use vstd::seq::group_seq_axioms;

/// Default per-call timeout for the CLI, in seconds.
pub const DEFAULT_TIMEOUT_SECS: u64 = 30;

/// Default maximum byte length of text embedded into prompts.
pub const DEFAULT_MAX_TEXT_LEN: usize = 4000;

/// Default cap on concurrent CLI calls across a process.
pub const DEFAULT_MAX_CONCURRENT_CALLS: usize = 2;

/// Default per-call timeout for the CLI.
pub fn default_timeout() -> (r: Duration)
    ensures
        duration::nanos(r) == 30_000_000_000,
{
    Duration::from_secs(DEFAULT_TIMEOUT_SECS)
}

/// A type that can be extracted from CLI output.
///
/// Implementations render their own prompt, so that this crate stays template-agnostic.
pub trait Extractable: Sized {
    /// Sample text used to verify that the CLI produces valid structured output.
    const HEALTHCHECK_TEXT: &'static str;

    /// The sample text, rendered where it is a template.
    fn healthcheck_text() -> (r: Result<String, Error>)
        default_ensures
            error::outcome(r) == Ok::<Seq<char>, Seq<char>>(Self::HEALTHCHECK_TEXT@),
    {
        Ok(Self::HEALTHCHECK_TEXT.to_owned())
    }

    /// Render the extraction prompt from the JSON schema, the (already truncated) input text,
    /// and dynamic prompt context.
    fn render_prompt(schema: &str, text: &str, prompt_context: &str) -> (r: Result<String, Error>);

    /// Validate that a healthcheck extraction succeeded.
    fn verify(&self) -> (r: Result<(), Error>);
}

// ---- texts ---------------------------------------------------------------------------------

/// How many of the first `k` characters of `s` fit in `max` bytes.
pub open spec fn fitting(s: Seq<char>, max: int, k: int) -> int
    decreases k,
{
    if k <= 0 || text::offset(s, k) <= max {
        k
    } else {
        fitting(s, max, k - 1)
    }
}

/// The longest prefix of `s` that fits in `max` bytes.
pub open spec fn shortened(s: Seq<char>, max: int) -> Seq<char> {
    s.take(fitting(s, max, s.len() as int))
}

/// The longest prefix of `text` of at most `max` bytes that ends at a character boundary.
pub fn truncate<'a>(text: &'a str, max: usize) -> (r: &'a str)
    ensures
        r@ == shortened(text@, max as int),
{
    let chars = text::chars_of(text);
    let ghost s = text@;
    let mut at: usize = text::byte_count(text);
    let mut k: usize = chars.len();
    proof {
        text::lemma_offset_ends(s);
    }
    while k > 0 && at > max
        invariant
            chars@ == s,
            0 <= k <= s.len(),
            at == text::offset(s, k as int),
            fitting(s, max as int, s.len() as int) == fitting(s, max as int, k as int),
        decreases k,
    {
        proof {
            text::lemma_offset_step(s, k - 1);
            text::lemma_offset_monotonic(s, 0, k - 1);
            text::lemma_offset_ends(s);
        }
        at = at - text::char_width(chars[k - 1]);
        k -= 1;
    }
    proof {
        text::lemma_offset_ends(s);
        assert(s.subrange(0, k as int) =~= s.take(k as int));
    }
    text.substring_char(0, k)
}

/// The prompt that asks for a repair, with placeholders.
pub const REPAIR_PROMPT: &'static str =
    "Your previous answer was not the JSON that was asked for.\n\nOriginal request:\n{original_prompt}\n\nYour previous answer:\n{previous_output}\n\nWhat is wrong with it:\n{error}\n\nReturn only the corrected JSON, without markdown and without any other words.\n";

/// Placeholder of [`REPAIR_PROMPT`] for the first prompt.
pub const PLACEHOLDER_ORIGINAL: &'static str = "{original_prompt}";

/// Placeholder of [`REPAIR_PROMPT`] for the first answer.
pub const PLACEHOLDER_PREVIOUS: &'static str = "{previous_output}";

/// Placeholder of [`REPAIR_PROMPT`] for the first error.
pub const PLACEHOLDER_ERROR: &'static str = "{error}";

/// The prompt that asks for a repair of `previous`, which failed with `error`.
pub open spec fn repair(
    original: Seq<char>,
    previous: Seq<char>,
    error: Seq<char>,
    max: int,
) -> Seq<char> {
    text::replaced(
        text::replaced(
            text::replaced(REPAIR_PROMPT@, PLACEHOLDER_ORIGINAL@, original),
            PLACEHOLDER_PREVIOUS@,
            shortened(previous, max),
        ),
        PLACEHOLDER_ERROR@,
        error,
    )
}

/// The prompt that asks for a repair, with the first prompt, the first answer (truncated) and
/// the error in it.
pub fn build_repair_prompt(
    original_prompt: &str,
    previous_output: &str,
    error: &str,
    max_text_len: usize,
) -> (r: String)
    ensures
        r@ == repair(original_prompt@, previous_output@, error@, max_text_len as int),
{
    proof {
        reveal_strlit("{original_prompt}");
        reveal_strlit("{previous_output}");
        reveal_strlit("{error}");
    }
    let first = text::replace(REPAIR_PROMPT, PLACEHOLDER_ORIGINAL, original_prompt);
    let second = text::replace(
        first.as_str(),
        PLACEHOLDER_PREVIOUS,
        truncate(previous_output, max_text_len),
    );
    text::replace(second.as_str(), PLACEHOLDER_ERROR, error)
}

/// What stands between the fences of a fenced JSON block, if `s` is one: behind "```json", and
/// before the closing "```".
pub open spec fn fenced(s: Seq<char>) -> Option<Seq<char>> {
    if text::occurs(s, "```json"@, 0) {
        let rest = text::trim_end(s.skip(7));
        if text::occurs(rest, "```"@, rest.len() - 3) {
            Some(rest.take(rest.len() - 3))
        } else {
            None
        }
    } else {
        None
    }
}

/// `s` without the fences of a fenced JSON block, and without outer white space.
pub open spec fn unfenced(s: Seq<char>) -> Seq<char> {
    match fenced(text::trim(s)) {
        Some(body) => text::trim(body),
        None => text::trim(s),
    }
}

/// `text` without the fences of a fenced JSON block, and without outer white space.
pub fn strip_json_fences(text: &str) -> (r: String)
    ensures
        r@ == unfenced(text@),
{
    let trimmed = text::trimmed(text);
    let chars = text::chars_of(trimmed);
    let open = text::chars_of("```json");
    let close = text::chars_of("```");
    proof {
        reveal_strlit("```json");
        reveal_strlit("```");
    }
    if !text::occurs_at(&chars, &open, 0) {
        return trimmed.to_owned();
    }
    let rest = text::trimmed_end(trimmed.substring_char(7, chars.len()));
    proof {
        assert(trimmed@.subrange(7, trimmed@.len() as int) =~= trimmed@.skip(7));
    }
    let tail = text::chars_of(rest);
    if tail.len() < 3 || !text::occurs_at(&tail, &close, tail.len() - 3) {
        return trimmed.to_owned();
    }
    let body = rest.substring_char(0, tail.len() - 3);
    assert(body@ =~= rest@.take(rest@.len() - 3));
    text::trimmed(body).to_owned()
}

/// Whether `s` is no answer: empty, or "none" in any case.
pub open spec fn nothing(s: Seq<char>) -> bool {
    s.len() == 0 || text::same_word(s, "none"@)
}

fn is_nothing(text: &str) -> (r: bool)
    ensures
        r == nothing(text@),
{
    proof {
        text::lemma_offset_ends(text@);
        text::lemma_offset_monotonic(text@, 0, text@.len() as int);
    }
    text::byte_count(text) == 0 || text::is_word(text, "none")
}

// ---- the extractor -------------------------------------------------------------------------

/// The words of a command line, as `shell_words::split` cuts it; `None` where it cannot.
pub uninterp spec fn shell_split(line: Seq<char>) -> Option<Seq<Seq<char>>>;

/// `shell_words::split`: the words of a command line, or nothing where its quotes do not match,
/// named [`shell_split`].
#[verifier::external_body]
pub(crate) fn split_words(line: &str) -> (r: Option<Vec<String>>)
    ensures
        match r {
            Some(words) => shell_split(line@) == Some(text::texts(words@)),
            None => shell_split(line@) is None,
        },
{
    shell_words::split(line).ok()
}

/// Extractor of `T` that calls a local CLI.
#[derive(Debug)]
pub struct LlmExtractor<T: Extractable> {
    pub bin: String,
    pub args: Vec<String>,
    pub prompt_context: String,
    pub max_text_len: usize,
    pub timeout: Duration,
    pub target: PhantomData<T>,
}

/// The command in a list of words, which has none where the list is empty.
pub open spec fn command(words: Seq<Seq<char>>) -> Seq<char> {
    if words.len() == 0 {
        Seq::empty()
    } else {
        words[0]
    }
}

/// The arguments in a list of words.
pub open spec fn arguments(words: Seq<Seq<char>>) -> Seq<Seq<char>> {
    if words.len() == 0 {
        Seq::empty()
    } else {
        words.drop_first()
    }
}

impl<T: Extractable> LlmExtractor<T> {
    /// Whether the extractor runs the given words, and is otherwise as configured by default.
    pub open spec fn runs(self, words: Seq<Seq<char>>) -> bool {
        &&& self.bin@ == command(words)
        &&& text::texts(self.args@) == arguments(words)
        &&& self.prompt_context@ == Seq::<char>::empty()
        &&& self.max_text_len == DEFAULT_MAX_TEXT_LEN
        &&& duration::nanos(self.timeout) == 30_000_000_000
    }

    /// Configure with the words of a command line: the command, then its arguments.
    pub fn from_words(words: Vec<String>) -> (r: LlmExtractor<T>)
        ensures
            r.runs(text::texts(words@)),
    {
        let ghost all = text::texts(words@);
        let mut bin = String::new();
        let mut args: Vec<String> = Vec::new();
        if words.len() > 0 {
            bin = words[0].clone();
            let mut i: usize = 1;
            proof {
                assert(text::texts(args@) =~= all.subrange(1, 1));
            }
            while i < words.len()
                invariant
                    all == text::texts(words@),
                    1 <= i <= words@.len(),
                    text::texts(args@) == all.subrange(1, i as int),
                decreases words@.len() - i,
            {
                let ghost before = args@;
                args.push(words[i].clone());
                proof {
                    assert(text::texts(args@) =~= text::texts(before).push(words@[i as int]@));
                    assert(all.subrange(1, i + 1) =~= all.subrange(1, i as int).push(
                        all[i as int],
                    ));
                }
                i += 1;
            }
            assert(all.subrange(1, i as int) =~= all.drop_first());
            assert(bin@ == all[0]);
        } else {
            assert(text::texts(args@) =~= Seq::empty());
        }
        LlmExtractor {
            bin,
            args,
            prompt_context: String::new(),
            max_text_len: DEFAULT_MAX_TEXT_LEN,
            timeout: default_timeout(),
            target: PhantomData,
        }
    }

    /// Configure with a command string, e.g. `"llm -m sonnet"`.
    pub fn from_bin(llm_bin: &str) -> (r: LlmExtractor<T>)
        ensures
            r.runs(
                match shell_split(llm_bin@) {
                    Some(words) => words,
                    None => Seq::empty(),
                },
            ),
    {
        match split_words(llm_bin) {
            Some(words) => LlmExtractor::from_words(words),
            None => {
                let words: Vec<String> = Vec::new();
                assert(text::texts(words@) =~= Seq::empty());
                LlmExtractor::from_words(words)
            },
        }
    }

    /// Attach dynamic context text rendered into the prompt template.
    pub fn with_prompt_context(self, context: String) -> (r: LlmExtractor<T>)
        ensures
            r == (LlmExtractor { prompt_context: context, ..self }),
    {
        LlmExtractor { prompt_context: context, ..self }
    }

    /// Override the maximum byte length of text embedded into prompts.
    pub fn with_max_text_len(self, max_text_len: usize) -> (r: LlmExtractor<T>)
        ensures
            r == (LlmExtractor { max_text_len, ..self }),
    {
        LlmExtractor { max_text_len, ..self }
    }

    /// Override the per-call timeout for the CLI.
    pub fn with_timeout(self, timeout: Duration) -> (r: LlmExtractor<T>)
        ensures
            r == (LlmExtractor { timeout, ..self }),
    {
        LlmExtractor { timeout, ..self }
    }

    /// Whether `r` is a prompt that `T` may render for `text` under `schema`: from the text as
    /// far as it fits, and the configured context.
    pub open spec fn renders(
        self,
        schema: Seq<char>,
        text: Seq<char>,
        r: Result<Seq<char>, Seq<char>>,
    ) -> bool {
        exists|a: &str, b: &str, c: &str, x: Result<String, Error>|
            a@ == schema && b@ == shortened(text, self.max_text_len as int) && c@
                == self.prompt_context@ && r == error::outcome(x) && #[trigger] call_ensures(
                T::render_prompt,
                (a, b, c),
                x,
            )
    }

    /// Render the extraction prompt for `text`, truncated, under the JSON schema of `T`.
    pub fn prompt(&self, schema: &str, text: &str) -> (r: Result<String, Error>)
        ensures
            self.renders(schema@, text@, error::outcome(r)),
    {
        T::render_prompt(schema, truncate(text, self.max_text_len), self.prompt_context.as_str())
    }
}

// ---- answers -------------------------------------------------------------------------------

/// What running the CLI came to.
#[derive(Debug)]
pub enum RunOutcome {
    /// It did not end in time; with the text of the cause.
    TimedOut(String),
    /// It could not be run; with the text of the cause.
    NotRun(String),
    /// It ended.
    Finished { success: bool, stdout: Vec<u8>, stderr: Vec<u8> },
}

/// An attempt that gave no value: why in a line, why in full, and what the CLI printed.
#[derive(Debug)]
pub struct ParseFailure {
    pub summary: String,
    pub detail: String,
    pub output: String,
}

/// What a [`ParseFailure`] says.
pub struct Failure {
    pub summary: Seq<char>,
    pub detail: Seq<char>,
    pub output: Seq<char>,
}

impl View for ParseFailure {
    type V = Failure;

    open spec fn view(&self) -> Failure {
        Failure { summary: self.summary@, detail: self.detail@, output: self.output@ }
    }
}

/// An answer of the CLI: as printed, and without fences.
#[derive(Debug)]
pub struct Answer {
    pub output: String,
    pub json: String,
}

/// `bytes` as text, with what is no text replaced, as `String::from_utf8_lossy` does.
pub uninterp spec fn lossy(bytes: Seq<u8>) -> Seq<char>;

/// `String::from_utf8_lossy`: the text of `bytes`, named [`lossy`]. Bytes that are valid UTF-8
/// give exactly the text they encode.
#[verifier::external_body]
pub(crate) fn decode_lossy(bytes: &[u8]) -> (r: String)
    ensures
        r@ == lossy(bytes@),
        vstd::utf8::valid_utf8(bytes@) ==> r@ == vstd::utf8::decode_utf8(bytes@),
{
    String::from_utf8_lossy(bytes).into_owned()
}

/// What the CLI said, once its output is text: a failure where it did not succeed, nothing where
/// it printed no answer.
pub open spec fn reply(success: bool, stdout: Seq<char>, stderr: Seq<char>) -> Result<
    Option<Seq<char>>,
    Seq<char>,
> {
    if !success {
        Err("llm extractor failed: "@ + stderr)
    } else if nothing(text::trim(stdout)) {
        Ok(None)
    } else {
        Ok(Some(text::trim(stdout)))
    }
}

/// What an optional answer holds.
pub open spec fn reply_view(r: Result<Option<String>, Error>) -> Result<
    Option<Seq<char>>,
    Seq<char>,
> {
    match r {
        Ok(Some(t)) => Ok(Some(t@)),
        Ok(None) => Ok(None),
        Err(e) => Err(e@),
    }
}

/// What the CLI said, once its output is text.
pub fn read_text(success: bool, stdout: &str, stderr: &str) -> (r: Result<Option<String>, Error>)
    ensures
        reply_view(r) == reply(success, stdout@, stderr@),
{
    if !success {
        return Err(Error::new("llm extractor failed: ".to_owned().concat(stderr)));
    }
    let trimmed = text::trimmed(stdout);
    if is_nothing(trimmed) {
        Ok(None)
    } else {
        Ok(Some(trimmed.to_owned()))
    }
}

/// What the CLI said.
pub fn read_output(success: bool, stdout: &[u8], stderr: &[u8]) -> (r: Result<
    Option<String>,
    Error,
>)
    ensures
        reply_view(r) == reply(success, lossy(stdout@), lossy(stderr@)),
{
    read_text(success, decode_lossy(stdout).as_str(), decode_lossy(stderr).as_str())
}

/// The answer in what running the CLI came to, once its output is text; or why there is none.
pub open spec fn judged(
    outcome: RunOutcome,
    stdout: Seq<char>,
    stderr: Seq<char>,
) -> Result<(Seq<char>, Seq<char>), Failure> {
    match outcome {
        RunOutcome::TimedOut(cause) => Err(
            Failure {
                summary: "llm extractor timed out"@,
                detail: "llm extractor timed out: "@ + cause@,
                output: Seq::empty(),
            },
        ),
        RunOutcome::NotRun(cause) => Err(
            Failure {
                summary: "failed to run llm extractor"@,
                detail: "failed to run llm extractor: "@ + cause@,
                output: Seq::empty(),
            },
        ),
        RunOutcome::Finished { success, .. } => match reply(success, stdout, stderr) {
            Err(m) => Err(Failure { summary: m, detail: m, output: Seq::empty() }),
            Ok(None) => Err(
                Failure {
                    summary: "llm returned empty or NONE response"@,
                    detail: "llm returned empty or NONE response"@,
                    output: Seq::empty(),
                },
            ),
            Ok(Some(answer)) => Ok((answer, unfenced(answer))),
        },
    }
}

/// What the CLI printed, as text.
pub open spec fn printed(outcome: RunOutcome) -> (Seq<char>, Seq<char>) {
    match outcome {
        RunOutcome::Finished { stdout, stderr, .. } => (lossy(stdout@), lossy(stderr@)),
        _ => (Seq::empty(), Seq::empty()),
    }
}

/// The answer in what running the CLI came to, ready to be deserialized; or why there is none.
pub fn judge(outcome: RunOutcome) -> (r: Result<Answer, ParseFailure>)
    ensures
        match (r, judged(outcome, printed(outcome).0, printed(outcome).1)) {
            (Ok(answer), Ok((output, json))) => answer.output@ == output && answer.json@ == json,
            (Err(e), Err(f)) => e@ == f,
            _ => false,
        },
{
    match outcome {
        RunOutcome::TimedOut(cause) => Err(
            ParseFailure {
                summary: "llm extractor timed out".to_owned(),
                detail: "llm extractor timed out: ".to_owned().concat(cause.as_str()),
                output: String::new(),
            },
        ),
        RunOutcome::NotRun(cause) => Err(
            ParseFailure {
                summary: "failed to run llm extractor".to_owned(),
                detail: "failed to run llm extractor: ".to_owned().concat(cause.as_str()),
                output: String::new(),
            },
        ),
        RunOutcome::Finished { success, stdout, stderr } => {
            match read_output(success, stdout.as_slice(), stderr.as_slice()) {
                Err(e) => Err(
                    ParseFailure {
                        summary: e.message().to_owned(),
                        detail: e.message().to_owned(),
                        output: String::new(),
                    },
                ),
                Ok(None) => Err(
                    ParseFailure {
                        summary: "llm returned empty or NONE response".to_owned(),
                        detail: "llm returned empty or NONE response".to_owned(),
                        output: String::new(),
                    },
                ),
                Ok(Some(output)) => {
                    let json = strip_json_fences(output.as_str());
                    Ok(Answer { output, json })
                },
            }
        },
    }
}

/// An answer that cannot be deserialized, with the text of the cause.
pub open spec fn unparseable(output: Seq<char>, json: Seq<char>, cause: Seq<char>) -> Failure {
    Failure {
        summary: "failed to parse LLM JSON: "@ + json,
        detail: "failed to parse LLM JSON: "@ + json + ": "@ + cause,
        output,
    }
}

/// The failure of an answer that cannot be deserialized.
pub fn reject(answer: Answer, cause: &str) -> (r: ParseFailure)
    ensures
        r@ == unparseable(answer.output@, answer.json@, cause@),
{
    let summary = "failed to parse LLM JSON: ".to_owned().concat(answer.json.as_str());
    let detail = summary.clone().concat(": ").concat(cause);
    ParseFailure { summary, detail, output: answer.output }
}

// ---- the repair loop -----------------------------------------------------------------------

/// One extraction: a first attempt, and one repair.
#[derive(Debug)]
pub struct RepairLoop {
    prompt: String,
    max_text_len: usize,
    first: Option<ParseFailure>,
}

/// Where an extraction stands.
pub struct Progress {
    /// The first prompt.
    pub prompt: Seq<char>,
    /// Most bytes of the first answer in the repair prompt.
    pub max_text_len: int,
    /// How the first attempt failed, once it has.
    pub first: Option<Failure>,
}

impl Progress {
    /// The prompt of the next attempt.
    pub open spec fn next_prompt(self) -> Seq<char> {
        match self.first {
            None => self.prompt,
            Some(first) => repair(self.prompt, first.output, first.detail, self.max_text_len),
        }
    }

    /// How the extraction fails when its repair fails too.
    pub open spec fn verdict(self, retry: Failure) -> Seq<char> {
        "llm parse failed after one retry; first error: "@ + self.first->0.summary
            + "; first output: "@ + self.first->0.output + ": "@ + retry.detail
    }

    /// Where the extraction stands after an attempt failed.
    pub open spec fn after(self, failure: Failure) -> Progress {
        match self.first {
            None => Progress { first: Some(failure), ..self },
            Some(_) => self,
        }
    }
}

impl View for RepairLoop {
    type V = Progress;

    closed spec fn view(&self) -> Progress {
        Progress {
            prompt: self.prompt@,
            max_text_len: self.max_text_len as int,
            first: match self.first {
                Some(first) => Some(first@),
                None => None,
            },
        }
    }
}

impl RepairLoop {
    /// An extraction with the given prompt.
    pub fn new(prompt: String, max_text_len: usize) -> (r: RepairLoop)
        ensures
            r@ == (Progress {
                prompt: prompt@,
                max_text_len: max_text_len as int,
                first: None,
            }),
    {
        RepairLoop { prompt, max_text_len, first: None }
    }

    /// The prompt of the next attempt: the first prompt, then the repair prompt.
    pub fn next_prompt(&self) -> (r: String)
        ensures
            r@ == self@.next_prompt(),
    {
        match &self.first {
            None => self.prompt.clone(),
            Some(first) => build_repair_prompt(
                self.prompt.as_str(),
                first.output.as_str(),
                first.detail.as_str(),
                self.max_text_len,
            ),
        }
    }

    /// Record that an attempt failed. The first failure is repaired: `None`, and there is a next
    /// attempt. The second is the error of the extraction.
    pub fn fail(&mut self, failure: ParseFailure) -> (r: Option<Error>)
        ensures
            final(self)@ == old(self)@.after(failure@),
            match old(self)@.first {
                None => r is None,
                Some(_) => r matches Some(e) && e@ == old(self)@.verdict(failure@),
            },
    {
        match &self.first {
            Some(first) => {
                let message = "llm parse failed after one retry; first error: ".to_owned().concat(
                    first.summary.as_str(),
                ).concat("; first output: ").concat(first.output.as_str()).concat(": ").concat(
                    failure.detail.as_str(),
                );
                Some(Error::new(message))
            },
            None => {
                self.first = Some(failure);
                None
            },
        }
    }
}

// ---- the shared handle ---------------------------------------------------------------------

/// Limits for a [`SharedLlm`] gateway.
#[derive(Debug, Clone, Copy)]
pub struct SharedLimits {
    /// Cap on concurrent CLI calls across all holders of the handle.
    pub max_concurrent_calls: usize,
    /// Max bytes of task text embedded into a prompt.
    pub max_text_len: usize,
    /// Per-call subprocess timeout.
    pub call_timeout: Duration,
}

impl Default for SharedLimits {
    fn default() -> (r: SharedLimits)
        ensures
            r.max_concurrent_calls == 2,
            r.max_text_len == 4000,
            duration::nanos(r.call_timeout) == 30_000_000_000,
    {
        SharedLimits {
            max_concurrent_calls: DEFAULT_MAX_CONCURRENT_CALLS,
            max_text_len: DEFAULT_MAX_TEXT_LEN,
            call_timeout: default_timeout(),
        }
    }
}

/// The configuration that all tasks of a process share: the CLI command and the limits.
#[derive(Debug)]
pub struct SharedLlm {
    /// Command string, split by the shell's rules.
    pub bin: String,
    /// Arguments behind those of the command string, each taken as it is.
    pub args: Vec<String>,
    pub limits: SharedLimits,
}

/// What a [`SharedLlm`] is configured with.
pub struct Gateway {
    pub bin: Seq<char>,
    pub args: Seq<Seq<char>>,
    pub limits: SharedLimits,
}

impl View for SharedLlm {
    type V = Gateway;

    open spec fn view(&self) -> Gateway {
        Gateway { bin: self.bin@, args: text::texts(self.args@), limits: self.limits }
    }
}

impl Clone for SharedLlm {
    fn clone(&self) -> (r: SharedLlm)
        ensures
            r@ == self@,
    {
        let args = text::part(&self.args, 0, self.args.len());
        assert(text::texts(args@) =~= text::texts(self.args@));
        SharedLlm { bin: self.bin.clone(), args, limits: self.limits }
    }
}

/// Context of a healthcheck extraction.
pub const HEALTHCHECK_CONTEXT: &'static str = "healthcheck";

impl SharedLlm {
    /// Build from a command string (e.g. `"pi --print"`) and limits.
    pub fn new(bin: String, limits: SharedLimits) -> (r: SharedLlm)
        ensures
            r@ == (Gateway { bin: bin@, args: Seq::empty(), limits }),
    {
        let r = SharedLlm { bin, args: Vec::new(), limits };
        assert(text::texts(r.args@) =~= Seq::empty());
        r
    }

    /// Set the arguments behind those of the command string, each taken as it is.
    pub fn with_args(self, args: Vec<String>) -> (r: SharedLlm)
        ensures
            r@ == (Gateway { args: text::texts(args@), ..self@ }),
    {
        SharedLlm { args, ..self }
    }

    /// Set the max bytes of task text embedded into a prompt.
    pub fn with_max_text_len(self, max_text_len: usize) -> (r: SharedLlm)
        ensures
            r@ == (Gateway { limits: SharedLimits { max_text_len, ..self@.limits }, ..self@ }),
    {
        let limits = SharedLimits { max_text_len, ..self.limits };
        SharedLlm { limits, ..self }
    }

    /// The extractor of `T` under the shared configuration, with `context` for its prompt.
    pub fn extractor<T: Extractable>(&self, context: String) -> (r: LlmExtractor<T>)
        ensures
            ({
                let words = match shell_split(self@.bin) {
                    Some(words) => words,
                    None => Seq::empty(),
                };
                &&& r.bin@ == command(words)
                &&& text::texts(r.args@) == arguments(words) + self@.args
            }),
            r.prompt_context@ == context@,
            r.max_text_len == self.limits.max_text_len,
            r.timeout == self.limits.call_timeout,
    {
        let mut extractor = LlmExtractor::<T>::from_bin(self.bin.as_str()).with_prompt_context(
            context,
        ).with_max_text_len(self.limits.max_text_len).with_timeout(self.limits.call_timeout);
        let ghost before = extractor.args@;
        let mut extra = text::part(&self.args, 0, self.args.len());
        assert(text::texts(extra@) =~= self@.args);
        let ghost copied = extra@;
        extractor.args.append(&mut extra);
        assert(extractor.args@ =~= before + copied);
        assert(text::texts(extractor.args@) =~= text::texts(before) + self@.args);
        extractor
    }
}

} // verus!
