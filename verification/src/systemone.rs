//! SystemOne client (`POST {base_url}/v1/systemone`).
//!
//! Backends differ only by base URL; the path is fixed. The caller supplies base URL, API key and
//! model; nothing is read from the environment.
//!
//! Questions are independent and evaluated in parallel: they cannot see each other's answers, so
//! do not chain them. Every answer exposes full probabilities. Sending requests is the caller's:
//! a [`SharedSystemOne`] says what to send, and [`read_reply`] makes sense of what comes back.

pub mod answers;
pub mod laws;

use crate::duration;
use crate::error::{self, Error};
use crate::json::{self, Json};
use crate::limits::ConcurrencyLimits;
use crate::retry::RetryPolicy;
use crate::text;
use crate::text_map::{self, TextMap};
use std::time::Duration;
use vstd::prelude::*;

verus! {

broadcast use vstd::seq::group_seq_axioms;

/// One typed question evaluated against the request state.
///
/// `instructions` may be a string, object or array.
#[derive(Debug)]
#[allow(inconsistent_fields)]
pub enum Question {
    /// Yes/no; answered with the probability of "yes".
    Noul {
        /// The question, referring to the state.
        instructions: serde_json::Value,
        /// What "yes" and "no" mean, when spelled out.
        criteria: Option<serde_json::Value>,
    },
    /// One option from a set; answered with the most probable one and its confidence.
    Choice {
        /// The question, referring to the state.
        instructions: serde_json::Value,
        /// Option and its description (text, object, array or none).
        criteria: TextMap<Option<serde_json::Value>>,
    },
    /// A position along an ordered rubric; answered with probabilities per level.
    Score {
        /// The question, referring to the state.
        instructions: serde_json::Value,
        /// Level descriptions (text, object or array), lowest first.
        criteria: Vec<serde_json::Value>,
    },
}

/// Named questions; answers come back under the same ids.
pub type QuestionMap = TextMap<Question>;

/// A yes/no question without criteria descriptions.
pub fn noul(instructions: serde_json::Value) -> (r: Question)
    ensures
        r == (Question::Noul { instructions, criteria: None }),
{
    Question::Noul { instructions, criteria: None }
}

/// The options as a map, later ones overriding earlier ones.
pub open spec fn options_map(options: Seq<(String, Option<serde_json::Value>)>) -> Map<
    Seq<char>,
    Option<serde_json::Value>,
> {
    text_map::to_map(
        options.map_values(|o: (String, Option<serde_json::Value>)| (o.0@, o.1)),
    )
}

/// Pick one of `options`. Each option is a name and an optional description: text, an object, an
/// array, or `None`.
pub fn choice(
    instructions: serde_json::Value,
    options: Vec<(String, Option<serde_json::Value>)>,
) -> (r: Question)
    ensures
        r matches Question::Choice { instructions: i, criteria } && i == instructions && criteria@
            == options_map(options@),
{
    let ghost all = options@.map_values(|o: (String, Option<serde_json::Value>)| (o.0@, o.1));
    let mut options = options;
    let ghost start = options@;
    let mut criteria: TextMap<Option<serde_json::Value>> = TextMap::new();
    let ghost mut done: int = 0;
    assert(all.take(0) =~= Seq::empty());
    while options.len() > 0
        invariant
            all == start.map_values(|o: (String, Option<serde_json::Value>)| (o.0@, o.1)),
            0 <= done <= start.len(),
            options@ == start.skip(done),
            criteria@ == text_map::to_map(all.take(done)),
        decreases options@.len(),
    {
        let (name, description) = options.remove(0);
        proof {
            assert((name, description) == start[done]);
            assert(options@ =~= start.skip(done + 1));
            assert(all.take(done + 1).drop_last() =~= all.take(done));
            assert(all.take(done + 1).last() == (name@, description));
        }
        criteria.insert(name, description);
        proof {
            done = done + 1;
        }
    }
    assert(all.take(done) =~= all);
    Question::Choice { instructions, criteria }
}

/// Rate along `levels` (text, object or array), ordered from lowest to highest.
pub fn score(instructions: serde_json::Value, levels: Vec<serde_json::Value>) -> (r: Question)
    ensures
        r == (Question::Score { instructions, criteria: levels }),
{
    Question::Score { instructions, criteria: levels }
}

// ---- on the wire ---------------------------------------------------------------------------

/// The texts of values.
pub open spec fn rendered_all(list: Seq<serde_json::Value>) -> Seq<Seq<char>> {
    list.map_values(|v: serde_json::Value| json::rendered(v))
}

/// An option with its description, which is null where it has none.
pub open spec fn option_text(entry: (Seq<char>, Option<serde_json::Value>)) -> Seq<char> {
    json::quoted(entry.0) + ":"@ + match entry.1 {
        Some(description) => json::rendered(description),
        None => "null"@,
    }
}

/// A question on the wire: its type, its instructions and its criteria.
pub open spec fn question_text(q: Question) -> Seq<char> {
    match q {
        Question::Noul { instructions, criteria } => "{\"type\":\"noul\",\"instructions\":"@
            + json::rendered(instructions) + match criteria {
            Some(criteria) => ",\"criteria\":"@ + json::rendered(criteria),
            None => Seq::empty(),
        } + "}"@,
        Question::Choice { instructions, criteria } => "{\"type\":\"choice\",\"instructions\":"@
            + json::rendered(instructions) + ",\"criteria\":{"@ + text::joined(
            criteria.listed().map_values(
                |e: (Seq<char>, Option<serde_json::Value>)| option_text(e),
            ),
            ","@,
        ) + "}}"@,
        Question::Score { instructions, criteria } => "{\"type\":\"score\",\"instructions\":"@
            + json::rendered(instructions) + ",\"criteria\":["@ + text::joined(
            rendered_all(criteria@),
            ","@,
        ) + "]}"@,
    }
}

/// Questions on the wire, under their ids in dictionary order.
pub open spec fn questions_text(questions: Seq<(Seq<char>, Question)>) -> Seq<char> {
    "{"@ + text::joined(
        questions.map_values(
            |e: (Seq<char>, Question)| json::quoted(e.0) + ":"@ + question_text(e.1),
        ),
        ","@,
    ) + "}"@
}

impl Question {
    /// The question on the wire: its type, its instructions and its criteria.
    pub fn to_json(&self) -> (r: String)
        ensures
            r@ == question_text(*self),
    {
        match self {
            Question::Noul { instructions, criteria } => {
                let head = "{\"type\":\"noul\",\"instructions\":".to_owned().concat(
                    json::render(instructions).as_str(),
                );
                let tail = match criteria {
                    Some(criteria) => ",\"criteria\":".to_owned().concat(
                        json::render(criteria).as_str(),
                    ),
                    None => String::new(),
                };
                head.concat(tail.as_str()).concat("}")
            },
            Question::Choice { instructions, criteria } => {
                "{\"type\":\"choice\",\"instructions\":".to_owned().concat(
                    json::render(instructions).as_str(),
                ).concat(",\"criteria\":{").concat(join_options(criteria).as_str()).concat("}}")
            },
            Question::Score { instructions, criteria } => {
                "{\"type\":\"score\",\"instructions\":".to_owned().concat(
                    json::render(instructions).as_str(),
                ).concat(",\"criteria\":[").concat(join_values(criteria).as_str()).concat("]}")
            },
        }
    }
}

fn join_values(list: &Vec<serde_json::Value>) -> (r: String)
    ensures
        r@ == text::joined(rendered_all(list@), ","@),
{
    let ghost all = rendered_all(list@);
    let mut out: Vec<String> = Vec::new();
    let mut i: usize = 0;
    while i < list.len()
        invariant
            all == rendered_all(list@),
            0 <= i <= list@.len(),
            text::texts(out@) == all.take(i as int),
        decreases list@.len() - i,
    {
        let ghost before = out@;
        let part = json::render(&list[i]);
        out.push(part);
        proof {
            assert(text::texts(out@) =~= text::texts(before).push(part@));
            assert(all.take(i + 1) =~= all.take(i as int).push(all[i as int]));
        }
        i += 1;
    }
    assert(all.take(i as int) =~= all);
    text::join(&out, ",")
}

fn join_options(options: &TextMap<Option<serde_json::Value>>) -> (r: String)
    ensures
        r@ == text::joined(
            options.listed().map_values(
                |e: (Seq<char>, Option<serde_json::Value>)| option_text(e),
            ),
            ","@,
        ),
{
    let ghost all = options.listed().map_values(
        |e: (Seq<char>, Option<serde_json::Value>)| option_text(e),
    );
    let mut out: Vec<String> = Vec::new();
    let mut i: usize = 0;
    let n: usize = options.len();
    while i < n
        invariant
            n == options.listed().len(),
            all == options.listed().map_values(
                |e: (Seq<char>, Option<serde_json::Value>)| option_text(e),
            ),
            0 <= i <= n,
            text::texts(out@) == all.take(i as int),
        decreases n - i,
    {
        let ghost before = out@;
        let value = match options.value_at(i) {
            Some(description) => json::render(description),
            None => "null".to_owned(),
        };
        let part = json::quote(options.key_at(i)).concat(":").concat(value.as_str());
        out.push(part);
        proof {
            assert(text::texts(out@) =~= text::texts(before).push(part@));
            assert(part@ == option_text(options.listed()[i as int]));
            assert(all.take(i + 1) =~= all.take(i as int).push(all[i as int]));
        }
        i += 1;
    }
    assert(all.take(i as int) =~= all);
    text::join(&out, ",")
}

/// Questions on the wire, under their ids in dictionary order.
pub fn questions_to_json(questions: &QuestionMap) -> (r: String)
    ensures
        r@ == questions_text(questions.listed()),
{
    let ghost all = questions.listed().map_values(
        |e: (Seq<char>, Question)| json::quoted(e.0) + ":"@ + question_text(e.1),
    );
    let mut out: Vec<String> = Vec::new();
    let mut i: usize = 0;
    let n: usize = questions.len();
    while i < n
        invariant
            n == questions.listed().len(),
            all == questions.listed().map_values(
                |e: (Seq<char>, Question)| json::quoted(e.0) + ":"@ + question_text(e.1),
            ),
            0 <= i <= n,
            text::texts(out@) == all.take(i as int),
        decreases n - i,
    {
        let ghost before = out@;
        let part = json::quote(questions.key_at(i)).concat(":").concat(
            questions.value_at(i).to_json().as_str(),
        );
        out.push(part);
        proof {
            assert(text::texts(out@) =~= text::texts(before).push(part@));
            assert(all.take(i + 1) =~= all.take(i as int).push(all[i as int]));
        }
        i += 1;
    }
    assert(all.take(i as int) =~= all);
    "{".to_owned().concat(text::join(&out, ",").as_str()).concat("}")
}

// ---- question sets -------------------------------------------------------------------------

/// The default state: the input, a blank line, the context.
pub fn plain_state(text: &str, prompt_context: &str) -> (r: String)
    ensures
        r@ == text@ + "\n\n"@ + prompt_context@,
{
    text.to_owned().concat("\n\n").concat(prompt_context)
}

/// A typed question set: a domain struct whose fields are both the question ids and the answers.
pub trait Questions {
    /// The struct the response's answers deserialize into.
    type Answers;

    /// Build the request question map; ids must match `Answers` field names.
    fn questions() -> (r: QuestionMap);

    /// Render the shared state from input `text` and dynamic `prompt_context`.
    ///
    /// Defaults to plain concatenation, as [`plain_state`] does.
    fn render_state(text: &str, prompt_context: &str) -> (r: Result<String, Error>)
        default_ensures
            error::outcome(r) == Ok::<Seq<char>, Seq<char>>(
                text@ + "\n\n"@ + prompt_context@,
            ),
    {
        Ok(plain_state(text, prompt_context))
    }
}

/// A domain whose healthcheck the client can verify end-to-end.
pub trait Evaluatable: Questions + Sized {
    /// Fixture text rendered through the real template for the batch gate.
    const HEALTHCHECK_TEXT: &'static str;

    /// The fixture text, rendered where it is a template.
    fn healthcheck_text() -> (r: Result<String, Error>)
        default_ensures
            error::outcome(r) == Ok::<Seq<char>, Seq<char>>(Self::HEALTHCHECK_TEXT@),
    {
        Ok(Self::HEALTHCHECK_TEXT.to_owned())
    }

    /// Validate the parsed healthcheck answers.
    fn verify(&self) -> (r: Result<(), Error>);
}

/// Context of a healthcheck.
pub const HEALTHCHECK_CONTEXT: &'static str = "healthcheck";

// ---- the client ----------------------------------------------------------------------------

/// Configuration of a SystemOne client. The API key is not shown by [`Self::redacted`].
pub struct SharedSystemOne {
    base_url: String,
    api_key: String,
    model: String,
    limits: ConcurrencyLimits,
    retry: RetryPolicy,
}

/// What a [`SharedSystemOne`] is configured with.
pub struct Client {
    pub base_url: Seq<char>,
    pub api_key: Seq<char>,
    pub model: Seq<char>,
    pub limits: ConcurrencyLimits,
    pub retry: RetryPolicy,
}

impl View for SharedSystemOne {
    type V = Client;

    closed spec fn view(&self) -> Client {
        Client {
            base_url: self.base_url@,
            api_key: self.api_key@,
            model: self.model@,
            limits: self.limits,
            retry: self.retry,
        }
    }
}

impl Clone for SharedSystemOne {
    fn clone(&self) -> (r: SharedSystemOne)
        ensures
            r@ == self@,
    {
        SharedSystemOne {
            base_url: self.base_url.clone(),
            api_key: self.api_key.clone(),
            model: self.model.clone(),
            limits: self.limits,
            retry: self.retry,
        }
    }
}

/// What a client shows of itself: everything but the key.
#[derive(Debug)]
pub struct RedactedSystemOne {
    pub base_url: String,
    pub api_key: &'static str,
    pub model: String,
    pub limits: ConcurrencyLimits,
    pub retry: RetryPolicy,
}

impl View for RedactedSystemOne {
    type V = Client;

    open spec fn view(&self) -> Client {
        Client {
            base_url: self.base_url@,
            api_key: self.api_key@,
            model: self.model@,
            limits: self.limits,
            retry: self.retry,
        }
    }
}

/// The request that asks `model` the questions about a state, which is JSON text.
pub open spec fn request_text(
    model: Seq<char>,
    state: Seq<char>,
    questions: Seq<(Seq<char>, Question)>,
) -> Seq<char> {
    "{\"model\":"@ + json::quoted(model) + ",\"state\":"@ + state + ",\"questions\":"@
        + questions_text(questions) + "}"@
}

impl SharedSystemOne {
    /// Build from a base URL, API key, model and shared limits. Every request is sent once: an
    /// evaluation that fails says how its request failed. [`Self::with_retry_policy`] retries.
    pub fn new(base_url: String, api_key: String, model: String, limits: ConcurrencyLimits) -> (r:
        SharedSystemOne)
        ensures
            r@ == (Client {
                base_url: base_url@,
                api_key: api_key@,
                model: model@,
                limits,
                retry: r@.retry,
            }),
            r@.retry.max_attempts == 1,
            duration::nanos(r@.retry.base_backoff) == 0,
            duration::nanos(r@.retry.max_backoff) == 0,
    {
        SharedSystemOne { base_url, api_key, model, limits, retry: RetryPolicy::none() }
    }

    /// Retry transient failures (429, 5xx, timeouts, failed transports) as `retry` says;
    /// `RetryPolicy::default()` makes up to three attempts.
    pub fn with_retry_policy(self, retry: RetryPolicy) -> (r: SharedSystemOne)
        ensures
            r@ == (Client { retry, ..self@ }),
    {
        SharedSystemOne { retry, ..self }
    }

    /// What the client shows of itself: everything but the key.
    pub fn redacted(&self) -> (r: RedactedSystemOne)
        ensures
            r@ == (Client { api_key: "<redacted>"@, ..self@ }),
    {
        RedactedSystemOne {
            base_url: self.base_url.clone(),
            api_key: "<redacted>",
            model: self.model.clone(),
            limits: self.limits,
            retry: self.retry,
        }
    }

    /// Where requests go.
    pub fn url(&self) -> (r: String)
        ensures
            r@ == self@.base_url + "/v1/systemone"@,
    {
        self.base_url.clone().concat("/v1/systemone")
    }

    /// The key requests carry.
    pub fn api_key(&self) -> (r: &str)
        ensures
            r@ == self@.api_key,
    {
        self.api_key.as_str()
    }

    /// The concurrency cap and the per-call timeout.
    pub fn limits(&self) -> (r: ConcurrencyLimits)
        ensures
            r == self@.limits,
    {
        self.limits
    }

    /// How long to wait before the request is sent again, after attempt number `attempt` came to an
    /// answer of the given status, or to none (a timeout or a failed transport). `None` where what
    /// came is the reply.
    pub fn retry_after(&self, attempt: usize, status: Option<u16>) -> (r: Option<Duration>)
        ensures
            match r {
                Some(d) => self@.retry.pause(attempt as nat, status) == Some(duration::nanos(d)),
                None => self@.retry.pause(attempt as nat, status) is None,
            },
    {
        self.retry.pause_after(attempt, status)
    }

    fn request(&self, state: &str, questions: &QuestionMap) -> (r: String)
        ensures
            r@ == request_text(self@.model, state@, questions.listed()),
    {
        "{\"model\":".to_owned().concat(json::quote(self.model.as_str()).as_str()).concat(
            ",\"state\":",
        ).concat(state).concat(",\"questions\":").concat(
            questions_to_json(questions).as_str(),
        ).concat("}")
    }

    /// The request that asks `questions` about `state`.
    pub fn request_body(&self, state: &serde_json::Value, questions: &QuestionMap) -> (r: String)
        ensures
            r@ == request_text(self@.model, json::rendered(*state), questions.listed()),
    {
        self.request(json::render(state).as_str(), questions)
    }

    /// The request that asks `questions` about a rendered state, which is sent as a string.
    pub fn text_request_body(&self, state: &str, questions: &QuestionMap) -> (r: String)
        ensures
            r@ == request_text(self@.model, json::quoted(state@), questions.listed()),
    {
        self.request(json::quote(state).as_str(), questions)
    }
}

// ---- replies -------------------------------------------------------------------------------

/// What a request came to.
#[derive(Debug)]
pub enum Reply {
    /// No answer came in time; with the text of the cause.
    TimedOut(String),
    /// The request failed; with the text of the cause.
    Failed(String),
    /// The body of a successful answer.
    Body(String),
}

/// The body of an answer, or an error where its status is no success.
pub fn check_status(success: bool, status: &str, body: String) -> (r: Result<String, Error>)
    ensures
        error::outcome(r) == (if success {
            Ok::<Seq<char>, Seq<char>>(body@)
        } else {
            Err("systemone returned HTTP "@ + status@ + ": "@ + body@)
        }),
{
    if success {
        Ok(body)
    } else {
        Err(
            Error::new(
                "systemone returned HTTP ".to_owned().concat(status).concat(": ").concat(
                    body.as_str(),
                ),
            ),
        )
    }
}

/// The answers in a response's envelope: an object with an `answers` member, or the list of its
/// one member.
pub open spec fn answers_in(envelope: Json) -> Option<Json> {
    match envelope {
        Json::Array(list) => if list.len() == 1 {
            Some(list[0])
        } else {
            None
        },
        _ => json::member(envelope, "answers"@),
    }
}

/// The answers in what a request came to.
pub open spec fn answers_of(reply: Reply) -> Result<Json, Seq<char>> {
    match reply {
        Reply::TimedOut(cause) => Err("systemone call timed out: "@ + cause@),
        Reply::Failed(cause) => Err("systemone transport failed: "@ + cause@),
        Reply::Body(body) => match json::parsed(vstd::utf8::encode_utf8(body@)) {
            Err(cause) => Err(
                "parse systemone response envelope: "@ + body@ + ": "@ + cause,
            ),
            Ok(envelope) => match answers_in(envelope) {
                Some(answers) => Ok(answers),
                None => Err(
                    "parse systemone response envelope: "@ + body@ + ": "@
                        + "missing field `answers`"@,
                ),
            },
        },
    }
}

/// What reading a reply comes to.
pub open spec fn answers_outcome(r: Result<serde_json::Value, Error>) -> Result<Json, Seq<char>> {
    match r {
        Ok(value) => Ok(json::json(value)),
        Err(e) => Err(e@),
    }
}

fn find_answers<'a>(envelope: &'a serde_json::Value) -> (r: Option<&'a serde_json::Value>)
    ensures
        match answers_in(json::json(*envelope)) {
            Some(answers) => r matches Some(x) && json::json(*x) == answers,
            None => r is None,
        },
{
    match envelope.as_array() {
        Some(list) => if list.len() == 1 {
            Some(&list[0])
        } else {
            None
        },
        None => json::get(envelope, "answers"),
    }
}

/// The answers in what a request came to.
///
/// The answers are looked up in the body's JSON value: a deserializer of the envelope itself would
/// be generated code, which has no contract. So of members with the same name the last counts,
/// members beside `answers` must be readable too, and the text of the cause is that of reading the
/// value.
pub fn read_reply(reply: Reply) -> (r: Result<serde_json::Value, Error>)
    ensures
        answers_outcome(r) == answers_of(reply),
{
    let body = match reply {
        Reply::TimedOut(cause) => return Err(
            Error::new("systemone call timed out: ".to_owned().concat(cause.as_str())),
        ),
        Reply::Failed(cause) => return Err(
            Error::new("systemone transport failed: ".to_owned().concat(cause.as_str())),
        ),
        Reply::Body(body) => body,
    };
    let envelope = match json::parse(body.as_str().as_bytes()) {
        Ok(envelope) => envelope,
        Err(cause) => return Err(
            Error::new(
                "parse systemone response envelope: ".to_owned().concat(body.as_str()).concat(
                    ": ",
                ).concat(cause.as_str()),
            ),
        ),
    };
    match find_answers(&envelope) {
        Some(answers) => Ok(answers.clone()),
        None => Err(
            Error::new(
                "parse systemone response envelope: ".to_owned().concat(body.as_str()).concat(
                    ": ",
                ).concat("missing field `answers`"),
            ),
        ),
    }
}

/// The error of answers that cannot be deserialized: it shows them.
pub fn reject_answers(answers: &serde_json::Value, cause: &str) -> (r: Error)
    ensures
        r@ == "parse systemone answers: "@ + json::rendered(*answers) + ": "@ + cause@,
{
    Error::new(
        "parse systemone answers: ".to_owned().concat(json::render(answers).as_str()).concat(
            ": ",
        ).concat(cause),
    )
}

} // verus!
