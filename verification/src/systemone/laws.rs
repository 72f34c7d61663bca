//! What holds of questions and answers.

use crate::error::Error;
use crate::float::F32;
use crate::json::laws::{self as json_laws, Doc};
use crate::json::{self, Json};
use crate::systemone::answers::{self, Score};
use crate::systemone::{self, Client, Question, QuestionMap, Reply, SharedSystemOne};
use crate::text;
use crate::text_map;
use vstd::prelude::*;

verus! {

broadcast use {vstd::seq::group_seq_axioms, vstd::map::group_map_axioms};

/// The most probable level is unique.
pub proof fn most_probable_is_unique(m: Map<u8, F32>, a: u8, b: u8)
    requires
        answers::most_probable(m, a),
        answers::most_probable(m, b),
    ensures
        a == b,
{
    assert(m.dom().contains(a));
    assert(m.dom().contains(b));
}

/// A question without criteria says nothing of them on the wire.
pub proof fn criteria_are_omitted(instructions: serde_json::Value)
    ensures
        systemone::question_text(Question::Noul { instructions, criteria: None })
            == "{\"type\":\"noul\",\"instructions\":"@ + json::rendered(instructions) + "}"@,
{
    assert("{\"type\":\"noul\",\"instructions\":"@ + json::rendered(instructions) + Seq::empty()
        + "}"@ =~= "{\"type\":\"noul\",\"instructions\":"@ + json::rendered(instructions)
        + "}"@);
}

/// What a client shows of itself does not depend on its key.
pub proof fn keys_are_never_shown(a: Client, b: Client)
    requires
        (Client { api_key: a.api_key, ..b }) == a,
    ensures
        (Client { api_key: "<redacted>"@, ..a }) == (Client { api_key: "<redacted>"@, ..b }),
{
}

// ---- on the wire ---------------------------------------------------------------------------

/// A question as a document: its type, its instructions, and its criteria where it has any. Those of
/// a choice are its options, null where one is not described; those of a score its levels.
pub open spec fn question_doc(q: Question) -> Doc {
    match q {
        Question::Noul { instructions, criteria: None } => Doc::Object(
            seq![("type"@, Doc::Text("noul"@)), ("instructions"@, Doc::Value(instructions))],
        ),
        Question::Noul { instructions, criteria: Some(criteria) } => Doc::Object(
            seq![
                ("type"@, Doc::Text("noul"@)),
                ("instructions"@, Doc::Value(instructions)),
                ("criteria"@, Doc::Value(criteria)),
            ],
        ),
        Question::Choice { instructions, criteria } => Doc::Object(
            seq![
                ("type"@, Doc::Text("choice"@)),
                ("instructions"@, Doc::Value(instructions)),
                ("criteria"@, Doc::Object(option_docs(criteria.listed()))),
            ],
        ),
        Question::Score { instructions, criteria } => Doc::Object(
            seq![
                ("type"@, Doc::Text("score"@)),
                ("instructions"@, Doc::Value(instructions)),
                ("criteria"@, Doc::List(value_docs(criteria@))),
            ],
        ),
    }
}

/// Options as members.
pub open spec fn option_docs(options: Seq<(Seq<char>, Option<serde_json::Value>)>) -> Seq<
    (Seq<char>, Doc),
> {
    Seq::new(
        options.len(),
        |i: int|
            (
                options[i].0,
                match options[i].1 {
                    Some(description) => Doc::Value(description),
                    None => Doc::Null,
                },
            ),
    )
}

/// Values as documents.
pub open spec fn value_docs(list: Seq<serde_json::Value>) -> Seq<Doc> {
    Seq::new(list.len(), |i: int| Doc::Value(list[i]))
}

/// Questions as members, under their ids.
pub open spec fn question_docs(questions: Seq<(Seq<char>, Question)>) -> Seq<(Seq<char>, Doc)> {
    Seq::new(questions.len(), |i: int| (questions[i].0, question_doc(questions[i].1)))
}

proof fn lemma_names()
    ensures
        json::quoted("type"@) == seq!['"'] + "type"@ + seq!['"'],
        json::quoted("instructions"@) == seq!['"'] + "instructions"@ + seq!['"'],
        json::quoted("criteria"@) == seq!['"'] + "criteria"@ + seq!['"'],
{
    reveal_strlit("type");
    reveal_strlit("instructions");
    reveal_strlit("criteria");
    json_laws::lemma_plain_name("type"@);
    json_laws::lemma_plain_name("instructions"@);
    json_laws::lemma_plain_name("criteria"@);
}

/// The start of a question of the given kind.
spec fn head(kind: Seq<char>) -> Seq<char> {
    seq!['{'] + (json::quoted("type"@) + (seq![':'] + (json::quoted(kind) + (seq![','] + (
    json::quoted("instructions"@) + seq![':'])))))
}

proof fn lemma_noul_head()
    ensures
        "{\"type\":\"noul\",\"instructions\":"@ == head("noul"@),
{
    lemma_names();
    reveal_strlit("type");
    reveal_strlit("instructions");
    reveal_strlit("noul");
    reveal_strlit("{\"type\":\"noul\",\"instructions\":");
    json_laws::lemma_plain_name("noul"@);
    assert("{\"type\":\"noul\",\"instructions\":"@ =~= head("noul"@));
}

proof fn lemma_choice_head()
    ensures
        "{\"type\":\"choice\",\"instructions\":"@ == head("choice"@),
{
    lemma_names();
    reveal_strlit("type");
    reveal_strlit("instructions");
    reveal_strlit("choice");
    reveal_strlit("{\"type\":\"choice\",\"instructions\":");
    json_laws::lemma_plain_name("choice"@);
    assert("{\"type\":\"choice\",\"instructions\":"@ =~= head("choice"@));
}

proof fn lemma_score_head()
    ensures
        "{\"type\":\"score\",\"instructions\":"@ == head("score"@),
{
    lemma_names();
    reveal_strlit("type");
    reveal_strlit("instructions");
    reveal_strlit("score");
    reveal_strlit("{\"type\":\"score\",\"instructions\":");
    json_laws::lemma_plain_name("score"@);
    assert("{\"type\":\"score\",\"instructions\":"@ =~= head("score"@));
}

proof fn lemma_criteria()
    ensures
        ",\"criteria\":"@ == seq![','] + (json::quoted("criteria"@) + seq![':']),
        ",\"criteria\":{"@ == seq![','] + (json::quoted("criteria"@) + seq![':']) + seq!['{'],
        ",\"criteria\":["@ == seq![','] + (json::quoted("criteria"@) + seq![':']) + seq!['['],
        "}"@ == seq!['}'],
        "}}"@ == seq!['}', '}'],
        "]}"@ == seq![']', '}'],
        "{"@ == seq!['{'],
        ":"@ == seq![':'],
        "null"@ == seq!['n', 'u', 'l', 'l'],
{
    lemma_names();
    reveal_strlit("criteria");
    reveal_strlit(",\"criteria\":");
    reveal_strlit(",\"criteria\":{");
    reveal_strlit(",\"criteria\":[");
    reveal_strlit("}");
    reveal_strlit("}}");
    reveal_strlit("]}");
    reveal_strlit("{");
    reveal_strlit(":");
    reveal_strlit("null");
    assert(",\"criteria\":"@ =~= seq![','] + (json::quoted("criteria"@) + seq![':']));
    assert(",\"criteria\":{"@ =~= seq![','] + (json::quoted("criteria"@) + seq![':']) + seq!['{']);
    assert(",\"criteria\":["@ =~= seq![','] + (json::quoted("criteria"@) + seq![':']) + seq!['[']);
    assert("}"@ =~= seq!['}']);
    assert("}}"@ =~= seq!['}', '}']);
    assert("]}"@ =~= seq![']', '}']);
    assert("{"@ =~= seq!['{']);
    assert(":"@ =~= seq![':']);
    assert("null"@ =~= seq!['n', 'u', 'l', 'l']);
}

/// The members of a question without criteria.
spec fn two_members(kind: Seq<char>, instructions: serde_json::Value) -> Seq<(Seq<char>, Doc)> {
    Seq::<(Seq<char>, Doc)>::empty().push(("type"@, Doc::Text(kind))).push(
        ("instructions"@, Doc::Value(instructions)),
    )
}

proof fn lemma_two(kind: Seq<char>, instructions: serde_json::Value)
    ensures
        head(kind) + json::rendered(instructions) == seq!['{'] + json_laws::members_written(
            two_members(kind, instructions),
        ),
{
    let none = Seq::<(Seq<char>, Doc)>::empty();
    let one = none.push(("type"@, Doc::Text(kind)));
    json_laws::lemma_member_behind(none, "type"@, Doc::Text(kind));
    json_laws::lemma_member_behind(one, "instructions"@, Doc::Value(instructions));
    lemma_start(
        json::quoted("type"@),
        json::quoted(kind),
        json::quoted("instructions"@),
        json::rendered(instructions),
    );
}

proof fn lemma_start(a: Seq<char>, x: Seq<char>, b: Seq<char>, y: Seq<char>)
    ensures
        (seq!['{'] + (a + (seq![':'] + (x + (seq![','] + (b + seq![':'])))))) + y == seq!['{'] + (((
        Seq::<char>::empty() + a + seq![':'] + x) + seq![',']) + b + seq![':'] + y),
{
    let front = a + (seq![':'] + (x + (seq![','] + (b + seq![':']))));
    assert(front =~= ((Seq::<char>::empty() + a + seq![':'] + x) + seq![',']) + b + seq![':']);
    assert((seq!['{'] + front) + y =~= seq!['{'] + (front + y));
}

proof fn lemma_third(before: Seq<(Seq<char>, Doc)>, doc: Doc, pre: Seq<char>, in_between: Seq<char>)
    requires
        before.len() > 0,
        pre == seq!['{'] + json_laws::members_written(before),
        in_between == (seq![','] + (json::quoted("criteria"@) + seq![':'])) + json_laws::written(
            doc,
        ),
    ensures
        pre + in_between == seq!['{'] + json_laws::members_written(before.push(("criteria"@, doc))),
{
    json_laws::lemma_member_behind(before, "criteria"@, doc);
    let written = json_laws::members_written(before);
    let name = json::quoted("criteria"@);
    let value = json_laws::written(doc);
    assert((seq!['{'] + written) + ((seq![','] + (name + seq![':'])) + value) =~= seq!['{'] + ((
    written + seq![',']) + name + seq![':'] + value));
}

/// A bracketed value in the middle of an object, however its brackets are put together.
proof fn lemma_bracketed(
    pre: Seq<char>,
    lead: Seq<char>,
    open: char,
    inner: Seq<char>,
    close: char,
)
    ensures
        pre + (lead + seq![open]) + inner + seq![close, '}'] == (pre + (lead + (seq![open] + inner
            + seq![close]))) + seq!['}'],
{
    assert(pre + (lead + seq![open]) + inner + seq![close, '}'] =~= (pre + (lead + (seq![open]
        + inner + seq![close]))) + seq!['}']);
}

/// A question on the wire is an object with its type, its instructions and its criteria, exactly where
/// it has some; nothing is left out and nothing else is in it.
pub proof fn questions_are_written_whole(q: Question)
    ensures
        systemone::question_text(q) == json_laws::written(question_doc(q)),
{
    lemma_criteria();
    let members = question_doc(q)->Object_0;
    match q {
        Question::Noul { instructions, criteria } => {
            lemma_noul_head();
            lemma_two("noul"@, instructions);
            let two = two_members("noul"@, instructions);
            let pre = head("noul"@) + json::rendered(instructions);
            match criteria {
                None => {
                    assert(members =~= two);
                    assert(pre + Seq::empty() =~= pre);
                },
                Some(criteria) => {
                    let doc = Doc::Value(criteria);
                    assert(members =~= two.push(("criteria"@, doc)));
                    lemma_third(two, doc, pre, ",\"criteria\":"@ + json::rendered(criteria));
                },
            }
        },
        Question::Choice { instructions, criteria } => {
            lemma_choice_head();
            lemma_two("choice"@, instructions);
            let two = two_members("choice"@, instructions);
            let pre = head("choice"@) + json::rendered(instructions);
            let options = option_docs(criteria.listed());
            let doc = Doc::Object(options);
            let texts = criteria.listed().map_values(
                |e: (Seq<char>, Option<serde_json::Value>)| systemone::option_text(e),
            );
            let inner = text::joined(texts, ","@);
            assert(inner == json_laws::members_written(options)) by {
                json_laws::lemma_members_joined(options);
                assert(texts =~= options.map_values(
                    |m: (Seq<char>, Doc)| json_laws::member_written(m),
                ));
            }
            assert(members =~= two.push(("criteria"@, doc)));
            let lead = seq![','] + (json::quoted("criteria"@) + seq![':']);
            lemma_third(two, doc, pre, lead + json_laws::written(doc));
            lemma_bracketed(pre, lead, '{', inner, '}');
        },
        Question::Score { instructions, criteria } => {
            lemma_score_head();
            lemma_two("score"@, instructions);
            let two = two_members("score"@, instructions);
            let pre = head("score"@) + json::rendered(instructions);
            let levels = value_docs(criteria@);
            let doc = Doc::List(levels);
            let inner = text::joined(systemone::rendered_all(criteria@), ","@);
            assert(inner == json_laws::items_written(levels)) by {
                json_laws::lemma_items_joined(levels);
                assert(systemone::rendered_all(criteria@) =~= levels.map_values(
                    |d: Doc| json_laws::written(d),
                ));
            }
            assert(members =~= two.push(("criteria"@, doc)));
            let lead = seq![','] + (json::quoted("criteria"@) + seq![':']);
            lemma_third(two, doc, pre, lead + json_laws::written(doc));
            lemma_bracketed(pre, lead, '[', inner, ']');
        },
    }
}

/// Questions on the wire are an object with every question under its id, in order.
pub proof fn every_question_is_written(questions: Seq<(Seq<char>, Question)>)
    ensures
        systemone::questions_text(questions) == json_laws::written(
            Doc::Object(question_docs(questions)),
        ),
{
    lemma_criteria();
    let docs = question_docs(questions);
    let texts = questions.map_values(
        |e: (Seq<char>, Question)| json::quoted(e.0) + ":"@ + systemone::question_text(e.1),
    );
    json_laws::lemma_members_joined(docs);
    assert forall|i: int| 0 <= i < questions.len() implies #[trigger] texts[i]
        == json_laws::member_written(docs[i]) by {
        questions_are_written_whole(questions[i].1);
    }
    assert(texts =~= docs.map_values(|m: (Seq<char>, Doc)| json_laws::member_written(m)));
}

proof fn lemma_request_names()
    ensures
        "{\"model\":"@ == seq!['{'] + (json::quoted("model"@) + seq![':']),
        ",\"state\":"@ == seq![','] + (json::quoted("state"@) + seq![':']),
        ",\"questions\":"@ == seq![','] + (json::quoted("questions"@) + seq![':']),
        "}"@ == seq!['}'],
{
    reveal_strlit("model");
    reveal_strlit("state");
    reveal_strlit("questions");
    reveal_strlit("{\"model\":");
    reveal_strlit(",\"state\":");
    reveal_strlit(",\"questions\":");
    reveal_strlit("}");
    json_laws::lemma_plain_name("model"@);
    json_laws::lemma_plain_name("state"@);
    json_laws::lemma_plain_name("questions"@);
    assert("{\"model\":"@ =~= seq!['{'] + (json::quoted("model"@) + seq![':']));
    assert(",\"state\":"@ =~= seq![','] + (json::quoted("state"@) + seq![':']));
    assert(",\"questions\":"@ =~= seq![','] + (json::quoted("questions"@) + seq![':']));
    assert("}"@ =~= seq!['}']);
}

/// A request is an object with the model, the state as it is given, and every question under its id.
pub proof fn requests_are_written_whole(
    model: Seq<char>,
    state: Doc,
    questions: Seq<(Seq<char>, Question)>,
)
    ensures
        systemone::request_text(model, json_laws::written(state), questions) == json_laws::written(
            Doc::Object(
                seq![
                    ("model"@, Doc::Text(model)),
                    ("state"@, state),
                    ("questions"@, Doc::Object(question_docs(questions))),
                ],
            ),
        ),
{
    lemma_request_names();
    every_question_is_written(questions);
    let asked = Doc::Object(question_docs(questions));
    let none = Seq::<(Seq<char>, Doc)>::empty();
    let one = none.push(("model"@, Doc::Text(model)));
    let two = one.push(("state"@, state));
    json_laws::lemma_member_behind(none, "model"@, Doc::Text(model));
    json_laws::lemma_member_behind(one, "state"@, state);
    json_laws::lemma_member_behind(two, "questions"@, asked);
    lemma_three(
        json::quoted("model"@),
        json::quoted(model),
        json::quoted("state"@),
        json_laws::written(state),
        json::quoted("questions"@),
        json_laws::written(asked),
    );
    assert(two.push(("questions"@, asked)) =~= seq![
        ("model"@, Doc::Text(model)),
        ("state"@, state),
        ("questions"@, asked),
    ]);
}

proof fn lemma_three(
    a: Seq<char>,
    x: Seq<char>,
    b: Seq<char>,
    y: Seq<char>,
    c: Seq<char>,
    z: Seq<char>,
)
    ensures
        (seq!['{'] + (a + seq![':'])) + x + (seq![','] + (b + seq![':'])) + y + (seq![','] + (c
            + seq![':'])) + z + seq!['}'] == seq!['{'] + ((((Seq::<char>::empty() + a + seq![':']
            + x) + seq![',']) + b + seq![':'] + y) + seq![','] + c + seq![':'] + z) + seq!['}'],
{
    let first = Seq::<char>::empty() + a + seq![':'] + x;
    let second = seq![','] + (b + seq![':']) + y;
    let third = seq![','] + (c + seq![':']) + z;
    assert((seq!['{'] + (a + seq![':'])) + x =~= seq!['{'] + first);
    assert((seq!['{'] + first) + (seq![','] + (b + seq![':'])) + y =~= seq!['{'] + (first
        + second));
    assert((seq!['{'] + (first + second)) + (seq![','] + (c + seq![':'])) + z =~= seq!['{'] + (first
        + second + third));
    assert((first + seq![',']) + b + seq![':'] + y =~= first + second);
    assert((first + second) + seq![','] + c + seq![':'] + z =~= first + second + third);
}

// ---- options -------------------------------------------------------------------------------

/// A choice has exactly the options that are given, each with the description given last.
pub proof fn options_keep_what_is_given_last(
    options: Seq<(String, Option<serde_json::Value>)>,
    i: int,
)
    requires
        0 <= i < options.len(),
        forall|j: int| i < j < options.len() ==> (#[trigger] options[j]).0@ != options[i].0@,
    ensures
        systemone::options_map(options).dom().contains(options[i].0@),
        systemone::options_map(options)[options[i].0@] == options[i].1,
{
    let all = options.map_values(|o: (String, Option<serde_json::Value>)| (o.0@, o.1));
    assert forall|j: int| i < j < all.len() implies (#[trigger] all[j]).0 != all[i].0 by {
        assert(options[j].0@ != options[i].0@);
    }
    lemma_last_wins(all, i);
}

/// A choice has no option that is not given.
pub proof fn options_are_given(
    options: Seq<(String, Option<serde_json::Value>)>,
    name: Seq<char>,
) -> (i: int)
    requires
        systemone::options_map(options).dom().contains(name),
    ensures
        0 <= i < options.len(),
        options[i].0@ == name,
{
    let all = options.map_values(|o: (String, Option<serde_json::Value>)| (o.0@, o.1));
    lemma_given(all, name)
}

proof fn lemma_last_wins<V>(entries: Seq<(Seq<char>, V)>, i: int)
    requires
        0 <= i < entries.len(),
        forall|j: int| i < j < entries.len() ==> (#[trigger] entries[j]).0 != entries[i].0,
    ensures
        text_map::to_map(entries).dom().contains(entries[i].0),
        text_map::to_map(entries)[entries[i].0] == entries[i].1,
    decreases entries.len(),
{
    if i < entries.len() - 1 {
        let rest = entries.drop_last();
        assert(entries[entries.len() - 1].0 != entries[i].0);
        assert forall|j: int| i < j < rest.len() implies (#[trigger] rest[j]).0 != rest[i].0 by {
            assert(entries[j].0 != entries[i].0);
        }
        lemma_last_wins(rest, i);
    }
}

proof fn lemma_given<V>(entries: Seq<(Seq<char>, V)>, name: Seq<char>) -> (i: int)
    requires
        text_map::to_map(entries).dom().contains(name),
    ensures
        0 <= i < entries.len(),
        entries[i].0 == name,
    decreases entries.len(),
{
    if entries.len() == 0 {
        0
    } else if entries.last().0 == name {
        entries.len() - 1
    } else {
        lemma_given(entries.drop_last(), name)
    }
}

// ---- answers -------------------------------------------------------------------------------

/// The answers are what the envelope calls so, or the one element of a list; there are none in
/// anything else.
pub proof fn answers_are_found_in_the_envelope(members: Map<Seq<char>, Json>, list: Seq<Json>, other: Json)
    requires
        other !is Object,
        other !is Array,
    ensures
        members.dom().contains("answers"@) ==> systemone::answers_in(Json::Object(members)) == Some(
            members["answers"@],
        ),
        !members.dom().contains("answers"@) ==> systemone::answers_in(Json::Object(members)) is None,
        list.len() == 1 ==> systemone::answers_in(Json::Array(list)) == Some(list[0]),
        list.len() != 1 ==> systemone::answers_in(Json::Array(list)) is None,
        systemone::answers_in(other) is None,
{
}

/// A request that came to nothing is an error that tells the cause; so is a body that holds no
/// answers. Else the answers are those of the body.
pub proof fn replies_are_read_whole(cause: String, body: String, envelope: Json, answers: Json)
    ensures
        systemone::answers_of(Reply::TimedOut(cause)) == Err::<Json, Seq<char>>(
            "systemone call timed out: "@ + cause@,
        ),
        systemone::answers_of(Reply::Failed(cause)) == Err::<Json, Seq<char>>(
            "systemone transport failed: "@ + cause@,
        ),
        ({
            let parsed = json::parsed(vstd::utf8::encode_utf8(body@));
            let came = systemone::answers_of(Reply::Body(body));
            &&& parsed matches Err(why) ==> came == Err::<Json, Seq<char>>(
                "parse systemone response envelope: "@ + body@ + ": "@ + why,
            )
            &&& parsed == Ok::<Json, Seq<char>>(envelope) && systemone::answers_in(envelope) == Some(
                answers,
            ) ==> came == Ok::<Json, Seq<char>>(answers)
            &&& parsed == Ok::<Json, Seq<char>>(envelope) && systemone::answers_in(envelope) is None
                ==> came is Err && ("parse systemone response envelope: "@
                + body@).is_prefix_of(came->Err_0)
        }),
{
}

// ---- numbers -------------------------------------------------------------------------------

/// Numbers are ranked by size: negative ones below the others and the larger the smaller their size,
/// the others the larger the larger.
pub proof fn ranks_go_by_size(a: F32, b: F32)
    ensures
        a.bits < 0x8000_0000 && b.bits < 0x8000_0000 ==> (a.rank() < b.rank() <==> a.bits < b.bits),
        a.bits >= 0x8000_0000 && b.bits >= 0x8000_0000 ==> (a.rank() < b.rank() <==> a.bits > b.bits),
        a.bits >= 0x8000_0000 && b.bits < 0x8000_0000 ==> a.rank() < b.rank(),
        a.rank() == b.rank() <==> a.bits == b.bits,
{
}

/// A number is above zero if it is not zero, its sign is not set, and it is a number: its exponent is
/// not all ones, or its fraction is zero.
pub proof fn numbers_above_zero(a: F32)
    ensures
        a.positive() <==> a.bits != 0 && a.bits / 0x8000_0000 == 0 && (a.bits / 0x80_0000 % 0x100
            == 0xff ==> a.bits % 0x80_0000 == 0),
{
}

/// No level is more probable than the most probable one, of probabilities that are not negative; and
/// of equally probable ones it is the highest.
pub proof fn the_most_probable_level_is_the_largest(m: Map<u8, F32>, level: u8, k: u8)
    requires
        answers::most_probable(m, level),
        m.dom().contains(k),
        m[k].bits < 0x8000_0000,
        m[level].bits < 0x8000_0000,
    ensures
        m.dom().contains(level),
        m[k].bits <= m[level].bits,
        m[k].bits == m[level].bits ==> k <= level,
{
}

/// The largest of the levels is the most probable one.
pub proof fn the_largest_level_is_the_most_probable(m: Map<u8, F32>, level: u8)
    requires
        m.dom().contains(level),
        forall|k: u8| #[trigger]
            m.dom().contains(k) ==> m[k].bits < 0x8000_0000 && (m[k].bits < m[level].bits || (
            m[k].bits == m[level].bits && k <= level)),
    ensures
        answers::most_probable(m, level),
{
}

/// The levels are listed in ascending order, each with its probability, and all of them.
pub proof fn levels_are_listed_in_order(m: Map<u8, F32>, n: int)
    requires
        0 <= n <= 256,
    ensures
        ({
            let list = answers::listed(m, n);
            &&& forall|i: int, j: int|
                0 <= i < j < list.len() ==> (#[trigger] list[i]).0 < (#[trigger] list[j]).0
            &&& forall|i: int|
                0 <= i < list.len() ==> (#[trigger] list[i]).0 < n && m.dom().contains(list[i].0)
                    && m[list[i].0] == list[i].1
            &&& forall|k: u8|
                k < n && #[trigger] m.dom().contains(k) ==> list.contains((k, m[k]))
        }),
    decreases n,
{
    if n > 0 {
        levels_are_listed_in_order(m, n - 1);
        let list = answers::listed(m, n);
        let before = answers::listed(m, n - 1);
        assert forall|k: u8| k < n && #[trigger] m.dom().contains(k) implies list.contains(
            (k, m[k]),
        ) by {
            if k < n - 1 {
                let i = choose|i: int| 0 <= i < before.len() && before[i] == (k, m[k]);
                assert(list[i] == before[i]);
            } else {
                assert(list[list.len() - 1] == (k, m[k]));
            }
        }
    }
}

// ---- states --------------------------------------------------------------------------------

/// The plain state holds the whole text, a blank line and the whole context, in this order.
pub proof fn plain_states_hold_all_they_are_given(given: &str, context: &str, state: String)
    requires
        call_ensures(systemone::plain_state, (given, context), state),
    ensures
        state@.len() == given@.len() + 2 + context@.len(),
        state@.subrange(0, given@.len() as int) == given@,
        state@[given@.len() as int] == '\n',
        state@[given@.len() as int + 1] == '\n',
        state@.skip(given@.len() as int + 2) == context@,
{
    reveal_strlit("\n\n");
    assert(state@.subrange(0, given@.len() as int) =~= given@);
    assert(state@.skip(given@.len() as int + 2) =~= context@);
}

/// Requests go to the `v1/systemone` path behind the base URL.
pub proof fn requests_go_to_the_systemone_path(client: &SharedSystemOne, url: String)
    requires
        call_ensures(SharedSystemOne::url, (client,), url),
    ensures
        client@.base_url.is_prefix_of(url@),
        url@.skip(client@.base_url.len() as int) == "/v1/systemone"@,
{
    assert(url@.skip(client@.base_url.len() as int) =~= "/v1/systemone"@);
}

/// The body of an answer is handed on as it is where the answer is a success; else the error tells the
/// status and the whole body.
pub proof fn answers_are_handed_on_or_told(
    success: bool,
    status: &str,
    body: String,
    r: Result<String, Error>,
)
    requires
        call_ensures(systemone::check_status, (success, status, body), r),
    ensures
        success ==> r is Ok && r->Ok_0@ == body@,
        !success ==> r is Err && r->Err_0@ == "systemone returned HTTP "@ + status@ + ": "@ + body@,
{
}

/// The level that is picked is the most probable one, and the highest of those, where probabilities are
/// not negative; none is picked where there are none.
pub proof fn the_largest_level_is_picked(score: &Score, r: Option<u8>, k: u8)
    requires
        call_ensures(Score::argmax_level, (score,), r),
        forall|l: u8| #[trigger]
            score.probabilities@.dom().contains(l) ==> score.probabilities@[l].bits < 0x8000_0000,
        score.probabilities@.dom().contains(k),
    ensures
        r matches Some(level) && score.probabilities@.dom().contains(level)
            && score.probabilities@[k].bits <= score.probabilities@[level].bits && (
        score.probabilities@[k].bits == score.probabilities@[level].bits ==> k <= level),
{
    assert(score.probabilities@.dom().contains(k));
}

/// A request that is built is an object with the model, the state as it is given, a value as a value and
/// a text as a text, and every question under its id.
pub proof fn built_requests_are_written_whole(
    client: &SharedSystemOne,
    value: &serde_json::Value,
    rendered: &str,
    questions: &QuestionMap,
    by_value: String,
    by_text: String,
)
    requires
        call_ensures(SharedSystemOne::request_body, (client, value, questions), by_value),
        call_ensures(SharedSystemOne::text_request_body, (client, rendered, questions), by_text),
    ensures
        by_value@ == json_laws::written(
            Doc::Object(
                seq![
                    ("model"@, Doc::Text(client@.model)),
                    ("state"@, Doc::Value(*value)),
                    ("questions"@, Doc::Object(question_docs(questions.listed()))),
                ],
            ),
        ),
        by_text@ == json_laws::written(
            Doc::Object(
                seq![
                    ("model"@, Doc::Text(client@.model)),
                    ("state"@, Doc::Text(rendered@)),
                    ("questions"@, Doc::Object(question_docs(questions.listed()))),
                ],
            ),
        ),
{
    requests_are_written_whole(client@.model, Doc::Value(*value), questions.listed());
    requests_are_written_whole(client@.model, Doc::Text(rendered@), questions.listed());
}

} // verus!
